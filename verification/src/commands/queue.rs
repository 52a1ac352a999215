//! `ensure-queue`: the decisions on the way to a CUPS queue that exists, points at this daemon, and
//! shows the labels for kids.

use vstd::prelude::*;

use crate::commands::ppd::{apply_kid_labels, has_labels, kid_labelled, ppd_has_kid_labels};
use crate::config::EnsureQueueArgs;
use crate::text::{
    after_prefix, byte_len, chars_of, contains, dec, has_prefix, has_text, is_text, lines,
    lines_of, lower, lower_chars, only, owned, push_dec, replace, replace_text, same, starts_with,
    string_of, strip_prefix, texts, trim, trim_chars, trim_end_of, trim_right,
};
use vstd::slice::slice_subrange;

verus! {

/// Printable ASCII, but for `/`, `#` and `?`.
pub open spec fn is_queue_char(c: char) -> bool {
    '!' <= c && c <= '~' && c != '/' && c != '#' && c != '?'
}

/// The name can be one of a CUPS queue: 1 to 127 printable characters without `/`, `#` and `?`, and not
/// beginning with a dash, which would be read as an option.
pub open spec fn is_queue_name(q: Seq<char>) -> bool {
    &&& 1 <= q.len() <= 127
    &&& q[0] != '-'
    &&& forall|i: int| 0 <= i < q.len() ==> is_queue_char(#[trigger] q[i])
}

/// Whether the name can be one of a CUPS queue.
pub fn valid_queue_name(q: &str) -> (r: bool)
    ensures
        r == is_queue_name(q@),
{
    let cs = chars_of(q);
    if cs.len() == 0 || cs.len() > 127 || cs[0] == '-' {
        return false;
    }
    let mut i: usize = 0;
    while i < cs.len()
        invariant
            i <= cs.len(),
            cs@ == q@,
            forall|k: int| 0 <= k < i ==> is_queue_char(#[trigger] cs@[k]),
        decreases cs.len() - i,
    {
        let c = cs[i];
        if !('!' <= c && c <= '~' && c != '/' && c != '#' && c != '?') {
            assert(!is_queue_char(cs@[i as int]));
            return false;
        }
        i += 1;
    }
    true
}

/// A URI as it is compared: without outer white space and trailing slashes, in small letters, with
/// `localhost` as its address.
pub open spec fn target_of(s: Seq<char>) -> Seq<char> {
    replace(lower(trim_right(trim(s), only('/'))), "localhost"@, "127.0.0.1"@)
}

/// The URIs are of the same printer.
pub open spec fn same_target(a: Seq<char>, b: Seq<char>) -> bool {
    target_of(a).len() > 0 && target_of(a) == target_of(b)
}

fn target(s: &[char]) -> (r: Vec<char>)
    ensures
        r@ == target_of(s@),
{
    proof {
        reveal_strlit("localhost");
    }
    let low = lower_chars(trim_end_of(trim_chars(s), '/'));
    replace_text(low.as_slice(), "localhost", "127.0.0.1")
}

/// Whether the URIs are of the same printer.
pub fn same_ipp_target(a: &str, b: &str) -> (r: bool)
    ensures
        r == same_target(a@, b@),
{
    let x = target(chars_of(a).as_slice());
    let y = target(chars_of(b).as_slice());
    x.len() > 0 && same(x.as_slice(), y.as_slice())
}

/// The URI of the daemon on this host.
pub open spec fn daemon_uri(port: u16) -> Seq<char> {
    "ipp://127.0.0.1:"@ + dec(port as nat) + "/ipp/print"@
}

/// The URI of the daemon on this host.
pub fn local_uri(port: u16) -> (r: String)
    ensures
        r@ == daemon_uri(port),
{
    let mut r = owned("ipp://127.0.0.1:");
    push_dec(&mut r, port as u64);
    r.push_str("/ipp/print");
    r
}

// ------------------------------------------------------------------ beginning

/// How the command begins.
#[derive(Debug, Clone, Copy, PartialEq, Eq, Structural)]
pub enum QueueStart {
    BadName,
    BadLocation,
    /// Remove the queue.
    Remove,
    /// Wait for cupsd and the daemon, then look at the queue.
    Ensure,
}

/// How the command begins. What could be read as an option is refused.
pub fn begin(a: &EnsureQueueArgs) -> (r: QueueStart)
    ensures
        r == if !is_queue_name(a.queue@) {
            QueueStart::BadName
        } else if a.location@.len() > 0 && a.location@[0] == '-' {
            QueueStart::BadLocation
        } else if a.remove {
            QueueStart::Remove
        } else {
            QueueStart::Ensure
        },
{
    if !valid_queue_name(a.queue.as_str()) {
        return QueueStart::BadName;
    }
    let l = chars_of(a.location.as_str());
    if l.len() > 0 && l[0] == '-' {
        return QueueStart::BadLocation;
    }
    if a.remove {
        QueueStart::Remove
    } else {
        QueueStart::Ensure
    }
}

/// Whether the queue is gone, by what `lpadmin -x` did and printed.
pub fn is_removed(ok: bool, out: &str) -> (r: bool)
    ensures
        r == (ok || contains(out@, "does not exist"@) || contains(out@, "not found"@)),
{
    let cs = chars_of(out);
    ok || has_text(cs.as_slice(), "does not exist") || has_text(cs.as_slice(), "not found")
}

/// Whether cupsd is running, by what `lpstat -r` did and printed.
pub fn cups_runs(ok: bool, out: &str) -> (r: bool)
    ensures
        r == (ok && contains(out@, "is running"@)),
{
    ok && has_text(chars_of(out).as_slice(), "is running")
}

/// Whether the daemon answers, by the answer to a request for its health page.
pub fn daemon_answers(answer: &str) -> (r: bool)
    ensures
        r == (starts_with(answer@, "HTTP/1.1 200"@) && contains(answer@, "\"version\""@)),
{
    let cs = chars_of(answer);
    has_prefix(cs.as_slice(), "HTTP/1.1 200") && has_text(cs.as_slice(), "\"version\"")
}

/// The time that is waited for CUPS and the daemon together: at least a second.
pub fn wait_limit_ms(wait_s: u64) -> (r: u64)
    ensures
        r == if wait_s < 1 {
            1000
        } else if 1000 * wait_s > u64::MAX {
            u64::MAX as int
        } else {
            1000 * wait_s
        },
{
    if wait_s < 1 {
        1000
    } else if wait_s > u64::MAX / 1000 {
        u64::MAX
    } else {
        1000 * wait_s
    }
}

/// How a wait goes on.
#[derive(Debug, Clone, Copy, PartialEq, Eq, Structural)]
pub enum QueueWait {
    Done,
    GiveUp,
    /// Pause, then look again.
    Again { pause_ms: u64 },
}

/// The pause between two looks.
pub const LOOK_AGAIN_MS: u64 = 2000;

/// How a wait goes on.
pub fn wait_for(seen: bool, now_ms: u64, deadline_ms: u64) -> (r: QueueWait)
    ensures
        r == if seen {
            QueueWait::Done
        } else if now_ms > deadline_ms {
            QueueWait::GiveUp
        } else {
            QueueWait::Again { pause_ms: LOOK_AGAIN_MS }
        },
{
    if seen {
        QueueWait::Done
    } else if now_ms > deadline_ms {
        QueueWait::GiveUp
    } else {
        QueueWait::Again { pause_ms: LOOK_AGAIN_MS }
    }
}

// ------------------------------------------------------------------ the queue as it is

/// What stands before and after the first `: `.
pub open spec fn split_colon(s: Seq<char>, i: int) -> Option<(Seq<char>, Seq<char>)>
    decreases s.len() - i,
{
    if i < 0 || i + 1 >= s.len() {
        None
    } else if s[i] == ':' && s[i + 1] == ' ' {
        Some((s.take(i), s.skip(i + 2)))
    } else {
        split_colon(s, i + 1)
    }
}

fn cut_colon<'a>(s: &'a [char]) -> (r: Option<(&'a [char], &'a [char])>)
    ensures
        match r {
            Some((a, b)) => split_colon(s@, 0) == Some((a@, b@)),
            None => split_colon(s@, 0) is None,
        },
{
    let mut i: usize = 0;
    while s.len() >= 2 && i < s.len() - 1
        invariant
            i <= s.len(),
            split_colon(s@, 0) == split_colon(s@, i as int),
        decreases s.len() - i,
    {
        if s[i] == ':' && s[i + 1] == ' ' {
            let a = slice_subrange(s, 0, i);
            let b = slice_subrange(s, i + 2, s.len());
            assert(a@ =~= s@.take(i as int));
            assert(b@ =~= s@.skip(i as int + 2));
            return Some((a, b));
        }
        i += 1;
    }
    None
}

/// The device of a queue, in the lines that `lpstat -v` printed of it.
pub open spec fn device_line(l: Seq<Seq<char>>) -> Option<Seq<char>>
    decreases l.len(),
{
    if l.len() == 0 {
        None
    } else {
        match split_colon(l[0], 0) {
            Some((_, d)) => if starts_with(l[0], "device for "@) {
                Some(trim(d))
            } else {
                device_line(l.skip(1))
            },
            None => device_line(l.skip(1)),
        }
    }
}

/// The view of an optional text.
pub open spec fn opt_view(t: Option<String>) -> Option<Seq<char>> {
    match t {
        Some(t) => Some(t@),
        None => None,
    }
}

/// The device that the queue points at, by what `lpstat -v` printed of it.
pub fn current_device(lpstat_v: &str) -> (r: Option<String>)
    ensures
        opt_view(r) == device_line(lines(lpstat_v@)),
{
    let cs = chars_of(lpstat_v);
    let ls = lines_of(cs.as_slice());
    let ghost v = lines(lpstat_v@);
    assert(texts(ls@).len() == ls@.len());
    let mut i: usize = 0;
    assert(v.skip(0) =~= v);
    while i < ls.len()
        invariant
            i <= ls.len(),
            v == texts(ls@),
            v == lines(lpstat_v@),
            device_line(v) == device_line(v.skip(i as int)),
        decreases ls.len() - i,
    {
        assert(v.skip(i as int)[0] == ls@[i as int]@);
        assert(v.skip(i as int).skip(1) =~= v.skip(i as int + 1));
        let line = ls[i].as_slice();
        if has_prefix(line, "device for ") {
            if let Some((_, d)) = cut_colon(line) {
                return Some(string_of(trim_chars(d)));
            }
        }
        i += 1;
    }
    None
}

/// What is noted of a queue that was made, so that the next run can leave it alone.
pub open spec fn stamp_of(uri: Seq<char>, location: Seq<char>) -> Seq<char> {
    crate::VERSION@ + "|"@ + uri + "|"@ + location + "|labels"@
}

/// What is noted of a queue that was made.
pub fn stamp(uri: &str, location: &str) -> (r: String)
    ensures
        r@ == stamp_of(uri@, location@),
{
    let mut r = owned(crate::VERSION);
    r.push_str("|");
    r.push_str(uri);
    r.push_str("|");
    r.push_str(location);
    r.push_str("|labels");
    r
}

/// The queue as it is found.
#[derive(Debug)]
pub struct QueueFound {
    /// What `lpstat -v` printed of the queue.
    pub lpstat_v: String,
    /// Its PPD; empty where there is none.
    pub ppd: String,
    /// What was noted of it.
    pub stamp: Option<String>,
}

/// What is to be done with the queue.
#[derive(Debug)]
pub enum QueuePlan {
    /// Nothing but to enable it. Making it anew at every boot would write the PPD again and undo the
    /// defaults that an administrator set.
    Keep,
    /// It points elsewhere.
    Repoint { device: String },
    /// The PPD or the version changed.
    Refresh,
    Create,
}

/// The queue is as it should be.
pub open spec fn is_right(f: QueueFound, uri: Seq<char>, location: Seq<char>) -> bool {
    let dev = device_line(lines(f.lpstat_v@));
    &&& dev is Some && same_target(dev->0, uri)
    &&& has_labels(f.ppd@)
    &&& f.stamp is Some && trim((f.stamp->0)@) == stamp_of(uri, location)
}

/// `p` is what is to be done with the queue.
pub open spec fn is_plan(p: QueuePlan, f: QueueFound, uri: Seq<char>, location: Seq<char>) -> bool {
    let dev = device_line(lines(f.lpstat_v@));
    if is_right(f, uri, location) {
        p is Keep
    } else {
        match dev {
            Some(d) => if d != uri {
                p matches QueuePlan::Repoint { device } && device@ == d
            } else {
                p is Refresh
            },
            None => p is Create,
        }
    }
}

/// What is to be done with the queue.
pub fn plan(f: &QueueFound, uri: &str, location: &str) -> (r: QueuePlan)
    ensures
        is_plan(r, *f, uri@, location@),
{
    let want = stamp(uri, location);
    let stamp_ok = match &f.stamp {
        Some(s) => {
            let cs = chars_of(s.as_str());
            is_text(trim_chars(cs.as_slice()), want.as_str())
        },
        None => false,
    };
    let ppd_ok = ppd_has_kid_labels(f.ppd.as_str());
    match current_device(f.lpstat_v.as_str()) {
        Some(d) => {
            if same_ipp_target(d.as_str(), uri) && ppd_ok && stamp_ok {
                QueuePlan::Keep
            } else if !crate::text::same_str(d.as_str(), uri) {
                QueuePlan::Repoint { device: d }
            } else {
                QueuePlan::Refresh
            }
        },
        None => QueuePlan::Create,
    }
}

// ------------------------------------------------------------------ making it

/// Whether what `driverless` printed is a PPD that can be used. It already has the printer's labels.
pub fn driverless_usable(ok: bool, out: &str) -> (r: bool)
    ensures
        r == (ok && contains(out@, "*PPD-Adobe"@) && contains(out@, "*PageSize"@)),
{
    let cs = chars_of(out);
    ok && has_text(cs.as_slice(), "*PPD-Adobe") && has_text(cs.as_slice(), "*PageSize")
}

/// The PPD to install: from `driverless`, or from the one that CUPS made, which gets its labels first.
pub fn install_ppd(driverless: Option<&str>, made: &str) -> (r: Option<String>)
    ensures
        match driverless {
            Some(p) => r matches Some(t) && t@ == kid_labelled(p@),
            None => if made@.len() == 0 {
                r is None
            } else {
                r matches Some(t) && t@ == kid_labelled(kid_labelled(made@))
            },
        },
{
    match driverless {
        Some(p) => Some(apply_kid_labels(p)),
        None => {
            if made.is_empty() {
                return None;
            }
            let once = apply_kid_labels(made);
            Some(apply_kid_labels(once.as_str()))
        },
    }
}

/// The arguments of `lpadmin` that make a queue, before those that choose its PPD.
pub open spec fn admin_args(queue: Seq<char>, uri: Seq<char>, location: Seq<char>) -> Seq<Seq<char>> {
    seq![
        "-p"@,
        queue,
        "-E"@,
        "-v"@,
        uri,
        "-D"@,
        "Cat Printer"@,
        "-L"@,
        location,
        "-o"@,
        "printer-error-policy=retry-job"@,
        "-o"@,
        "printer-is-shared=false"@,
        "-u"@,
        "allow:all"@,
    ]
}

/// The views of a list of strings.
pub open spec fn views(v: Seq<String>) -> Seq<Seq<char>> {
    Seq::new(v.len(), |i: int| v[i]@)
}

/// The arguments of `lpadmin` that make a queue, before those that choose its PPD.
pub fn lpadmin_args(queue: &str, uri: &str, location: &str) -> (r: Vec<String>)
    ensures
        views(r@) == admin_args(queue@, uri@, location@),
{
    let mut r: Vec<String> = Vec::new();
    r.push(owned("-p"));
    r.push(owned(queue));
    r.push(owned("-E"));
    r.push(owned("-v"));
    r.push(owned(uri));
    r.push(owned("-D"));
    r.push(owned("Cat Printer"));
    r.push(owned("-L"));
    r.push(owned(location));
    r.push(owned("-o"));
    r.push(owned("printer-error-policy=retry-job"));
    r.push(owned("-o"));
    r.push(owned("printer-is-shared=false"));
    r.push(owned("-u"));
    r.push(owned("allow:all"));
    assert(views(r@) =~= admin_args(queue@, uri@, location@));
    r
}

/// How often `lpadmin` is tried.
pub const LPADMIN_TRIES: u8 = 3;

/// The pause after a try that failed.
pub const LPADMIN_PAUSE_MS: u64 = 2000;

/// How an installation goes on.
#[derive(Debug, Clone, Copy, PartialEq, Eq, Structural)]
pub enum InstallStep {
    Done,
    /// Pause, then try again.
    Again { pause_ms: u64 },
    /// Pause, then say that it failed.
    GiveUp { pause_ms: u64 },
}

/// How an installation goes on after try `attempt` (the first is 1).
pub fn install_step(attempt: u8, ok: bool) -> (r: InstallStep)
    ensures
        r == if ok {
            InstallStep::Done
        } else if attempt < LPADMIN_TRIES {
            InstallStep::Again { pause_ms: LPADMIN_PAUSE_MS }
        } else {
            InstallStep::GiveUp { pause_ms: LPADMIN_PAUSE_MS }
        },
{
    if ok {
        InstallStep::Done
    } else if attempt < LPADMIN_TRIES {
        InstallStep::Again { pause_ms: LPADMIN_PAUSE_MS }
    } else {
        InstallStep::GiveUp { pause_ms: LPADMIN_PAUSE_MS }
    }
}

/// What the installed PPD is like.
#[derive(Debug, Clone, Copy, PartialEq, Eq, Structural)]
pub enum PpdVerdict {
    Labelled,
    /// It has the tape, but not the labels.
    Unlabelled,
    /// It could not be read.
    Unreadable,
    /// It does not have the tape.
    NoTape,
}

/// What the installed PPD is like.
pub fn ppd_verdict(ppd: &str) -> (r: PpdVerdict)
    ensures
        r == if has_labels(ppd@) {
            PpdVerdict::Labelled
        } else if contains(ppd@, "*PageSize 48x297mm"@) {
            PpdVerdict::Unlabelled
        } else if ppd@.len() == 0 {
            PpdVerdict::Unreadable
        } else {
            PpdVerdict::NoTape
        },
{
    if ppd_has_kid_labels(ppd) {
        return PpdVerdict::Labelled;
    }
    if has_text(chars_of(ppd).as_slice(), "*PageSize 48x297mm") {
        return PpdVerdict::Unlabelled;
    }
    if ppd.is_empty() {
        PpdVerdict::Unreadable
    } else {
        PpdVerdict::NoTape
    }
}

/// Whether the queue is the default for the whole system, where homework would land on tape.
pub fn is_system_default(lpstat_d: &str, queue: &str) -> (r: bool)
    ensures
        r == contains(lpstat_d@, "destination: "@ + queue@),
{
    let mut t = owned("destination: ");
    t.push_str(queue);
    has_text(chars_of(lpstat_d).as_slice(), t.as_str())
}

// ------------------------------------------------------------------ duplicates

/// The other queue of a line that points at the same printer.
pub open spec fn duplicate_in(line: Seq<char>, keep: Seq<char>, uri: Seq<char>) -> Option<Seq<char>> {
    let rest = match after_prefix(line, "device for "@) {
        Some(r) => r,
        None => Seq::empty(),
    };
    match split_colon(rest, 0) {
        Some((name, dev)) => if name != keep && same_target(trim(dev), uri) {
            Some(name)
        } else {
            None
        },
        None => None,
    }
}

/// The other queues that point at the same printer, in order.
pub open spec fn duplicates_in(l: Seq<Seq<char>>, keep: Seq<char>, uri: Seq<char>) -> Seq<Seq<char>>
    decreases l.len(),
{
    if l.len() == 0 {
        Seq::empty()
    } else {
        match duplicate_in(l.last(), keep, uri) {
            Some(n) => duplicates_in(l.drop_last(), keep, uri).push(n),
            None => duplicates_in(l.drop_last(), keep, uri),
        }
    }
}

fn find_duplicate(line: &[char], keep: &str, uri: &str) -> (r: Option<String>)
    ensures
        opt_view(r) == duplicate_in(line@, keep@, uri@),
{
    match strip_prefix(line, "device for ") {
        Some(rest) => match cut_colon(rest) {
            Some((name, dev)) => {
                let d = string_of(trim_chars(dev));
                if !is_text(name, keep) && same_ipp_target(d.as_str(), uri) {
                    Some(string_of(name))
                } else {
                    None
                }
            },
            None => None,
        },
        None => {
            assert(split_colon(Seq::<char>::empty(), 0) is None);
            None
        },
    }
}

/// The queues that desktops added for the same printer, which are to be removed, by what `lpstat -v`
/// printed.
pub fn duplicate_queues(lpstat_v: &str, keep: &str, uri: &str) -> (r: Vec<String>)
    ensures
        views(r@) == duplicates_in(lines(lpstat_v@), keep@, uri@),
{
    let cs = chars_of(lpstat_v);
    let ls = lines_of(cs.as_slice());
    let ghost v = lines(lpstat_v@);
    assert(texts(ls@).len() == ls@.len());
    let mut out: Vec<String> = Vec::new();
    let mut i: usize = 0;
    assert(views(out@) =~= duplicates_in(v.take(0), keep@, uri@));
    while i < ls.len()
        invariant
            i <= ls.len(),
            v == texts(ls@),
            views(out@) == duplicates_in(v.take(i as int), keep@, uri@),
        decreases ls.len() - i,
    {
        let ghost was = out@;
        assert(v.take(i as int + 1).drop_last() =~= v.take(i as int));
        assert(v.take(i as int + 1).last() == ls@[i as int]@);
        if let Some(n) = find_duplicate(ls[i].as_slice(), keep, uri) {
            out.push(n);
            assert(views(out@) =~= views(was).push(n@));
        }
        i += 1;
    }
    assert(v.take(v.len() as int) =~= v);
    out
}

// ------------------------------------------------------------------ laws

/// A queue that is kept is never among the duplicates that are removed.
pub proof fn lemma_kept_queue_stays(l: Seq<Seq<char>>, keep: Seq<char>, uri: Seq<char>)
    ensures
        !duplicates_in(l, keep, uri).contains(keep),
    decreases l.len(),
{
    if l.len() > 0 {
        lemma_kept_queue_stays(l.drop_last(), keep, uri);
        let d = duplicates_in(l, keep, uri);
        let rest = duplicates_in(l.drop_last(), keep, uri);
        assert forall|i: int| 0 <= i < d.len() implies d[i] != keep by {
            if i < rest.len() {
                assert(d[i] == rest[i]);
                assert(rest.contains(rest[i]));
            }
        }
    }
}

/// A name of a queue is never read as an option, and no part of a path.
pub proof fn lemma_queue_name_is_plain(q: Seq<char>)
    requires
        is_queue_name(q),
    ensures
        q[0] != '-',
        !q.contains('/'),
        !q.contains(' '),
        byte_len(q) <= 127,
{
    assert forall|i: int| 0 <= i < q.len() implies q[i] != '/' && q[i] != ' ' by {
        assert(is_queue_char(q[i]));
    }
    lemma_ascii_len(q);
}

proof fn lemma_ascii_len(q: Seq<char>)
    requires
        forall|i: int| 0 <= i < q.len() ==> is_queue_char(#[trigger] q[i]),
    ensures
        byte_len(q) == q.len(),
    decreases q.len(),
{
    if q.len() > 0 {
        assert forall|i: int| 0 <= i < q.drop_last().len() implies is_queue_char(
            #[trigger] q.drop_last()[i],
        ) by {
            assert(q.drop_last()[i] == q[i]);
        }
        lemma_ascii_len(q.drop_last());
        assert(is_queue_char(q[q.len() - 1]));
    }
}

} // verus!
