//! What is done with queues, and which of them are taken for one another.

use vstd::prelude::*;

use crate::commands::queue::{
    admin_args, daemon_uri, device_line, duplicate_in, duplicates_in, is_plan, split_colon, target_of, same_target, QueueFound, QueuePlan,
};
use crate::commands::ppd::has_labels;
use crate::text::{
    dec, is_space, lemma_dec_reads_back, lines, only, starts_with, trim, trim_left, trim_right,
};

verus! {

/// Whether URIs are of one printer does not depend on which is named first, and goes from one to the next.
pub proof fn lemma_targets(a: Seq<char>, b: Seq<char>, c: Seq<char>)
    requires
        same_target(a, b),
    ensures
        same_target(b, a),
        same_target(a, a),
        same_target(b, c) ==> same_target(a, c),
{
}

/// A queue is left alone only where it points at this printer, has its labels, and was made by this version for
/// this address and place.
pub proof fn lemma_plans(p: QueuePlan, f: QueueFound, uri: Seq<char>, location: Seq<char>)
    requires
        is_plan(p, f, uri, location),
    ensures
        p is Keep ==> device_line(lines(f.lpstat_v@)) is Some && same_target(
            device_line(lines(f.lpstat_v@))->0,
            uri,
        ) && has_labels(f.ppd@) && f.stamp is Some && trim((f.stamp->0)@) == crate::VERSION@ + "|"@ + uri + "|"@
            + location + "|labels"@,
        p is Create <==> device_line(lines(f.lpstat_v@)) is None,
        p is Refresh ==> device_line(lines(f.lpstat_v@)) == Some(uri),
        p matches QueuePlan::Repoint { device } ==> device_line(lines(f.lpstat_v@)) == Some(device@) && device@
            != uri,
        f.stamp is None ==> !(p is Keep),
        !has_labels(f.ppd@) ==> !(p is Keep),
{
}

/// A queue is made under its name for its address, enabled, with jobs tried again after an error, shared with
/// nobody and open to every user.
pub proof fn lemma_queue_arguments(queue: Seq<char>, uri: Seq<char>, location: Seq<char>)
    ensures
        ({
            let a = admin_args(queue, uri, location);
            &&& a.len() == 15
            &&& a[0] == "-p"@ && a[1] == queue
            &&& a.contains("-E"@)
            &&& exists|i: int| 0 <= i < 14 && #[trigger] a[i] == "-v"@ && a[i + 1] == uri
            &&& exists|i: int| 0 <= i < 14 && #[trigger] a[i] == "-L"@ && a[i + 1] == location
            &&& exists|i: int|
                0 <= i < 14 && #[trigger] a[i] == "-o"@ && a[i + 1] == "printer-error-policy=retry-job"@
            &&& exists|i: int| 0 <= i < 14 && #[trigger] a[i] == "-o"@ && a[i + 1] == "printer-is-shared=false"@
            &&& exists|i: int| 0 <= i < 14 && #[trigger] a[i] == "-u"@ && a[i + 1] == "allow:all"@
        }),
{
    let a = admin_args(queue, uri, location);
    assert(a[2] == "-E"@);
    assert(a[3] == "-v"@ && a[3int + 1] == uri);
    assert(a[7] == "-L"@ && a[7int + 1] == location);
    assert(a[9] == "-o"@ && a[9int + 1] == "printer-error-policy=retry-job"@);
    assert(a[11] == "-o"@ && a[11int + 1] == "printer-is-shared=false"@);
    assert(a[13] == "-u"@ && a[13int + 1] == "allow:all"@);
}

/// The daemon's address is on this host, and another port is another address.
pub proof fn lemma_daemon_addresses(a: u16, b: u16)
    ensures
        starts_with(daemon_uri(a), "ipp://127.0.0.1:"@),
        daemon_uri(a) == daemon_uri(b) ==> a == b,
{
    let h = "ipp://127.0.0.1:"@;
    let t = "/ipp/print"@;
    let (x, y) = (dec(a as nat), dec(b as nat));
    assert(daemon_uri(a).subrange(0, h.len() as int) =~= h);
    if daemon_uri(a) == daemon_uri(b) {
        let (u, v) = (daemon_uri(a), daemon_uri(b));
        assert(u.len() == h.len() + x.len() + t.len());
        assert(v.len() == h.len() + y.len() + t.len());
        assert(u.subrange(h.len() as int, (h.len() + x.len()) as int) =~= x);
        assert(v.subrange(h.len() as int, (h.len() + y.len()) as int) =~= y);
        lemma_dec_reads_back(a as nat);
        lemma_dec_reads_back(b as nat);
    }
}

/// A queue is removed as a duplicate only where a line says that it points at this printer, and it is not the one
/// that is kept.
pub proof fn lemma_only_duplicates(l: Seq<Seq<char>>, keep: Seq<char>, uri: Seq<char>, k: int)
    requires
        0 <= k < duplicates_in(l, keep, uri).len(),
    ensures
        exists|i: int|
            0 <= i < l.len() && duplicate_in(#[trigger] l[i], keep, uri) == Some(duplicates_in(l, keep, uri)[k]),
        duplicates_in(l, keep, uri)[k] != keep,
    decreases l.len(),
{
    let rest = l.drop_last();
    let some = duplicates_in(rest, keep, uri);
    if k < some.len() {
        lemma_only_duplicates(rest, keep, uri, k);
        let i = choose|i: int| 0 <= i < rest.len() && duplicate_in(#[trigger] rest[i], keep, uri) == Some(some[k]);
        assert(l[i] == rest[i]);
    } else {
        assert(duplicate_in(l[l.len() - 1], keep, uri) == Some(duplicates_in(l, keep, uri)[k]));
    }
}

/// Every other queue of which a line says that it points at this printer is removed.
pub proof fn lemma_all_duplicates(l: Seq<Seq<char>>, keep: Seq<char>, uri: Seq<char>, i: int)
    requires
        0 <= i < l.len(),
        duplicate_in(l[i], keep, uri) is Some,
    ensures
        duplicates_in(l, keep, uri).contains(duplicate_in(l[i], keep, uri)->0),
    decreases l.len(),
{
    let rest = l.drop_last();
    let some = duplicates_in(rest, keep, uri);
    let all = duplicates_in(l, keep, uri);
    if i < rest.len() {
        lemma_all_duplicates(rest, keep, uri, i);
        let k = choose|k: int| 0 <= k < some.len() && some[k] == duplicate_in(l[i], keep, uri)->0;
        assert(all[k] == some[k]);
    } else {
        assert(all[some.len() as int] == duplicate_in(l[i], keep, uri)->0);
    }
}

proof fn lemma_split_colon(s: Seq<char>, i: int, k: int)
    requires
        0 <= i <= k,
        k + 1 < s.len(),
        s[k] == ':' && s[k + 1] == ' ',
        forall|j: int| i <= j < k ==> !(#[trigger] s[j] == ':' && s[j + 1] == ' '),
    ensures
        split_colon(s, i) == Some((s.take(k), s.skip(k + 2))),
    decreases k - i,
{
    if i < k {
        assert(!(s[i] == ':' && s[i + 1] == ' '));
        lemma_split_colon(s, i + 1, k);
    }
}

/// A line that names a queue and its device tells that device.
pub proof fn lemma_told_devices(queue: Seq<char>, uri: Seq<char>, rest: Seq<Seq<char>>)
    requires
        forall|i: int| 0 <= i < queue.len() ==> #[trigger] queue[i] != ':',
    ensures
        device_line(seq!["device for "@ + queue + ": "@ + uri] + rest) == Some(trim(uri)),
{
    let h = "device for "@;
    let l = h + queue + ": "@ + uri;
    let all = seq![l] + rest;
    reveal_strlit("device for ");
    reveal_strlit(": ");
    let k = (h.len() + queue.len()) as int;
    assert(l[k] == ':' && l[k + 1] == ' ');
    assert forall|j: int| 0 <= j < k implies !(#[trigger] l[j] == ':' && l[j + 1] == ' ') by {
        if j >= h.len() {
            assert(l[j] == queue[j - h.len()]);
        } else {
            assert(l[j] == h[j]);
        }
    }
    lemma_split_colon(l, 0, k);
    assert(l.skip(k + 2) =~= uri);
    assert(l.subrange(0, 11) =~= h);
    assert(all[0] == l);
}

/// A slash at its end does not make another address.
pub proof fn lemma_slashes(s: Seq<char>)
    requires
        s.len() > 0,
        !is_space(s[0]),
        !is_space(s.last()),
    ensures
        target_of(s.push('/')) == target_of(s),
{
    let p = |c: char| is_space(c);
    let t = s.push('/');
    assert(trim_left(s, p) == s);
    assert(trim_right(s, p) == s);
    assert(t[0] == s[0] && t.last() == '/');
    assert(trim_left(t, p) == t);
    assert(trim_right(t, p) == t);
    assert(t.drop_last() =~= s);
    assert(trim_right(t, only('/')) == trim_right(s, only('/')));
}

} // verus!
