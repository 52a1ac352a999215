//! The adopted printer: its address is kept in one line of a file, `AA:BB:CC:DD:EE:FF`, in a directory
//! that the daemon can write.

use vstd::prelude::*;

use crate::ble::bluez::is_error_named;
use crate::ble::discovery::{is_pair, is_six_pairs, DeviceHint, HintView};
use crate::ble::session::ConnectCall;
use crate::models::opt_text;
use crate::printer::{PrintError, NEED_EXPERIMENTAL_TEXT};
use crate::text::{
    char_is_hex, chars_of, eq_fold_str, find_char, is_hex, is_space, lemma_find_char,
    lemma_find_char_is, lines, lines_of, lower, lower_char, owned, replace, same_fold, split, split_on,
    starts_with, string_of, strip_cr, texts, trim, trim_chars, trim_left, trim_right, upper,
    upper_char, upper_chars,
};

verus! {

pub const STORE_NAME: &'static str = "adopted";

pub const DEFAULT_STATE_DIR: &'static str = "/var/lib/catprinter";

pub const PRIVATE_STATE_DIR: &'static str = "/var/lib/private/catprinter";

/// What is said where the printer cannot be seen.
pub const PRINTER_OFF_TEXT: &'static str = "Cat printer not found — switch it on and re-run";

/// What is said where the printer cannot be seen.
pub fn printer_off_message() -> (r: &'static str)
    ensures
        r == PRINTER_OFF_TEXT,
{
    PRINTER_OFF_TEXT
}

// ------------------------------------------------------------------ outcomes

/// What came of `adopt`.
#[derive(Debug, Clone, PartialEq, Eq)]
pub enum AdoptOutcome {
    Adopted { address: String, already: bool },
    Status { address: Option<String> },
    Forgotten { address: Option<String> },
    PrinterOff,
    NeedExperimental,
}

impl AdoptOutcome {
    /// What is said of the outcome.
    pub open spec fn text(self) -> Seq<char> {
        match self {
            AdoptOutcome::Adopted { address, already } => if already {
                "already adopted "@ + address@
            } else {
                "adopted "@ + address@
            },
            AdoptOutcome::Status { address } => match address {
                Some(a) => "adopted "@ + a@,
                None => "not adopted"@,
            },
            AdoptOutcome::Forgotten { address } => match address {
                Some(a) => "forgot "@ + a@,
                None => "not adopted"@,
            },
            AdoptOutcome::PrinterOff => PRINTER_OFF_TEXT@,
            AdoptOutcome::NeedExperimental => NEED_EXPERIMENTAL_TEXT@,
        }
    }

    /// What is said of the outcome.
    pub fn message(&self) -> (r: String)
        ensures
            r@ == self.text(),
    {
        match self {
            AdoptOutcome::Adopted { address, already } => {
                let mut r = if *already {
                    owned("already adopted ")
                } else {
                    owned("adopted ")
                };
                r.push_str(address.as_str());
                r
            },
            AdoptOutcome::Status { address } => match address {
                Some(a) => {
                    let mut r = owned("adopted ");
                    r.push_str(a.as_str());
                    r
                },
                None => owned("not adopted"),
            },
            AdoptOutcome::Forgotten { address } => match address {
                Some(a) => {
                    let mut r = owned("forgot ");
                    r.push_str(a.as_str());
                    r
                },
                None => owned("not adopted"),
            },
            AdoptOutcome::PrinterOff => owned(PRINTER_OFF_TEXT),
            AdoptOutcome::NeedExperimental => owned(NEED_EXPERIMENTAL_TEXT),
        }
    }

    /// The exit code: 0 for success and for a printer that is adopted.
    pub fn exit_code(&self) -> (r: i32)
        ensures
            r == match self {
                AdoptOutcome::Adopted { .. } => 0i32,
                AdoptOutcome::Forgotten { .. } => 0,
                AdoptOutcome::Status { address } => if address is Some {
                    0
                } else {
                    1
                },
                _ => 1,
            },
    {
        match self {
            AdoptOutcome::Adopted { .. } => 0,
            AdoptOutcome::Forgotten { .. } => 0,
            AdoptOutcome::Status { address } => if address.is_some() {
                0
            } else {
                1
            },
            _ => 1,
        }
    }
}

/// What a failed scan or connect means for `adopt`, where it means one of its outcomes.
pub fn outcome_from_connect(e: &PrintError) -> (r: Option<AdoptOutcome>)
    ensures
        r == match e {
            PrintError::NotFound => Some(AdoptOutcome::PrinterOff),
            PrintError::NeedExperimental => Some(AdoptOutcome::NeedExperimental),
            _ => None,
        },
{
    match e {
        PrintError::NotFound => Some(AdoptOutcome::PrinterOff),
        PrintError::NeedExperimental => Some(AdoptOutcome::NeedExperimental),
        _ => None,
    }
}

// ------------------------------------------------------------------ where it is kept

/// A name in a directory.
pub open spec fn joined(dir: Seq<char>, name: Seq<char>) -> Seq<char> {
    if dir.len() == 0 {
        name
    } else if dir.last() == '/' {
        dir + name
    } else {
        dir + "/"@ + name
    }
}

/// The file that holds the address.
pub fn store_path(dir: &str) -> (r: String)
    ensures
        r@ == joined(dir@, STORE_NAME@),
{
    let cs = chars_of(dir);
    let mut r = owned(dir);
    if cs.len() > 0 && cs[cs.len() - 1] != '/' {
        r.push_str("/");
    }
    r.push_str(STORE_NAME);
    assert(r@ =~= joined(dir@, STORE_NAME@));
    r
}

/// What decides on the directory: the flag, two environment variables, and whether the private directory
/// exists.
#[derive(Debug)]
pub struct StoreHints {
    pub explicit: Option<String>,
    /// `CATPRINTER_STATE_DIR`
    pub state_dir: Option<String>,
    /// `STATE_DIRECTORY`, a list with colons between its entries
    pub state_directory: Option<String>,
    pub private_exists: bool,
}

/// The directory: the flag, the first variable unless it is empty, the first entry of the second unless
/// it is empty, the private directory where it exists, and else the usual one.
pub open spec fn spec_store_dir(h: StoreHints) -> Seq<char> {
    if h.explicit is Some {
        (h.explicit->0)@
    } else if h.state_dir is Some && (h.state_dir->0)@.len() > 0 {
        (h.state_dir->0)@
    } else if h.state_directory is Some && split((h.state_directory->0)@, ':')[0].len() > 0 {
        split((h.state_directory->0)@, ':')[0]
    } else if h.private_exists {
        PRIVATE_STATE_DIR@
    } else {
        DEFAULT_STATE_DIR@
    }
}

/// The directory that holds the file.
pub fn resolve_store_dir(h: &StoreHints) -> (r: String)
    ensures
        r@ == spec_store_dir(*h),
{
    if let Some(p) = &h.explicit {
        return owned(p.as_str());
    }
    if let Some(s) = &h.state_dir {
        if !s.as_str().is_empty() {
            return owned(s.as_str());
        }
    }
    if let Some(s) = &h.state_directory {
        let cs = chars_of(s.as_str());
        let parts = split_on(cs.as_slice(), ':');
        assert(texts(parts@).len() == parts@.len());
        assert(split(s@, ':').len() > 0);
        assert(texts(parts@)[0] == parts@[0]@);
        if parts[0].len() > 0 {
            return string_of(parts[0].as_slice());
        }
    }
    if h.private_exists {
        owned(PRIVATE_STATE_DIR)
    } else {
        owned(DEFAULT_STATE_DIR)
    }
}

// ------------------------------------------------------------------ addresses

/// Twelve digits as six pairs with colons between them.
pub open spec fn colon_pairs(h: Seq<char>) -> Seq<char> {
    seq![
        h[0], h[1], ':', h[2], h[3], ':', h[4], h[5], ':', h[6], h[7], ':', h[8], h[9], ':', h[10], h[11],
    ]
}

/// Twelve digits, and nothing else.
pub open spec fn is_bare(s: Seq<char>) -> bool {
    s.len() == 12 && forall|i: int| 0 <= i < 12 ==> is_hex(#[trigger] s[i])
}

fn bare(s: &[char]) -> (r: bool)
    ensures
        r == is_bare(s@),
{
    if s.len() != 12 {
        return false;
    }
    let mut i: usize = 0;
    while i < 12
        invariant
            i <= 12,
            s@.len() == 12,
            forall|k: int| 0 <= k < i ==> is_hex(#[trigger] s@[k]),
        decreases 12 - i,
    {
        if !char_is_hex(s[i]) {
            assert(!is_hex(s@[i as int]));
            return false;
        }
        i += 1;
    }
    true
}

/// The address that a text is: six pairs of digits with colons or underscores between them, or twelve
/// digits and nothing else. White space around it does not count.
pub open spec fn spec_normalize(s: Seq<char>) -> Option<Seq<char>> {
    match DeviceHint::spec_parse(s) {
        HintView::Address(a) => Some(a),
        HintView::Name(t) => if is_bare(t) {
            Some(colon_pairs(upper(t)))
        } else {
            None
        },
    }
}

/// The address that a text is, in capitals with colons.
pub fn normalize_mac(s: &str) -> (r: Option<String>)
    ensures
        match r {
            Some(m) => spec_normalize(s@) == Some(m@),
            None => spec_normalize(s@) is None,
        },
{
    match DeviceHint::parse(s) {
        DeviceHint::Address(a) => Some(a),
        DeviceHint::Name(t) => {
            let cs = chars_of(t.as_str());
            if !bare(cs.as_slice()) {
                return None;
            }
            let h = upper_chars(cs.as_slice());
            let mut out: Vec<char> = Vec::new();
            let mut i: usize = 0;
            while i < 6
                invariant
                    i <= 6,
                    h@.len() == 12,
                    out@ == colon_pairs(h@).take(
                        if i == 0 {
                            0
                        } else {
                            3 * i - 1
                        },
                    ),
                decreases 6 - i,
            {
                let ghost was = out@;
                if i > 0 {
                    out.push(':');
                }
                out.push(h[2 * i]);
                out.push(h[2 * i + 1]);
                assert(out@ =~= colon_pairs(h@).take(3 * (i + 1) - 1));
                i += 1;
            }
            assert(out@ =~= colon_pairs(h@));
            Some(string_of(out.as_slice()))
        },
    }
}

// ------------------------------------------------------------------ the file

/// The address that a file's text holds: in its first line.
pub open spec fn spec_load(text: Seq<char>) -> Option<Seq<char>> {
    if lines(text).len() == 0 || trim(lines(text)[0]).len() == 0 {
        None
    } else {
        spec_normalize(trim(lines(text)[0]))
    }
}

/// The address that an optional file's text holds.
pub open spec fn spec_load_opt(text: Option<Seq<char>>) -> Option<Seq<char>> {
    match text {
        Some(t) => spec_load(t),
        None => None,
    }
}

/// The view of an optional address.
pub open spec fn mac_view(m: Option<String>) -> Option<Seq<char>> {
    match m {
        Some(m) => Some(m@),
        None => None,
    }
}

/// The address that the file holds; `None` for a file that cannot be read.
pub fn load(text: Option<&str>) -> (r: Option<String>)
    ensures
        mac_view(r) == spec_load_opt(opt_text(text)),
{
    match text {
        Some(t) => {
            let cs = chars_of(t);
            let ls = lines_of(cs.as_slice());
            assert(texts(ls@).len() == ls@.len());
            if ls.len() == 0 {
                return None;
            }
            assert(texts(ls@)[0] == ls@[0]@);
            let line = trim_chars(ls[0].as_slice());
            if line.len() == 0 {
                return None;
            }
            let l = string_of(line);
            normalize_mac(l.as_str())
        },
        None => None,
    }
}

/// What is written to the file: the address and a line feed.
pub open spec fn store_text(mac: Seq<char>) -> Seq<char> {
    mac.push('\n')
}

/// What is to be written for an address: the address as it is kept, and the file's text. What is no
/// address is refused.
pub fn persist(address: &str) -> (r: Result<(String, String), String>)
    ensures
        match r {
            Ok((mac, text)) => spec_normalize(address@) == Some(mac@) && text@ == store_text(mac@),
            Err(e) => spec_normalize(address@) is None && e@ == "not a Bluetooth address: "@
                + address@,
        },
{
    match normalize_mac(address) {
        Some(mac) => {
            let mut text = owned(mac.as_str());
            text.push('\n');
            Ok((mac, text))
        },
        None => {
            let mut e = owned("not a Bluetooth address: ");
            e.push_str(address);
            Err(e)
        },
    }
}

/// What is to be written on the first successful connect: nothing where an address is kept already.
pub fn persist_if_empty(text: Option<&str>, address: &str) -> (r: Result<
    Option<(String, String)>,
    String,
>)
    ensures
        if spec_load_opt(opt_text(text)) is Some {
            r matches Ok(o) && o is None
        } else {
            match r {
                Ok(Some((mac, t))) => spec_normalize(address@) == Some(mac@) && t@ == store_text(
                    mac@,
                ),
                Ok(None) => false,
                Err(e) => spec_normalize(address@) is None && e@ == "not a Bluetooth address: "@
                    + address@,
            }
        },
{
    if load(text).is_some() {
        return Ok(None);
    }
    match persist(address) {
        Ok(p) => Ok(Some(p)),
        Err(e) => Err(e),
    }
}

/// What `adopt --status` says.
pub fn status_of(text: Option<&str>) -> (r: AdoptOutcome)
    ensures
        r matches AdoptOutcome::Status { address } && mac_view(address) == spec_load_opt(
            opt_text(text),
        ),
{
    AdoptOutcome::Status { address: load(text) }
}

/// Which address `adopt --forget` forgets: the one that is given, or the one that is kept.
pub fn forgotten(device: Option<&str>, text: Option<&str>) -> (r: AdoptOutcome)
    ensures
        r matches AdoptOutcome::Forgotten { address } && mac_view(address) == if device is Some
            && spec_normalize((device->0)@) is Some {
            spec_normalize((device->0)@)
        } else {
            spec_load_opt(opt_text(text))
        },
{
    if let Some(d) = device {
        if let Some(mac) = normalize_mac(d) {
            return AdoptOutcome::Forgotten { address: Some(mac) };
        }
    }
    AdoptOutcome::Forgotten { address: load(text) }
}

// ------------------------------------------------------------------ adopting

/// What `adopt` looks for: an address, or else a name.
pub fn adopt_hint(device: Option<&str>) -> (r: Option<DeviceHint>)
    ensures
        match device {
            Some(d) => r is Some && (r->0).model() == match spec_normalize(d@) {
                Some(m) => HintView::Address(m),
                None => DeviceHint::spec_parse(d@),
            },
            None => r is None,
        },
{
    match device {
        Some(d) => match normalize_mac(d) {
            Some(m) => Some(DeviceHint::Address(m)),
            None => Some(DeviceHint::parse(d)),
        },
        None => None,
    }
}

/// Whether the printer that is asked for is the one that is kept.
pub fn is_kept(kept: Option<&str>, mac: &str) -> (r: bool)
    ensures
        r == (kept is Some && same_fold((kept->0)@, mac@)),
{
    match kept {
        Some(k) => eq_fold_str(k, mac),
        None => false,
    }
}

/// What came of asking BlueZ to connect to a device over LE.
#[derive(Debug, Clone, Copy, PartialEq, Eq, Structural)]
pub enum LeConnect {
    /// An object for the device was made.
    CreatedLe,
    /// BlueZ does not offer the call.
    NeedExperimental,
    /// There is an object that stands in the way.
    Recreate,
    /// The device is connected already, or a connect is under way.
    ReuseIfConnected,
    WaitInProgress,
    Failed,
}

/// What a call to connect over LE comes to. Where BlueZ does not know the call, its experimental part is
/// off.
pub open spec fn spec_le_outcome(call: ConnectCall) -> LeConnect {
    match call {
        ConnectCall::Connected => LeConnect::CreatedLe,
        ConnectCall::TimedOut => LeConnect::Failed,
        ConnectCall::Failed(e) => if e.named("org.freedesktop.DBus.Error.UnknownMethod"@) {
            LeConnect::NeedExperimental
        } else if e.named("org.bluez.Error.AlreadyExists"@) {
            LeConnect::Recreate
        } else if e.named("org.bluez.Error.AlreadyConnected"@) {
            LeConnect::ReuseIfConnected
        } else if e.named("org.bluez.Error.InProgress"@) {
            LeConnect::WaitInProgress
        } else {
            LeConnect::Failed
        },
    }
}

/// What a call to connect over LE comes to.
pub fn le_outcome(call: &ConnectCall) -> (r: LeConnect)
    ensures
        r == spec_le_outcome(*call),
{
    match call {
        ConnectCall::Connected => LeConnect::CreatedLe,
        ConnectCall::TimedOut => LeConnect::Failed,
        ConnectCall::Failed(e) => {
            if is_error_named(e, "org.freedesktop.DBus.Error.UnknownMethod") {
                LeConnect::NeedExperimental
            } else if is_error_named(e, "org.bluez.Error.AlreadyExists") {
                LeConnect::Recreate
            } else if is_error_named(e, "org.bluez.Error.AlreadyConnected") {
                LeConnect::ReuseIfConnected
            } else if is_error_named(e, "org.bluez.Error.InProgress") {
                LeConnect::WaitInProgress
            } else {
                LeConnect::Failed
            }
        },
    }
}

/// What to do next.
#[derive(Debug, Clone, Copy, PartialEq, Eq, Structural)]
pub enum LeStep {
    /// Trust the object that was made, and let it go.
    TrustCreated,
    /// Remove the object that stands in the way, and ask again.
    RemoveAndRetry,
    /// Trust the object that is there, if it is connected.
    TrustIfConnected,
    NeedExperimental,
    NotFound,
}

/// What to do after asking for the `attempt`th time (from 0). An object that stands in the way is
/// removed once.
pub open spec fn spec_le_step(attempt: u8, outcome: LeConnect) -> LeStep {
    match outcome {
        LeConnect::CreatedLe => LeStep::TrustCreated,
        LeConnect::NeedExperimental => LeStep::NeedExperimental,
        LeConnect::Recreate => if attempt == 0 {
            LeStep::RemoveAndRetry
        } else {
            LeStep::NotFound
        },
        LeConnect::ReuseIfConnected => LeStep::TrustIfConnected,
        LeConnect::WaitInProgress => LeStep::TrustIfConnected,
        LeConnect::Failed => LeStep::NotFound,
    }
}

/// What to do after asking for the `attempt`th time (from 0). An object that stands in the way is
/// removed once.
pub fn le_step(attempt: u8, outcome: LeConnect) -> (r: LeStep)
    ensures
        r == spec_le_step(attempt, outcome),
{
    match outcome {
        LeConnect::CreatedLe => LeStep::TrustCreated,
        LeConnect::NeedExperimental => LeStep::NeedExperimental,
        LeConnect::Recreate => if attempt == 0 {
            LeStep::RemoveAndRetry
        } else {
            LeStep::NotFound
        },
        LeConnect::ReuseIfConnected => LeStep::TrustIfConnected,
        LeConnect::WaitInProgress => LeStep::TrustIfConnected,
        LeConnect::Failed => LeStep::NotFound,
    }
}

// ------------------------------------------------------------------ laws

/// An address as it is kept: six pairs of hexadecimal digits in capitals with colons between them.
pub open spec fn is_mac(m: Seq<char>) -> bool {
    &&& m.len() == 17
    &&& forall|i: int|
        0 <= i < 17 ==> if i % 3 == 2 {
            #[trigger] m[i] == ':'
        } else {
            is_hex(m[i]) && upper_char(m[i]) == m[i]
        }
}

/// `n` pairs of digits with `c` between them.
pub open spec fn has_pairs(s: Seq<char>, c: char, n: int) -> bool {
    &&& s.len() == 3 * n - 1
    &&& forall|i: int|
        0 <= i < s.len() ==> if i % 3 == 2 {
            #[trigger] s[i] == c
        } else {
            is_hex(s[i])
        }
}

/// A text that splits into pairs of digits has them at every third place.
proof fn lemma_split_has_pairs(s: Seq<char>, c: char, n: int)
    requires
        n >= 1,
        split(s, c).len() == n,
        forall|i: int| 0 <= i < n ==> is_pair(#[trigger] split(s, c)[i]),
    ensures
        has_pairs(s, c, n),
    decreases n,
{
    lemma_find_char(s, c);
    let parts = split(s, c);
    match find_char(s, c) {
        Some(k) => {
            let rest = s.skip(k + 1);
            assert(parts[0] == s.take(k));
            assert(is_pair(parts[0]));
            assert(k == 2);
            assert(split(rest, c).len() == n - 1);
            if n == 1 {
                lemma_split_nonempty(rest, c);
            }
            assert forall|i: int| 0 <= i < n - 1 implies is_pair(#[trigger] split(rest, c)[i]) by {
                assert(parts[i + 1] == split(rest, c)[i]);
                assert(is_pair(parts[i + 1]));
            }
            lemma_split_has_pairs(rest, c, n - 1);
            assert forall|i: int| 0 <= i < s.len() implies if i % 3 == 2 {
                #[trigger] s[i] == c
            } else {
                is_hex(s[i])
            } by {
                if i < 2 {
                    assert(s.take(2)[i] == s[i]);
                } else if i > 2 {
                    assert(rest[i - 3] == s[i]);
                    assert((i - 3) % 3 == i % 3);
                }
            }
        },
        None => {
            assert(parts =~= seq![s]);
            assert(is_pair(parts[0]));
        },
    }
}

proof fn lemma_split_nonempty(s: Seq<char>, c: char)
    ensures
        split(s, c).len() > 0,
{
}

/// A text with pairs of digits at every third place splits into them.
proof fn lemma_pairs_split(s: Seq<char>, c: char, n: int)
    requires
        n >= 1,
        has_pairs(s, c, n),
        !is_hex(c),
    ensures
        split(s, c).len() == n,
        forall|i: int| 0 <= i < n ==> is_pair(#[trigger] split(s, c)[i]),
    decreases n,
{
    if n == 1 {
        assert(s.len() == 2);
        lemma_find_char(s, c);
        assert(is_hex(s[0]) && is_hex(s[1]));
        assert(find_char(s, c) is None);
        assert(split(s, c) =~= seq![s]);
    } else {
        assert(s[2] == c);
        assert(is_hex(s[0]) && is_hex(s[1]));
        lemma_find_char_is(s, c, 2);
        let rest = s.skip(3);
        assert forall|i: int| 0 <= i < rest.len() implies if i % 3 == 2 {
            #[trigger] rest[i] == c
        } else {
            is_hex(rest[i])
        } by {
            assert(rest[i] == s[i + 3]);
            assert((i + 3) % 3 == i % 3);
        }
        lemma_pairs_split(rest, c, n - 1);
        let parts = split(s, c);
        assert(parts =~= seq![s.take(2)] + split(rest, c));
        assert forall|i: int| 0 <= i < n implies is_pair(#[trigger] parts[i]) by {
            if i > 0 {
                assert(parts[i] == split(rest, c)[i - 1]);
            }
        }
    }
}

/// Replacing one character by another goes place by place.
proof fn lemma_replace_char(s: Seq<char>, from: Seq<char>, to: Seq<char>)
    requires
        from.len() == 1,
        to.len() == 1,
    ensures
        replace(s, from, to).len() == s.len(),
        forall|i: int|
            0 <= i < s.len() ==> #[trigger] replace(s, from, to)[i] == if s[i] == from[0] {
                to[0]
            } else {
                s[i]
            },
    decreases s.len(),
{
    if s.len() > 0 {
        lemma_replace_char(s.skip(1), from, to);
        assert(s.subrange(0, 1) =~= seq![s[0]]);
        assert(from =~= seq![from[0]]);
        assert(starts_with(s, from) == (s[0] == from[0])) by {
            if starts_with(s, from) {
                assert(s.subrange(0, 1)[0] == from[0]);
            }
        }
        let r = replace(s, from, to);
        let t = replace(s.skip(1), from, to);
        assert forall|i: int| 0 <= i < s.len() implies #[trigger] r[i] == if s[i] == from[0] {
            to[0]
        } else {
            s[i]
        } by {
            if i > 0 {
                assert(r[i] == t[i - 1]);
                assert(s.skip(1)[i - 1] == s[i]);
            }
        }
    }
}

/// What is kept is an address.
pub proof fn lemma_normalized_is_mac(s: Seq<char>)
    requires
        spec_normalize(s) is Some,
    ensures
        is_mac(spec_normalize(s)->0),
{
    let m = spec_normalize(s)->0;
    let t = trim(s);
    if is_six_pairs(t, ':') || is_six_pairs(t, '_') {
        let c = if is_six_pairs(t, ':') {
            ':'
        } else {
            '_'
        };
        lemma_split_has_pairs(t, c, 6);
        reveal_strlit("_");
        reveal_strlit(":");
        lemma_replace_char(t, "_"@, ":"@);
        let r = replace(t, "_"@, ":"@);
        assert forall|i: int| 0 <= i < 17 implies if i % 3 == 2 {
            #[trigger] m[i] == ':'
        } else {
            is_hex(m[i]) && upper_char(m[i]) == m[i]
        } by {
            assert(m[i] == upper_char(r[i]));
            assert(r[i] == if t[i] == '_' {
                ':'
            } else {
                t[i]
            });
            assert(if i % 3 == 2 {
                t[i] == c
            } else {
                is_hex(t[i])
            });
        }
    } else {
        let h = upper(t);
        assert forall|i: int| 0 <= i < 17 implies if i % 3 == 2 {
            #[trigger] m[i] == ':'
        } else {
            is_hex(m[i]) && upper_char(m[i]) == m[i]
        } by {
            if i % 3 != 2 {
                let k = 2 * (i / 3) + i % 3;
                assert(m[i] == h[k]);
                assert(is_hex(t[k]));
            }
        }
    }
}

/// An address as it is kept is kept as it is.
pub proof fn lemma_mac_normalizes(m: Seq<char>)
    requires
        is_mac(m),
    ensures
        trim(m) == m,
        spec_normalize(m) == Some(m),
{
    assert(is_hex(m[0]) && is_hex(m[16]));
    assert(trim_left(m, |c: char| is_space(c)) == m);
    assert(trim_right(m, |c: char| is_space(c)) == m);
    lemma_pairs_split(m, ':', 6);
    assert(is_six_pairs(m, ':'));
    reveal_strlit("_");
    reveal_strlit(":");
    lemma_replace_char(m, "_"@, ":"@);
    assert(upper(replace(m, "_"@, ":"@)) =~= m) by {
        assert forall|i: int| 0 <= i < 17 implies #[trigger] upper(replace(m, "_"@, ":"@))[i]
            == m[i] by {
            assert(if i % 3 == 2 {
                m[i] == ':'
            } else {
                is_hex(m[i]) && upper_char(m[i]) == m[i]
            });
            assert(replace(m, "_"@, ":"@)[i] == m[i]);
        }
    }
}

/// Six pairs of digits are the address that they spell, whichever of the two separators they have and
/// whatever the case.
proof fn lemma_pairs_normalize(s: Seq<char>, c: char, m: Seq<char>)
    requires
        is_mac(m),
        c == ':' || c == '_',
        s.len() == 17,
        forall|i: int|
            0 <= i < 17 ==> if i % 3 == 2 {
                #[trigger] s[i] == c
            } else {
                is_hex(s[i]) && upper_char(s[i]) == m[i]
            },
    ensures
        spec_normalize(s) == Some(m),
{
    assert(is_hex(s[0]) && is_hex(s[16]));
    assert(trim_left(s, |c: char| is_space(c)) == s);
    assert(trim_right(s, |c: char| is_space(c)) == s);
    lemma_pairs_split(s, c, 6);
    assert(is_six_pairs(s, c));
    reveal_strlit("_");
    reveal_strlit(":");
    lemma_replace_char(s, "_"@, ":"@);
    assert(upper(replace(s, "_"@, ":"@)) =~= m) by {
        assert forall|i: int| 0 <= i < 17 implies #[trigger] upper(replace(s, "_"@, ":"@))[i]
            == m[i] by {
            assert(if i % 3 == 2 {
                m[i] == ':'
            } else {
                is_hex(m[i])
            });
            assert(if i % 3 == 2 {
                s[i] == c
            } else {
                is_hex(s[i]) && upper_char(s[i]) == m[i]
            });
            assert(replace(s, "_"@, ":"@)[i] == if s[i] == '_' {
                ':'
            } else {
                s[i]
            });
        }
    }
}

/// Twelve digits are the address that they spell, whatever the case.
proof fn lemma_bare_normalizes(s: Seq<char>, m: Seq<char>)
    requires
        is_mac(m),
        is_bare(s),
        colon_pairs(upper(s)) == m,
    ensures
        spec_normalize(s) == Some(m),
{
    assert(is_hex(s[0]) && is_hex(s[11]));
    assert(trim_left(s, |c: char| is_space(c)) == s);
    assert(trim_right(s, |c: char| is_space(c)) == s);
    if is_six_pairs(s, ':') {
        lemma_split_has_pairs(s, ':', 6);
    }
    if is_six_pairs(s, '_') {
        lemma_split_has_pairs(s, '_', 6);
    }
}

/// An address without its colons.
proof fn lemma_without_colons(m: Seq<char>)
    requires
        is_mac(m),
    ensures
        replace(m, ":"@, Seq::empty()) == seq![
            m[0], m[1], m[3], m[4], m[6], m[7], m[9], m[10], m[12], m[13], m[15], m[16],
        ],
{
    lemma_no_colons(m, 6);
    assert(pairs_of(m, 6) =~= seq![
        m[0], m[1], m[3], m[4], m[6], m[7], m[9], m[10], m[12], m[13], m[15], m[16],
    ]) by {
        reveal_with_fuel(pairs_of, 7);
    }
}

/// The digits of `n` pairs with a character between two of them.
spec fn pairs_of(s: Seq<char>, n: int) -> Seq<char>
    decreases n,
{
    if n <= 0 {
        Seq::empty()
    } else {
        seq![s[0], s[1]] + pairs_of(s.skip(3), n - 1)
    }
}

proof fn lemma_no_colons(s: Seq<char>, n: int)
    requires
        n >= 1,
        has_pairs(s, ':', n),
    ensures
        replace(s, ":"@, Seq::empty()) == pairs_of(s, n),
    decreases n,
{
    reveal_strlit(":");
    let none = Seq::<char>::empty();
    assert(is_hex(s[0]) && is_hex(s[1]));
    lemma_keeps_first(s);
    let a = s.skip(1);
    assert(a[0] == s[1]);
    lemma_keeps_first(a);
    let b = a.skip(1);
    if n == 1 {
        assert(b =~= none);
        assert(replace(b, ":"@, none) == none);
        assert(pairs_of(s.skip(3), 0) =~= none);
        assert(replace(s, ":"@, none) =~= seq![s[0], s[1]]);
    } else {
        assert(b[0] == s[2]);
        assert(s[2] == ':');
        assert(b.subrange(0, 1) =~= ":"@);
        let rest = s.skip(3);
        assert(b.skip(1) =~= rest);
        assert forall|i: int| 0 <= i < rest.len() implies if i % 3 == 2 {
            #[trigger] rest[i] == ':'
        } else {
            is_hex(rest[i])
        } by {
            assert(rest[i] == s[i + 3]);
            assert((i + 3) % 3 == i % 3);
        }
        lemma_no_colons(rest, n - 1);
        assert(replace(b, ":"@, none) =~= replace(rest, ":"@, none));
        assert(replace(s, ":"@, none) =~= seq![s[0], s[1]] + replace(rest, ":"@, none));
    }
}

proof fn lemma_keeps_first(s: Seq<char>)
    requires
        s.len() > 0,
        s[0] != ':',
    ensures
        replace(s, ":"@, Seq::empty()) == seq![s[0]] + replace(s.skip(1), ":"@, Seq::empty()),
{
    reveal_strlit(":");
    if starts_with(s, ":"@) {
        assert(s.subrange(0, 1)[0] == ':');
    }
}

/// A character of an address in small letters is that character in capitals.
proof fn lemma_case(m: Seq<char>, i: int)
    requires
        is_mac(m),
        0 <= i < 17,
    ensures
        i % 3 == 2 ==> m[i] == ':' && lower_char(m[i]) == ':',
        i % 3 != 2 ==> m[i] != ':' && is_hex(m[i]) && upper_char(m[i]) == m[i] && is_hex(
            lower_char(m[i]),
        ) && upper_char(lower_char(m[i])) == m[i],
{
    assert(if i % 3 == 2 {
        m[i] == ':'
    } else {
        is_hex(m[i]) && upper_char(m[i]) == m[i]
    });
}

proof fn lemma_spelled_with_pairs(m: Seq<char>)
    requires
        is_mac(m),
    ensures
        spec_normalize(lower(m)) == Some(m),
        spec_normalize(replace(m, ":"@, "_"@)) == Some(m),
        spec_normalize(lower(replace(m, ":"@, "_"@))) == Some(m),
{
    reveal_strlit("_");
    reveal_strlit(":");
    lemma_replace_char(m, ":"@, "_"@);
    let u = replace(m, ":"@, "_"@);
    assert forall|i: int| 0 <= i < 17 implies if i % 3 == 2 {
        #[trigger] lower(m)[i] == ':'
    } else {
        is_hex(lower(m)[i]) && upper_char(lower(m)[i]) == m[i]
    } by {
        lemma_case(m, i);
    }
    lemma_pairs_normalize(lower(m), ':', m);
    assert forall|i: int| 0 <= i < 17 implies if i % 3 == 2 {
        #[trigger] u[i] == '_'
    } else {
        is_hex(u[i]) && upper_char(u[i]) == m[i]
    } by {
        lemma_case(m, i);
    }
    lemma_pairs_normalize(u, '_', m);
    assert forall|i: int| 0 <= i < 17 implies if i % 3 == 2 {
        #[trigger] lower(u)[i] == '_'
    } else {
        is_hex(lower(u)[i]) && upper_char(lower(u)[i]) == m[i]
    } by {
        lemma_case(m, i);
    }
    lemma_pairs_normalize(lower(u), '_', m);
}

proof fn lemma_spelled_bare(m: Seq<char>)
    requires
        is_mac(m),
    ensures
        spec_normalize(replace(m, ":"@, Seq::empty())) == Some(m),
        spec_normalize(lower(replace(m, ":"@, Seq::empty()))) == Some(m),
{
    lemma_without_colons(m);
    let b = replace(m, ":"@, Seq::empty());
    assert forall|i: int| 0 <= i < 12 implies #[trigger] b[i] == m[i + i / 2] && (i + i / 2) % 3
        != 2 by {}
    assert forall|i: int| 0 <= i < 12 implies is_hex(#[trigger] b[i]) by {
        lemma_case(m, i + i / 2);
    }
    assert forall|i: int| 0 <= i < 12 implies is_hex(#[trigger] lower(b)[i]) by {
        assert(b[i] == m[i + i / 2]);
        lemma_case(m, i + i / 2);
    }
    assert forall|i: int| 0 <= i < 12 implies upper(b)[i] == b[i] && upper(lower(b))[i] == b[i] by {
        assert(b[i] == m[i + i / 2]);
        lemma_case(m, i + i / 2);
    }
    assert(upper(b) =~= b);
    assert(upper(lower(b)) =~= b);
    assert(colon_pairs(b) =~= m) by {
        assert forall|i: int| 0 <= i < 17 implies colon_pairs(b)[i] == m[i] by {
            lemma_case(m, i);
            if i % 3 != 2 {
                let k = 2 * (i / 3) + i % 3;
                assert(b[k] == m[k + k / 2]);
                assert(k + k / 2 == i);
            }
        }
    }
    lemma_bare_normalizes(b, m);
    lemma_bare_normalizes(lower(b), m);
}

/// However an address is written, in small letters, with underscores or without separators, it is the same
/// address.
pub proof fn lemma_spellings_agree(s: Seq<char>)
    requires
        spec_normalize(s) is Some,
    ensures
        ({
            let m = spec_normalize(s)->0;
            &&& spec_normalize(m) == Some(m)
            &&& spec_normalize(lower(m)) == Some(m)
            &&& spec_normalize(replace(m, ":"@, "_"@)) == Some(m)
            &&& spec_normalize(lower(replace(m, ":"@, "_"@))) == Some(m)
            &&& spec_normalize(replace(m, ":"@, Seq::empty())) == Some(m)
            &&& spec_normalize(lower(replace(m, ":"@, Seq::empty()))) == Some(m)
        }),
{
    let m = spec_normalize(s)->0;
    lemma_normalized_is_mac(s);
    lemma_mac_normalizes(m);
    lemma_spelled_with_pairs(m);
    lemma_spelled_bare(m);
}

/// What is read from the file is what was written: the address, as it was kept.
pub proof fn lemma_load_persist(address: Seq<char>)
    requires
        spec_normalize(address) is Some,
    ensures
        spec_load(store_text(spec_normalize(address)->0)) == spec_normalize(address),
{
    let m = spec_normalize(address)->0;
    lemma_normalized_is_mac(address);
    lemma_mac_normalizes(m);
    let text = store_text(m);
    assert forall|j: int| 0 <= j < 17 implies text[j] != '\n' by {
        assert(if j % 3 == 2 {
            m[j] == ':'
        } else {
            is_hex(m[j])
        });
    }
    lemma_find_char_is(text, '\n', 17);
    assert(text.take(17) =~= m);
    assert(is_hex(m[16]));
    assert(strip_cr(m) == m);
    assert(lines(text)[0] == m);
}

} // verus!
