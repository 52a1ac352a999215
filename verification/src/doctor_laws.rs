//! What the report says of the facts.

use vstd::prelude::*;

use crate::doctor::{
    body_of, default_in, device_in, first_at, is_report, spec_is_le, spec_points, DoctorFacts,
    DoctorReport, HEAD_END,
};
use crate::text::{
    contains, dec, is_space, lemma_find_char_is, lines, lower, occurs_at, trim_left, trim_right,
};

verus! {

/// A printer is adopted where an address is kept; a trusted LE object is one that is trusted and has an LE address;
/// a queue is there where CUPS lists it, and the default where CUPS says so.
pub proof fn lemma_report(r: DoctorReport, f: DoctorFacts)
    requires
        is_report(r, f),
    ensures
        r.adopted <==> f.adopted_address is Some,
        r.trusted_le ==> f.device.trusted,
        f.device.address_type is None ==> !r.trusted_le,
        f.connect_device == Some(true) ==> r.connect_transport == "le" && r.connect_device,
        f.connect_device == Some(false) ==> r.connect_transport == "classic" && !r.connect_device,
        f.connect_device is None ==> (r.connect_device <==> f.experimental),
        r.queue_present <==> device_in(lines(f.lpstat_v@), f.queue@) is Some,
        r.queue_points_at_daemon ==> r.queue_present,
        r.queue_is_default ==> default_in(lines(f.lpstat_d@)) is Some && lower(default_in(lines(f.lpstat_d@))->0)
            == lower(f.queue@),
        r.daemon_up <==> f.daemon_version is Some,
        !f.device.connected ==> r.rssi is None,
        f.device.connected ==> r.rssi == f.device.rssi,
        r.adapter_blocked == f.blocked,
        f.adapter is None ==> r.adapter_powered is None,
        f.adapter matches Some((path, powered)) ==> r.adapter_powered == Some(powered),
{
}

/// LE addresses are public or random ones.
pub proof fn lemma_le_addresses(t: Seq<char>)
    ensures
        spec_is_le(Some(t)) <==> lower(t) == "public"@ || lower(t) == "random"@,
        !spec_is_le(None),
{
}

/// A queue's address is the daemon's where it names this host, in any of its forms, with the daemon's port.
pub proof fn lemma_points(a: Seq<char>, b: Seq<char>, port: u16)
    ensures
        spec_points(a + ("127.0.0.1:"@ + dec(port as nat)) + b, port) || lower(
            a + ("127.0.0.1:"@ + dec(port as nat)) + b,
        ) != a + ("127.0.0.1:"@ + dec(port as nat)) + b,
        lower(a) == lower(b) ==> spec_points(a, port) == spec_points(b, port),
{
    let h = "127.0.0.1:"@ + dec(port as nat);
    let u = a + h + b;
    if lower(u) == u {
        assert(u.subrange(a.len() as int, (a.len() + h.len()) as int) =~= h);
        assert(occurs_at(u, h, a.len() as int));
    }
}

proof fn lemma_first_at(s: Seq<char>, p: Seq<char>, i: int, k: int)
    requires
        0 <= i <= k <= s.len(),
        occurs_at(s, p, k),
        forall|j: int| i <= j < k ==> !occurs_at(s, p, j),
    ensures
        first_at(s, p, i) == Some(k),
    decreases k - i,
{
    if i < k {
        assert(!occurs_at(s, p, i));
        lemma_first_at(s, p, i + 1, k);
    }
}

/// The body of an answer is what follows the first empty line.
pub proof fn lemma_bodies(out: Seq<char>, k: int)
    requires
        0 <= k <= out.len(),
        occurs_at(out, HEAD_END@, k),
        forall|j: int| 0 <= j < k ==> !occurs_at(out, HEAD_END@, j),
        !contains(out.skip(k + HEAD_END@.len()), HEAD_END@),
    ensures
        body_of(out) == Some(out.skip(k + HEAD_END@.len())),
{
    lemma_first_at(out, HEAD_END@, 0, k);
    let rest = out.skip(k + HEAD_END@.len());
    lemma_nowhere(rest, HEAD_END@, 0);
}

proof fn lemma_nowhere(s: Seq<char>, p: Seq<char>, i: int)
    requires
        !contains(s, p),
        0 <= i <= s.len() + 1,
    ensures
        first_at(s, p, i) is None,
    decreases s.len() + 1 - i,
{
    if i <= s.len() {
        assert(!occurs_at(s, p, i));
        lemma_nowhere(s, p, i + 1);
    }
}

/// A line that names a queue and its address tells that address, whatever the case of the queue's name.
pub proof fn lemma_told_queues(queue: Seq<char>, uri: Seq<char>, rest: Seq<Seq<char>>)
    requires
        queue.len() > 0,
        !is_space(queue[0]),
        !is_space(queue.last()),
        forall|i: int| 0 <= i < queue.len() ==> #[trigger] queue[i] != ':',
        uri.len() > 0,
        !is_space(uri[0]),
        !is_space(uri.last()),
    ensures
        device_in(seq!["device for "@ + queue + ": "@ + uri] + rest, queue) == Some(uri),
        device_in(Seq::empty(), queue) is None,
{
    let h = "device for "@;
    let c = ": "@;
    let l = h + queue + c + uri;
    let p = |x: char| is_space(x);
    reveal_strlit("device for ");
    reveal_strlit(": ");
    assert(l[0] == 'd' && l.last() == uri.last());
    assert(trim_left(l, p) == l);
    assert(trim_right(l, p) == l);
    assert(l.subrange(0, 11) =~= h);
    let r = l.skip(11);
    assert(r =~= queue + c + uri);
    assert forall|j: int| 0 <= j < queue.len() implies r[j] != ':' by {
        assert(r[j] == queue[j]);
    }
    assert(r[queue.len() as int] == ':');
    lemma_find_char_is(r, ':', queue.len() as int);
    assert(r.take(queue.len() as int) =~= queue);
    let u = r.skip(queue.len() as int + 1);
    assert(u =~= seq![' '] + uri);
    assert(trim_left(queue, p) == queue);
    assert(trim_right(queue, p) == queue);
    assert(is_space(' '));
    assert(u.skip(1) =~= uri);
    assert(trim_left(uri, p) == uri);
    assert(trim_left(u, p) == uri);
    assert(trim_right(uri, p) == uri);
    let all = seq![l] + rest;
    assert(all[0] == l);
}

} // verus!
