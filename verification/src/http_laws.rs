//! What requests over HTTP get, and how their bodies are taken.

use vstd::prelude::*;

use crate::engine::Job;
use crate::http::{
    is_peeked, row_of, rows, spec_oversize, spec_route, BodyReader, BodyStep, Route, Verb,
};
use crate::ipp::codec::{be32, is_request_of, readable, Request};
use crate::ipp::queries::spec_job_id;
use crate::ipp::wire::be16;
use crate::text::{
    dec, ends_with, is_digit, lemma_dec_reads_back, starts_with, without_prefixes, without_suffixes,
};

verus! {

// ------------------------------------------------------------------ routes

/// Whatever is posted is an IPP request. The health and status pages are there to read and to probe; everything
/// else that can be read cannot be probed.
pub proof fn lemma_routes(verb: Verb, path: Seq<char>)
    ensures
        spec_route(Verb::Post, path) == Route::Ipp,
        spec_route(Verb::Options, path) == Route::NoContent,
        spec_route(Verb::Other, path) == Route::NotFound,
        verb == Verb::Get || verb == Verb::Head ==> {
            &&& spec_route(verb, "/health"@) == Route::Health
            &&& spec_route(verb, "/"@) == Route::Status
        },
        path != "/health"@ && path != "/"@ ==> spec_route(Verb::Head, path) == Route::NotFound,
        spec_route(Verb::Get, "/strings/en.strings"@) == Route::Strings,
        spec_route(Verb::Get, "/icons/48.png"@) == Route::Icon(48),
        spec_route(Verb::Get, "/icons/128.png"@) == Route::Icon(128),
        spec_route(Verb::Get, "/icons/512.png"@) == Route::Icon(512),
        spec_route(verb, path) matches Route::Icon(n) ==> n == 48 || n == 128 || n == 512,
        path.len() > 0 && path[0] != '/' && (verb == Verb::Get || verb == Verb::Head) ==> spec_route(verb, path)
            == Route::NotFound,
{
    reveal_strlit("/health");
    reveal_strlit("/");
    reveal_strlit("/strings/en.strings");
    reveal_strlit("/icons/");
    reveal_strlit("/icons/48.png");
    reveal_strlit("/icons/128.png");
    reveal_strlit("/icons/512.png");
    reveal_strlit("/jobs/");
    assert("/health"@.len() == 7 && "/"@.len() == 1 && "/strings/en.strings"@.len() == 19);
    assert("/icons/48.png"@.len() == 13 && "/icons/128.png"@.len() == 14 && "/icons/512.png"@.len() == 14);
    assert("/icons/128.png"@[7] == '1' && "/icons/512.png"@[7] == '5');
    assert("/icons/48.png"@.subrange(0, 7) =~= "/icons/"@);
    assert("/icons/128.png"@.subrange(0, 7) =~= "/icons/"@);
    assert("/icons/512.png"@.subrange(0, 7) =~= "/icons/"@);
    assert("/health"@[1] == 'h');
    if path.len() > 0 && path[0] != '/' {
        if starts_with(path, "/icons/"@) {
            assert(path.subrange(0, 7)[0] == '/');
        }
        if starts_with(path, "/jobs/"@) {
            assert(path.subrange(0, 6)[0] == '/');
        }
    }
}

/// The page of a job's preview is named by the job's id.
pub proof fn lemma_preview_pages(id: u32)
    ensures
        spec_route(Verb::Get, "/jobs/"@ + dec(id as nat) + "/preview.png"@) == Route::Preview(Some(id)),
{
    reveal_strlit("/health");
    reveal_strlit("/");
    reveal_strlit("/strings/en.strings");
    reveal_strlit("/icons/");
    reveal_strlit("/jobs/");
    reveal_strlit("/preview.png");
    let d = dec(id as nat);
    let (a, b) = ("/jobs/"@, "/preview.png"@);
    let path = a + d + b;
    lemma_dec_reads_back(id as nat);
    assert(is_digit(d[0]) && is_digit(d.last()));
    assert(path[1] == 'j');
    assert("/health"@[1] == 'h' && "/strings/en.strings"@[1] == 's');
    if starts_with(path, "/icons/"@) {
        assert(path.subrange(0, 7)[1] == 'i');
    }
    assert(path.subrange(0, 6) =~= a);
    assert(path.subrange(path.len() - 12, path.len() as int) =~= b);
    assert(starts_with(path, a) && ends_with(path, b));
    let t = path.skip(6);
    assert(t =~= d + b);
    assert(t[0] == d[0]);
    if starts_with(t, a) {
        assert(t.subrange(0, 6)[0] == '/');
    }
    reveal_with_fuel(without_prefixes, 2);
    assert(without_prefixes(path, a) == t);
    assert(t.subrange(t.len() - 12, t.len() as int) =~= b);
    let u = t.take(t.len() - 12);
    assert(u =~= d);
    if ends_with(u, b) {
        assert(u.subrange(u.len() - 12, u.len() as int)[11] == 'g');
        assert(u.last() == 'g');
    }
    reveal_with_fuel(without_suffixes, 2);
    assert(without_suffixes(t, b) == d);
}

// ------------------------------------------------------------------ bodies

/// A body that is too large is answered so, under the id and the version of its request, where that can be seen.
pub proof fn lemma_too_large(head: Option<Seq<u8>>)
    ensures
        spec_oversize(head).status.code() == 0x409,
        head matches Some(h) ==> h.len() >= 8 ==> spec_oversize(head).request_id == be32(h, 4) as i32,
        head matches Some(h) ==> h.len() >= 8 && (h[0] == 1 || h[0] == 2) ==> spec_oversize(head).version == be16(
            h,
            0,
        ),
        head is None || (head->0).len() < 8 ==> spec_oversize(head).request_id == 1 && spec_oversize(
            head,
        ).version == 0x101,
{
}

/// A body that can be read names the job that it is for where it sends a document or closes the job, and none
/// where it does anything else.
pub proof fn lemma_peeked_jobs(body: Seq<u8>, id: Option<u32>)
    requires
        is_peeked(body, id),
    ensures
        id is Some ==> readable(body) && exists|req: Request| #[trigger]
            is_request_of(req, body) && (req.op == 6 || req.op == 0x3B) && spec_job_id(req) == id,
        !readable(body) ==> id is None,
        readable(body) && be16(body, 2) != 6 && be16(body, 2) != 0x3B ==> id is None,
{
    if readable(body) {
        let req = choose|req: Request| #[trigger]
            is_request_of(req, body) && id == if req.op == 6 || req.op == 0x3B {
                spec_job_id(req)
            } else {
                None
            };
        assert(is_request_of(req, body));
    }
}

/// A job whose document streams in is noted as active at once when it is seen, and then whenever five seconds
/// have passed; a body of which 64 KiB came without naming a job is not looked at again.
pub proof fn lemma_streaming_keeps_alive(old: BodyReader, new: BodyReader, step: BodyStep, now_ms: u64)
    requires
        old.is_taken(new, step, now_ms),
        old.last_touch_ms <= now_ms,
    ensures
        old.touched matches Some(i) ==> new.touched == Some(i) && (now_ms - old.last_touch_ms >= 5000 <==> step
            == BodyStep::Touch(i)),
        step matches BodyStep::Touch(i) ==> new.touched == Some(i) && new.last_touch_ms == now_ms,
        !(step is Touch) ==> step is More && new.last_touch_ms == old.last_touch_ms && new.touched == old.touched,
        old.touched is None && new.buf@.len() > 65536 ==> new.peek_failed && new.touched is None,
        old.peek_failed ==> new.touched == old.touched,
        new.max == old.max && new.started_ms == old.started_ms && new.total_ms == old.total_ms,
{
}

// ------------------------------------------------------------------ the status page

/// The latest job stands first on the status page, and after it the rest of what it shows.
pub proof fn lemma_latest_first(m: Map<u32, Job>, ids: Seq<u32>, id: u32, n: nat)
    requires
        n > 0,
    ensures
        rows(m, ids.push(id), n) == row_of(m[id]) + rows(m, ids, (n - 1) as nat),
        rows(m, ids, 0) == Seq::<char>::empty(),
        rows(m, Seq::empty(), n) == Seq::<char>::empty(),
{
    assert(ids.push(id).drop_last() =~= ids);
}

} // verus!
