//! The documents of requests: which formats and compressions are taken, and how they are unpacked.

use std::io::Read;

use vstd::prelude::*;

use crate::engine::SubmitError;
use crate::ipp::codec::{v_kw, v_mime, Group, Request, Resp, Status};
use crate::ipp::options::text_or;
use crate::ipp::response::{refusal, refuse, with_group, Answer};
use crate::ipp::value::{
    attr_models, attr_writable, attrs_writable, writable, Attr, StrKind, Value, ValueView,
};
use crate::ipp::{COMPRESSIONS, DOCUMENT_FORMATS};
use crate::text::{
    chars_of, eq_fold_str, is_text, lower, lower_chars, owned, same_fold, string_of, within_bytes,
};

verus! {

// ------------------------------------------------------------------ unpacking

/// At most `limit` bytes of a gzip stream (of one or more members) unpacked, or what is wrong with it.
pub uninterp spec fn gunzipped(data: Seq<u8>, limit: nat) -> Result<Seq<u8>, Seq<char>>;

/// At most `limit` bytes of a zlib stream unpacked, or what is wrong with it.
pub uninterp spec fn unzlibbed(data: Seq<u8>, limit: nat) -> Result<Seq<u8>, Seq<char>>;

/// At most `limit` bytes of a raw deflate stream unpacked, or what is wrong with it.
pub uninterp spec fn inflated(data: Seq<u8>, limit: nat) -> Result<Seq<u8>, Seq<char>>;

/// The view of what came of unpacking.
pub open spec fn unpacked_view(r: Result<Vec<u8>, String>) -> Result<Seq<u8>, Seq<char>> {
    match r {
        Ok(v) => Ok(v@),
        Err(e) => Err(e@),
    }
}

/// `flate2::read::MultiGzDecoder` read to its end, but for at most `limit` bytes: a function of the
/// data and the limit, and never more than the limit.
#[verifier::external_body]
fn gunzip(data: &[u8], limit: u64) -> (r: Result<Vec<u8>, String>)
    ensures
        unpacked_view(r) == gunzipped(data@, limit as nat),
        r is Ok ==> r->Ok_0@.len() <= limit,
{
    let mut v: Vec<u8> = Vec::new();
    match flate2::read::MultiGzDecoder::new(data).take(limit).read_to_end(&mut v) {
        Ok(_) => Ok(v),
        Err(e) => Err(e.to_string()),
    }
}

/// `flate2::read::ZlibDecoder` read to its end, but for at most `limit` bytes: a function of the data
/// and the limit, and never more than the limit.
#[verifier::external_body]
fn unzlib(data: &[u8], limit: u64) -> (r: Result<Vec<u8>, String>)
    ensures
        unpacked_view(r) == unzlibbed(data@, limit as nat),
        r is Ok ==> r->Ok_0@.len() <= limit,
{
    let mut v: Vec<u8> = Vec::new();
    match flate2::read::ZlibDecoder::new(data).take(limit).read_to_end(&mut v) {
        Ok(_) => Ok(v),
        Err(e) => Err(e.to_string()),
    }
}

/// `flate2::read::DeflateDecoder` read to its end, but for at most `limit` bytes: a function of the
/// data and the limit, and never more than the limit.
#[verifier::external_body]
fn inflate(data: &[u8], limit: u64) -> (r: Result<Vec<u8>, String>)
    ensures
        unpacked_view(r) == inflated(data@, limit as nat),
        r is Ok ==> r->Ok_0@.len() <= limit,
{
    let mut v: Vec<u8> = Vec::new();
    match flate2::read::DeflateDecoder::new(data).take(limit).read_to_end(&mut v) {
        Ok(_) => Ok(v),
        Err(e) => Err(e.to_string()),
    }
}

/// One byte more than a document may have is enough to see that it has too many.
pub open spec fn inflate_limit(max: usize) -> nat {
    if max < u64::MAX {
        (max + 1) as nat
    } else {
        max as nat
    }
}

/// What comes of an unpacked document: the document, or the answer that refuses it.
pub open spec fn accepted(
    what: Seq<char>,
    r: Result<Seq<u8>, Seq<char>>,
    max: usize,
    version: u16,
    id: i32,
) -> Result<Seq<u8>, Answer> {
    match r {
        Ok(v) => if v.len() > max {
            Err(
                refusal(
                    version,
                    Status::ClientErrorRequestValueTooLong,
                    id,
                    "document too large for this printer"@,
                ),
            )
        } else {
            Ok(v)
        },
        Err(e) => Err(
            refusal(version, Status::ClientErrorCompressionError, id, what + ": "@ + e),
        ),
    }
}

/// The view of a document or of the answer that refuses it.
pub open spec fn document_view(r: Result<Vec<u8>, Resp>) -> Result<Seq<u8>, Answer> {
    match r {
        Ok(v) => Ok(v@),
        Err(e) => Err(e.answer()),
    }
}

/// What comes of an unpacked document.
pub fn accept_unpacked(
    what: &str,
    r: Result<Vec<u8>, String>,
    max: usize,
    version: u16,
    id: i32,
) -> (d: Result<Vec<u8>, Resp>)
    ensures
        document_view(d) == accepted(what@, unpacked_view(r), max, version, id),
        d is Err ==> d->Err_0.ok(),
{
    match r {
        Ok(v) => if v.len() > max {
            Err(
                refuse(
                    version,
                    Status::ClientErrorRequestValueTooLong,
                    id,
                    "document too large for this printer",
                ),
            )
        } else {
            Ok(v)
        },
        Err(e) => {
            let mut m = owned(what);
            m.push_str(": ");
            m.push_str(e.as_str());
            Err(refuse(version, Status::ClientErrorCompressionError, id, m.as_str()))
        },
    }
}

/// The compression of a request, in small letters.
pub open spec fn compression_of(req: Request) -> Seq<char> {
    lower(text_or(req.text(Some(Group::OperationAttributes), "compression"@), "none"@))
}

/// The document of a request, unpacked as its compression says, or the answer that refuses it. A
/// deflate stream that is no zlib stream is taken for a raw one.
pub open spec fn spec_document(req: Request, max: usize) -> Result<Seq<u8>, Answer> {
    let comp = compression_of(req);
    let limit = inflate_limit(max);
    if comp == "none"@ {
        Ok(req.payload@)
    } else if comp == "gzip"@ {
        accepted("gzip"@, gunzipped(req.payload@, limit), max, req.version, req.request_id)
    } else if comp == "deflate"@ {
        let r = if unzlibbed(req.payload@, limit) is Ok {
            unzlibbed(req.payload@, limit)
        } else {
            inflated(req.payload@, limit)
        };
        accepted("deflate"@, r, max, req.version, req.request_id)
    } else {
        Err(
            refusal(
                req.version,
                Status::ClientErrorCompressionNotSupported,
                req.request_id,
                "compression "@ + comp + " not supported"@,
            ),
        )
    }
}

/// The document of a request, unpacked as its compression says. Unpacking stops one byte beyond the
/// limit, and what is larger is refused as an oversize body is.
pub fn document_bytes(req: &Request, max: usize) -> (r: Result<Vec<u8>, Resp>)
    ensures
        document_view(r) == spec_document(*req, max),
        r is Err ==> r->Err_0.ok(),
{
    let comp = match req.get_str(Some(Group::OperationAttributes), "compression") {
        Some(c) => c,
        None => owned("none"),
    };
    let cs = chars_of(comp.as_str());
    let low = lower_chars(cs.as_slice());
    assert(low@ == compression_of(*req));
    let limit: u64 = if (max as u64) < u64::MAX {
        max as u64 + 1
    } else {
        max as u64
    };
    if is_text(low.as_slice(), "none") {
        let mut v: Vec<u8> = Vec::new();
        v.extend_from_slice(req.payload.as_slice());
        assert(v@ =~= req.payload@);
        Ok(v)
    } else if is_text(low.as_slice(), "gzip") {
        proof {
            reveal_strlit("none");
            reveal_strlit("gzip");
        }
        let r = gunzip(req.payload.as_slice(), limit);
        accept_unpacked("gzip", r, max, req.version, req.request_id)
    } else if is_text(low.as_slice(), "deflate") {
        proof {
            reveal_strlit("none");
            reveal_strlit("gzip");
            reveal_strlit("deflate");
        }
        let r = match unzlib(req.payload.as_slice(), limit) {
            Ok(v) => Ok(v),
            Err(_) => inflate(req.payload.as_slice(), limit),
        };
        accept_unpacked("deflate", r, max, req.version, req.request_id)
    } else {
        let mut m = owned("compression ");
        let c = string_of(low.as_slice());
        m.push_str(c.as_str());
        m.push_str(" not supported");
        Err(
            refuse(
                req.version,
                Status::ClientErrorCompressionNotSupported,
                req.request_id,
                m.as_str(),
            ),
        )
    }
}

// ------------------------------------------------------------------ formats

/// The list holds a word, up to case.
pub open spec fn has_word(words: Seq<&str>, w: Seq<char>) -> bool {
    exists|i: int| 0 <= i < words.len() && same_fold((#[trigger] words[i])@, w)
}

fn holds_word(words: &[&str], w: &str) -> (r: bool)
    ensures
        r == has_word(words@, w@),
{
    let mut i: usize = 0;
    while i < words.len()
        invariant
            i <= words.len(),
            forall|k: int| 0 <= k < i ==> !same_fold((#[trigger] words@[k])@, w@),
        decreases words.len() - i,
    {
        if eq_fold_str(words[i], w) {
            assert(same_fold(words@[i as int]@, w@));
            return true;
        }
        i += 1;
    }
    false
}

/// A refusal that names the attribute that is not supported.
pub open spec fn unsupported(
    req: Request,
    status: Status,
    msg: Seq<char>,
    name: Seq<char>,
    value: ValueView,
) -> Answer {
    with_group(
        refusal(req.version, status, req.request_id, msg),
        Group::UnsupportedAttributes,
        seq![(within_bytes(name, 255), value)],
    )
}

/// The answer that refuses a request for its document format or its compression.
pub open spec fn format_refusal(req: Request) -> Option<Answer> {
    let op = Some(Group::OperationAttributes);
    let f = req.text(op, "document-format"@);
    let c = req.text(op, "compression"@);
    if f is Some && !has_word(DOCUMENT_FORMATS@, f->0) {
        Some(
            unsupported(
                req,
                Status::ClientErrorDocumentFormatNotSupported,
                "document format not supported"@,
                "document-format"@,
                ValueView::Str(StrKind::Mime, within_bytes(f->0, 255)),
            ),
        )
    } else if c is Some && !has_word(COMPRESSIONS@, c->0) {
        Some(
            unsupported(
                req,
                Status::ClientErrorCompressionNotSupported,
                "compression not supported"@,
                "compression"@,
                ValueView::Str(StrKind::Keyword, within_bytes(c->0, 255)),
            ),
        )
    } else {
        None
    }
}

/// A list of one attribute.
pub fn one_attr(name: &str, value: Value) -> (r: Vec<Attr>)
    requires
        writable(value.model()),
    ensures
        attr_models(r@) == seq![(within_bytes(name@, 255), value.model())],
        attrs_writable(attr_models(r@)),
{
    let mut r: Vec<Attr> = Vec::new();
    r.push(Attr { name: crate::ipp::codec::utf8_prefix(name, 255), value });
    assert(attr_models(r@) =~= seq![(within_bytes(name@, 255), value.model())]);
    assert(attr_writable(attr_models(r@)[0]));
    r
}

/// The document checks that Print-Job, Validate-Job and Send-Document share.
pub fn check_document_format(req: &Request) -> (r: Option<Resp>)
    ensures
        match r {
            Some(a) => format_refusal(*req) == Some(a.answer()) && a.ok(),
            None => format_refusal(*req) is None,
        },
{
    let op = Some(Group::OperationAttributes);
    if let Some(f) = req.get_str(op, "document-format") {
        if !holds_word(&DOCUMENT_FORMATS, f.as_str()) {
            let mut r = refuse(
                req.version,
                Status::ClientErrorDocumentFormatNotSupported,
                req.request_id,
                "document format not supported",
            );
            r.push_attrs(
                Group::UnsupportedAttributes,
                one_attr("document-format", v_mime(f.as_str())),
            );
            return Some(r);
        }
    }
    if let Some(c) = req.get_str(op, "compression") {
        if !holds_word(&COMPRESSIONS, c.as_str()) {
            let mut r = refuse(
                req.version,
                Status::ClientErrorCompressionNotSupported,
                req.request_id,
                "compression not supported",
            );
            r.push_attrs(Group::UnsupportedAttributes, one_attr("compression", v_kw(c.as_str())));
            return Some(r);
        }
    }
    None
}

// ------------------------------------------------------------------ submissions

/// The answer to a submission that the engine refuses.
pub open spec fn submit_refusal(req: Request, e: SubmitError) -> Answer {
    let (status, msg) = match e {
        SubmitError::Busy(_) => (Status::ServerErrorBusy, "printer is busy, try again"@),
        SubmitError::NotAccepting => (Status::ServerErrorBusy, "printer is busy, try again"@),
        SubmitError::TooLarge(_) => (
            Status::ClientErrorRequestValueTooLong,
            "document too large"@,
        ),
        SubmitError::BadFormat => (
            Status::ClientErrorDocumentFormatNotSupported,
            "document format not supported"@,
        ),
        SubmitError::Empty => (Status::ClientErrorBadRequest, "empty document"@),
        SubmitError::NotFound(_) => (Status::ClientErrorNotFound, "job not found"@),
        SubmitError::HasDocument(_) => (
            Status::ServerErrorMultipleDocumentJobsNotSupported,
            "job already has a document"@,
        ),
    };
    refusal(req.version, status, req.request_id, msg)
}

/// The answer to a submission that the engine refuses.
pub fn submit_error(req: &Request, e: SubmitError) -> (r: Resp)
    ensures
        r.ok(),
        r.answer() == submit_refusal(*req, e),
{
    let (status, msg) = match e {
        SubmitError::Busy(_) => (Status::ServerErrorBusy, "printer is busy, try again"),
        SubmitError::NotAccepting => (Status::ServerErrorBusy, "printer is busy, try again"),
        SubmitError::TooLarge(_) => (
            Status::ClientErrorRequestValueTooLong,
            "document too large",
        ),
        SubmitError::BadFormat => (
            Status::ClientErrorDocumentFormatNotSupported,
            "document format not supported",
        ),
        SubmitError::Empty => (Status::ClientErrorBadRequest, "empty document"),
        SubmitError::NotFound(_) => (Status::ClientErrorNotFound, "job not found"),
        SubmitError::HasDocument(_) => (
            Status::ServerErrorMultipleDocumentJobsNotSupported,
            "job already has a document",
        ),
    };
    refuse(req.version, status, req.request_id, msg)
}

} // verus!
