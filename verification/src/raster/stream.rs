//! Reading raster streams: the sync word, then for each page its header and its lines.
//!
//! In version 2 lines are coded: a line begins with a byte that says how often it is repeated, and goes
//! on with runs. A run byte up to 127 is followed by one pixel, which stands there once more than the
//! byte says; one from 129 on by 257 less the byte pixels; and 128 leaves the rest of the line white. In
//! version 3 lines stand as they are.

use vstd::prelude::*;
use vstd::slice::slice_subrange;

use crate::raster::{PwgHeader, Sync, HEADER_LEN};
use crate::text::string_of;

verus! {

// ------------------------------------------------------------------ headers

/// The stream is high byte first.
pub open spec fn is_big(s: Sync) -> bool {
    s == Sync::V2BigEndian || s == Sync::V3BigEndian
}

/// The lines are coded.
pub open spec fn is_coded(s: Sync) -> bool {
    s == Sync::V2BigEndian || s == Sync::V2LittleEndian
}

/// The number of 32 bits at a place.
pub open spec fn word(b: Seq<u8>, at: int, big: bool) -> u32 {
    (if big {
        16777216 * b[at] + 65536 * b[at + 1] + 256 * b[at + 2] + b[at + 3]
    } else {
        16777216 * b[at + 3] + 65536 * b[at + 2] + 256 * b[at + 1] + b[at]
    }) as u32
}

fn read_word(b: &[u8], at: usize, big: bool) -> (r: u32)
    requires
        at + 4 <= b@.len(),
    ensures
        r == word(b@, at as int, big),
{
    assert(b@.len() == b.len());
    if big {
        16777216 * (b[at] as u32) + 65536 * (b[at + 1] as u32) + 256 * (b[at + 2] as u32) + b[at + 3]
            as u32
    } else {
        16777216 * (b[at + 3] as u32) + 65536 * (b[at + 2] as u32) + 256 * (b[at + 1] as u32)
            + b[at] as u32
    }
}

/// A number of 32 bits with a sign.
pub open spec fn with_sign(n: u32) -> i32 {
    if n < 0x8000_0000 {
        n as i32
    } else {
        (n - 0x1_0000_0000) as i32
    }
}

fn read_signed(b: &[u8], at: usize, big: bool) -> (r: i32)
    requires
        at + 4 <= b@.len(),
    ensures
        r == with_sign(word(b@, at as int, big)),
{
    let n: u32 = read_word(b, at, big);
    if n < 0x8000_0000 {
        n as i32
    } else {
        (n as i64 - 0x1_0000_0000) as i32
    }
}

/// The text at a place: up to a zero byte, at most 64 bytes, one character for each.
pub open spec fn text_at(b: Seq<u8>, at: int, n: int) -> Seq<char>
    decreases 64 - n,
{
    if n >= 64 || n < 0 || b[at + n] == 0 {
        Seq::empty()
    } else {
        seq![b[at + n] as char] + text_at(b, at, n + 1)
    }
}

fn read_text(b: &[u8], at: usize) -> (r: String)
    requires
        at + 64 <= b@.len(),
    ensures
        r@ == text_at(b@, at as int, 0),
{
    let mut out: Vec<char> = Vec::new();
    let mut n: usize = 0;
    assert(b@.len() == b.len());
    assert(out@ + text_at(b@, at as int, 0) =~= text_at(b@, at as int, 0));
    while n < 64 && b[at + n] != 0
        invariant
            n <= 64,
            at + 64 <= b.len(),
            out@ + text_at(b@, at as int, n as int) == text_at(b@, at as int, 0),
        decreases 64 - n,
    {
        let ghost was = out@;
        let c = b[at + n] as char;
        out.push(c);
        assert(was + (seq![c] + text_at(b@, at as int, n as int + 1)) =~= out@ + text_at(
            b@,
            at as int,
            n as int + 1,
        ));
        n += 1;
    }
    assert(text_at(b@, at as int, n as int) =~= Seq::<char>::empty());
    assert(out@ + Seq::<char>::empty() =~= out@);
    string_of(out.as_slice())
}

/// `h` is the header at a place.
pub open spec fn is_header(h: PwgHeader, b: Seq<u8>, at: int, sync: Sync) -> bool {
    let big = is_big(sync);
    &&& h.sync == sync
    &&& h.media_type@ == text_at(b, at + 128, 0)
    &&& h.output_type@ == text_at(b, at + 192, 0)
    &&& h.hw_resolution == (word(b, at + 276, big), word(b, at + 280, big))
    &&& h.num_copies == word(b, at + 340, big)
    &&& h.orientation == word(b, at + 344, big)
    &&& h.page_size_pt == (word(b, at + 352, big), word(b, at + 356, big))
    &&& h.width == word(b, at + 372, big)
    &&& h.height == word(b, at + 376, big)
    &&& h.bits_per_color == word(b, at + 384, big)
    &&& h.bits_per_pixel == word(b, at + 388, big)
    &&& h.bytes_per_line == word(b, at + 392, big)
    &&& h.color_order == word(b, at + 396, big)
    &&& h.color_space == word(b, at + 400, big)
    &&& h.compression == word(b, at + 404, big)
    &&& h.total_page_count == word(b, at + 452, big)
    &&& h.cross_feed_transform == with_sign(word(b, at + 456, big))
    &&& h.feed_transform == with_sign(word(b, at + 460, big))
    &&& h.page_size_name@ == text_at(b, at + 644, 0)
}

pub(crate) fn read_header(b: &[u8], at: usize, sync: Sync) -> (h: PwgHeader)
    requires
        at + HEADER_LEN <= b@.len(),
    ensures
        is_header(h, b@, at as int, sync),
{
    let big = sync == Sync::V2BigEndian || sync == Sync::V3BigEndian;
    assert(b@.len() == b.len());
    PwgHeader {
        sync,
        media_type: read_text(b, at + 128),
        output_type: read_text(b, at + 192),
        hw_resolution: (read_word(b, at + 276, big), read_word(b, at + 280, big)),
        num_copies: read_word(b, at + 340, big),
        orientation: read_word(b, at + 344, big),
        page_size_pt: (read_word(b, at + 352, big), read_word(b, at + 356, big)),
        width: read_word(b, at + 372, big),
        height: read_word(b, at + 376, big),
        bits_per_color: read_word(b, at + 384, big),
        bits_per_pixel: read_word(b, at + 388, big),
        bytes_per_line: read_word(b, at + 392, big),
        color_order: read_word(b, at + 396, big),
        color_space: read_word(b, at + 400, big),
        compression: read_word(b, at + 404, big),
        total_page_count: read_word(b, at + 452, big),
        cross_feed_transform: read_signed(b, at + 456, big),
        feed_transform: read_signed(b, at + 460, big),
        page_size_name: read_text(b, at + 644),
    }
}

// ------------------------------------------------------------------ lines

/// How the lines of a page are coded.
pub struct Coding {
    /// Bytes of a line.
    pub len: int,
    /// Bytes that repeat together.
    pub unit: int,
    /// The byte of white.
    pub white: u8,
    /// In runs, or as they are.
    pub coded: bool,
}

/// `n` times the bytes of a pixel.
pub open spec fn repeated(pixel: Seq<u8>, n: int) -> Seq<u8>
    decreases n,
{
    if n <= 0 {
        Seq::empty()
    } else {
        repeated(pixel, n - 1) + pixel
    }
}

/// `n` bytes of white.
pub open spec fn whites(n: int, white: u8) -> Seq<u8> {
    Seq::new(n as nat, |i: int| white)
}

/// Bytes of a line, and where they end.
pub struct Unpacked {
    pub line: Seq<u8>,
    pub end: int,
}

/// The rest of a line of which `left` bytes are missing, and where it ends; `None` where the stream ends
/// before. What goes beyond the line is cut off.
pub open spec fn unpack(b: Seq<u8>, pos: int, left: int, unit: int, white: u8) -> Option<Unpacked>
    decreases left,
    via unpack_decreases
{
    if left <= 0 || unit < 1 {
        Some(Unpacked { line: Seq::empty(), end: pos })
    } else if pos < 0 || pos >= b.len() {
        None
    } else {
        let c = b[pos] as int;
        if c == 128 {
            Some(Unpacked { line: whites(left, white), end: pos + 1 })
        } else if c < 128 {
            if pos + 1 + unit > b.len() {
                None
            } else {
                let run = repeated(b.subrange(pos + 1, pos + 1 + unit), c + 1);
                if (c + 1) * unit >= left {
                    Some(Unpacked { line: run.take(left), end: pos + 1 + unit })
                } else {
                    match unpack(b, pos + 1 + unit, left - (c + 1) * unit, unit, white) {
                        Some(u) => Some(Unpacked { line: run + u.line, end: u.end }),
                        None => None,
                    }
                }
            }
        } else {
            let n = if (257 - c) * unit < left {
                (257 - c) * unit
            } else {
                left
            };
            if pos + 1 + n > b.len() {
                None
            } else {
                match unpack(b, pos + 1 + n, left - n, unit, white) {
                    Some(u) => Some(
                        Unpacked { line: b.subrange(pos + 1, pos + 1 + n) + u.line, end: u.end },
                    ),
                    None => None,
                }
            }
        }
    }
}

#[via_fn]
proof fn unpack_decreases(b: Seq<u8>, pos: int, left: int, unit: int, white: u8) {
    if left > 0 && unit >= 1 && 0 <= pos < b.len() {
        let c = b[pos] as int;
        assert((c + 1) * unit >= 1 && (257 - c) * unit >= 1) by (nonlinear_arith)
            requires
                0 <= c <= 255,
                unit >= 1,
        ;
    }
}

/// The next line, how often it stands there, and where it ends.
pub open spec fn next_row(b: Seq<u8>, pos: int, c: Coding) -> Option<(Seq<u8>, int, int)> {
    if c.coded {
        if pos >= b.len() {
            None
        } else {
            match unpack(b, pos + 1, c.len, c.unit, c.white) {
                Some(u) => Some((u.line, b[pos] + 1, u.end)),
                None => None,
            }
        }
    } else if pos + c.len > b.len() {
        None
    } else {
        Some((b.subrange(pos, pos + c.len), 1, pos + c.len))
    }
}

/// The lesser of two.
pub open spec fn least(a: int, b: int) -> int {
    if a < b {
        a
    } else {
        b
    }
}

/// `n` times a line.
pub open spec fn copies(line: Seq<u8>, n: int) -> Seq<Seq<u8>> {
    Seq::new(n as nat, |i: int| line)
}

/// The next `left` lines after those of `acc`, and where they end; `None` for the end where the stream
/// ends before, with the lines up to there.
pub open spec fn rows(b: Seq<u8>, pos: int, left: int, c: Coding, acc: Seq<Seq<u8>>) -> (
    Seq<Seq<u8>>,
    Option<int>,
)
    decreases left,
{
    if left <= 0 {
        (acc, Some(pos))
    } else {
        match next_row(b, pos, c) {
            None => (acc, None),
            Some((line, count, end)) => {
                let k = least(count, left);
                if k < 1 {
                    (acc, None)
                } else {
                    rows(b, end, left - k, c, acc + copies(line, k))
                }
            },
        }
    }
}

/// A line that is coded ends within the stream, and has its length.
pub proof fn lemma_unpack(b: Seq<u8>, pos: int, left: int, unit: int, white: u8)
    requires
        0 <= pos <= b.len(),
        left >= 0,
        unit >= 1,
    ensures
        match unpack(b, pos, left, unit, white) {
            Some(u) => u.line.len() == left && pos <= u.end <= b.len(),
            None => true,
        },
    decreases left,
{
    if left > 0 && pos < b.len() {
        let c = b[pos] as int;
        if c < 128 {
            lemma_repeated_len(b.subrange(pos + 1, pos + 1 + unit), c + 1);
            if pos + 1 + unit <= b.len() && (c + 1) * unit < left {
                assert((c + 1) * unit >= 1) by (nonlinear_arith)
                    requires
                        c >= 0,
                        unit >= 1,
                ;
                lemma_unpack(b, pos + 1 + unit, left - (c + 1) * unit, unit, white);
            }
        } else if c > 128 {
            assert((257 - c) * unit >= 1) by (nonlinear_arith)
                requires
                    c <= 255,
                    unit >= 1,
            ;
            let n = if (257 - c) * unit < left {
                (257 - c) * unit
            } else {
                left
            };
            if pos + 1 + n <= b.len() {
                lemma_unpack(b, pos + 1 + n, left - n, unit, white);
            }
        }
    }
}

proof fn lemma_repeated_len(p: Seq<u8>, n: int)
    requires
        n >= 0,
    ensures
        repeated(p, n).len() == n * p.len(),
    decreases n,
{
    if n > 0 {
        lemma_repeated_len(p, n - 1);
        assert((n - 1) * p.len() + p.len() == n * p.len()) by (nonlinear_arith);
    } else {
        assert(0 * p.len() == 0) by (nonlinear_arith);
    }
}

/// More of a run: its first `k` bytes.
proof fn lemma_repeated_at(p: Seq<u8>, n: int, k: int)
    requires
        0 <= k < n * p.len(),
        p.len() > 0,
        n >= 0,
    ensures
        repeated(p, n)[k] == p[k % (p.len() as int)],
    decreases n,
{
    let u = p.len() as int;
    assert(n >= 1) by (nonlinear_arith)
        requires
            0 <= k < n * u,
            u > 0,
    ;
    lemma_repeated_len(p, n - 1);
    assert((n - 1) * u + u == n * u) by (nonlinear_arith);
    if k < (n - 1) * u {
        assert(n >= 2) by (nonlinear_arith)
            requires
                0 <= k < (n - 1) * u,
                u > 0,
        ;
        lemma_repeated_at(p, n - 1, k);
    } else {
        let j = k - (n - 1) * u;
        assert(repeated(p, n)[k] == p[j]);
        vstd::arithmetic::div_mod::lemma_fundamental_div_mod_converse(k, u, n - 1, j);
    }
}

/// Appends the first `n` bytes of a run of the pixel at `at`.
fn push_run(out: &mut Vec<u8>, b: &[u8], at: usize, unit: usize, count: usize, n: usize)
    requires
        unit >= 1,
        at + unit <= b@.len(),
        n <= count * unit,
    ensures
        final(out)@ == old(out)@ + repeated(
            b@.subrange(at as int, at + unit),
            count as int,
        ).take(n as int),
{
    let ghost p = b@.subrange(at as int, at + unit);
    let ghost run = repeated(p, count as int);
    proof {
        lemma_repeated_len(p, count as int);
    }
    assert(b@.len() == b.len());
    let mut i: usize = 0;
    let mut j: usize = 0;
    while i < n
        invariant
            i <= n,
            unit >= 1,
            at + unit <= b.len(),
            n <= count * unit,
            p == b@.subrange(at as int, at + unit),
            run == repeated(p, count as int),
            run.len() == count * unit,
            j == i as int % unit as int,
            j < unit,
            out@ == old(out)@ + run.take(i as int),
        decreases n - i,
    {
        proof {
            lemma_repeated_at(p, count as int, i as int);
        }
        out.push(b[at + j]);
        assert(run.take(i as int + 1) =~= run.take(i as int).push(run[i as int]));
        proof {
            vstd::arithmetic::div_mod::lemma_fundamental_div_mod(i as int, unit as int);
            let q = i as int / unit as int;
            if j + 1 == unit {
                assert((q + 1) * unit == unit * q + unit) by (nonlinear_arith);
                vstd::arithmetic::div_mod::lemma_fundamental_div_mod_converse(
                    i as int + 1,
                    unit as int,
                    q + 1,
                    0,
                );
            } else {
                assert(q * unit == unit * q) by (nonlinear_arith);
                vstd::arithmetic::div_mod::lemma_fundamental_div_mod_converse(
                    i as int + 1,
                    unit as int,
                    q,
                    j as int + 1,
                );
            }
        }
        j = if j + 1 == unit {
            0
        } else {
            j + 1
        };
        i += 1;
    }
}

/// The rest of a line. Where it is not kept, only its end is found.
pub(crate) fn read_line(b: &[u8], from: usize, len: usize, unit: usize, white: u8, keep: bool) -> (r: Option<
    (Vec<u8>, usize),
>)
    requires
        from <= b@.len(),
        1 <= unit <= 0x2000_0000,
    ensures
        match r {
            Some((line, end)) => {
                &&& unpack(b@, from as int, len as int, unit as int, white) matches Some(u)
                &&& u.end == end
                &&& from <= end <= b@.len()
                &&& keep ==> line@ == u.line && line@.len() == len
            },
            None => unpack(b@, from as int, len as int, unit as int, white) is None,
        },
{
    let mut out: Vec<u8> = Vec::new();
    let mut pos: usize = from;
    let mut left: usize = len;
    let ghost whole = unpack(b@, from as int, len as int, unit as int, white);
    proof {
        lemma_unpack(b@, from as int, len as int, unit as int, white);
        if whole is Some {
            assert(out@ + (whole->0).line =~= (whole->0).line);
        }
    }
    while left > 0
        invariant
            left <= len,
            from <= pos <= b@.len(),
            1 <= unit <= 0x2000_0000,
            whole == unpack(b@, from as int, len as int, unit as int, white),
            whole is Some ==> (whole->0).line.len() == len,
            match unpack(b@, pos as int, left as int, unit as int, white) {
                Some(u) => {
                    &&& whole is Some
                    &&& (whole->0).end == u.end
                    &&& keep ==> (whole->0).line == out@ + u.line
                },
                None => whole is None,
            },
        decreases left,
    {
        proof {
            lemma_unpack(b@, pos as int, left as int, unit as int, white);
        }
        if pos >= b.len() {
            return None;
        }
        let c: usize = b[pos] as usize;
        let ghost was = out@;
        if c == 128 {
            if keep {
                let mut i: usize = 0;
                while i < left
                    invariant
                        i <= left,
                        out@ == was + whites(i as int, white),
                    decreases left - i,
                {
                    out.push(white);
                    assert(whites(i as int + 1, white) =~= whites(i as int, white).push(white));
                    i += 1;
                }
            }
            return Some((out, pos + 1));
        }
        if c < 128 {
            if unit > b.len() - pos - 1 {
                return None;
            }
            assert((c + 1) * unit <= 128 * 0x2000_0000) by (nonlinear_arith)
                requires
                    c < 128,
                    unit <= 0x2000_0000,
            ;
            assert((c + 1) * unit >= 1) by (nonlinear_arith)
                requires
                    c >= 0,
                    unit >= 1,
            ;
            let total: u64 = (c as u64 + 1) * unit as u64;
            let ghost run = repeated(b@.subrange(pos as int + 1, pos + 1 + unit), c + 1);
            proof {
                lemma_repeated_len(b@.subrange(pos as int + 1, pos + 1 + unit), c + 1);
            }
            if total >= left as u64 {
                if keep {
                    push_run(&mut out, b, pos + 1, unit, c + 1, left);
                }
                return Some((out, pos + 1 + unit));
            }
            if keep {
                push_run(&mut out, b, pos + 1, unit, c + 1, total as usize);
                assert(run.take(total as int) =~= run);
            }
            let ghost rest = unpack(b@, pos + 1 + unit, left - total, unit as int, white);
            assert(keep && rest is Some ==> was + (run + (rest->0).line) =~= out@ + (rest->0).line);
            pos = pos + 1 + unit;
            left = left - total as usize;
        } else {
            assert((257 - c) * unit <= 128 * 0x2000_0000) by (nonlinear_arith)
                requires
                    128 < c <= 255,
                    unit <= 0x2000_0000,
            ;
            assert((257 - c) * unit >= 1) by (nonlinear_arith)
                requires
                    c <= 255,
                    unit >= 1,
            ;
            let total: u64 = (257 - c as u64) * unit as u64;
            let n: usize = if total < left as u64 {
                total as usize
            } else {
                left
            };
            if n > b.len() - pos - 1 {
                return None;
            }
            if keep {
                let part = slice_subrange(b, pos + 1, pos + 1 + n);
                out.extend_from_slice(part);
                assert(out@ =~= was + b@.subrange(pos as int + 1, pos + 1 + n));
            }
            let ghost rest = unpack(b@, pos + 1 + n, left - n, unit as int, white);
            assert(keep && rest is Some ==> was + (b@.subrange(pos as int + 1, pos + 1 + n)
                + (rest->0).line) =~= out@ + (rest->0).line);
            pos = pos + 1 + n;
            left = left - n;
        }
    }
    assert(out@ + Seq::<u8>::empty() =~= out@);
    Some((out, pos))
}

} // verus!
