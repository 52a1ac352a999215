//! The settings that the logic reads.

use vstd::prelude::*;
use vstd::slice::slice_subrange;

use crate::models::Family;
use crate::text::{
    after_prefix, char_is_digit, char_is_hex, chars_of, hex_digit_value, is_digit, is_hex, owned,
    strip_prefix, trim, trim_chars,
};

verus! {

/// Which protocol family to use.
#[derive(Debug, Clone, Copy, PartialEq, Eq, Structural)]
pub enum ModelArg {
    Auto,
    Mxw01,
    Classic,
}

impl ModelArg {
    /// The family that is forced, if one is.
    pub fn family(self) -> (r: Option<Family>)
        ensures
            r == match self {
                ModelArg::Auto => None,
                ModelArg::Mxw01 => Some(Family::Mxw01),
                ModelArg::Classic => Some(Family::Classic),
            },
    {
        match self {
            ModelArg::Auto => None,
            ModelArg::Mxw01 => Some(Family::Mxw01),
            ModelArg::Classic => Some(Family::Classic),
        }
    }
}

/// How notifications are received.
#[derive(Debug, Clone, Copy, PartialEq, Eq, Structural)]
pub enum NotifyMode {
    /// By signals of changed properties.
    Props,
    /// Through an acquired channel.
    Acquire,
}

/// A switch.
#[derive(Debug, Clone, Copy, PartialEq, Eq, Structural)]
pub enum OnOff {
    On,
    Off,
}

/// Which printer, and how to talk to it.
#[derive(Debug)]
pub struct BleArgs {
    /// MAC address or advertised name; any known cat printer with the strongest signal otherwise.
    pub device: Option<String>,
    pub model: ModelArg,
    /// Bluetooth adapter; the first that is powered otherwise.
    pub adapter: Option<String>,
    /// One row per write (weak links).
    pub slow: bool,
    /// Milliseconds between bulk writes.
    pub pacing_ms: u64,
    pub notify_mode: NotifyMode,
}

/// Settings of the service.
#[derive(Debug)]
pub struct ServeArgs {
    /// The address that is bound, as text.
    pub bind: String,
    pub port: u16,
    /// Seconds that a job keeps trying to reach the printer.
    pub printer_wait: u64,
    /// Print to files in this directory (testing).
    pub fake_printer: Option<String>,
    pub queue_max: usize,
    pub max_document_mb: usize,
    pub max_lines: u32,
    pub max_lines_per_request: u32,
    pub max_copies: u32,
    pub resolutions: Vec<u32>,
    pub dnssd: OnOff,
    pub dnssd_name: String,
    pub printer_name: String,
    /// The CUPS queue whose uuid is adopted.
    pub queue: String,
    /// A fixed uuid.
    pub uuid: Option<String>,
    pub location: String,
    pub ble: BleArgs,
}

/// Settings of `check`.
#[derive(Debug)]
pub struct CheckArgs {
    pub port: u16,
    pub adapter: Option<String>,
}

/// Settings of `print`.
#[derive(Debug)]
pub struct PrintArgs {
    pub file: String,
    pub quality: String,
    /// Force one bit even at high quality.
    pub bi_level: bool,
    /// Treat pages as sheets.
    pub sheet: bool,
    pub dither: Option<String>,
    pub intensity: Option<u8>,
    pub copies: u32,
    pub preview_only: Option<String>,
    /// Do not rotate.
    pub top_first: bool,
    pub max_lines: u32,
    pub ble: BleArgs,
}

/// Settings of `ensure-queue`.
#[derive(Debug)]
pub struct EnsureQueueArgs {
    pub queue: String,
    pub port: u16,
    pub location: String,
    /// Remove the queue.
    pub remove: bool,
    /// Seconds to wait for the daemon and cupsd.
    pub wait: u64,
}

/// The character is a digit.
pub open spec fn is_digit_in(c: char, hex: bool) -> bool {
    if hex {
        is_hex(c)
    } else {
        is_digit(c)
    }
}

/// The number that digits stand for.
pub open spec fn number_of(d: Seq<char>, hex: bool) -> nat
    decreases d.len(),
{
    if d.len() == 0 {
        0
    } else {
        (if hex {
            16
        } else {
            10nat
        }) * number_of(d.drop_last(), hex) + hex_digit_value(d.last())
    }
}

/// What is wrong with digits, at the first place where something is.
pub open spec fn digits_error(d: Seq<char>, hex: bool) -> Option<&'static str>
    decreases d.len(),
{
    if d.len() == 0 {
        None
    } else if digits_error(d.drop_last(), hex) is Some {
        digits_error(d.drop_last(), hex)
    } else if !is_digit_in(d.last(), hex) {
        Some("invalid digit found in string")
    } else if number_of(d, hex) > u32::MAX {
        Some("number too large to fit in target type")
    } else {
        None
    }
}

/// What is wrong with a number of 32 bits; a plus sign may come first.
pub open spec fn number_error(s: Seq<char>, hex: bool) -> Option<&'static str> {
    if s.len() == 0 {
        Some("cannot parse integer from empty string")
    } else {
        digits_error(digits_part(s), hex)
    }
}

/// A number without the plus sign that may come first.
pub open spec fn digits_part(s: Seq<char>) -> Seq<char> {
    if s.len() > 1 && s[0] == '+' {
        s.skip(1)
    } else {
        s
    }
}

fn read_number(s: &[char], hex: bool) -> (r: Result<u32, &'static str>)
    ensures
        match r {
            Ok(n) => number_error(s@, hex) is None && n == number_of(digits_part(s@), hex),
            Err(e) => number_error(s@, hex) == Some(e),
        },
{
    if s.len() == 0 {
        return Err("cannot parse integer from empty string");
    }
    let d = if s.len() > 1 && s[0] == '+' {
        slice_subrange(s, 1, s.len())
    } else {
        s
    };
    assert(d@ =~= digits_part(s@));
    let mut n: u64 = 0;
    let mut i: usize = 0;
    assert(d@.take(0) =~= Seq::<char>::empty());
    while i < d.len()
        invariant
            i <= d.len(),
            d@ == digits_part(s@),
            s@.len() > 0,
            digits_error(d@.take(i as int), hex) is None,
            n == number_of(d@.take(i as int), hex),
            n <= u32::MAX,
        decreases d.len() - i,
    {
        let c = d[i];
        let ok = if hex {
            char_is_hex(c)
        } else {
            char_is_digit(c)
        };
        assert(d@.take(i as int + 1).drop_last() =~= d@.take(i as int));
        if !ok {
            proof {
                lemma_error_stays(d@, hex, i as int + 1);
            }
            return Err("invalid digit found in string");
        }
        let v: u64 = if '0' <= c && c <= '9' {
            (c as u8 - '0' as u8) as u64
        } else if 'a' <= c && c <= 'f' {
            (c as u8 - 'a' as u8 + 10) as u64
        } else {
            (c as u8 - 'A' as u8 + 10) as u64
        };
        n = if hex {
            16 * n + v
        } else {
            10 * n + v
        };
        if n > u32::MAX as u64 {
            proof {
                lemma_error_stays(d@, hex, i as int + 1);
            }
            return Err("number too large to fit in target type");
        }
        i += 1;
    }
    assert(d@.take(d@.len() as int) =~= d@);
    Ok(n as u32)
}

/// What is wrong with the first digits is what is wrong with all.
proof fn lemma_error_stays(d: Seq<char>, hex: bool, k: int)
    requires
        0 <= k <= d.len(),
        digits_error(d.take(k), hex) is Some,
    ensures
        digits_error(d, hex) == digits_error(d.take(k), hex),
    decreases d.len(),
{
    if k < d.len() {
        assert(d.drop_last().take(k) =~= d.take(k));
        lemma_error_stays(d.drop_last(), hex, k);
    } else {
        assert(d.take(k) =~= d);
    }
}

/// The digits of a number that is in hexadecimal after `0x` and else in decimal, and which it is.
pub open spec fn auto_digits(s: Seq<char>) -> (Seq<char>, bool) {
    let t = trim(s);
    if after_prefix(t, "0x"@) is Some {
        (after_prefix(t, "0x"@)->0, true)
    } else if after_prefix(t, "0X"@) is Some {
        (after_prefix(t, "0X"@)->0, true)
    } else {
        (t, false)
    }
}

/// A number of 8 bits in decimal, or in hexadecimal after `0x`.
pub fn parse_u8_auto(s: &str) -> (r: Result<u8, String>)
    ensures
        ({
            let (d, hex) = auto_digits(s@);
            match number_error(d, hex) {
                Some(e) => r matches Err(m) && m@ == e@,
                None => if number_of(digits_part(d), hex) <= 255 {
                    r matches Ok(v) && v == number_of(digits_part(d), hex)
                } else {
                    r matches Err(m) && m@ == "must be 0..=255"@
                },
            }
        }),
{
    let cs = chars_of(s);
    let t = trim_chars(cs.as_slice());
    let v = match strip_prefix(t, "0x") {
        Some(h) => read_number(h, true),
        None => match strip_prefix(t, "0X") {
            Some(h) => read_number(h, true),
            None => read_number(t, false),
        },
    };
    match v {
        Ok(n) => if n <= 255 {
            Ok(n as u8)
        } else {
            Err(owned("must be 0..=255"))
        },
        Err(e) => Err(owned(e)),
    }
}

} // verus!
