//! `status`: what is said of the printer, and the exit code.

use vstd::prelude::*;

use crate::printer::{Condition, PrintError};
use crate::text::{dec, owned, push_dec};

verus! {

/// The lines that tell the printer's condition.
pub open spec fn condition_lines(c: Condition) -> Seq<Seq<char>> {
    seq!["state    : "@ + c.state@] + (match c.battery {
        Some(b) => seq!["battery  : "@ + dec(b as nat) + "%"@],
        None => Seq::empty(),
    }) + (match c.temperature {
        Some(t) => seq!["temp     : "@ + dec(t as nat)],
        None => Seq::empty(),
    }) + seq!["message  : "@ + c.message@]
}

/// The views of a list of strings.
pub open spec fn views(v: Seq<String>) -> Seq<Seq<char>> {
    Seq::new(v.len(), |i: int| v[i]@)
}

/// The lines that tell the printer's condition.
pub fn status_lines(c: &Condition) -> (r: Vec<String>)
    ensures
        views(r@) == condition_lines(*c),
{
    let mut r: Vec<String> = Vec::new();
    let mut s = owned("state    : ");
    s.push_str(c.state.as_str());
    r.push(s);
    if let Some(b) = c.battery {
        let mut s = owned("battery  : ");
        push_dec(&mut s, b as u64);
        s.push_str("%");
        r.push(s);
    }
    if let Some(t) = c.temperature {
        let mut s = owned("temp     : ");
        push_dec(&mut s, t as u64);
        r.push(s);
    }
    let mut s = owned("message  : ");
    s.push_str(c.message.as_str());
    r.push(s);
    assert(views(r@) =~= condition_lines(*c));
    r
}

/// The exit code: 0 where the printer is in order, 3 where it was not found, 2 otherwise.
pub fn exit_code(r: &Result<Condition, PrintError>) -> (code: i32)
    ensures
        code == match r {
            Ok(c) => if c.ok {
                0i32
            } else {
                2
            },
            Err(PrintError::NotFound) => 3,
            Err(_) => 2,
        },
{
    match r {
        Ok(c) => if c.ok {
            0
        } else {
            2
        },
        Err(PrintError::NotFound) => 3,
        Err(_) => 2,
    }
}

} // verus!
