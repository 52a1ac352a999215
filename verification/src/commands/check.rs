//! `check`: whether the system is ready to print.

use vstd::prelude::*;

use crate::ble::discovery::{adapter_views, first_powered, AdapterInfo};
use crate::text::{chars_of, owned, split, split_on, string_of, texts};

verus! {

/// What was found.
#[derive(Debug)]
pub struct CheckFacts {
    /// The system bus can be reached.
    pub bus: bool,
    /// Where it can: BlueZ is running.
    pub bluetoothd: bool,
    /// Where it can: the adapters, or why they could not be listed.
    pub adapters: Result<Vec<AdapterInfo>, String>,
}

/// Something that is checked: what it is, what is said of it, and whether it is in order.
#[derive(Debug)]
pub struct CheckLine {
    pub label: &'static str,
    pub text: String,
    pub ok: bool,
}

/// What a line says.
pub struct LineView {
    pub label: Seq<char>,
    pub text: Seq<char>,
    pub ok: bool,
}

/// What lines say.
pub open spec fn check_views(v: Seq<CheckLine>) -> Seq<LineView> {
    Seq::new(
        v.len(),
        |i: int| LineView { label: v[i].label@, text: v[i].text@, ok: v[i].ok },
    )
}

/// What is said of the system bus.
pub open spec fn bus_line(ok: bool) -> LineView {
    LineView {
        label: "system bus"@,
        text: if ok {
            "ok"@
        } else {
            "MISSING — no system D-Bus"@
        },
        ok,
    }
}

/// What is said of BlueZ.
pub open spec fn bluez_line(ok: bool) -> LineView {
    LineView {
        label: "bluetoothd"@,
        text: if ok {
            "ok"@
        } else {
            "MISSING — org.bluez not running (start bluetooth.service)"@
        },
        ok,
    }
}

/// What is said of the adapters.
pub open spec fn adapter_line(a: Result<Vec<AdapterInfo>, String>) -> LineView {
    match a {
        Ok(v) => if v@.len() == 0 {
            LineView { label: "adapter"@, text: "MISSING — no Bluetooth adapter"@, ok: false }
        } else {
            match first_powered(adapter_views(v@)) {
                Some(x) => LineView {
                    label: "adapter"@,
                    text: split(x.path, '/').last() + " powered ("@ + x.address + ")"@,
                    ok: true,
                },
                None => LineView {
                    label: "adapter"@,
                    text: "NOT POWERED — turn Bluetooth on (or: rfkill unblock bluetooth)"@,
                    ok: false,
                },
            }
        },
        Err(e) => LineView { label: "adapter"@, text: "unknown — "@ + e@, ok: false },
    }
}

/// What is said of all: of BlueZ and the adapters only where the bus can be reached.
pub open spec fn spec_lines(f: CheckFacts) -> Seq<LineView> {
    if f.bus {
        seq![bus_line(true), bluez_line(f.bluetoothd), adapter_line(f.adapters)]
    } else {
        seq![bus_line(false)]
    }
}

/// Everything is in order.
pub open spec fn all_ok(v: Seq<LineView>) -> bool {
    forall|i: int| 0 <= i < v.len() ==> (#[trigger] v[i]).ok
}

fn adapter_text(a: &Result<Vec<AdapterInfo>, String>) -> (r: CheckLine)
    ensures
        (LineView { label: r.label@, text: r.text@, ok: r.ok }) == adapter_line(*a),
{
    match a {
        Ok(v) => {
            if v.len() == 0 {
                return CheckLine {
                    label: "adapter",
                    text: owned("MISSING — no Bluetooth adapter"),
                    ok: false,
                };
            }
            let ghost w = adapter_views(v@);
            let mut i: usize = 0;
            assert(w.skip(0) =~= w);
            while i < v.len()
                invariant
                    i <= v.len(),
                    v@.len() > 0,
                    *a == Ok::<Vec<AdapterInfo>, String>(*v),
                    w == adapter_views(v@),
                    first_powered(w) == first_powered(w.skip(i as int)),
                decreases v.len() - i,
            {
                assert(w.skip(i as int)[0] == v@[i as int].model());
                assert(w.skip(i as int).skip(1) =~= w.skip(i as int + 1));
                if v[i].powered {
                    let cs = chars_of(v[i].path.as_str());
                    let parts = split_on(cs.as_slice(), '/');
                    assert(texts(parts@).len() == parts@.len());
                    assert(split(cs@, '/').len() > 0);
                    let n: usize = parts.len();
                    let mut t = string_of(parts[n - 1].as_slice());
                    t.push_str(" powered (");
                    t.push_str(v[i].address.as_str());
                    t.push_str(")");
                    return CheckLine { label: "adapter", text: t, ok: true };
                }
                i += 1;
            }
            CheckLine {
                label: "adapter",
                text: owned("NOT POWERED — turn Bluetooth on (or: rfkill unblock bluetooth)"),
                ok: false,
            }
        },
        Err(e) => {
            let mut t = owned("unknown — ");
            t.push_str(e.as_str());
            CheckLine { label: "adapter", text: t, ok: false }
        },
    }
}

/// What is said of all, and whether the system is ready.
pub fn check_lines(f: &CheckFacts) -> (r: (Vec<CheckLine>, bool))
    ensures
        check_views(r.0@) == spec_lines(*f),
        r.1 == all_ok(spec_lines(*f)),
{
    let mut v: Vec<CheckLine> = Vec::new();
    if !f.bus {
        v.push(
            CheckLine { label: "system bus", text: owned("MISSING — no system D-Bus"), ok: false },
        );
        assert(check_views(v@) =~= spec_lines(*f));
        assert(!spec_lines(*f)[0].ok);
        return (v, false);
    }
    v.push(CheckLine { label: "system bus", text: owned("ok"), ok: true });
    v.push(
        CheckLine {
            label: "bluetoothd",
            text: if f.bluetoothd {
                owned("ok")
            } else {
                owned("MISSING — org.bluez not running (start bluetooth.service)")
            },
            ok: f.bluetoothd,
        },
    );
    let a = adapter_text(&f.adapters);
    let ready = f.bluetoothd && a.ok;
    v.push(a);
    assert(check_views(v@) =~= spec_lines(*f));
    assert(spec_lines(*f)[1].ok == f.bluetoothd && spec_lines(*f)[2].ok == a.ok);
    (v, ready)
}

/// What is said of the port: whether something listens there, and which daemon.
pub open spec fn port_text(listening: bool, version: Option<Seq<char>>) -> Seq<char> {
    if !listening {
        "free"@
    } else {
        match version {
            Some(v) => "in use — catprinterd "@ + v + " already listening"@,
            None => "in use — something else is listening"@,
        }
    }
}

/// What is said of the port. It does not decide whether the system is ready.
pub fn port_line(listening: bool, version: Option<&str>) -> (r: String)
    ensures
        r@ == port_text(listening, crate::models::opt_text(version)),
{
    if !listening {
        return owned("free");
    }
    match version {
        Some(v) => {
            let mut t = owned("in use — catprinterd ");
            t.push_str(v);
            t.push_str(" already listening");
            t
        },
        None => owned("in use — something else is listening"),
    }
}

} // verus!
