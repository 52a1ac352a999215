//! Printer model registry and autodetection. Two protocol families share the AE30 GATT service:
//!
//! * `Mxw01`: 22 21 frames, AE01 control / AE02 notify / AE03 bulk data, 4 bits per pixel.
//! * `Classic`: 51 78 frames, AE01 for everything (rows included), AE02 notify.
//!
//! Detection: advertised name in the registry; for an unknown name, AE03 present means Mxw01, else
//! Classic.

use vstd::prelude::*;

use crate::text::{
    chars_of, eq_fold, is_space, is_text, lower, lower_chars, owned, same_fold, trim, trim_chars,
    trim_left, trim_right,
};

pub mod classic;
pub mod drive_laws;
pub mod laws;
pub mod mxw01;

verus! {

/// Protocol family.
#[derive(Debug, Clone, Copy, PartialEq, Eq, Hash, Structural)]
pub enum Family {
    Mxw01,
    Classic,
}

impl Family {
    /// The family's name.
    pub open spec fn text(self) -> &'static str {
        match self {
            Family::Mxw01 => "mxw01",
            Family::Classic => "classic",
        }
    }

    /// The family of a name.
    pub open spec fn named(s: Seq<char>) -> Option<Family> {
        let t = lower(trim(s));
        if t == "mxw01"@ {
            Some(Family::Mxw01)
        } else if t == "classic"@ || t == "gb01"@ || t == "gb02"@ || t == "gb03"@ || t == "gt01"@ {
            Some(Family::Classic)
        } else {
            None
        }
    }

    /// The family's name.
    pub fn name(self) -> (r: &'static str)
        ensures
            r == self.text(),
    {
        match self {
            Family::Mxw01 => "mxw01",
            Family::Classic => "classic",
        }
    }

    /// The family of a name, case and outer white space aside.
    pub fn parse(s: &str) -> (r: Option<Family>)
        ensures
            r == Family::named(s@),
    {
        let cs = chars_of(s);
        let low = lower_chars(trim_chars(cs.as_slice()));
        let t = low.as_slice();
        if is_text(t, "mxw01") {
            Some(Family::Mxw01)
        } else if is_text(t, "classic") || is_text(t, "gb01") || is_text(t, "gb02") || is_text(
            t,
            "gb03",
        ) || is_text(t, "gt01") {
            Some(Family::Classic)
        } else {
            None
        }
    }
}

/// What a model can do. All known models are 384 dots wide.
#[derive(Debug, Clone, Copy, PartialEq, Eq, Structural)]
pub struct Caps {
    pub width_px: u32,
    pub grayscale_4bpp: bool,
}

/// A known model.
#[derive(Debug, Clone, Copy, PartialEq, Eq)]
pub struct ModelInfo {
    /// Advertised name (matched up to case).
    pub name: &'static str,
    pub family: Family,
    pub caps: Caps,
    /// Confirmed on real hardware.
    pub verified: bool,
}

/// The capabilities of a family.
pub open spec fn spec_family_caps(f: Family) -> Caps {
    Caps { width_px: 384, grayscale_4bpp: f == Family::Mxw01 }
}

/// The capabilities of a family.
pub fn family_caps(f: Family) -> (r: Caps)
    ensures
        r == spec_family_caps(f),
{
    Caps { width_px: 384, grayscale_4bpp: f == Family::Mxw01 }
}

/// A classic model.
pub open spec fn spec_classic_model(name: &'static str) -> ModelInfo {
    ModelInfo {
        name,
        family: Family::Classic,
        caps: spec_family_caps(Family::Classic),
        verified: false,
    }
}

/// The MXW01.
pub open spec fn spec_mxw01_model() -> ModelInfo {
    ModelInfo {
        name: "MXW01",
        family: Family::Mxw01,
        caps: spec_family_caps(Family::Mxw01),
        verified: true,
    }
}

/// The known models, in the order in which they are looked up.
pub open spec fn spec_registry() -> Seq<ModelInfo> {
    seq![
        spec_mxw01_model(),
        spec_classic_model("GB01"),
        spec_classic_model("GB02"),
        spec_classic_model("GB03"),
        spec_classic_model("GT01"),
        spec_classic_model("MX05"),
        spec_classic_model("MX06"),
        spec_classic_model("MX08"),
        spec_classic_model("MX09"),
        spec_classic_model("MX10"),
        spec_classic_model("MX11"),
        spec_classic_model("YT01"),
        spec_classic_model("X5"),
        spec_classic_model("X6"),
    ]
}

fn classic_model(name: &'static str) -> (r: ModelInfo)
    ensures
        r == spec_classic_model(name),
{
    ModelInfo {
        name,
        family: Family::Classic,
        caps: family_caps(Family::Classic),
        verified: false,
    }
}

/// The known models.
pub fn registry() -> (r: Vec<ModelInfo>)
    ensures
        r@ == spec_registry(),
{
    let mut r: Vec<ModelInfo> = Vec::new();
    r.push(
        ModelInfo {
            name: "MXW01",
            family: Family::Mxw01,
            caps: family_caps(Family::Mxw01),
            verified: true,
        },
    );
    r.push(classic_model("GB01"));
    r.push(classic_model("GB02"));
    r.push(classic_model("GB03"));
    r.push(classic_model("GT01"));
    r.push(classic_model("MX05"));
    r.push(classic_model("MX06"));
    r.push(classic_model("MX08"));
    r.push(classic_model("MX09"));
    r.push(classic_model("MX10"));
    r.push(classic_model("MX11"));
    r.push(classic_model("YT01"));
    r.push(classic_model("X5"));
    r.push(classic_model("X6"));
    assert(r@ =~= spec_registry());
    r
}

/// The first model of a list whose name is `name`, up to case.
pub open spec fn find_model(models: Seq<ModelInfo>, name: Seq<char>) -> Option<ModelInfo>
    decreases models.len(),
{
    if models.len() == 0 {
        None
    } else if same_fold(models[0].name@, name) {
        Some(models[0])
    } else {
        find_model(models.skip(1), name)
    }
}

/// The registered model of an advertised name.
pub open spec fn spec_lookup(name: Seq<char>) -> Option<ModelInfo> {
    find_model(spec_registry(), trim(name))
}

/// Looks an advertised name up in the registry, case and outer white space aside.
pub fn lookup(name: &str) -> (r: Option<ModelInfo>)
    ensures
        r == spec_lookup(name@),
{
    let cs = chars_of(name);
    let n = trim_chars(cs.as_slice());
    let models = registry();
    let mut i: usize = 0;
    assert(models@.skip(0) =~= models@);
    while i < models.len()
        invariant
            i <= models.len(),
            find_model(models@, n@) == find_model(models@.skip(i as int), n@),
            models@ == spec_registry(),
            n@ == trim(name@),
        decreases models.len() - i,
    {
        let m = chars_of(models[i].name);
        if eq_fold(m.as_slice(), n) {
            return Some(models[i]);
        }
        assert(models@.skip(i as int).skip(1) =~= models@.skip(i as int + 1));
        i += 1;
    }
    None
}

/// Two names that differ only in case or outer white space find the same model.
pub proof fn lemma_lookup_folds(a: Seq<char>, b: Seq<char>)
    requires
        same_fold(trim(a), trim(b)),
    ensures
        spec_lookup(a) == spec_lookup(b),
{
    lemma_find_folds(spec_registry(), trim(a), trim(b));
}

proof fn lemma_find_folds(models: Seq<ModelInfo>, a: Seq<char>, b: Seq<char>)
    requires
        same_fold(a, b),
    ensures
        find_model(models, a) == find_model(models, b),
    decreases models.len(),
{
    if models.len() > 0 {
        lemma_find_folds(models.skip(1), a, b);
    }
}

/// Result of autodetection.
#[derive(Debug, Clone, PartialEq, Eq)]
pub struct Detected {
    pub family: Family,
    pub caps: Caps,
    /// Human label, such as "MXW01" or "CAT-9000 (unknown model, driving as mxw01)".
    pub label: String,
    pub known: bool,
}

/// The registered model of an optional name.
pub open spec fn model_of(name: Option<Seq<char>>) -> Option<ModelInfo> {
    match name {
        Some(n) => spec_lookup(n),
        None => None,
    }
}

/// The family: forced, or that of the registered name, or by the shape of the GATT table.
pub open spec fn detected_family(
    name: Option<Seq<char>>,
    has_ae03: bool,
    forced: Option<Family>,
) -> Family {
    match forced {
        Some(f) => f,
        None => match model_of(name) {
            Some(m) => m.family,
            None => if has_ae03 {
                Family::Mxw01
            } else {
                Family::Classic
            },
        },
    }
}

/// The capabilities: those of the registered model where it is of that family, else the family's.
pub open spec fn detected_caps(
    name: Option<Seq<char>>,
    has_ae03: bool,
    forced: Option<Family>,
) -> Caps {
    let family = detected_family(name, has_ae03, forced);
    match model_of(name) {
        Some(m) => if forced is None || forced == Some(m.family) {
            m.caps
        } else {
            spec_family_caps(family)
        },
        None => spec_family_caps(family),
    }
}

/// The label: the registered name, or what is known of the device.
pub open spec fn detected_label(
    name: Option<Seq<char>>,
    has_ae03: bool,
    forced: Option<Family>,
) -> Seq<char> {
    let family = detected_family(name, has_ae03, forced);
    match model_of(name) {
        Some(m) => m.name@,
        None => match name {
            Some(n) => if n.len() > 0 {
                n + " (unknown model, driving as "@ + family.text()@ + ")"@
            } else {
                "unknown model (driving as "@ + family.text()@ + ")"@
            },
            None => "unknown model (driving as "@ + family.text()@ + ")"@,
        },
    }
}

/// The view of an optional string slice.
pub open spec fn opt_text(s: Option<&str>) -> Option<Seq<char>> {
    match s {
        Some(t) => Some(t@),
        None => None,
    }
}

/// Decides the driver for a device. `has_ae03`: the GATT table exposes the AE03 data characteristic.
/// `forced` wins over everything.
pub fn detect(name: Option<&str>, has_ae03: bool, forced: Option<Family>) -> (r: Detected)
    ensures
        r.family == detected_family(opt_text(name), has_ae03, forced),
        r.caps == detected_caps(opt_text(name), has_ae03, forced),
        r.label@ == detected_label(opt_text(name), has_ae03, forced),
        r.known == (model_of(opt_text(name)) is Some),
{
    let by_name = match name {
        Some(n) => lookup(n),
        None => None,
    };
    let family = match forced {
        Some(f) => f,
        None => match by_name {
            Some(m) => m.family,
            None => if has_ae03 {
                Family::Mxw01
            } else {
                Family::Classic
            },
        },
    };
    let caps = match by_name {
        Some(m) => match forced {
            None => m.caps,
            Some(f) => if f == m.family {
                m.caps
            } else {
                family_caps(family)
            },
        },
        None => family_caps(family),
    };
    let label = match by_name {
        Some(m) => owned(m.name),
        None => {
            let mut l = String::new();
            let mut named = false;
            if let Some(n) = name {
                if !n.is_empty() {
                    named = true;
                    l.push_str(n);
                    l.push_str(" (unknown model, driving as ");
                    l.push_str(family.name());
                    l.push_str(")");
                    assert(l@ =~= n@ + " (unknown model, driving as "@ + family.text()@ + ")"@);
                }
            }
            if !named {
                l = owned("unknown model (driving as ");
                l.push_str(family.name());
                l.push_str(")");
            }
            l
        },
    };
    Detected { family, caps, label, known: by_name.is_some() }
}

/// A family's name is that family's.
pub proof fn lemma_family_names(f: Family)
    ensures
        Family::named(f.text()@) == Some(f),
{
    reveal_strlit("mxw01");
    reveal_strlit("classic");
    let t = f.text()@;
    assert(!is_space(t[0]) && !is_space(t.last()));
    assert(trim_left(t, |c: char| is_space(c)) == t);
    assert(trim_right(t, |c: char| is_space(c)) == t);
    assert(lower(t) =~= t);
    if f == Family::Classic {
        assert(t[0] == 'c');
    }
}

} // verus!
