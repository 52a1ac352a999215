//! What the registry says, and how a device is told by its name and its table.

use vstd::prelude::*;

use crate::models::{
    detected_caps, detected_family, detected_label, find_model, model_of, spec_family_caps, spec_lookup,
    spec_registry, Family, ModelInfo,
};
use crate::text::{lower, trim};

verus! {

// ------------------------------------------------------------------ the registry

/// The MXW01 is the only registered model of its family, the only one with gray, and the only one that is
/// confirmed on hardware; every model prints 384 dots.
pub proof fn lemma_one_gray_model(i: int)
    requires
        0 <= i < spec_registry().len(),
    ensures
        spec_registry()[i].family == Family::Mxw01 <==> spec_registry()[i].name@ == "MXW01"@,
        spec_registry()[i].family == Family::Classic <==> spec_registry()[i].name@ != "MXW01"@,
        spec_registry()[i].caps.grayscale_4bpp <==> spec_registry()[i].name@ == "MXW01"@,
        spec_registry()[i].verified <==> spec_registry()[i].name@ == "MXW01"@,
        spec_registry()[i].caps.width_px == 384,
{
    lemma_names();
    if i > 0 {
        assert(spec_registry()[i].name@.len() <= 4);
    }
}

proof fn lemma_names()
    ensures
        "MXW01"@.len() == 5,
        "GB01"@.len() == 4,
        "GB02"@.len() == 4,
        "GB03"@.len() == 4,
        "GT01"@.len() == 4,
        "MX05"@.len() == 4,
        "MX06"@.len() == 4,
        "MX08"@.len() == 4,
        "MX09"@.len() == 4,
        "MX10"@.len() == 4,
        "MX11"@.len() == 4,
        "YT01"@.len() == 4,
        "X5"@.len() == 2,
        "X6"@.len() == 2,
        lower("GB01"@) == seq!['g', 'b', '0', '1'],
        lower("GB02"@) == seq!['g', 'b', '0', '2'],
        lower("GB03"@) == seq!['g', 'b', '0', '3'],
        lower("GT01"@) == seq!['g', 't', '0', '1'],
        lower("MX05"@) == seq!['m', 'x', '0', '5'],
        lower("MX06"@) == seq!['m', 'x', '0', '6'],
        lower("MX08"@) == seq!['m', 'x', '0', '8'],
        lower("MX09"@) == seq!['m', 'x', '0', '9'],
        lower("MX10"@) == seq!['m', 'x', '1', '0'],
        lower("MX11"@) == seq!['m', 'x', '1', '1'],
        lower("YT01"@) == seq!['y', 't', '0', '1'],
        lower("X5"@) == seq!['x', '5'],
        lower("X6"@) == seq!['x', '6'],
        lower("MXW01"@) == seq!['m', 'x', 'w', '0', '1'],
{
    reveal_strlit("MXW01");
    reveal_strlit("GB01");
    reveal_strlit("GB02");
    reveal_strlit("GB03");
    reveal_strlit("GT01");
    reveal_strlit("MX05");
    reveal_strlit("MX06");
    reveal_strlit("MX08");
    reveal_strlit("MX09");
    reveal_strlit("MX10");
    reveal_strlit("MX11");
    reveal_strlit("YT01");
    reveal_strlit("X5");
    reveal_strlit("X6");
    assert(lower("GB01"@) =~= seq!['g', 'b', '0', '1']);
    assert(lower("GB02"@) =~= seq!['g', 'b', '0', '2']);
    assert(lower("GB03"@) =~= seq!['g', 'b', '0', '3']);
    assert(lower("GT01"@) =~= seq!['g', 't', '0', '1']);
    assert(lower("MX05"@) =~= seq!['m', 'x', '0', '5']);
    assert(lower("MX06"@) =~= seq!['m', 'x', '0', '6']);
    assert(lower("MX08"@) =~= seq!['m', 'x', '0', '8']);
    assert(lower("MX09"@) =~= seq!['m', 'x', '0', '9']);
    assert(lower("MX10"@) =~= seq!['m', 'x', '1', '0']);
    assert(lower("MX11"@) =~= seq!['m', 'x', '1', '1']);
    assert(lower("YT01"@) =~= seq!['y', 't', '0', '1']);
    assert(lower("X5"@) =~= seq!['x', '5']);
    assert(lower("X6"@) =~= seq!['x', '6']);
    assert(lower("MXW01"@) =~= seq!['m', 'x', 'w', '0', '1']);
}

/// `s` is one of the names of classic models, in small letters.
pub open spec fn is_classic_name(s: Seq<char>) -> bool {
    ||| s == seq!['g', 'b', '0', '1']
    ||| s == seq!['g', 'b', '0', '2']
    ||| s == seq!['g', 'b', '0', '3']
    ||| s == seq!['g', 't', '0', '1']
    ||| s == seq!['m', 'x', '0', '5']
    ||| s == seq!['m', 'x', '0', '6']
    ||| s == seq!['m', 'x', '0', '8']
    ||| s == seq!['m', 'x', '0', '9']
    ||| s == seq!['m', 'x', '1', '0']
    ||| s == seq!['m', 'x', '1', '1']
    ||| s == seq!['y', 't', '0', '1']
    ||| s == seq!['x', '5']
    ||| s == seq!['x', '6']
}

proof fn lemma_find(models: Seq<ModelInfo>, name: Seq<char>)
    ensures
        find_model(models, name) is Some <==> exists|i: int|
            0 <= i < models.len() && lower((#[trigger] models[i]).name@) == lower(name),
        find_model(models, name) matches Some(m) ==> lower(m.name@) == lower(name) && exists|i: int|
            0 <= i < models.len() && models[i] == m,
    decreases models.len(),
{
    if models.len() > 0 {
        let rest = models.skip(1);
        lemma_find(rest, name);
        if lower(models[0].name@) == lower(name) {
        } else {
            if find_model(rest, name) is Some {
                let i = choose|i: int| 0 <= i < rest.len() && lower((#[trigger] rest[i]).name@) == lower(name);
                assert(lower(models[i + 1].name@) == lower(name));
                let m = find_model(rest, name)->0;
                let k = choose|k: int| 0 <= k < rest.len() && rest[k] == m;
                assert(models[k + 1] == m);
            }
            if exists|i: int| 0 <= i < models.len() && lower((#[trigger] models[i]).name@) == lower(name) {
                let i = choose|i: int|
                    0 <= i < models.len() && lower((#[trigger] models[i]).name@) == lower(name);
                assert(rest[i - 1] == models[i]);
            }
        }
    }
}

/// A name is known where it is, white space and case aside, that of the MXW01 or of a classic model; it finds
/// the model that has it.
pub proof fn lemma_known_names(name: Seq<char>)
    ensures
        ({
            let s = lower(trim(name));
            &&& spec_lookup(name) is Some <==> s == seq!['m', 'x', 'w', '0', '1'] || is_classic_name(s)
            &&& spec_lookup(name) matches Some(m) ==> lower(m.name@) == s
            &&& spec_lookup(name) matches Some(m) ==> (m.family == Family::Classic <==> is_classic_name(s))
        }),
{
    let s = lower(trim(name));
    let all = spec_registry();
    lemma_find(all, trim(name));
    lemma_names();
    if s == seq!['m', 'x', 'w', '0', '1'] || is_classic_name(s) {
        assert(all[0].name@ == "MXW01"@ && all[1].name@ == "GB01"@ && all[2].name@ == "GB02"@
            && all[3].name@ == "GB03"@ && all[4].name@ == "GT01"@ && all[5].name@ == "MX05"@
            && all[6].name@ == "MX06"@ && all[7].name@ == "MX08"@ && all[8].name@ == "MX09"@
            && all[9].name@ == "MX10"@ && all[10].name@ == "MX11"@ && all[11].name@ == "YT01"@
            && all[12].name@ == "X5"@ && all[13].name@ == "X6"@);
        assert(exists|i: int| 0 <= i < all.len() && lower((#[trigger] all[i]).name@) == lower(trim(name)));
    }
    if spec_lookup(name) is Some {
        let m = spec_lookup(name)->0;
        let i = choose|i: int| 0 <= i < all.len() && all[i] == m;
        lemma_one_gray_model(i);
        assert(i == 0 || i == 1 || i == 2 || i == 3 || i == 4 || i == 5 || i == 6 || i == 7 || i == 8 || i
            == 9 || i == 10 || i == 11 || i == 12 || i == 13);
        assert(i == 0 ==> s.len() == 5);
        assert(is_classic_name(s) ==> s.len() <= 4);
    }
}

// ------------------------------------------------------------------ detection

/// A device with the name of a classic model is driven as one, without gray, whatever its table holds.
pub proof fn lemma_classic_devices(name: Seq<char>, has_ae03: bool)
    requires
        is_classic_name(lower(trim(name))),
    ensures
        detected_family(Some(name), has_ae03, None) == Family::Classic,
        !detected_caps(Some(name), has_ae03, None).grayscale_4bpp,
        detected_caps(Some(name), has_ae03, None).width_px == 384,
        lower(detected_label(Some(name), has_ae03, None)) == lower(trim(name)),
{
    lemma_known_names(name);
    lemma_model_caps(name);
}

/// A device with a registered name other than that of the MXW01 is driven as classic, without gray, whatever its
/// table holds.
pub proof fn lemma_registered_devices(name: Seq<char>, has_ae03: bool)
    requires
        spec_lookup(name) is Some,
    ensures
        lower(trim(name)) == lower("MXW01"@) ==> detected_family(Some(name), has_ae03, None) == Family::Mxw01
            && detected_caps(Some(name), has_ae03, None).grayscale_4bpp,
        lower(trim(name)) != lower("MXW01"@) ==> detected_family(Some(name), has_ae03, None) == Family::Classic
            && !detected_caps(Some(name), has_ae03, None).grayscale_4bpp,
{
    lemma_known_names(name);
    lemma_model_caps(name);
    lemma_names();
    assert(is_classic_name(lower(trim(name))) ==> lower(trim(name)).len() <= 4);
}

proof fn lemma_model_caps(name: Seq<char>)
    ensures
        spec_lookup(name) matches Some(m) ==> m.caps == spec_family_caps(m.family) && m.caps.width_px == 384 && (
        m.caps.grayscale_4bpp <==> m.family == Family::Mxw01),
{
    lemma_find(spec_registry(), trim(name));
    if spec_lookup(name) is Some {
        let m = spec_lookup(name)->0;
        let i = choose|i: int| 0 <= i < spec_registry().len() && spec_registry()[i] == m;
        lemma_one_gray_model(i);
    }
}

/// The MXW01 is known by its name and driven as what it is, with gray, even where its table does not show it.
pub proof fn lemma_mxw01_devices(name: Seq<char>, has_ae03: bool)
    requires
        lower(trim(name)) == seq!['m', 'x', 'w', '0', '1'],
    ensures
        detected_family(Some(name), has_ae03, None) == Family::Mxw01,
        detected_caps(Some(name), has_ae03, None).grayscale_4bpp,
        detected_label(Some(name), has_ae03, None) == "MXW01"@,
{
    lemma_known_names(name);
    lemma_model_caps(name);
    lemma_names();
    assert(!is_classic_name(lower(trim(name)))) by {
        assert(lower(trim(name)).len() == 5);
    }
    lemma_find(spec_registry(), trim(name));
    let m = spec_lookup(name)->0;
    let i = choose|i: int| 0 <= i < spec_registry().len() && spec_registry()[i] == m;
    lemma_one_gray_model(i);
}

/// A device whose name is not registered, or that has none, is told by its table alone.
pub proof fn lemma_unknown_devices(name: Option<Seq<char>>, has_ae03: bool)
    requires
        name matches Some(n) ==> lower(trim(n)) != seq!['m', 'x', 'w', '0', '1'] && !is_classic_name(
            lower(trim(n)),
        ),
    ensures
        model_of(name) is None,
        detected_family(name, has_ae03, None) == Family::Mxw01 <==> has_ae03,
        detected_caps(name, has_ae03, None).grayscale_4bpp <==> has_ae03,
        detected_caps(name, has_ae03, None).width_px == 384,
{
    if name is Some {
        lemma_known_names(name->0);
    }
}

/// A forced family is the device's, whatever it says of itself, and it can do what that family can.
pub proof fn lemma_forced_devices(name: Option<Seq<char>>, has_ae03: bool, f: Family)
    ensures
        detected_family(name, has_ae03, Some(f)) == f,
        detected_caps(name, has_ae03, Some(f)).grayscale_4bpp <==> f == Family::Mxw01,
        detected_caps(name, has_ae03, Some(f)).width_px == 384,
        detected_caps(name, true, Some(f)) == detected_caps(name, false, Some(f)),
{
    if name is Some {
        lemma_model_caps(name->0);
    }
}

/// The names of families, and of the classic models that stand for theirs, are read whatever their case.
pub proof fn lemma_family_of_names(s: Seq<char>)
    ensures
        Family::named(s) == Some(Family::Mxw01) <==> lower(trim(s)) == seq!['m', 'x', 'w', '0', '1'],
        lower(trim(s)) == seq!['c', 'l', 'a', 's', 's', 'i', 'c'] ==> Family::named(s) == Some(
            Family::Classic,
        ),
        Family::named(s) == Some(Family::Classic) ==> lower(trim(s)) == seq![
            'c',
            'l',
            'a',
            's',
            's',
            'i',
            'c',
        ] || (spec_lookup(s) is Some && (spec_lookup(s)->0).family == Family::Classic),
{
    reveal_strlit("mxw01");
    reveal_strlit("classic");
    reveal_strlit("gb01");
    reveal_strlit("gb02");
    reveal_strlit("gb03");
    reveal_strlit("gt01");
    assert("mxw01"@ =~= seq!['m', 'x', 'w', '0', '1']);
    assert("classic"@ =~= seq!['c', 'l', 'a', 's', 's', 'i', 'c']);
    assert("gb01"@ =~= seq!['g', 'b', '0', '1']);
    assert("gb02"@ =~= seq!['g', 'b', '0', '2']);
    assert("gb03"@ =~= seq!['g', 'b', '0', '3']);
    assert("gt01"@ =~= seq!['g', 't', '0', '1']);
    assert("classic"@.len() != "mxw01"@.len());
    lemma_known_names(s);
}

} // verus!
