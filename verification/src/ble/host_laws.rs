//! What is told of the host: its Bluetooth silicon and how it is set up.

use vstd::prelude::*;

use crate::ble::host::{
    chip_in, chip_of, driver_chip, first_timeout, id_of, is_bt, is_combo, spec_chip, spec_quirk, timeout_in,
    ChipFamily, IfaceView, UsbEntry,
};
use crate::text::{contains, lower};

verus! {

/// The driver's name tells the silicon, whatever the ids say.
pub proof fn lemma_drivers_tell(vendor: Seq<char>, product: Seq<char>, driver: Seq<char>)
    ensures
        contains(lower(driver), "btmtk"@) ==> spec_chip(vendor, product, driver) == ChipFamily::Mediatek,
        driver_chip(driver) is Some ==> spec_chip(vendor, product, driver) == driver_chip(driver)->0,
        driver_chip(driver) is None && spec_quirk(id_of(vendor), id_of(product)) is Some ==> spec_chip(
            vendor,
            product,
            driver,
        ) == spec_quirk(id_of(vendor), id_of(product))->0,
        driver_chip(lower(driver)) == driver_chip(driver),
{
    assert(lower(lower(driver)) =~= lower(driver));
}

/// Makers of silicon are told by their vendor ids; boards of others by vendor and product, never by the vendor
/// alone: a product that is not listed is generic.
pub proof fn lemma_vendors_tell(vendor: Seq<char>, product: Seq<char>, driver: Seq<char>)
    requires
        driver_chip(driver) is None,
    ensures
        id_of(vendor) == 0x0bda ==> spec_chip(vendor, product, driver) == ChipFamily::Realtek,
        id_of(vendor) == 0x0e8d ==> spec_chip(vendor, product, driver) == ChipFamily::Mediatek,
        id_of(vendor) == 0x8087 ==> spec_chip(vendor, product, driver) == ChipFamily::Intel,
        id_of(vendor) == 0x0cf3 ==> spec_chip(vendor, product, driver) == ChipFamily::Qualcomm,
        id_of(vendor) == 0x0a5c ==> spec_chip(vendor, product, driver) == ChipFamily::Broadcom,
        id_of(vendor) == 0 ==> spec_chip(vendor, product, driver) == ChipFamily::Absent,
        (id_of(vendor) == 0x0489 || id_of(vendor) == 0x13d3 || id_of(vendor) == 0x04ca || id_of(vendor) == 0x0b05
            || id_of(vendor) == 0x0930 || id_of(vendor) == 0x04c5) && spec_quirk(id_of(vendor), id_of(product))
            is None ==> spec_chip(vendor, product, driver) == ChipFamily::Generic,
{
}

/// The silicon of several interfaces is the first that is known; generic where there are interfaces but none is
/// known, and none where there are none.
pub proof fn lemma_silicon_of_several(v: Seq<IfaceView>, i: int)
    requires
        0 <= i < v.len(),
        forall|k: int|
            0 <= k < i ==> chip_of(#[trigger] v[k]) == ChipFamily::Absent || chip_of(v[k]) == ChipFamily::Generic,
    ensures
        chip_of(v[i]) != ChipFamily::Absent && chip_of(v[i]) != ChipFamily::Generic ==> chip_in(v) == chip_of(v[i]),
        (i == v.len() - 1 && (chip_of(v[i]) == ChipFamily::Absent || chip_of(v[i]) == ChipFamily::Generic))
            ==> chip_in(v) == ChipFamily::Generic,
        chip_in(Seq::empty()) == ChipFamily::Absent,
    decreases v.len(),
{
    let rest = v.skip(1);
    if i > 0 {
        assert(chip_of(v[0]) == ChipFamily::Absent || chip_of(v[0]) == ChipFamily::Generic);
        assert forall|k: int| 0 <= k < i - 1 implies chip_of(#[trigger] rest[k]) == ChipFamily::Absent || chip_of(
            rest[k],
        ) == ChipFamily::Generic by {
            assert(rest[k] == v[k + 1]);
        }
        assert(rest[i - 1] == v[i]);
        lemma_silicon_of_several(rest, i - 1);
    } else if v.len() == 1 {
        assert(rest.len() == 0);
        assert(chip_in(rest) == ChipFamily::Absent);
    }
}

/// The timeout is that of the first line that sets one, and thirty seconds where none does.
pub proof fn lemma_timeouts(l: Seq<Seq<char>>, i: int)
    requires
        0 <= i <= l.len(),
        forall|k: int| 0 <= k < i ==> timeout_in(#[trigger] l[k]) is None,
    ensures
        i < l.len() ==> (timeout_in(l[i]) matches Some(n) ==> first_timeout(l) == (n as u32, false)),
        i == l.len() ==> first_timeout(l) == (30u32, true),
    decreases l.len(),
{
    if i > 0 {
        assert(timeout_in(l[0]) is None);
        let rest = l.skip(1);
        assert forall|k: int| 0 <= k < i - 1 implies timeout_in(#[trigger] rest[k]) is None by {
            assert(rest[k] == l[k + 1]);
        }
        lemma_timeouts(rest, i - 1);
    }
}

/// A combo card's interface is a Bluetooth one.
pub proof fn lemma_combo_is_bluetooth(e: UsbEntry)
    ensures
        is_combo(e) ==> is_bt(e) && e.parent_class is Some,
        is_bt(e) ==> e.name@.contains(':') && e.class is Some && e.subclass is Some && e.protocol is Some,
{
}

} // verus!
