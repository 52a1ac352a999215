//! What the object tree says of an object.

use vstd::prelude::*;

use crate::ble::objects::{find_iface, find_prop, strings_of, with_iface, Item, Object, Prop, Props};

verus! {

proof fn lemma_find_prop(entries: Seq<(String, Prop)>, key: Seq<char>, i: int)
    requires
        0 <= i < entries.len(),
        entries[i].0@ == key,
        forall|k: int| 0 <= k < i ==> (#[trigger] entries[k]).0@ != key,
    ensures
        find_prop(entries, key) == Some(entries[i].1),
    decreases i,
{
    if i > 0 {
        assert(entries[0].0@ != key);
        let rest = entries.skip(1);
        assert forall|k: int| 0 <= k < i - 1 implies (#[trigger] rest[k]).0@ != key by {
            assert(rest[k] == entries[k + 1]);
        }
        lemma_find_prop(rest, key, i - 1);
    }
}

/// A property is what stands under its name: a text, a number, a yes or a list of texts, and nothing of another kind.
pub proof fn lemma_properties(p: Props, key: Seq<char>, i: int)
    requires
        0 <= i < p.entries@.len(),
        p.entries@[i].0@ == key,
        forall|k: int| 0 <= k < i ==> (#[trigger] p.entries@[k]).0@ != key,
    ensures
        p.prop(key) == Some(p.entries@[i].1),
        p.entries@[i].1 matches Prop::Str(s) ==> p.text(key) == Some(s@),
        p.entries@[i].1 matches Prop::Path(s) ==> p.text(key) == Some(s@),
        p.entries@[i].1 matches Prop::Bool(b) ==> p.flag(key) == b && p.text(key) is None,
        p.entries@[i].1 matches Prop::I16(n) ==> p.signed(key) == Some(n),
        p.entries@[i].1 matches Prop::I32(n) ==> (-32768 <= n <= 32767 <==> p.signed(key) is Some) && (p.signed(key)
            is Some ==> p.signed(key)->0 == n),
        p.entries@[i].1 matches Prop::List(l) ==> p.strings(key) == strings_of(l@),
{
    lemma_find_prop(p.entries@, key, i);
}

/// A property that is not there has no text and no number, and counts as no.
pub proof fn lemma_missing_properties(entries: Seq<(String, Prop)>, key: Seq<char>)
    requires
        forall|k: int| 0 <= k < entries.len() ==> (#[trigger] entries[k]).0@ != key,
    ensures
        find_prop(entries, key) is None,
    decreases entries.len(),
{
    if entries.len() > 0 {
        assert(entries[0].0@ != key);
        let rest = entries.skip(1);
        assert forall|k: int| 0 <= k < rest.len() implies (#[trigger] rest[k]).0@ != key by {
            assert(rest[k] == entries[k + 1]);
        }
        lemma_missing_properties(rest, key);
    }
}

/// A list of texts keeps them in order.
pub proof fn lemma_lists(v: Seq<Item>, x: Item)
    ensures
        x matches Item::Str(s) ==> strings_of(v.push(x)) == strings_of(v).push(s@),
        !(x is Str) ==> strings_of(v.push(x)) == strings_of(v),
{
    assert(v.push(x).drop_last() =~= v);
}

/// The listing of an interface has every object with that interface, under its path and with its properties, and no
/// other.
pub proof fn lemma_listings(list: Seq<Object>, iface: Seq<char>, i: int)
    requires
        0 <= i < list.len(),
    ensures
        list[i].iface(iface) matches Some(p) ==> with_iface(list, iface).contains((list[i].path@, p)),
        with_iface(list, iface).len() <= list.len(),
    decreases list.len(),
{
    let rest = list.drop_last();
    let (some, all) = (with_iface(rest, iface), with_iface(list, iface));
    if i < rest.len() {
        lemma_listings(rest, iface, i);
        if list[i].iface(iface) is Some {
            let x = (list[i].path@, list[i].iface(iface)->0);
            let k = choose|k: int| 0 <= k < some.len() && some[k] == x;
            assert(all[k] == x);
        }
    } else {
        if rest.len() > 0 {
            lemma_listings(rest, iface, 0);
        } else {
            assert(some.len() == 0);
        }
        if list[i].iface(iface) is Some {
            assert(all[some.len() as int] == (list[i].path@, list[i].iface(iface)->0));
        }
    }
}

/// What is asked of an interface of an object is what the object has under that name.
pub proof fn lemma_interfaces(ifaces: Seq<(String, Props)>, name: Seq<char>, i: int)
    requires
        0 <= i < ifaces.len(),
        ifaces[i].0@ == name,
        forall|k: int| 0 <= k < i ==> (#[trigger] ifaces[k]).0@ != name,
    ensures
        find_iface(ifaces, name) == Some(ifaces[i].1),
    decreases i,
{
    if i > 0 {
        assert(ifaces[0].0@ != name);
        let rest = ifaces.skip(1);
        assert forall|k: int| 0 <= k < i - 1 implies (#[trigger] rest[k]).0@ != name by {
            assert(rest[k] == ifaces[k + 1]);
        }
        lemma_interfaces(rest, name, i - 1);
    }
}

} // verus!
