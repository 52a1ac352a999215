//! The keys of an ordered map, in order.

use std::collections::BTreeMap;

use vstd::laws_cmp::{
    obeys_cmp, obeys_cmp_ord, obeys_cmp_partial_ord, obeys_partial_cmp_spec_properties,
};
use vstd::laws_eq::obeys_eq;
use vstd::prelude::*;
use vstd::std_specs::btree::{increasing_seq, spec_keys_iter};
use vstd::std_specs::cmp::OrdSpec;
use vstd::std_specs::iter::IteratorSpec;

verus! {

broadcast use vstd::std_specs::btree::group_btree_axioms;

/// Strictly ascending.
pub open spec fn ascending(s: Seq<u32>) -> bool {
    forall|i: int, j: int| 0 <= i < j < s.len() ==> s[i] < s[j]
}

/// References to numbers are ordered as the numbers.
proof fn lemma_ref_order()
    ensures
        obeys_cmp::<&u32>(),
{
    broadcast use vstd::laws_eq::group_laws_eq;

    reveal(vstd::laws_eq::obeys_eq_spec_properties);
    reveal(obeys_partial_cmp_spec_properties);
    reveal(obeys_cmp_partial_ord);
    reveal(obeys_cmp_ord);
    assert(obeys_eq::<&u32>());
}

/// The keys of the map, in ascending order.
pub fn keys_of<V>(m: &BTreeMap<u32, V>) -> (r: Vec<u32>)
    ensures
        ascending(r@),
        r@.to_set() == m@.dom(),
{
    let mut out: Vec<u32> = Vec::new();
    for k in it: m.keys()
        invariant
            it.seq() == spec_keys_iter(m).remaining(),
            out@ == it.seq().unref().take(it.index()),
    {
        out.push(*k);
    }
    assert(out@ =~= spec_keys_iter(m).remaining().unref());
    proof {
        let s = spec_keys_iter(m).remaining();
        assert(increasing_seq(s));
        lemma_ref_order();
        assert forall|i: int, j: int| 0 <= i < j < out@.len() implies out@[i] < out@[j] by {
            assert(OrdSpec::cmp_spec(&s[i], &s[j]) is Less);
            assert(out@[i] == *s[i] && out@[j] == *s[j]);
        }
    }
    out
}

/// The keys of a map, in ascending order.
pub open spec fn id_list<V>(m: Map<u32, V>) -> Seq<u32> {
    choose|s: Seq<u32>| ascending(s) && s.to_set() == m.dom()
}

/// The keys of a map below `n`, in ascending order.
spec fn keys_below<V>(m: Map<u32, V>, n: nat) -> Seq<u32>
    decreases n,
{
    if n == 0 {
        Seq::empty()
    } else if m.contains_key((n - 1) as u32) {
        keys_below(m, (n - 1) as nat).push((n - 1) as u32)
    } else {
        keys_below(m, (n - 1) as nat)
    }
}

proof fn lemma_keys_below<V>(m: Map<u32, V>, n: nat)
    requires
        n <= 0x1_0000_0000,
    ensures
        ascending(keys_below(m, n)),
        forall|x: u32| #[trigger] keys_below(m, n).contains(x) <==> m.contains_key(x) && x < n,
    decreases n,
{
    if n > 0 {
        let t = keys_below(m, (n - 1) as nat);
        let s = keys_below(m, n);
        let last = (n - 1) as u32;
        lemma_keys_below(m, (n - 1) as nat);
        assert forall|i: int, j: int| 0 <= i < j < s.len() implies s[i] < s[j] by {
            assert(t.contains(t[i]));
        }
        assert forall|x: u32| #[trigger] s.contains(x) <==> m.contains_key(x) && x < n by {
            assert(t.contains(x) <==> m.contains_key(x) && x < n - 1);
            if t.contains(x) {
                let k = choose|k: int| 0 <= k < t.len() && t[k] == x;
                assert(s[k] == x);
            }
            if x == last && m.contains_key(x) {
                assert(s[t.len() as int] == x);
            }
            if s.contains(x) {
                let k = choose|k: int| 0 <= k < s.len() && s[k] == x;
                if k < t.len() {
                    assert(t[k] == x);
                }
            }
        }
    }
}

/// The list of the keys of a map is ascending and holds them all.
pub proof fn lemma_lists_ids<V>(m: Map<u32, V>)
    ensures
        ascending(id_list(m)),
        forall|x: u32| #[trigger] id_list(m).contains(x) <==> m.contains_key(x),
{
    let s = keys_below(m, 0x1_0000_0000);
    lemma_keys_below(m, 0x1_0000_0000);
    assert(s.to_set() =~= m.dom());
    lemma_id_list(m, s);
}

/// Two ascending lists of the same numbers are one list.
proof fn lemma_ascending_unique(a: Seq<u32>, b: Seq<u32>)
    requires
        ascending(a),
        ascending(b),
        forall|x: u32| a.contains(x) <==> b.contains(x),
    ensures
        a == b,
    decreases a.len(),
{
    if a.len() == 0 {
        if b.len() > 0 {
            assert(b.contains(b[0]));
            assert(a.contains(b[0]));
        }
        assert(a =~= b);
    } else {
        assert(a.contains(a.last()));
        assert(b.contains(a.last()));
        assert(b.contains(b.last()));
        assert(a.contains(b.last()));
        let i = choose|i: int| 0 <= i < b.len() && b[i] == a.last();
        let j = choose|j: int| 0 <= j < a.len() && a[j] == b.last();
        assert(a.last() == b.last());
        let c = a.drop_last();
        let d = b.drop_last();
        assert forall|x: u32| c.contains(x) <==> d.contains(x) by {
            if c.contains(x) {
                let k = choose|k: int| 0 <= k < c.len() && c[k] == x;
                assert(a[k] == x);
                assert(a.contains(x));
                let l = choose|l: int| 0 <= l < b.len() && b[l] == x;
                assert(d[l] == x);
            }
            if d.contains(x) {
                let k = choose|k: int| 0 <= k < d.len() && d[k] == x;
                assert(b[k] == x);
                assert(b.contains(x));
                let l = choose|l: int| 0 <= l < a.len() && a[l] == x;
                assert(c[l] == x);
            }
        }
        lemma_ascending_unique(c, d);
        assert(a =~= c.push(a.last()));
        assert(b =~= d.push(b.last()));
    }
}

/// An ascending list of exactly the keys is the list of the keys.
pub proof fn lemma_id_list<V>(m: Map<u32, V>, s: Seq<u32>)
    requires
        ascending(s),
        s.to_set() == m.dom(),
    ensures
        id_list(m) == s,
        forall|x: u32| s.contains(x) <==> m.contains_key(x),
{
    let t = id_list(m);
    assert(ascending(t) && t.to_set() == m.dom());
    assert forall|x: u32| s.contains(x) <==> t.contains(x) by {
        assert(s.to_set().contains(x) == t.to_set().contains(x));
    }
    assert forall|x: u32| s.contains(x) <==> m.contains_key(x) by {
        assert(s.to_set().contains(x) == m.dom().contains(x));
    }
    lemma_ascending_unique(s, t);
}

/// The number at position `i` of an ascending list is at least `i`.
pub proof fn lemma_ascending_at_least(s: Seq<u32>, i: int)
    requires
        ascending(s),
        0 <= i < s.len(),
    ensures
        s[i] >= i,
    decreases i,
{
    if i > 0 {
        lemma_ascending_at_least(s, i - 1);
    }
}

} // verus!
