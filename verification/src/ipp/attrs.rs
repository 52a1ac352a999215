//! Lists of attributes on offer, of which a request gets those that it asks for.

use vstd::prelude::*;

use crate::ipp::codec::{string_views, utf8_prefix};
use crate::ipp::value::{attr_models, attr_writable, attrs_writable, writable, Attr, Value, ValueView};
use crate::text::{eq_fold_str, same_fold, same_str, within_bytes};

verus! {

/// The kinds of printer attributes.
#[derive(Debug, Clone, Copy, PartialEq, Eq, Structural)]
pub enum Grp {
    Desc,
    Tmpl,
}

/// An attribute on offer.
pub struct Offer {
    pub name: Seq<char>,
    pub grp: Grp,
    pub value: ValueView,
}

/// Which attributes are wanted.
#[derive(Debug)]
pub enum Filter {
    Everything,
    /// Those with one of these names.
    Names(Vec<String>),
    /// Whole groups of printer attributes, and those with one of these names, up to case.
    Printer { desc: bool, tmpl: bool, named: Vec<String> },
}

/// The list holds a name, up to case.
pub open spec fn has_fold(names: Seq<Seq<char>>, name: Seq<char>) -> bool {
    exists|i: int| 0 <= i < names.len() && same_fold(#[trigger] names[i], name)
}

/// Whether the list holds a name, up to case.
pub fn holds_fold(names: &Vec<String>, name: &str) -> (r: bool)
    ensures
        r == has_fold(string_views(names@), name@),
{
    let mut i: usize = 0;
    while i < names.len()
        invariant
            i <= names.len(),
            forall|k: int| 0 <= k < i ==> !same_fold(#[trigger] string_views(names@)[k], name@),
        decreases names.len() - i,
    {
        if eq_fold_str(names[i].as_str(), name) {
            assert(same_fold(string_views(names@)[i as int], name@));
            return true;
        }
        i += 1;
    }
    false
}

/// Whether the list holds a name.
pub fn holds(names: &Vec<String>, name: &str) -> (r: bool)
    ensures
        r == string_views(names@).contains(name@),
{
    let mut i: usize = 0;
    while i < names.len()
        invariant
            i <= names.len(),
            forall|k: int| 0 <= k < i ==> #[trigger] string_views(names@)[k] != name@,
        decreases names.len() - i,
    {
        if same_str(names[i].as_str(), name) {
            assert(string_views(names@)[i as int] == name@);
            return true;
        }
        i += 1;
    }
    false
}

impl Filter {
    /// The attribute is wanted.
    pub open spec fn admits(self, name: Seq<char>, grp: Grp) -> bool {
        match self {
            Filter::Everything => true,
            Filter::Names(n) => string_views(n@).contains(name),
            Filter::Printer { desc, tmpl, named } => (grp == Grp::Desc && desc) || (grp == Grp::Tmpl
                && tmpl) || has_fold(string_views(named@), name),
        }
    }

    /// Whether the attribute is wanted.
    pub fn wants(&self, name: &str, grp: Grp) -> (r: bool)
        ensures
            r == self.admits(name@, grp),
    {
        match self {
            Filter::Everything => true,
            Filter::Names(n) => holds(n, name),
            Filter::Printer { desc, tmpl, named } => (grp == Grp::Desc && *desc) || (grp == Grp::Tmpl
                && *tmpl) || holds_fold(named, name),
        }
    }
}

/// What a request gets: those of the attributes on offer that it wants, in order.
pub open spec fn admitted(offers: Seq<Offer>, f: Filter) -> Seq<(Seq<char>, ValueView)>
    decreases offers.len(),
{
    if offers.len() == 0 {
        Seq::empty()
    } else {
        let o = offers.last();
        if f.admits(o.name, o.grp) {
            admitted(offers.drop_last(), f).push((within_bytes(o.name, 255), o.value))
        } else {
            admitted(offers.drop_last(), f)
        }
    }
}

/// The answer to a request for attributes, while attributes are offered to it.
pub struct AttrList {
    pub attrs: Vec<Attr>,
    pub filter: Filter,
    pub offers: Ghost<Seq<Offer>>,
}

impl AttrList {
    /// The list holds what is wanted of what was offered, and it can be written.
    pub open spec fn wf(self) -> bool {
        &&& attr_models(self.attrs@) == admitted(self.offers@, self.filter)
        &&& attrs_writable(attr_models(self.attrs@))
    }

    /// A list to which nothing was offered.
    pub fn new(filter: Filter) -> (r: AttrList)
        ensures
            r.wf(),
            r.filter == filter,
            r.offers@ == Seq::<Offer>::empty(),
    {
        let attrs: Vec<Attr> = Vec::new();
        assert(attr_models(attrs@) =~= Seq::<(Seq<char>, ValueView)>::empty());
        AttrList { attrs, filter, offers: Ghost(Seq::empty()) }
    }

    /// Offers an attribute.
    pub fn put(&mut self, name: &'static str, grp: Grp, value: Value)
        requires
            old(self).wf(),
            writable(value.model()),
        ensures
            final(self).wf(),
            final(self).filter == old(self).filter,
            final(self).offers@ == old(self).offers@.push(
                Offer { name: name@, grp, value: value.model() },
            ),
    {
        let ghost was = self.attrs@;
        let ghost o = Offer { name: name@, grp, value: value.model() };
        assert(self.offers@.push(o).drop_last() =~= self.offers@);
        if self.filter.wants(name, grp) {
            self.attrs.push(Attr { name: utf8_prefix(name, 255), value });
            assert(attr_models(self.attrs@) =~= attr_models(was).push(
                (within_bytes(name@, 255), value.model()),
            ));
            assert forall|j: int| 0 <= j < self.attrs@.len() implies attr_writable(
                #[trigger] attr_models(self.attrs@)[j],
            ) by {
                if j < was.len() {
                    assert(attr_writable(attr_models(was)[j]));
                }
            }
        }
        self.offers = Ghost(self.offers@.push(o));
    }
}

} // verus!
