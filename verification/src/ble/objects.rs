//! The tree of Bluetooth objects, as plain values: objects by path, each with its interfaces and their
//! properties.

use vstd::prelude::*;

use crate::text::{
    before, chars_of, comes_before, lemma_before_total, lemma_before_transitive, owned, same_str,
};

verus! {

/// An element of an array property.
#[derive(Debug)]
pub enum Item {
    Str(String),
    Byte(u8),
    Other,
}

/// A property's value.
#[derive(Debug)]
pub enum Prop {
    Str(String),
    Path(String),
    Bool(bool),
    I16(i16),
    I32(i32),
    U16(u16),
    U32(u32),
    List(Vec<Item>),
    Other,
}

/// The properties of an interface, by name.
#[derive(Debug)]
pub struct Props {
    pub entries: Vec<(String, Prop)>,
}

/// An object: its path, and the properties of its interfaces by their names.
#[derive(Debug)]
pub struct Object {
    pub path: String,
    pub ifaces: Vec<(String, Props)>,
}

/// All objects, in the order of their paths.
#[derive(Debug)]
pub struct Objects {
    pub list: Vec<Object>,
}

// ------------------------------------------------------------------ properties

/// The value of a property.
pub open spec fn find_prop(entries: Seq<(String, Prop)>, key: Seq<char>) -> Option<Prop>
    decreases entries.len(),
{
    if entries.len() == 0 {
        None
    } else if entries[0].0@ == key {
        Some(entries[0].1)
    } else {
        find_prop(entries.skip(1), key)
    }
}

impl Props {
    /// The value of a property.
    pub open spec fn prop(self, key: Seq<char>) -> Option<Prop> {
        find_prop(self.entries@, key)
    }

    /// The text of a property that is a string or a path.
    pub open spec fn text(self, key: Seq<char>) -> Option<Seq<char>> {
        match self.prop(key) {
            Some(Prop::Str(s)) => Some(s@),
            Some(Prop::Path(s)) => Some(s@),
            _ => None,
        }
    }

    /// The truth value of a property; false where it has none.
    pub open spec fn flag(self, key: Seq<char>) -> bool {
        self.prop(key) == Some(Prop::Bool(true))
    }

    /// The number of a property, where it fits in 16 bits.
    pub open spec fn signed(self, key: Seq<char>) -> Option<i16> {
        match self.prop(key) {
            Some(Prop::I16(v)) => Some(v),
            Some(Prop::I32(v)) => if i16::MIN <= v <= i16::MAX {
                Some(v as i16)
            } else {
                None
            },
            _ => None,
        }
    }

    /// The strings of a property.
    pub open spec fn strings(self, key: Seq<char>) -> Seq<Seq<char>> {
        match self.prop(key) {
            Some(Prop::List(v)) => strings_of(v@),
            _ => Seq::empty(),
        }
    }

    fn get(&self, key: &str) -> (r: Option<&Prop>)
        ensures
            match r {
                Some(p) => self.prop(key@) == Some(*p),
                None => self.prop(key@) is None,
            },
    {
        let mut i: usize = 0;
        assert(self.entries@.skip(0) =~= self.entries@);
        while i < self.entries.len()
            invariant
                i <= self.entries.len(),
                self.prop(key@) == find_prop(self.entries@.skip(i as int), key@),
            decreases self.entries.len() - i,
        {
            if same_str(self.entries[i].0.as_str(), key) {
                return Some(&self.entries[i].1);
            }
            assert(self.entries@.skip(i as int).skip(1) =~= self.entries@.skip(i as int + 1));
            i += 1;
        }
        None
    }
}

/// The strings of a list, in order.
pub open spec fn strings_of(v: Seq<Item>) -> Seq<Seq<char>>
    decreases v.len(),
{
    if v.len() == 0 {
        Seq::empty()
    } else {
        match v.last() {
            Item::Str(s) => strings_of(v.drop_last()).push(s@),
            _ => strings_of(v.drop_last()),
        }
    }
}

/// The views of a list of strings.
pub open spec fn views(v: Seq<String>) -> Seq<Seq<char>> {
    Seq::new(v.len(), |i: int| v[i]@)
}

/// The text of a property that is a string or a path.
pub fn prop_str(p: &Props, key: &str) -> (r: Option<String>)
    ensures
        match r {
            Some(s) => p.text(key@) == Some(s@),
            None => p.text(key@) is None,
        },
{
    match p.get(key) {
        Some(Prop::Str(s)) => Some(owned(s.as_str())),
        Some(Prop::Path(s)) => Some(owned(s.as_str())),
        _ => None,
    }
}

/// The truth value of a property.
pub fn prop_bool(p: &Props, key: &str) -> (r: Option<bool>)
    ensures
        r == match p.prop(key@) {
            Some(Prop::Bool(b)) => Some(b),
            _ => None,
        },
        r == Some(true) <==> p.flag(key@),
{
    match p.get(key) {
        Some(Prop::Bool(b)) => Some(*b),
        _ => None,
    }
}

/// The truth value of a property; false where it has none.
pub fn prop_flag(p: &Props, key: &str) -> (r: bool)
    ensures
        r == p.flag(key@),
{
    match prop_bool(p, key) {
        Some(b) => b,
        None => false,
    }
}

/// The number of a property, where it fits.
pub fn prop_i16(p: &Props, key: &str) -> (r: Option<i16>)
    ensures
        r == p.signed(key@),
{
    match p.get(key) {
        Some(Prop::I16(v)) => Some(*v),
        Some(Prop::I32(v)) => if i16::MIN as i32 <= *v && *v <= i16::MAX as i32 {
            Some(*v as i16)
        } else {
            None
        },
        _ => None,
    }
}

/// The number of a property, where it fits.
pub fn prop_u16(p: &Props, key: &str) -> (r: Option<u16>)
    ensures
        r == match p.prop(key@) {
            Some(Prop::U16(v)) => Some(v),
            Some(Prop::U32(v)) => if v <= u16::MAX {
                Some(v as u16)
            } else {
                None
            },
            _ => None,
        },
{
    match p.get(key) {
        Some(Prop::U16(v)) => Some(*v),
        Some(Prop::U32(v)) => if *v <= u16::MAX as u32 {
            Some(*v as u16)
        } else {
            None
        },
        _ => None,
    }
}

/// The strings of a property.
pub fn prop_strs(p: &Props, key: &str) -> (r: Vec<String>)
    ensures
        views(r@) == p.strings(key@),
{
    let mut out: Vec<String> = Vec::new();
    match p.get(key) {
        Some(Prop::List(v)) => {
            let mut i: usize = 0;
            assert(views(out@) =~= strings_of(v@.take(0)));
            while i < v.len()
                invariant
                    i <= v.len(),
                    views(out@) == strings_of(v@.take(i as int)),
                decreases v.len() - i,
            {
                let ghost was = out@;
                assert(v@.take(i as int + 1).drop_last() =~= v@.take(i as int));
                if let Item::Str(s) = &v[i] {
                    out.push(owned(s.as_str()));
                    assert(views(out@) =~= views(was).push(s@));
                }
                i += 1;
            }
            assert(v@.take(v@.len() as int) =~= v@);
        },
        _ => {
            assert(views(out@) =~= Seq::<Seq<char>>::empty());
        },
    }
    out
}

/// The list holds bytes only.
pub open spec fn all_bytes(v: Seq<Item>) -> bool {
    forall|i: int| 0 <= i < v.len() ==> #[trigger] v[i] is Byte
}

/// The bytes of a value that is a list of bytes (a notification's payload).
pub fn value_bytes(v: &Prop) -> (r: Option<Vec<u8>>)
    ensures
        match r {
            Some(b) => v matches Prop::List(l) && all_bytes(l@) && b@ == Seq::new(
                l@.len(),
                |i: int| l@[i]->Byte_0,
            ),
            None => !(v matches Prop::List(l) && all_bytes(l@)),
        },
{
    match v {
        Prop::List(l) => {
            let mut out: Vec<u8> = Vec::new();
            let mut i: usize = 0;
            while i < l.len()
                invariant
                    i <= l.len(),
                    out@.len() == i,
                    *v == Prop::List(*l),
                    forall|k: int| 0 <= k < i ==> #[trigger] l@[k] == Item::Byte(out@[k]),
                decreases l.len() - i,
            {
                match &l[i] {
                    Item::Byte(b) => out.push(*b),
                    _ => {
                        assert(!(l@[i as int] is Byte));
                        return None;
                    },
                }
                i += 1;
            }
            assert(out@ =~= Seq::new(l@.len(), |i: int| l@[i]->Byte_0));
            Some(out)
        },
        _ => None,
    }
}

// ------------------------------------------------------------------ objects

/// The properties of an interface.
pub open spec fn find_iface(ifaces: Seq<(String, Props)>, name: Seq<char>) -> Option<Props>
    decreases ifaces.len(),
{
    if ifaces.len() == 0 {
        None
    } else if ifaces[0].0@ == name {
        Some(ifaces[0].1)
    } else {
        find_iface(ifaces.skip(1), name)
    }
}

impl Object {
    /// The properties of one of the object's interfaces.
    pub open spec fn iface(self, name: Seq<char>) -> Option<Props> {
        find_iface(self.ifaces@, name)
    }

    fn get_iface(&self, name: &str) -> (r: Option<&Props>)
        ensures
            match r {
                Some(p) => self.iface(name@) == Some(*p),
                None => self.iface(name@) is None,
            },
    {
        let mut i: usize = 0;
        assert(self.ifaces@.skip(0) =~= self.ifaces@);
        while i < self.ifaces.len()
            invariant
                i <= self.ifaces.len(),
                self.iface(name@) == find_iface(self.ifaces@.skip(i as int), name@),
            decreases self.ifaces.len() - i,
        {
            if same_str(self.ifaces[i].0.as_str(), name) {
                return Some(&self.ifaces[i].1);
            }
            assert(self.ifaces@.skip(i as int).skip(1) =~= self.ifaces@.skip(i as int + 1));
            i += 1;
        }
        None
    }
}

/// The paths stand in ascending order, each once.
pub open spec fn in_order(list: Seq<Object>) -> bool {
    forall|i: int, j: int|
        0 <= i < j < list.len() ==> before((#[trigger] list[i]).path@, (#[trigger] list[j]).path@)
}

/// There is an object at the path.
pub open spec fn is_at(list: Seq<Object>, path: Seq<char>, k: int) -> bool {
    0 <= k < list.len() && list[k].path@ == path
}

/// The object at a path.
pub open spec fn object_at(list: Seq<Object>, path: Seq<char>) -> Option<Object> {
    if exists|k: int| is_at(list, path, k) {
        Some(list[choose|k: int| is_at(list, path, k)])
    } else {
        None
    }
}

/// In an ordered list there is one object at most at a path.
proof fn lemma_object_at(list: Seq<Object>, path: Seq<char>, k: int)
    requires
        in_order(list),
        is_at(list, path, k),
    ensures
        object_at(list, path) == Some(list[k]),
{
    let j = choose|j: int| is_at(list, path, j);
    lemma_before_total(path, path);
    if j < k {
        assert(before(list[j].path@, list[k].path@));
    } else if k < j {
        assert(before(list[k].path@, list[j].path@));
    }
}

impl Objects {
    /// The objects are in order.
    pub open spec fn wf(self) -> bool {
        in_order(self.list@)
    }

    /// The object at a path.
    pub open spec fn object(self, path: Seq<char>) -> Option<Object> {
        object_at(self.list@, path)
    }

    /// The properties of an interface of the object at a path.
    pub open spec fn props(self, path: Seq<char>, iface: Seq<char>) -> Option<Props> {
        match self.object(path) {
            Some(o) => o.iface(iface),
            None => None,
        }
    }

    /// No objects.
    pub fn new() -> (r: Objects)
        ensures
            r.wf(),
            r.list@.len() == 0,
    {
        Objects { list: Vec::new() }
    }

    /// Sets the object at a path.
    pub fn insert(&mut self, path: String, ifaces: Vec<(String, Props)>)
        requires
            old(self).wf(),
        ensures
            final(self).wf(),
            final(self).object(path@) == Some(Object { path, ifaces }),
            forall|p: Seq<char>|
                p != path@ ==> #[trigger] final(self).object(p) == old(self).object(p),
    {
        let cs = chars_of(path.as_str());
        let ghost was = self.list@;
        let ghost o = Object { path, ifaces };
        let mut i: usize = 0;
        while i < self.list.len()
            invariant
                i <= self.list.len(),
                self.list@ == was,
                in_order(was),
                cs@ == path@,
                o == (Object { path, ifaces }),
                was == old(self).list@,
                forall|k: int| 0 <= k < i ==> before((#[trigger] was[k]).path@, path@),
            ensures
                i <= self.list.len(),
                i < self.list.len() ==> before(path@, was[i as int].path@),
            decreases self.list.len() - i,
        {
            if same_str(self.list[i].path.as_str(), path.as_str()) {
                self.list.set(i, Object { path, ifaces });
                let ghost now = self.list@;
                proof {
                    assert(now =~= was.update(i as int, o));
                    assert forall|j: int, k: int| 0 <= j < k < now.len() implies before(
                        (#[trigger] now[j]).path@,
                        (#[trigger] now[k]).path@,
                    ) by {
                        assert(before(was[j].path@, was[k].path@));
                    }
                    assert(is_at(now, o.path@, i as int));
                    lemma_object_at(now, o.path@, i as int);
                    assert forall|p: Seq<char>| p != o.path@ implies #[trigger] object_at(now, p)
                        == object_at(was, p) by {
                        lemma_same_elsewhere(was, now, p, |k: int| k, |k: int| k);
                    }
                }
                return ;
            }
            let other = chars_of(self.list[i].path.as_str());
            if comes_before(cs.as_slice(), other.as_slice()) {
                break ;
            }
            proof {
                lemma_before_total(path@, other@);
            }
            i += 1;
        }
        self.list.insert(i, Object { path, ifaces });
        let ghost now = self.list@;
        proof {
            assert(now =~= was.insert(i as int, o));
            assert forall|j: int, k: int| 0 <= j < k < now.len() implies before(
                (#[trigger] now[j]).path@,
                (#[trigger] now[k]).path@,
            ) by {
                if k < i {
                    assert(before(was[j].path@, was[k].path@));
                } else if k == i {
                    assert(before(was[j].path@, o.path@));
                } else if j > i {
                    assert(before(was[j - 1].path@, was[k - 1].path@));
                } else {
                    if k - 1 > i {
                        assert(before(was[i as int].path@, was[k - 1].path@));
                        lemma_before_transitive(o.path@, was[i as int].path@, was[k - 1].path@);
                    }
                    if j < i {
                        lemma_before_transitive(was[j].path@, o.path@, was[k - 1].path@);
                    }
                }
            }
            assert(is_at(now, o.path@, i as int));
            lemma_object_at(now, o.path@, i as int);
            assert forall|p: Seq<char>| p != o.path@ implies #[trigger] object_at(now, p)
                == object_at(was, p) by {
                lemma_same_elsewhere(
                    was,
                    now,
                    p,
                    |k: int|
                        if k < i {
                            k
                        } else {
                            k + 1
                        },
                    |k: int|
                        if k < i {
                            k
                        } else {
                            k - 1
                        },
                );
            }
        }
    }
}

/// Where every object of one ordered list at a path stands in another at the place that `f` gives, and
/// the other way round by `g`, both have the same object at the path.
proof fn lemma_same_elsewhere(
    was: Seq<Object>,
    now: Seq<Object>,
    p: Seq<char>,
    f: spec_fn(int) -> int,
    g: spec_fn(int) -> int,
)
    requires
        in_order(was),
        in_order(now),
        forall|k: int|
            #![trigger was[k]]
            is_at(was, p, k) ==> is_at(now, p, f(k)) && now[f(k)] == was[k],
        forall|k: int|
            #![trigger now[k]]
            is_at(now, p, k) ==> is_at(was, p, g(k)) && was[g(k)] == now[k],
    ensures
        object_at(now, p) == object_at(was, p),
{
    if exists|k: int| is_at(was, p, k) {
        let k = choose|k: int| is_at(was, p, k);
        assert(was[k] == was[k]);
        lemma_object_at(was, p, k);
        lemma_object_at(now, p, f(k));
    } else if exists|k: int| is_at(now, p, k) {
        let k = choose|k: int| is_at(now, p, k);
        assert(now[k] == now[k] && is_at(was, p, g(k)));
    }
}

/// The properties of an object's interface, if the object is there and implements it.
pub fn iface_props<'a>(objs: &'a Objects, path: &str, iface: &str) -> (r: Option<&'a Props>)
    requires
        objs.wf(),
    ensures
        match r {
            Some(p) => objs.props(path@, iface@) == Some(*p),
            None => objs.props(path@, iface@) is None,
        },
{
    match find_object(objs, path) {
        Some(o) => o.get_iface(iface),
        None => None,
    }
}

/// The object at a path.
pub fn find_object<'a>(objs: &'a Objects, path: &str) -> (r: Option<&'a Object>)
    requires
        objs.wf(),
    ensures
        match r {
            Some(o) => objs.object(path@) == Some(*o),
            None => objs.object(path@) is None,
        },
{
    let mut i: usize = 0;
    while i < objs.list.len()
        invariant
            i <= objs.list.len(),
            objs.wf(),
            forall|k: int| 0 <= k < i ==> !is_at(objs.list@, path@, k),
        decreases objs.list.len() - i,
    {
        if same_str(objs.list[i].path.as_str(), path) {
            proof {
                lemma_object_at(objs.list@, path@, i as int);
            }
            return Some(&objs.list[i]);
        }
        i += 1;
    }
    None
}

/// The objects that implement an interface, in the order of their paths: path and properties.
pub open spec fn with_iface(list: Seq<Object>, iface: Seq<char>) -> Seq<(Seq<char>, Props)>
    decreases list.len(),
{
    if list.len() == 0 {
        Seq::empty()
    } else {
        match list.last().iface(iface) {
            Some(p) => with_iface(list.drop_last(), iface).push((list.last().path@, p)),
            None => with_iface(list.drop_last(), iface),
        }
    }
}

/// What a list of paths and properties holds.
pub open spec fn entry_views(v: Seq<(String, &Props)>) -> Seq<(Seq<char>, Props)> {
    Seq::new(v.len(), |i: int| (v[i].0@, *v[i].1))
}

/// The objects that implement an interface, in the order of their paths.
pub fn objects_with<'a>(objs: &'a Objects, iface: &str) -> (r: Vec<(String, &'a Props)>)
    ensures
        entry_views(r@) == with_iface(objs.list@, iface@),
{
    let mut out: Vec<(String, &'a Props)> = Vec::new();
    let mut i: usize = 0;
    assert(entry_views(out@) =~= with_iface(objs.list@.take(0), iface@));
    while i < objs.list.len()
        invariant
            i <= objs.list.len(),
            entry_views(out@) == with_iface(objs.list@.take(i as int), iface@),
        decreases objs.list.len() - i,
    {
        let ghost was = out@;
        assert(objs.list@.take(i as int + 1).drop_last() =~= objs.list@.take(i as int));
        if let Some(p) = objs.list[i].get_iface(iface) {
            out.push((owned(objs.list[i].path.as_str()), p));
            assert(entry_views(out@) =~= entry_views(was).push((objs.list@[i as int].path@, *p)));
        }
        i += 1;
    }
    assert(objs.list@.take(objs.list@.len() as int) =~= objs.list@);
    out
}

/// A listing is in the order of the paths, and holds exactly the objects that implement the interface.
pub proof fn lemma_listing(objs: Objects, iface: Seq<char>)
    requires
        objs.wf(),
    ensures
        forall|i: int, j: int|
            0 <= i < j < with_iface(objs.list@, iface).len() ==> before(
                (#[trigger] with_iface(objs.list@, iface)[i]).0,
                (#[trigger] with_iface(objs.list@, iface)[j]).0,
            ),
        forall|path: Seq<char>, p: Props|
            #[trigger] with_iface(objs.list@, iface).contains((path, p)) <==> objs.props(path, iface)
                == Some(p),
{
    let list = objs.list@;
    let w = with_iface(list, iface);
    lemma_listing_in(list, iface);
    assert forall|path: Seq<char>, p: Props| #[trigger] w.contains((path, p)) <==> objs.props(
        path,
        iface,
    ) == Some(p) by {
        if w.contains((path, p)) {
            let k = choose|k: int| is_at(list, path, k) && list[k].iface(iface) == Some(p);
            lemma_object_at(list, path, k);
        }
        if objs.props(path, iface) == Some(p) {
            let k = choose|k: int| is_at(list, path, k);
            assert(is_at(list, path, k) && list[k].iface(iface) == Some(p));
        }
    }
}

proof fn lemma_listing_in(list: Seq<Object>, iface: Seq<char>)
    requires
        in_order(list),
    ensures
        forall|i: int, j: int|
            0 <= i < j < with_iface(list, iface).len() ==> before(
                (#[trigger] with_iface(list, iface)[i]).0,
                (#[trigger] with_iface(list, iface)[j]).0,
            ),
        forall|path: Seq<char>, p: Props|
            #[trigger] with_iface(list, iface).contains((path, p)) <==> exists|k: int| #[trigger]
                is_at(list, path, k) && list[k].iface(iface) == Some(p),
    decreases list.len(),
{
    if list.len() == 0 {
        assert forall|path: Seq<char>, p: Props| !(#[trigger] with_iface(list, iface).contains(
            (path, p),
        )) by {}
    } else {
        let rest = list.drop_last();
        let last = list.last();
        lemma_listing_in(rest, iface);
        let w = with_iface(list, iface);
        let t = with_iface(rest, iface);
        assert forall|path: Seq<char>, p: Props| #[trigger] w.contains((path, p)) <==> exists|k: int|
            #[trigger] is_at(list, path, k) && list[k].iface(iface) == Some(p) by {
            if w.contains((path, p)) {
                let i = choose|i: int| 0 <= i < w.len() && w[i] == (path, p);
                if i < t.len() {
                    assert(t[i] == (path, p));
                    assert(t.contains((path, p)));
                    let k = choose|k: int| #[trigger]
                        is_at(rest, path, k) && rest[k].iface(iface) == Some(p);
                    assert(is_at(list, path, k) && list[k].iface(iface) == Some(p));
                } else {
                    assert(is_at(list, path, list.len() - 1));
                }
            }
            if exists|k: int| #[trigger] is_at(list, path, k) && list[k].iface(iface) == Some(p) {
                let k = choose|k: int| #[trigger]
                    is_at(list, path, k) && list[k].iface(iface) == Some(p);
                if k < rest.len() {
                    assert(is_at(rest, path, k) && rest[k].iface(iface) == Some(p));
                    assert(t.contains((path, p)));
                    let i = choose|i: int| 0 <= i < t.len() && t[i] == (path, p);
                    assert(w[i] == (path, p));
                } else {
                    assert(w[t.len() as int] == (path, p));
                }
            }
        }
        assert forall|i: int, j: int| 0 <= i < j < w.len() implies before(
            (#[trigger] w[i]).0,
            (#[trigger] w[j]).0,
        ) by {
            if j < t.len() {
                assert(before(t[i].0, t[j].0));
            } else {
                let (path, p) = t[i];
                assert(t.contains((path, p)));
                let k = choose|k: int| #[trigger]
                    is_at(rest, path, k) && rest[k].iface(iface) == Some(p);
                assert(before(list[k].path@, list[list.len() - 1].path@));
            }
        }
    }
}

} // verus!
