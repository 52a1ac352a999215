//! Building messages.

use vstd::prelude::*;

use crate::ipp::codec::{utf8_prefix, v_charset, v_lang, v_text, v_uri, CodecError, Group, Status};
use crate::ipp::value::{
    attr_models, attr_writable, attrs_writable, group_models, groups_writable, writable, Attr,
    AttrGroup, GroupView, StrKind, Value, ValueView,
};
use crate::ipp::wire::{encode, reads_back, wire_bytes};
use crate::text::{byte_len, bytes_in, dec, lemma_within_all, owned, push_dec, within_bytes};

verus! {

/// The attributes that begin every message: charset and language.
pub open spec fn head_attrs() -> Seq<(Seq<char>, ValueView)> {
    seq![
        ("attributes-charset"@, ValueView::Str(StrKind::Charset, "utf-8"@)),
        ("attributes-natural-language"@, ValueView::Str(StrKind::Language, "en"@)),
    ]
}

/// The groups with an attribute appended to the first group of a tag, which is created at the end
/// where there is none.
pub open spec fn with_attribute(
    g: Seq<GroupView>,
    tag: Group,
    name: Seq<char>,
    v: ValueView,
) -> Seq<GroupView>
    decreases g.len(),
{
    if g.len() == 0 {
        seq![GroupView { tag, attrs: seq![(name, v)] }]
    } else if g[0].tag == tag {
        g.update(0, GroupView { tag, attrs: g[0].attrs.push((name, v)) })
    } else {
        seq![g[0]] + with_attribute(g.skip(1), tag, name, v)
    }
}

impl AttrGroup {
    /// Appends an attribute; its name is cut to its limit.
    pub fn push_attr(&mut self, name: &str, value: Value)
        requires
            writable(value.model()),
        ensures
            final(self).tag == old(self).tag,
            attr_models(final(self).attrs@) == attr_models(old(self).attrs@).push(
                (within_bytes(name@, 255), value.model()),
            ),
            attrs_writable(attr_models(old(self).attrs@)) ==> attrs_writable(
                attr_models(final(self).attrs@),
            ),
    {
        let ghost was = self.attrs@;
        self.attrs.push(Attr { name: utf8_prefix(name, 255), value });
        assert(attr_models(self.attrs@) =~= attr_models(was).push(
            (within_bytes(name@, 255), value.model()),
        ));
        assert(attrs_writable(attr_models(was)) ==> attrs_writable(attr_models(self.attrs@))) by {
            if attrs_writable(attr_models(was)) {
                assert forall|j: int| 0 <= j < self.attrs@.len() implies attr_writable(
                    #[trigger] attr_models(self.attrs@)[j],
                ) by {
                    if j < was.len() {
                        assert(attr_writable(attr_models(was)[j]));
                    }
                }
            }
        }
    }
}

fn head_group() -> (r: AttrGroup)
    ensures
        r.model() == (GroupView { tag: Group::OperationAttributes, attrs: head_attrs() }),
        attrs_writable(r.model().attrs),
{
    let mut g = AttrGroup { tag: Group::OperationAttributes, attrs: Vec::new() };
    assert(attr_models(g.attrs@) =~= Seq::<(Seq<char>, ValueView)>::empty());
    g.push_attr("attributes-charset", v_charset("utf-8"));
    g.push_attr("attributes-natural-language", v_lang("en"));
    proof {
        reveal_strlit("attributes-charset");
        reveal_strlit("attributes-natural-language");
        reveal_strlit("utf-8");
        reveal_strlit("en");
        reveal_with_fuel(byte_len, 28);
        lemma_short("attributes-charset"@);
        lemma_short("attributes-natural-language"@);
        lemma_short("utf-8"@);
        lemma_short("en"@);
        lemma_within_all("attributes-charset"@, 255);
        lemma_within_all("attributes-natural-language"@, 255);
        lemma_within_all("utf-8"@, 63);
        lemma_within_all("en"@, 63);
        assert(attr_models(g.attrs@) =~= head_attrs());
    }
    g
}

/// A text takes at most four bytes per character.
pub proof fn lemma_short(s: Seq<char>)
    ensures
        byte_len(s) <= 4 * s.len(),
    decreases s.len(),
{
    if s.len() > 0 {
        lemma_short(s.drop_last());
    }
}

/// Response builder.
#[derive(Debug)]
pub struct Resp {
    pub version: u16,
    pub status: Status,
    pub request_id: i32,
    pub groups: Vec<AttrGroup>,
}

/// What a response says: its header and its groups.
pub struct Answer {
    pub version: u16,
    pub status: Status,
    pub request_id: i32,
    pub groups: Seq<GroupView>,
}

/// The version of an answer: that of the request, where it is of the first or second family.
pub open spec fn reply_version(version: u16) -> u16 {
    if version / 256 == 1 || version / 256 == 2 {
        version
    } else {
        0x0101
    }
}

/// A response with charset and language, and nothing else.
pub open spec fn plain(version: u16, status: Status, request_id: i32) -> Answer {
    Answer {
        version: reply_version(version),
        status,
        request_id,
        groups: seq![GroupView { tag: Group::OperationAttributes, attrs: head_attrs() }],
    }
}

/// A response with a status message.
pub open spec fn refusal(version: u16, status: Status, request_id: i32, msg: Seq<char>) -> Answer {
    Answer {
        version: reply_version(version),
        status,
        request_id,
        groups: seq![
            GroupView {
                tag: Group::OperationAttributes,
                attrs: head_attrs().push(
                    (
                        within_bytes("status-message"@, 255),
                        ValueView::Str(StrKind::Text, within_bytes(msg, 1023)),
                    ),
                ),
            },
        ],
    }
}

/// A response with one group more.
pub open spec fn with_group(a: Answer, tag: Group, attrs: Seq<(Seq<char>, ValueView)>) -> Answer {
    Answer { groups: a.groups.push(GroupView { tag, attrs }), ..a }
}

/// A response with a status message.
pub fn refuse(version: u16, status: Status, request_id: i32, msg: &str) -> (r: Resp)
    ensures
        r.ok(),
        r.answer() == refusal(version, status, request_id, msg@),
{
    let r = Resp::new(version, status, request_id).status_message(msg);
    assert(r.answer().groups =~= refusal(version, status, request_id, msg@).groups);
    r
}

/// Appends attributes to one group of a response.
pub struct GroupWriter<'a> {
    pub g: &'a mut AttrGroup,
}

/// Appends to the first group of a tag, creating it if needed.
fn add_to(groups: &mut Vec<AttrGroup>, tag: Group, name: &str, value: Value)
    requires
        groups_writable(group_models(old(groups)@)),
        writable(value.model()),
    ensures
        group_models(final(groups)@) == with_attribute(
            group_models(old(groups)@),
            tag,
            within_bytes(name@, 255),
            value.model(),
        ),
        groups_writable(group_models(final(groups)@)),
{
    let ghost was = group_models(groups@);
    let ghost nm = within_bytes(name@, 255);
    let ghost vm = value.model();
    let mut i: usize = 0;
    assert(was.skip(0) =~= was);
    assert(was.take(0) + with_attribute(was, tag, nm, vm) =~= with_attribute(was, tag, nm, vm));
    while i < groups.len()
        invariant
            i <= groups.len(),
            group_models(groups@) == was,
            groups_writable(was),
            was == group_models(old(groups)@),
            nm == within_bytes(name@, 255),
            vm == value.model(),
            writable(value.model()),
            with_attribute(was, tag, nm, vm) == was.take(i as int) + with_attribute(
                was.skip(i as int),
                tag,
                nm,
                vm,
            ),
        decreases groups.len() - i,
    {
        assert(was[i as int] == groups@[i as int].model());
        assert(was.skip(i as int)[0] == was[i as int]);
        if groups[i].tag == tag {
            assert(attrs_writable(was[i as int].attrs));
            let ghost g0 = groups@;
            groups[i].push_attr(name, value);
            let ghost now = group_models(groups@);
            proof {
                let changed = GroupView { tag, attrs: was[i as int].attrs.push((nm, vm)) };
                assert(now =~= was.update(i as int, changed));
                assert(was.take(i as int) + was.skip(i as int).update(0, changed) =~= was.update(
                    i as int,
                    changed,
                ));
                assert forall|k: int| 0 <= k < now.len() implies attrs_writable(
                    (#[trigger] now[k]).attrs,
                ) by {
                    if k != i {
                        assert(attrs_writable(was[k].attrs));
                    }
                }
            }
            return ;
        }
        assert(was.skip(i as int).skip(1) =~= was.skip(i as int + 1));
        assert(was.take(i as int) + (seq![was[i as int]] + with_attribute(
            was.skip(i as int + 1),
            tag,
            nm,
            vm,
        )) =~= was.take(i as int + 1) + with_attribute(was.skip(i as int + 1), tag, nm, vm));
        i += 1;
    }
    let mut g = AttrGroup { tag, attrs: Vec::new() };
    assert(attr_models(g.attrs@) =~= Seq::<(Seq<char>, ValueView)>::empty());
    g.push_attr(name, value);
    groups.push(g);
    proof {
        let added = GroupView { tag, attrs: seq![(nm, vm)] };
        assert(g.model().attrs =~= seq![(nm, vm)]);
        let now = group_models(groups@);
        assert(now =~= was.push(added));
        assert(was.skip(i as int) =~= Seq::<GroupView>::empty());
        assert(was.take(i as int) + seq![added] =~= was.push(added));
        assert forall|k: int| 0 <= k < now.len() implies attrs_writable(
            (#[trigger] now[k]).attrs,
        ) by {
            if k < was.len() {
                assert(attrs_writable(was[k].attrs));
            }
        }
    }
}

impl Resp {
    /// What the response holds.
    pub open spec fn model(self) -> Seq<GroupView> {
        group_models(self.groups@)
    }

    /// The response can be written.
    pub open spec fn ok(self) -> bool {
        groups_writable(self.model())
    }

    /// What the response says.
    pub open spec fn answer(self) -> Answer {
        Answer {
            version: self.version,
            status: self.status,
            request_id: self.request_id,
            groups: self.model(),
        }
    }

    /// Appends a group.
    pub fn push_attrs(&mut self, tag: Group, attrs: Vec<Attr>)
        requires
            old(self).ok(),
            attrs_writable(attr_models(attrs@)),
        ensures
            final(self).ok(),
            final(self).answer() == with_group(old(self).answer(), tag, attr_models(attrs@)),
    {
        let ghost was = self.model();
        let g = AttrGroup { tag, attrs };
        self.groups.push(g);
        assert(self.model() =~= was.push(GroupView { tag, attrs: attr_models(attrs@) }));
        assert forall|k: int| 0 <= k < self.model().len() implies attrs_writable(
            (#[trigger] self.model()[k]).attrs,
        ) by {
            if k < was.len() {
                assert(attrs_writable(was[k].attrs));
            }
        }
    }

    /// A response to a request of a version and id, with charset and language. A version of neither family
    /// is answered as 1.1.
    pub fn new(req_version: u16, status: Status, request_id: i32) -> (r: Resp)
        ensures
            r.answer() == plain(req_version, status, request_id),
            r.ok(),
    {
        let mut groups: Vec<AttrGroup> = Vec::new();
        groups.push(head_group());
        let version: u16 = if req_version / 256 == 1 || req_version / 256 == 2 {
            req_version
        } else {
            0x0101
        };
        let r = Resp { version, status, request_id, groups };
        assert(r.model() =~= seq![
            GroupView { tag: Group::OperationAttributes, attrs: head_attrs() },
        ]);
        r
    }

    /// The response with a status message.
    pub fn status_message(self, msg: &str) -> (r: Resp)
        requires
            self.ok(),
        ensures
            r.version == self.version,
            r.status == self.status,
            r.request_id == self.request_id,
            r.model() == with_attribute(
                self.model(),
                Group::OperationAttributes,
                within_bytes("status-message"@, 255),
                ValueView::Str(StrKind::Text, within_bytes(msg@, 1023)),
            ),
            r.ok(),
    {
        let mut r = self;
        r.add(Group::OperationAttributes, "status-message", v_text(msg));
        r
    }

    /// Appends to the (first) group of this tag, creating it if needed.
    pub fn add(&mut self, group: Group, attr_name: &str, value: Value)
        requires
            old(self).ok(),
            writable(value.model()),
        ensures
            final(self).version == old(self).version,
            final(self).status == old(self).status,
            final(self).request_id == old(self).request_id,
            final(self).model() == with_attribute(
                old(self).model(),
                group,
                within_bytes(attr_name@, 255),
                value.model(),
            ),
            final(self).ok(),
    {
        add_to(&mut self.groups, group, attr_name, value);
    }

    /// Starts a new group of this tag (Get-Jobs needs one job group per job).
    pub fn push_group(&mut self, group: Group) -> (r: GroupWriter<'_>)
        ensures
            r.g.tag == group,
            r.g.attrs@.len() == 0,
            final(self).version == old(self).version,
            final(self).status == old(self).status,
            final(self).request_id == old(self).request_id,
            final(self).groups@ == old(self).groups@.push(*final(r.g)),
    {
        self.groups.push(AttrGroup { tag: group, attrs: Vec::new() });
        let n: usize = self.groups.len();
        GroupWriter { g: &mut self.groups[n - 1] }
    }

    /// The bytes of the response.
    pub fn into_bytes(self) -> (r: Vec<u8>)
        requires
            self.ok(),
        ensures
            r@ == wire_bytes(self.version, self.status.code(), self.request_id, self.model()),
            reads_back(
                r@,
                self.version,
                self.status.code(),
                self.request_id,
                self.model(),
            ),
    {
        encode(self.version, self.status.as_u16(), self.request_id, &self.groups)
    }

    /// The attribute groups of the response.
    pub fn attributes(&self) -> (r: &Vec<AttrGroup>)
        ensures
            *r == self.groups,
    {
        &self.groups
    }
}

impl<'a> GroupWriter<'a> {
    /// Appends an attribute.
    pub fn add(self, attr_name: &str, value: Value) -> (r: GroupWriter<'a>)
        requires
            writable(value.model()),
        ensures
            r.g.tag == old(self.g).tag,
            attr_models(r.g.attrs@) == attr_models(old(self.g).attrs@).push(
                (within_bytes(attr_name@, 255), value.model()),
            ),
            attrs_writable(attr_models(old(self.g).attrs@)) ==> attrs_writable(
                attr_models(r.g.attrs@),
            ),
            *final(self.g) == *final(r.g),
    {
        let g = self.g;
        g.push_attr(attr_name, value);
        GroupWriter { g }
    }
}

/// A URI as `http::Uri` parses it and `ipp::util::canonicalize_uri` rewrites it; `None` where it
/// cannot be parsed.
pub uninterp spec fn canonical_uri(uri: Seq<char>) -> Option<Seq<char>>;

/// `http::Uri`'s `FromStr` and `ipp::util::canonicalize_uri`: the result is a function of the text.
#[verifier::external_body]
fn canonicalize(uri: &str) -> (r: Option<String>)
    ensures
        match r {
            Some(c) => canonical_uri(uri@) == Some(c@),
            None => canonical_uri(uri@) is None,
        },
{
    uri.parse::<http::Uri>().ok().map(|u| ::ipp::util::canonicalize_uri(&u).to_string())
}

/// Request builder.
#[derive(Debug)]
pub struct ReqBuilder {
    pub op: u16,
    pub groups: Vec<AttrGroup>,
}

/// The attributes that begin a request to a printer.
pub open spec fn request_attrs(uri: Option<Seq<char>>) -> Seq<(Seq<char>, ValueView)> {
    match uri {
        Some(u) => head_attrs().push(
            (within_bytes("printer-uri"@, 255), ValueView::Str(StrKind::Uri, u)),
        ),
        None => head_attrs(),
    }
}

impl ReqBuilder {
    /// What the request holds.
    pub open spec fn model(self) -> Seq<GroupView> {
        group_models(self.groups@)
    }

    /// The request can be written.
    pub open spec fn ok(self) -> bool {
        groups_writable(self.model())
    }

    /// A request to a printer. Fails only when the canonical URI is longer than the limit.
    pub fn new(op: u16, printer_uri: &str) -> (r: Result<ReqBuilder, CodecError>)
        ensures
            match r {
                Ok(b) => {
                    &&& canonical_uri(printer_uri@) is Some ==> byte_len(
                        canonical_uri(printer_uri@)->0,
                    ) <= 1023
                    &&& b.op == op
                    &&& b.model() == seq![
                        GroupView {
                            tag: Group::OperationAttributes,
                            attrs: request_attrs(canonical_uri(printer_uri@)),
                        },
                    ]
                    &&& b.ok()
                },
                Err(CodecError::Parse(t)) => canonical_uri(printer_uri@) matches Some(c) && byte_len(c)
                    > 1023 && t@ == "request for "@ + printer_uri@ + ": invalid string length: "@ + dec(
                    byte_len(c),
                ) + ", max: 1023"@,
            },
    {
        let mut g = head_group();
        if let Some(c) = canonicalize(printer_uri) {
            let n: usize = bytes_in(c.as_str());
            if n > 1023 {
                let mut m = owned("request for ");
                m.push_str(printer_uri);
                m.push_str(": invalid string length: ");
                push_dec(&mut m, n as u64);
                m.push_str(", max: 1023");
                return Err(CodecError::Parse(m));
            }
            proof {
                lemma_within_all(c@, 1023);
            }
            g.push_attr("printer-uri", v_uri(c.as_str()));
        }
        let mut groups: Vec<AttrGroup> = Vec::new();
        groups.push(g);
        let b = ReqBuilder { op, groups };
        assert(b.model() =~= seq![
            GroupView {
                tag: Group::OperationAttributes,
                attrs: request_attrs(canonical_uri(printer_uri@)),
            },
        ]);
        Ok(b)
    }

    /// Appends to the (first) group of this tag, creating it if needed.
    pub fn add(self, group: Group, attr_name: &str, value: Value) -> (r: ReqBuilder)
        requires
            self.ok(),
            writable(value.model()),
        ensures
            r.op == self.op,
            r.model() == with_attribute(
                self.model(),
                group,
                within_bytes(attr_name@, 255),
                value.model(),
            ),
            r.ok(),
    {
        let mut r = self;
        add_to(&mut r.groups, group, attr_name, value);
        r
    }

    /// The bytes of the request: version 2.0, request id 1.
    pub fn into_bytes(self) -> (r: Vec<u8>)
        requires
            self.ok(),
        ensures
            r@ == wire_bytes(0x0200, self.op, 1, self.model()),
            reads_back(r@, 0x0200, self.op, 1, self.model()),
    {
        encode(0x0200, self.op, 1, &self.groups)
    }
}

} // verus!
