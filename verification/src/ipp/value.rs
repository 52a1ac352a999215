//! IPP attribute values, and their passage to and from the `ipp` crate.

use vstd::prelude::*;

use crate::text::{before, byte_len};

verus! {

/// Kinds of plain string values.
#[derive(Debug, Clone, Copy, PartialEq, Eq, Structural)]
pub enum StrKind {
    Text,
    Name,
    Charset,
    Language,
    Uri,
    UriScheme,
    Keyword,
    Mime,
    MemberName,
}

impl StrKind {
    /// The most bytes that a string of this kind may take.
    pub open spec fn limit(self) -> int {
        match self {
            StrKind::Text => 1023,
            StrKind::Uri => 1023,
            StrKind::UriScheme => 1023,
            StrKind::Charset => 63,
            StrKind::Language => 63,
            _ => 255,
        }
    }
}

/// A date and time with its offset from UTC.
#[derive(Debug, Clone, Copy, PartialEq, Eq, Structural)]
pub struct DateTime {
    pub year: u16,
    pub month: u8,
    pub day: u8,
    pub hour: u8,
    pub minutes: u8,
    pub seconds: u8,
    pub deci_seconds: u8,
    pub utc_dir: char,
    pub utc_hours: u8,
    pub utc_mins: u8,
}

/// An attribute value.
#[derive(Debug)]
pub enum Value {
    Integer(i32),
    Enum(i32),
    OctetString(Vec<u8>),
    TextWithoutLanguage(String),
    NameWithoutLanguage(String),
    TextWithLanguage { language: String, text: String },
    NameWithLanguage { language: String, name: String },
    Charset(String),
    NaturalLanguage(String),
    Uri(String),
    UriScheme(String),
    RangeOfInteger { min: i32, max: i32 },
    Boolean(bool),
    Keyword(String),
    Array(Vec<Value>),
    Collection(Vec<(String, Value)>),
    MimeMediaType(String),
    DateTime(DateTime),
    MemberAttrName(String),
    Resolution { cross_feed: i32, feed: i32, units: i8 },
    NoValue,
    Other { tag: u8, data: Vec<u8> },
    /// A string value that is not UTF-8, by its tag.
    NonUtf8 { tag: u8, data: Vec<u8> },
}

/// What an attribute value holds.
pub enum ValueView {
    Integer(i32),
    Enum(i32),
    Octets(Seq<u8>),
    Str(StrKind, Seq<char>),
    TextLang(Seq<char>, Seq<char>),
    NameLang(Seq<char>, Seq<char>),
    Range(i32, i32),
    Boolean(bool),
    Array(Seq<ValueView>),
    Collection(Seq<(Seq<char>, ValueView)>),
    DateTime(DateTime),
    Resolution(i32, i32, i8),
    NoValue,
    Other(u8, Seq<u8>),
    NonUtf8(u8, Seq<u8>),
}

impl Value {
    /// What the value holds.
    pub open spec fn model(self) -> ValueView
        decreases self,
    {
        match self {
            Value::Integer(i) => ValueView::Integer(i),
            Value::Enum(i) => ValueView::Enum(i),
            Value::OctetString(b) => ValueView::Octets(b@),
            Value::TextWithoutLanguage(s) => ValueView::Str(StrKind::Text, s@),
            Value::NameWithoutLanguage(s) => ValueView::Str(StrKind::Name, s@),
            Value::TextWithLanguage { language, text } => ValueView::TextLang(language@, text@),
            Value::NameWithLanguage { language, name } => ValueView::NameLang(language@, name@),
            Value::Charset(s) => ValueView::Str(StrKind::Charset, s@),
            Value::NaturalLanguage(s) => ValueView::Str(StrKind::Language, s@),
            Value::Uri(s) => ValueView::Str(StrKind::Uri, s@),
            Value::UriScheme(s) => ValueView::Str(StrKind::UriScheme, s@),
            Value::RangeOfInteger { min, max } => ValueView::Range(min, max),
            Value::Boolean(b) => ValueView::Boolean(b),
            Value::Keyword(s) => ValueView::Str(StrKind::Keyword, s@),
            Value::Array(v) => ValueView::Array(
                Seq::new(
                    v@.len(),
                    |i: int|
                        if 0 <= i < v@.len() {
                            v@[i].model()
                        } else {
                            ValueView::NoValue
                        },
                ),
            ),
            Value::Collection(v) => ValueView::Collection(
                Seq::new(
                    v@.len(),
                    |i: int|
                        if 0 <= i < v@.len() {
                            (v@[i].0@, v@[i].1.model())
                        } else {
                            (Seq::empty(), ValueView::NoValue)
                        },
                ),
            ),
            Value::MimeMediaType(s) => ValueView::Str(StrKind::Mime, s@),
            Value::DateTime(d) => ValueView::DateTime(d),
            Value::MemberAttrName(s) => ValueView::Str(StrKind::MemberName, s@),
            Value::Resolution { cross_feed, feed, units } => ValueView::Resolution(
                cross_feed,
                feed,
                units,
            ),
            Value::NoValue => ValueView::NoValue,
            Value::Other { tag, data } => ValueView::Other(tag, data@),
            Value::NonUtf8 { tag, data } => ValueView::NonUtf8(tag, data@),
        }
    }
}

/// The views of a list of values.
pub open spec fn value_models(v: Seq<Value>) -> Seq<ValueView> {
    Seq::new(v.len(), |i: int| v[i].model())
}

/// The views of a list of members.
pub open spec fn member_models(v: Seq<(String, Value)>) -> Seq<(Seq<char>, ValueView)> {
    Seq::new(v.len(), |i: int| (v[i].0@, v[i].1.model()))
}

/// An array holds its values.
pub proof fn lemma_array_model(v: Vec<Value>)
    ensures
        Value::Array(v).model() == ValueView::Array(value_models(v@)),
{
    assert(Value::Array(v).model()->Array_0 =~= value_models(v@));
}

/// A collection holds its members.
pub proof fn lemma_collection_model(v: Vec<(String, Value)>)
    ensures
        Value::Collection(v).model() == ValueView::Collection(member_models(v@)),
{
    assert(Value::Collection(v).model()->Collection_0 =~= member_models(v@));
}

/// The names of the members stand in ascending order, each once.
pub open spec fn ascending(m: Seq<(Seq<char>, ValueView)>) -> bool {
    forall|i: int, j: int|
        0 <= i < j < m.len() ==> before((#[trigger] m[i]).0, (#[trigger] m[j]).0)
}

/// The value can be written: its strings are UTF-8 and within the limits of their kinds, and the
/// members of its collections in ascending order.
pub open spec fn writable(v: ValueView) -> bool
    decreases v,
{
    match v {
        ValueView::Str(k, s) => byte_len(s) <= k.limit(),
        ValueView::TextLang(l, t) => byte_len(l) <= 63 && byte_len(t) <= 1023,
        ValueView::NameLang(l, t) => byte_len(l) <= 63 && byte_len(t) <= 255,
        ValueView::Array(a) => forall|i: int| 0 <= i < a.len() ==> writable(#[trigger] a[i]),
        ValueView::Collection(c) => ascending(c) && forall|i: int|
            0 <= i < c.len() ==> byte_len((#[trigger] c[i]).0) <= 255 && writable(c[i].1),
        ValueView::NonUtf8(_, _) => false,
        _ => true,
    }
}

// ------------------------------------------------------------------ attributes

/// Attribute group tags.
#[derive(Debug, Clone, Copy, PartialEq, Eq, Structural)]
pub enum Group {
    OperationAttributes,
    JobAttributes,
    EndOfAttributes,
    PrinterAttributes,
    UnsupportedAttributes,
    SubscriptionAttributes,
    EventNotificationAttributes,
    ResourceAttributes,
    DocumentAttributes,
    SystemAttributes,
}

/// A named attribute.
#[derive(Debug)]
pub struct Attr {
    pub name: String,
    pub value: Value,
}

/// A group of attributes.
#[derive(Debug)]
pub struct AttrGroup {
    pub tag: Group,
    pub attrs: Vec<Attr>,
}

/// What a group holds: its tag, and the name and value of each attribute.
pub struct GroupView {
    pub tag: Group,
    pub attrs: Seq<(Seq<char>, ValueView)>,
}

impl Attr {
    /// The name and what the value holds.
    pub open spec fn model(self) -> (Seq<char>, ValueView) {
        (self.name@, self.value.model())
    }
}

/// The views of a list of attributes.
pub open spec fn attr_models(v: Seq<Attr>) -> Seq<(Seq<char>, ValueView)> {
    Seq::new(v.len(), |i: int| v[i].model())
}

impl AttrGroup {
    /// What the group holds.
    pub open spec fn model(self) -> GroupView {
        GroupView { tag: self.tag, attrs: attr_models(self.attrs@) }
    }
}

/// The views of a list of groups.
pub open spec fn group_models(v: Seq<AttrGroup>) -> Seq<GroupView> {
    Seq::new(v.len(), |i: int| v[i].model())
}

/// The attribute can be written.
pub open spec fn attr_writable(a: (Seq<char>, ValueView)) -> bool {
    byte_len(a.0) <= 255 && writable(a.1)
}

/// All attributes of the group can be written.
pub open spec fn attrs_writable(a: Seq<(Seq<char>, ValueView)>) -> bool {
    forall|j: int| 0 <= j < a.len() ==> attr_writable(#[trigger] a[j])
}

/// All attributes of all groups can be written.
pub open spec fn groups_writable(g: Seq<GroupView>) -> bool {
    forall|i: int| 0 <= i < g.len() ==> attrs_writable((#[trigger] g[i]).attrs)
}

// ------------------------------------------------------------------ what reads back

/// Two values are of one kind.
pub open spec fn same_kind(a: ValueView, b: ValueView) -> bool {
    match (a, b) {
        (ValueView::Integer(_), ValueView::Integer(_)) => true,
        (ValueView::Enum(_), ValueView::Enum(_)) => true,
        (ValueView::Octets(_), ValueView::Octets(_)) => true,
        (ValueView::Str(k, _), ValueView::Str(l, _)) => k == l,
        (ValueView::Range(_, _), ValueView::Range(_, _)) => true,
        (ValueView::Boolean(_), ValueView::Boolean(_)) => true,
        (ValueView::Collection(_), ValueView::Collection(_)) => true,
        (ValueView::DateTime(_), ValueView::DateTime(_)) => true,
        (ValueView::Resolution(_, _, _), ValueView::Resolution(_, _, _)) => true,
        (ValueView::NoValue, ValueView::NoValue) => true,
        (ValueView::Other(s, _), ValueView::Other(t, _)) => s == t,
        _ => false,
    }
}

/// The value is written as one value, and read as it was written: its strings are within the limits of
/// their kinds, bytes within that of the length field, and a collection holds no list.
pub open spec fn single(v: ValueView) -> bool
    decreases v,
{
    match v {
        ValueView::Str(k, s) => k != StrKind::MemberName && byte_len(s) <= k.limit(),
        ValueView::Octets(b) => b.len() <= 65535,
        ValueView::Other(tag, b) => tag == 0x12 && b.len() <= 65535,
        ValueView::DateTime(d) => d.utc_dir == '+' || d.utc_dir == '-',
        ValueView::Collection(c) => ascending(c) && forall|i: int|
            0 <= i < c.len() ==> byte_len((#[trigger] c[i]).0) <= 255 && single(c[i].1),
        ValueView::TextLang(_, _) => false,
        ValueView::NameLang(_, _) => false,
        ValueView::Array(_) => false,
        ValueView::NonUtf8(_, _) => false,
        _ => true,
    }
}

/// The values are all of one kind.
pub open spec fn uniform(a: Seq<ValueView>) -> bool {
    forall|i: int| 0 <= i < a.len() ==> single(#[trigger] a[i]) && same_kind(a[0], a[i])
}

/// The value is read as it was written: one value, or a list of two or more of one kind.
pub open spec fn settled(v: ValueView) -> bool {
    match v {
        ValueView::Array(a) => a.len() >= 2 && uniform(a),
        _ => single(v),
    }
}

/// The attributes have names, and are read as they were written.
pub open spec fn attrs_settled(a: Seq<(Seq<char>, ValueView)>) -> bool {
    forall|j: int|
        0 <= j < a.len() ==> (#[trigger] a[j]).0.len() > 0 && byte_len(a[j].0) <= 255 && settled(
            a[j].1,
        )
}

/// The place of an operation attribute: four have one, at the beginning.
pub open spec fn head_rank(name: Seq<char>) -> int {
    if name == "attributes-charset"@ {
        0
    } else if name == "attributes-natural-language"@ {
        1
    } else if name == "printer-uri"@ {
        2
    } else if name == "job-id"@ {
        3
    } else {
        4
    }
}

/// Operation attributes that have a place stand there, each once.
pub open spec fn in_order(a: Seq<(Seq<char>, ValueView)>) -> bool {
    forall|i: int, j: int|
        0 <= i < j < a.len() ==> head_rank((#[trigger] a[i]).0) < head_rank((#[trigger] a[j]).0) || (
        head_rank(a[i].0) == 4 && head_rank(a[j].0) == 4)
}

/// The groups are read as they were written: the operation attributes first, in order, and no group
/// that would end the message.
pub open spec fn groups_settled(g: Seq<GroupView>) -> bool {
    &&& g.len() > 0
    &&& g[0].tag == Group::OperationAttributes
    &&& in_order(g[0].attrs)
    &&& forall|i: int|
        0 < i < g.len() ==> (#[trigger] g[i]).tag != Group::OperationAttributes && g[i].tag
            != Group::EndOfAttributes
    &&& forall|i: int| 0 <= i < g.len() ==> attrs_settled((#[trigger] g[i]).attrs)
}

} // verus!
