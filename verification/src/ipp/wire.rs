//! The passage to and from the `ipp` crate: its values and attribute lists are opened and built
//! one piece at a time.

use ::ipp::model::DelimiterTag as Delimiter;
use ::ipp::value::IppValue as Wire;
use vstd::prelude::*;

use crate::ipp::codec::be32;
use crate::ipp::value::{
    ascending, attr_models, attr_writable, attrs_writable, group_models, groups_settled, groups_writable,
    lemma_array_model, lemma_collection_model, member_models, value_models, writable, Attr,
    AttrGroup, DateTime, Group, GroupView, StrKind, Value, ValueView,
};
use crate::text::{byte_len, owned};

verus! {

// ------------------------------------------------------------------ outside types

/// A value of the `ipp` crate.
#[verifier::external_type_specification]
#[verifier::external_body]
pub struct ExWireValue(::ipp::value::IppValue);

/// A list of attribute groups of the `ipp` crate.
#[verifier::external_type_specification]
#[verifier::external_body]
pub struct ExWireAttributes(::ipp::attribute::IppAttributes);

/// What a value of the `ipp` crate holds.
pub uninterp spec fn wire_model(v: ::ipp::value::IppValue) -> ValueView;

/// What an attribute list of the `ipp` crate holds.
pub uninterp spec fn wire_groups(a: ::ipp::attribute::IppAttributes) -> Seq<GroupView>;

/// What `ipp::parser::IppParser::parse_parts` reads from a message: the attribute groups and the
/// position after the end-of-attributes tag; or the text of its error.
pub uninterp spec fn wire_parse(data: Seq<u8>) -> Result<(Seq<GroupView>, nat), Seq<char>>;

/// What `ipp::IppHeader::to_bytes` and `ipp::attribute::IppAttributes::to_bytes` write.
pub uninterp spec fn wire_bytes(version: u16, code: u16, id: i32, groups: Seq<GroupView>) -> Seq<u8>;

// ------------------------------------------------------------------ opening values

/// A value that is a number or has no content.
pub enum Number {
    Integer(i32),
    Enum(i32),
    Boolean(bool),
    Range(i32, i32),
    Resolution(i32, i32, i8),
    NoValue,
}

/// What a number holds.
pub open spec fn number_model(n: Number) -> ValueView {
    match n {
        Number::Integer(i) => ValueView::Integer(i),
        Number::Enum(i) => ValueView::Enum(i),
        Number::Boolean(b) => ValueView::Boolean(b),
        Number::Range(a, b) => ValueView::Range(a, b),
        Number::Resolution(c, f, u) => ValueView::Resolution(c, f, u),
        Number::NoValue => ValueView::NoValue,
    }
}

/// The value is a number or has no content.
pub open spec fn is_number(v: ValueView) -> bool {
    v is Integer || v is Enum || v is Boolean || v is Range || v is Resolution || v is NoValue
}

/// Tells the number variants of `ipp::value::IppValue` apart.
#[verifier::external_body]
fn open_number(v: &::ipp::value::IppValue) -> (r: Option<Number>)
    ensures
        match r {
            Some(n) => wire_model(*v) == number_model(n),
            None => !is_number(wire_model(*v)),
        },
{
    match v {
        Wire::Integer(i) => Some(Number::Integer(*i)),
        Wire::Enum(i) => Some(Number::Enum(*i)),
        Wire::Boolean(b) => Some(Number::Boolean(*b)),
        Wire::RangeOfInteger { min, max } => Some(Number::Range(*min, *max)),
        Wire::Resolution { cross_feed, feed, units } => Some(
            Number::Resolution(*cross_feed, *feed, *units),
        ),
        Wire::NoValue => Some(Number::NoValue),
        _ => None,
    }
}

/// Tells the string variants of `ipp::value::IppValue` apart.
#[verifier::external_body]
fn open_str(v: &::ipp::value::IppValue) -> (r: Option<(StrKind, &str)>)
    ensures
        match r {
            Some((k, s)) => wire_model(*v) == ValueView::Str(k, s@),
            None => !(wire_model(*v) is Str),
        },
{
    let found: (StrKind, &str) = match v {
        Wire::TextWithoutLanguage(s) => (StrKind::Text, s.as_ref()),
        Wire::NameWithoutLanguage(s) => (StrKind::Name, s.as_str()),
        Wire::Charset(s) => (StrKind::Charset, s.as_str()),
        Wire::NaturalLanguage(s) => (StrKind::Language, s.as_str()),
        Wire::Uri(s) => (StrKind::Uri, s.as_str()),
        Wire::UriScheme(s) => (StrKind::UriScheme, s.as_str()),
        Wire::Keyword(s) => (StrKind::Keyword, s.as_str()),
        Wire::MimeMediaType(s) => (StrKind::Mime, s.as_str()),
        Wire::MemberAttrName(s) => (StrKind::MemberName, s.as_str()),
        _ => return None,
    };
    Some(found)
}

/// A value of bytes, with a language, or a date.
pub enum Data {
    Octets(Vec<u8>),
    TextLang(String, String),
    NameLang(String, String),
    Other(u8, Vec<u8>),
    NonUtf8(u8, Vec<u8>),
}

/// What such a value holds.
pub open spec fn data_model(d: Data) -> ValueView {
    match d {
        Data::Octets(b) => ValueView::Octets(b@),
        Data::TextLang(l, t) => ValueView::TextLang(l@, t@),
        Data::NameLang(l, t) => ValueView::NameLang(l@, t@),
        Data::Other(t, b) => ValueView::Other(t, b@),
        Data::NonUtf8(t, b) => ValueView::NonUtf8(t, b@),
    }
}

/// The value is one of bytes or with a language.
pub open spec fn is_data(v: ValueView) -> bool {
    v is Octets || v is TextLang || v is NameLang || v is Other || v is NonUtf8
}

/// Tells the variants of `ipp::value::IppValue` with bytes or a language apart.
#[verifier::external_body]
fn open_data(v: &::ipp::value::IppValue) -> (r: Option<Data>)
    ensures
        match r {
            Some(d) => wire_model(*v) == data_model(d),
            None => !is_data(wire_model(*v)),
        },
{
    match v {
        Wire::OctetString(b) => Some(Data::Octets(b.to_vec())),
        Wire::TextWithLanguage { language, text } => Some(
            Data::TextLang(language.to_string(), text.to_string()),
        ),
        Wire::NameWithLanguage { language, name } => Some(
            Data::NameLang(language.to_string(), name.to_string()),
        ),
        Wire::Other { tag, data } => Some(Data::Other(*tag, data.to_vec())),
        Wire::NonUtf8 { tag, data } => Some(
            Data::NonUtf8(*tag as u8, data.to_vec()),
        ),
        _ => None,
    }
}

/// Takes the date variant of `ipp::value::IppValue` apart.
#[verifier::external_body]
fn open_date(v: &::ipp::value::IppValue) -> (r: Option<DateTime>)
    ensures
        match r {
            Some(d) => wire_model(*v) == ValueView::DateTime(d),
            None => !(wire_model(*v) is DateTime),
        },
{
    v.as_date_time().map(|d| DateTime {
        year: d.year,
        month: d.month,
        day: d.day,
        hour: d.hour,
        minutes: d.minutes,
        seconds: d.seconds,
        deci_seconds: d.deci_seconds,
        utc_dir: d.utc_dir,
        utc_hours: d.utc_hours,
        utc_mins: d.utc_mins,
    })
}

/// The models of a list of values.
pub open spec fn wire_models(v: Seq<::ipp::value::IppValue>) -> Seq<ValueView> {
    Seq::new(v.len(), |i: int| wire_model(v[i]))
}

/// The models of a list of members.
pub open spec fn wire_members(v: Seq<(String, ::ipp::value::IppValue)>) -> Seq<
    (Seq<char>, ValueView),
> {
    Seq::new(v.len(), |i: int| (v[i].0@, wire_model(v[i].1)))
}

/// Takes the array variant of `ipp::value::IppValue` apart. Its values are smaller than it.
#[verifier::external_body]
fn open_array(v: &::ipp::value::IppValue) -> (r: Option<Vec<::ipp::value::IppValue>>)
    ensures
        match r {
            Some(a) => wire_model(*v) == ValueView::Array(wire_models(a@)),
            None => !(wire_model(*v) is Array),
        },
{
    v.as_array().cloned()
}

/// Takes the collection variant of `ipp::value::IppValue` apart, its members in the order of their
/// names.
#[verifier::external_body]
fn open_collection(v: &::ipp::value::IppValue) -> (r: Option<Vec<(String, ::ipp::value::IppValue)>>)
    ensures
        match r {
            Some(c) => wire_model(*v) == ValueView::Collection(wire_members(c@)),
            None => !(wire_model(*v) is Collection),
        },
{
    v.as_collection().map(|c| c.iter().map(|(k, x)| (k.to_string(), x.clone())).collect())
}

fn from_str_kind(k: StrKind, s: &str) -> (r: Value)
    ensures
        r.model() == ValueView::Str(k, s@),
{
    let s = owned(s);
    match k {
        StrKind::Text => Value::TextWithoutLanguage(s),
        StrKind::Name => Value::NameWithoutLanguage(s),
        StrKind::Charset => Value::Charset(s),
        StrKind::Language => Value::NaturalLanguage(s),
        StrKind::Uri => Value::Uri(s),
        StrKind::UriScheme => Value::UriScheme(s),
        StrKind::Keyword => Value::Keyword(s),
        StrKind::Mime => Value::MimeMediaType(s),
        StrKind::MemberName => Value::MemberAttrName(s),
    }
}

/// The library's value of an outside value.
pub fn value_in(v: &::ipp::value::IppValue) -> (r: Value)
    ensures
        r.model() == wire_model(*v),
    decreases wire_model(*v),
{
    if let Some(n) = open_number(v) {
        return match n {
            Number::Integer(i) => Value::Integer(i),
            Number::Enum(i) => Value::Enum(i),
            Number::Boolean(b) => Value::Boolean(b),
            Number::Range(min, max) => Value::RangeOfInteger { min, max },
            Number::Resolution(cross_feed, feed, units) => Value::Resolution {
                cross_feed,
                feed,
                units,
            },
            Number::NoValue => Value::NoValue,
        };
    }
    if let Some((k, s)) = open_str(v) {
        return from_str_kind(k, s);
    }
    if let Some(d) = open_data(v) {
        return match d {
            Data::Octets(b) => Value::OctetString(b),
            Data::TextLang(language, text) => Value::TextWithLanguage { language, text },
            Data::NameLang(language, name) => Value::NameWithLanguage { language, name },
            Data::Other(tag, data) => Value::Other { tag, data },
            Data::NonUtf8(tag, data) => Value::NonUtf8 { tag, data },
        };
    }
    if let Some(d) = open_date(v) {
        return Value::DateTime(d);
    }
    if let Some(a) = open_array(v) {
        let ghost models = wire_models(a@);
        assert(wire_model(*v) == ValueView::Array(models));
        let mut out: Vec<Value> = Vec::new();
        let mut i: usize = 0;
        while i < a.len()
            invariant
                i <= a.len(),
                models == wire_models(a@),
                wire_model(*v) == ValueView::Array(models),
                out@.len() == i,
                forall|j: int| 0 <= j < i ==> (#[trigger] out@[j]).model() == models[j],
            decreases a.len() - i,
        {
            assert(wire_model(a@[i as int]) == models[i as int]);
            assert(decreases_to!(models => models[i as int]));
            assert(decreases_to!(wire_model(*v) => wire_model(*v)->Array_0));
            out.push(value_in(&a[i]));
            i += 1;
        }
        proof {
            lemma_array_model(out);
            assert(value_models(out@) =~= models);
        }
        return Value::Array(out);
    }
    if let Some(c) = open_collection(v) {
        let ghost models = wire_members(c@);
        let mut out: Vec<(String, Value)> = Vec::new();
        let mut i: usize = 0;
        while i < c.len()
            invariant
                i <= c.len(),
                models == wire_members(c@),
                wire_model(*v) == ValueView::Collection(models),
                out@.len() == i,
                forall|j: int|
                    0 <= j < i ==> (#[trigger] out@[j]).0@ == models[j].0 && out@[j].1.model()
                        == models[j].1,
            decreases c.len() - i,
        {
            assert(wire_model(c@[i as int].1) == models[i as int].1);
            assert(decreases_to!(models => models[i as int]));
            assert(decreases_to!(wire_model(*v) => wire_model(*v)->Collection_0));
            assert(decreases_to!(models[i as int] => models[i as int].1));
            out.push((owned(c[i].0.as_str()), value_in(&c[i].1)));
            i += 1;
        }
        proof {
            lemma_collection_model(out);
            assert(member_models(out@) =~= models);
        }
        return Value::Collection(out);
    }
    Value::NoValue
}

// ------------------------------------------------------------------ building values

/// Builds the number variants of `ipp::value::IppValue`.
#[verifier::external_body]
fn make_number(n: Number) -> (r: ::ipp::value::IppValue)
    ensures
        wire_model(r) == number_model(n),
{
    match n {
        Number::Integer(i) => Wire::Integer(i),
        Number::Enum(i) => Wire::Enum(i),
        Number::Boolean(b) => Wire::Boolean(b),
        Number::Range(min, max) => Wire::RangeOfInteger { min, max },
        Number::Resolution(cross_feed, feed, units) => Wire::Resolution {
            cross_feed,
            feed,
            units,
        },
        Number::NoValue => Wire::NoValue,
    }
}

/// Builds the string variants of `ipp::value::IppValue`. Their constructors fail on a string longer
/// than the limit of its kind.
#[verifier::external_body]
fn make_str(k: StrKind, s: &str) -> (r: ::ipp::value::IppValue)
    requires
        byte_len(s@) <= k.limit(),
    ensures
        wire_model(r) == ValueView::Str(k, s@),
{
    let made = match k {
        StrKind::Text => Wire::new_text_without_language(s),
        StrKind::Name => Wire::new_name_without_language(s),
        StrKind::Charset => Wire::new_charset(s),
        StrKind::Language => Wire::new_natural_language(s),
        StrKind::Uri => Wire::new_uri(s),
        StrKind::UriScheme => Wire::new_uri_scheme(s),
        StrKind::Keyword => Wire::new_keyword(s),
        StrKind::Mime => Wire::new_mime_media_type(s),
        StrKind::MemberName => Wire::new_member_attr_name(s),
    };
    made.unwrap()
}

/// Builds the text-with-language variant of `ipp::value::IppValue`.
#[verifier::external_body]
fn make_text_lang(language: &str, text: &str) -> (r: ::ipp::value::IppValue)
    requires
        byte_len(language@) <= 63,
        byte_len(text@) <= 1023,
    ensures
        wire_model(r) == ValueView::TextLang(language@, text@),
{
    Wire::new_text_with_language(language, text).unwrap()
}

/// Builds the name-with-language variant of `ipp::value::IppValue`.
#[verifier::external_body]
fn make_name_lang(language: &str, name: &str) -> (r: ::ipp::value::IppValue)
    requires
        byte_len(language@) <= 63,
        byte_len(name@) <= 255,
    ensures
        wire_model(r) == ValueView::NameLang(language@, name@),
{
    Wire::new_name_with_language(language, name).unwrap()
}

/// Builds the octet-string variant of `ipp::value::IppValue`.
#[verifier::external_body]
fn make_octets(data: &[u8]) -> (r: ::ipp::value::IppValue)
    ensures
        wire_model(r) == ValueView::Octets(data@),
{
    Wire::OctetString(bytes::Bytes::copy_from_slice(data))
}

/// Builds the other-tag variant of `ipp::value::IppValue`.
#[verifier::external_body]
fn make_other(tag: u8, data: &[u8]) -> (r: ::ipp::value::IppValue)
    ensures
        wire_model(r) == ValueView::Other(tag, data@),
{
    Wire::Other { tag, data: bytes::Bytes::copy_from_slice(data) }
}

/// Builds the date variant of `ipp::value::IppValue`.
#[verifier::external_body]
fn make_date(d: DateTime) -> (r: ::ipp::value::IppValue)
    ensures
        wire_model(r) == ValueView::DateTime(d),
{
    Wire::DateTime(
        ::ipp::value::IppDateTime {
            year: d.year,
            month: d.month,
            day: d.day,
            hour: d.hour,
            minutes: d.minutes,
            seconds: d.seconds,
            deci_seconds: d.deci_seconds,
            utc_dir: d.utc_dir,
            utc_hours: d.utc_hours,
            utc_mins: d.utc_mins,
        },
    )
}

/// Builds the array variant of `ipp::value::IppValue`.
#[verifier::external_body]
fn make_array(v: Vec<::ipp::value::IppValue>) -> (r: ::ipp::value::IppValue)
    ensures
        wire_model(r) == ValueView::Array(wire_models(v@)),
{
    Wire::Array(v)
}

/// Builds the collection variant of `ipp::value::IppValue`, which keeps its members in the order of
/// their names.
#[verifier::external_body]
fn make_collection(v: Vec<(String, ::ipp::value::IppValue)>) -> (r: ::ipp::value::IppValue)
    requires
        ascending(wire_members(v@)),
        forall|i: int| 0 <= i < v@.len() ==> byte_len((#[trigger] v@[i]).0@) <= 255,
    ensures
        wire_model(r) == ValueView::Collection(wire_members(v@)),
{
    Wire::Collection(
        v.into_iter().map(|(k, x)| (::ipp::value::IppName::new(k).unwrap(), x)).collect(),
    )
}

/// The outside value of a library's value.
pub fn value_out(v: &Value) -> (r: ::ipp::value::IppValue)
    requires
        writable(v.model()),
    ensures
        wire_model(r) == v.model(),
    decreases v,
{
    match v {
        Value::Integer(i) => make_number(Number::Integer(*i)),
        Value::Enum(i) => make_number(Number::Enum(*i)),
        Value::Boolean(b) => make_number(Number::Boolean(*b)),
        Value::RangeOfInteger { min, max } => make_number(Number::Range(*min, *max)),
        Value::Resolution { cross_feed, feed, units } => make_number(
            Number::Resolution(*cross_feed, *feed, *units),
        ),
        Value::NoValue => make_number(Number::NoValue),
        Value::TextWithoutLanguage(s) => make_str(StrKind::Text, s.as_str()),
        Value::NameWithoutLanguage(s) => make_str(StrKind::Name, s.as_str()),
        Value::Charset(s) => make_str(StrKind::Charset, s.as_str()),
        Value::NaturalLanguage(s) => make_str(StrKind::Language, s.as_str()),
        Value::Uri(s) => make_str(StrKind::Uri, s.as_str()),
        Value::UriScheme(s) => make_str(StrKind::UriScheme, s.as_str()),
        Value::Keyword(s) => make_str(StrKind::Keyword, s.as_str()),
        Value::MimeMediaType(s) => make_str(StrKind::Mime, s.as_str()),
        Value::MemberAttrName(s) => make_str(StrKind::MemberName, s.as_str()),
        Value::TextWithLanguage { language, text } => make_text_lang(
            language.as_str(),
            text.as_str(),
        ),
        Value::NameWithLanguage { language, name } => make_name_lang(
            language.as_str(),
            name.as_str(),
        ),
        Value::OctetString(b) => make_octets(b.as_slice()),
        Value::DateTime(d) => make_date(*d),
        Value::Other { tag, data } => make_other(*tag, data.as_slice()),
        Value::NonUtf8 { tag: _, data: _ } => make_number(Number::NoValue),
        Value::Array(a) => {
            proof {
                lemma_array_model(*a);
            }
            let ghost models = value_models(a@);
            let mut out: Vec<::ipp::value::IppValue> = Vec::new();
            let mut i: usize = 0;
            while i < a.len()
                invariant
                    i <= a.len(),
                    *v == Value::Array(*a),
                    models == value_models(a@),
                    writable(ValueView::Array(models)),
                    out@.len() == i,
                    forall|j: int| 0 <= j < i ==> wire_model(#[trigger] out@[j]) == models[j],
                decreases a.len() - i,
            {
                assert(models[i as int] == a@[i as int].model());
                proof {
                    reveal_with_fuel(writable, 2);
                }
                assert(writable(ValueView::Array(models)->Array_0[i as int]));
                assert(writable(models[i as int]));
                assert(decreases_to!(*v => v->Array_0));
                assert(decreases_to!(*a => a[i as int]));
                out.push(value_out(&a[i]));
                i += 1;
            }
            assert(wire_models(out@) =~= models);
            make_array(out)
        },
        Value::Collection(c) => {
            proof {
                lemma_collection_model(*c);
            }
            let ghost models = member_models(c@);
            let mut out: Vec<(String, ::ipp::value::IppValue)> = Vec::new();
            let mut i: usize = 0;
            while i < c.len()
                invariant
                    i <= c.len(),
                    *v == Value::Collection(*c),
                    models == member_models(c@),
                    writable(ValueView::Collection(models)),
                    out@.len() == i,
                    forall|j: int|
                        0 <= j < i ==> (#[trigger] out@[j]).0@ == models[j].0 && wire_model(
                            out@[j].1,
                        ) == models[j].1,
                decreases c.len() - i,
            {
                assert(models[i as int] == (c@[i as int].0@, c@[i as int].1.model()));
                proof {
                    reveal_with_fuel(writable, 2);
                }
                assert(writable(models[i as int].1));
                assert(decreases_to!(*v => v->Collection_0));
                assert(decreases_to!(*c => c[i as int]));
                assert(decreases_to!(c[i as int] => c[i as int].1));
                out.push((owned(c[i].0.as_str()), value_out(&c[i].1)));
                i += 1;
            }
            assert(wire_members(out@) =~= models);
            assert forall|i: int| 0 <= i < out@.len() implies byte_len((#[trigger] out@[i]).0@)
                <= 255 by {
                assert(byte_len(models[i].0) <= 255);
            }
            make_collection(out)
        },
    }
}

// ------------------------------------------------------------------ attribute lists

/// `ipp::attribute::IppAttributes::new`: an empty list.
#[verifier::external_body]
fn empty_attributes() -> (r: ::ipp::attribute::IppAttributes)
    ensures
        wire_groups(r) == Seq::<GroupView>::empty(),
{
    ::ipp::attribute::IppAttributes::new()
}

/// `ipp::attribute::IppAttributes::groups_mut`: appends an empty group of the given tag.
#[verifier::external_body]
fn add_group(a: &mut ::ipp::attribute::IppAttributes, tag: Group)
    ensures
        wire_groups(*final(a)) == wire_groups(*old(a)).push(
            (GroupView { tag, attrs: Seq::empty() }),
        ),
{
    let t = match tag {
        Group::OperationAttributes => Delimiter::OperationAttributes,
        Group::JobAttributes => Delimiter::JobAttributes,
        Group::EndOfAttributes => Delimiter::EndOfAttributes,
        Group::PrinterAttributes => Delimiter::PrinterAttributes,
        Group::UnsupportedAttributes => Delimiter::UnsupportedAttributes,
        Group::SubscriptionAttributes => Delimiter::SubscriptionAttributes,
        Group::EventNotificationAttributes => Delimiter::EventNotificationAttributes,
        Group::ResourceAttributes => Delimiter::ResourceAttributes,
        Group::DocumentAttributes => Delimiter::DocumentAttributes,
        Group::SystemAttributes => Delimiter::SystemAttributes,
    };
    a.groups_mut().push(::ipp::attribute::IppAttributeGroup::new(t));
}

/// `g` with an attribute appended to its last group.
pub open spec fn with_attr(g: Seq<GroupView>, name: Seq<char>, v: ValueView) -> Seq<GroupView> {
    g.update(
        g.len() - 1,
        GroupView { tag: g.last().tag, attrs: g.last().attrs.push((name, v)) },
    )
}

/// `ipp::attribute::IppAttributeGroup::attributes_mut`: appends an attribute to the last group.
#[verifier::external_body]
fn add_attr(a: &mut ::ipp::attribute::IppAttributes, name: &str, v: ::ipp::value::IppValue)
    requires
        wire_groups(*old(a)).len() > 0,
        byte_len(name@) <= 255,
    ensures
        wire_groups(*final(a)) == with_attr(wire_groups(*old(a)), name@, wire_model(v)),
{
    let attr = ::ipp::attribute::IppAttribute::with_name(name, v).unwrap();
    a.groups_mut().last_mut().unwrap().attributes_mut().push(attr);
}

/// `b` is a message that is read as it was written.
pub open spec fn reads_back(
    b: Seq<u8>,
    version: u16,
    code: u16,
    id: i32,
    groups: Seq<GroupView>,
) -> bool {
    &&& b.len() > 8
    &&& be16(b, 0) == version
    &&& be16(b, 2) == code
    &&& be32(b, 4) == id
    &&& groups_settled(groups) ==> langs_ok(b, 8) && wire_parse(b) == Ok::<_, Seq<char>>(
        (groups, b.len()),
    )
}

/// `ipp::IppHeader::to_bytes` and `ipp::attribute::IppAttributes::to_bytes`: a message without a
/// payload. It begins with the header, in network order, and goes on to the end-of-attributes tag.
/// `ipp::parser::IppParser::parse_parts` gives back groups that begin with the operation attributes, in
/// their order, if each attribute has a name and each value is within the limits of its kind. (Other
/// groups are written too, but in another order, or so that they are read as something else.)
#[verifier::external_body]
fn message_bytes(version: u16, code: u16, id: i32, a: &::ipp::attribute::IppAttributes) -> (r: Vec<u8>)
    ensures
        r@ == wire_bytes(version, code, id, wire_groups(*a)),
        reads_back(r@, version, code, id, wire_groups(*a)),
{
    let head = ::ipp::IppHeader::new(::ipp::model::IppVersion(version), code as i16, id);
    let mut out = head.to_bytes().to_vec();
    out.extend_from_slice(&a.to_bytes());
    out
}

/// The bytes of a message.
pub fn encode(version: u16, code: u16, id: i32, groups: &Vec<AttrGroup>) -> (r: Vec<u8>)
    requires
        groups_writable(group_models(groups@)),
    ensures
        r@ == wire_bytes(version, code, id, group_models(groups@)),
        reads_back(r@, version, code, id, group_models(groups@)),
{
    let ghost models = group_models(groups@);
    let mut a = empty_attributes();
    let mut i: usize = 0;
    assert(wire_groups(a) =~= models.take(0));
    while i < groups.len()
        invariant
            i <= groups.len(),
            models == group_models(groups@),
            groups_writable(models),
            wire_groups(a) == models.take(i as int),
        decreases groups.len() - i,
    {
        let g = &groups[i];
        let ghost want = models[i as int].attrs;
        assert(models[i as int] == g.model());
        assert(attrs_writable(models[i as int].attrs));
        let ghost before = wire_groups(a);
        add_group(&mut a, g.tag);
        assert(want.take(0) =~= Seq::<(Seq<char>, ValueView)>::empty());
        let mut j: usize = 0;
        while j < g.attrs.len()
            invariant
                j <= g.attrs.len(),
                want == attr_models(g.attrs@),
                attrs_writable(want),
                wire_groups(a) == before.push(
                    (GroupView { tag: g.tag, attrs: want.take(j as int) }),
                ),
            decreases g.attrs.len() - j,
        {
            assert(want[j as int] == g.attrs@[j as int].model());
            assert(attr_writable(want[j as int]));
            let v = value_out(&g.attrs[j].value);
            add_attr(&mut a, g.attrs[j].name.as_str(), v);
            assert(want.take(j as int).push(want[j as int]) =~= want.take(j as int + 1));
            assert(wire_groups(a) =~= before.push(
                GroupView { tag: g.tag, attrs: want.take(j as int + 1) },
            ));
            j += 1;
        }
        assert(want.take(want.len() as int) =~= want);
        assert(wire_groups(a) =~= models.take(i as int + 1));
        i += 1;
    }
    assert(models.take(models.len() as int) =~= models);
    message_bytes(version, code, id, &a)
}

// ------------------------------------------------------------------ reading

/// Two bytes as a number, high byte first.
pub open spec fn be16(b: Seq<u8>, i: int) -> int {
    256 * b[i] + b[i + 1]
}

/// A value with a language holds the two strings that its lengths announce (or ends before a
/// length).
pub open spec fn lang_ok(v: Seq<u8>) -> bool {
    v.len() < 2 || {
        let n = be16(v, 0);
        n <= v.len() - 2 && (v.len() - 2 - n < 2 || be16(v, 2 + n) <= v.len() - 4 - n)
    }
}

/// Every value with a language from position `i` of the message on holds the strings that its
/// lengths announce.
pub open spec fn langs_ok(b: Seq<u8>, i: int) -> bool
    decreases b.len() - i,
{
    if i < 0 || i >= b.len() {
        true
    } else if b[i] == 3 {
        true
    } else if 1 <= b[i] <= 10 {
        langs_ok(b, i + 1)
    } else if !(0x10 <= b[i] <= 0x4a) || b.len() - i < 3 {
        true
    } else {
        let n = be16(b, i + 1);
        if b.len() - i - 3 - n < 2 {
            true
        } else {
            let m = be16(b, i + 3 + n);
            let start = i + 5 + n;
            if b.len() - start < m {
                true
            } else {
                ((b[i] == 0x35 || b[i] == 0x36) ==> lang_ok(b.subrange(start, start + m)))
                    && langs_ok(b, start + m)
            }
        }
    }
}

fn read16(b: &[u8], i: usize) -> (r: usize)
    requires
        i + 1 < b@.len(),
    ensures
        r == be16(b@, i as int),
        r <= 0xffff,
{
    256 * (b[i] as usize) + b[i + 1] as usize
}

fn check_lang(b: &[u8], start: usize, m: usize) -> (r: bool)
    requires
        start + m <= b@.len(),
    ensures
        r == lang_ok(b@.subrange(start as int, start + m)),
{
    let ghost v = b@.subrange(start as int, start + m);
    assert(b@.len() == b.len());
    if m < 2 {
        return true;
    }
    let n: usize = read16(b, start);
    assert(be16(v, 0) == n);
    if n > m - 2 {
        return false;
    }
    if m - 2 - n < 2 {
        return true;
    }
    let k: usize = read16(b, start + 2 + n);
    assert(be16(v, 2 + n) == k);
    k <= m - 4 - n
}

/// Whether every value with a language holds the strings that its lengths announce.
pub fn check_langs(b: &[u8], from: usize) -> (r: bool)
    requires
        from <= b@.len(),
    ensures
        r == langs_ok(b@, from as int),
{
    let mut i: usize = from;
    while i < b.len()
        invariant
            i <= b.len(),
            langs_ok(b@, from as int) == langs_ok(b@, i as int),
        decreases b.len() - i,
    {
        let tag: u8 = b[i];
        if tag == 3 {
            return true;
        }
        if 1 <= tag && tag <= 10 {
            i += 1;
        } else {
            if !(0x10 <= tag && tag <= 0x4a) || b.len() - i < 3 {
                return true;
            }
            let n: usize = read16(b, i + 1);
            if b.len() - i - 3 < n || b.len() - i - 3 - n < 2 {
                return true;
            }
            let m: usize = read16(b, i + 3 + n);
            let start: usize = i + 5 + n;
            if b.len() - start < m {
                return true;
            }
            if tag == 0x35 || tag == 0x36 {
                if !check_lang(b, start, m) {
                    return false;
                }
            }
            i = start + m;
        }
    }
    true
}

/// `ipp::parser::IppParser::parse_parts` over a message in memory: the result is a function of the
/// bytes. It panics on a value with a language whose lengths overrun it.
#[verifier::external_body]
fn parse_message(data: &[u8]) -> (r: Result<(::ipp::attribute::IppAttributes, usize), String>)
    requires
        langs_ok(data@, 8),
    ensures
        match r {
            Ok((a, pos)) => wire_parse(data@) == Ok::<_, Seq<char>>((wire_groups(a), pos as nat)),
            Err(e) => wire_parse(data@) == Err::<(Seq<GroupView>, nat), _>(e@),
        },
{
    let parser = ::ipp::parser::IppParser::new(std::io::Cursor::new(data.to_vec()));
    match parser.parse_parts() {
        Ok((_, a, reader)) => Ok((a, reader.into_inner().position() as usize)),
        Err(e) => Err(e.to_string()),
    }
}

/// `ipp::attribute::IppAttributes::groups`: how many there are.
#[verifier::external_body]
fn group_count(a: &::ipp::attribute::IppAttributes) -> (r: usize)
    ensures
        r == wire_groups(*a).len(),
{
    a.groups().len()
}

/// `ipp::attribute::IppAttributeGroup::tag` of a group.
#[verifier::external_body]
fn group_tag(a: &::ipp::attribute::IppAttributes, i: usize) -> (r: Group)
    requires
        i < wire_groups(*a).len(),
    ensures
        r == wire_groups(*a)[i as int].tag,
{
    match a.groups()[i].tag() {
        Delimiter::OperationAttributes => Group::OperationAttributes,
        Delimiter::JobAttributes => Group::JobAttributes,
        Delimiter::EndOfAttributes => Group::EndOfAttributes,
        Delimiter::PrinterAttributes => Group::PrinterAttributes,
        Delimiter::UnsupportedAttributes => Group::UnsupportedAttributes,
        Delimiter::SubscriptionAttributes => Group::SubscriptionAttributes,
        Delimiter::EventNotificationAttributes => Group::EventNotificationAttributes,
        Delimiter::ResourceAttributes => Group::ResourceAttributes,
        Delimiter::DocumentAttributes => Group::DocumentAttributes,
        Delimiter::SystemAttributes => Group::SystemAttributes,
    }
}

/// `ipp::attribute::IppAttributeGroup::attributes` of a group: how many there are.
#[verifier::external_body]
fn attr_count(a: &::ipp::attribute::IppAttributes, i: usize) -> (r: usize)
    requires
        i < wire_groups(*a).len(),
    ensures
        r == wire_groups(*a)[i as int].attrs.len(),
{
    a.groups()[i].attributes().len()
}

/// `ipp::attribute::IppAttribute::name` and `value` of an attribute.
#[verifier::external_body]
fn attr_at(a: &::ipp::attribute::IppAttributes, i: usize, j: usize) -> (r: (
    &str,
    &::ipp::value::IppValue,
))
    requires
        i < wire_groups(*a).len(),
        j < wire_groups(*a)[i as int].attrs.len(),
    ensures
        wire_groups(*a)[i as int].attrs[j as int] == (r.0@, wire_model(*r.1)),
{
    let attr = &a.groups()[i].attributes()[j];
    (attr.name().as_str(), attr.value())
}

fn groups_in(a: &::ipp::attribute::IppAttributes) -> (r: Vec<AttrGroup>)
    ensures
        group_models(r@) == wire_groups(*a),
{
    let ghost want = wire_groups(*a);
    let mut out: Vec<AttrGroup> = Vec::new();
    let n: usize = group_count(a);
    let mut i: usize = 0;
    while i < n
        invariant
            i <= n,
            n == want.len(),
            want == wire_groups(*a),
            out@.len() == i,
            forall|k: int| 0 <= k < i ==> (#[trigger] out@[k]).model() == want[k],
        decreases n - i,
    {
        let tag = group_tag(a, i);
        let m: usize = attr_count(a, i);
        let ghost here = want[i as int].attrs;
        let mut attrs: Vec<Attr> = Vec::new();
        let mut j: usize = 0;
        while j < m
            invariant
                j <= m,
                i < want.len(),
                want == wire_groups(*a),
                here == want[i as int].attrs,
                m == here.len(),
                attrs@.len() == j,
                forall|k: int| 0 <= k < j ==> (#[trigger] attrs@[k]).model() == here[k],
            decreases m - j,
        {
            let (name, v) = attr_at(a, i, j);
            attrs.push(Attr { name: owned(name), value: value_in(v) });
            j += 1;
        }
        let g = AttrGroup { tag, attrs };
        assert(attr_models(g.attrs@) =~= here);
        out.push(g);
        i += 1;
    }
    assert(group_models(out@) =~= want);
    out
}

/// Reads a message: its attribute groups, and the position after the end-of-attributes tag.
pub fn decode(data: &[u8]) -> (r: Result<(Vec<AttrGroup>, usize), String>)
    requires
        langs_ok(data@, 8),
    ensures
        match r {
            Ok((g, pos)) => wire_parse(data@) == Ok::<_, Seq<char>>((group_models(g@), pos as nat)),
            Err(e) => wire_parse(data@) == Err::<(Seq<GroupView>, nat), _>(e@),
        },
{
    match parse_message(data) {
        Ok((a, pos)) => Ok((groups_in(&a), pos)),
        Err(e) => Err(e),
    }
}

} // verus!
