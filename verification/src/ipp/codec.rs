//! Requests and responses: reading a message, and building one.

use vstd::prelude::*;
use vstd::slice::slice_subrange;

use crate::ipp::civil::{day_number, is_date, lemma_date_unique};
use crate::ipp::value::{
    group_models, lemma_array_model, lemma_collection_model, member_models, value_models, writable,
    Attr, AttrGroup, DateTime, StrKind, Value, ValueView,
};
use crate::ipp::wire::{be16, check_langs, decode, langs_ok, wire_parse};
use crate::text::{
    before, byte_len, chars_of, comes_before, count_within, dec_int, eq_fold_str,
    lemma_before_total, lemma_before_transitive, lemma_within_bytes, owned, push_int, same_fold,
    same_str, string_of, within_bytes,
};

pub use crate::ipp::civil::civil_from_unix;
pub use crate::ipp::response::{GroupWriter, ReqBuilder, Resp};
pub use crate::ipp::value::Group;

verus! {

/// Status codes of responses.
#[derive(Debug, Clone, Copy, PartialEq, Eq, Structural)]
pub enum Status {
    SuccessfulOk,
    SuccessfulOkIgnoredOrSubstitutedAttributes,
    SuccessfulOkConflictingAttributes,
    ClientErrorBadRequest,
    ClientErrorForbidden,
    ClientErrorNotAuthenticated,
    ClientErrorNotAuthorized,
    ClientErrorNotPossible,
    ClientErrorTimeout,
    ClientErrorNotFound,
    ClientErrorGone,
    ClientErrorRequestEntityTooLong,
    ClientErrorRequestValueTooLong,
    ClientErrorDocumentFormatNotSupported,
    ClientErrorAttributesOrValuesNotSupported,
    ClientErrorUriSchemeNotSupported,
    ClientErrorCharsetNotSupported,
    ClientErrorConflictingAttributes,
    ClientErrorCompressionNotSupported,
    ClientErrorCompressionError,
    ClientErrorDocumentFormatError,
    ClientErrorDocumentAccessError,
    ServerErrorInternalError,
    ServerErrorOperationNotSupported,
    ServerErrorServiceUnavailable,
    ServerErrorVersionNotSupported,
    ServerErrorDeviceError,
    ServerErrorTemporaryError,
    ServerErrorNotAcceptingJobs,
    ServerErrorBusy,
    ServerErrorJobCanceled,
    ServerErrorMultipleDocumentJobsNotSupported,
}

impl Status {
    /// The status code on the wire.
    pub open spec fn code(self) -> u16 {
        match self {
            Status::SuccessfulOk => 0x0000,
            Status::SuccessfulOkIgnoredOrSubstitutedAttributes => 0x0001,
            Status::SuccessfulOkConflictingAttributes => 0x0002,
            Status::ClientErrorBadRequest => 0x0400,
            Status::ClientErrorForbidden => 0x0401,
            Status::ClientErrorNotAuthenticated => 0x0402,
            Status::ClientErrorNotAuthorized => 0x0403,
            Status::ClientErrorNotPossible => 0x0404,
            Status::ClientErrorTimeout => 0x0405,
            Status::ClientErrorNotFound => 0x0406,
            Status::ClientErrorGone => 0x0407,
            Status::ClientErrorRequestEntityTooLong => 0x0408,
            Status::ClientErrorRequestValueTooLong => 0x0409,
            Status::ClientErrorDocumentFormatNotSupported => 0x040A,
            Status::ClientErrorAttributesOrValuesNotSupported => 0x040B,
            Status::ClientErrorUriSchemeNotSupported => 0x040C,
            Status::ClientErrorCharsetNotSupported => 0x040D,
            Status::ClientErrorConflictingAttributes => 0x040E,
            Status::ClientErrorCompressionNotSupported => 0x040F,
            Status::ClientErrorCompressionError => 0x0410,
            Status::ClientErrorDocumentFormatError => 0x0411,
            Status::ClientErrorDocumentAccessError => 0x0412,
            Status::ServerErrorInternalError => 0x0500,
            Status::ServerErrorOperationNotSupported => 0x0501,
            Status::ServerErrorServiceUnavailable => 0x0502,
            Status::ServerErrorVersionNotSupported => 0x0503,
            Status::ServerErrorDeviceError => 0x0504,
            Status::ServerErrorTemporaryError => 0x0505,
            Status::ServerErrorNotAcceptingJobs => 0x0506,
            Status::ServerErrorBusy => 0x0507,
            Status::ServerErrorJobCanceled => 0x0508,
            Status::ServerErrorMultipleDocumentJobsNotSupported => 0x0509,
        }
    }

    /// The status code on the wire.
    pub fn as_u16(self) -> (r: u16)
        ensures
            r == self.code(),
    {
        match self {
            Status::SuccessfulOk => 0x0000,
            Status::SuccessfulOkIgnoredOrSubstitutedAttributes => 0x0001,
            Status::SuccessfulOkConflictingAttributes => 0x0002,
            Status::ClientErrorBadRequest => 0x0400,
            Status::ClientErrorForbidden => 0x0401,
            Status::ClientErrorNotAuthenticated => 0x0402,
            Status::ClientErrorNotAuthorized => 0x0403,
            Status::ClientErrorNotPossible => 0x0404,
            Status::ClientErrorTimeout => 0x0405,
            Status::ClientErrorNotFound => 0x0406,
            Status::ClientErrorGone => 0x0407,
            Status::ClientErrorRequestEntityTooLong => 0x0408,
            Status::ClientErrorRequestValueTooLong => 0x0409,
            Status::ClientErrorDocumentFormatNotSupported => 0x040A,
            Status::ClientErrorAttributesOrValuesNotSupported => 0x040B,
            Status::ClientErrorUriSchemeNotSupported => 0x040C,
            Status::ClientErrorCharsetNotSupported => 0x040D,
            Status::ClientErrorConflictingAttributes => 0x040E,
            Status::ClientErrorCompressionNotSupported => 0x040F,
            Status::ClientErrorCompressionError => 0x0410,
            Status::ClientErrorDocumentFormatError => 0x0411,
            Status::ClientErrorDocumentAccessError => 0x0412,
            Status::ServerErrorInternalError => 0x0500,
            Status::ServerErrorOperationNotSupported => 0x0501,
            Status::ServerErrorServiceUnavailable => 0x0502,
            Status::ServerErrorVersionNotSupported => 0x0503,
            Status::ServerErrorDeviceError => 0x0504,
            Status::ServerErrorTemporaryError => 0x0505,
            Status::ServerErrorNotAcceptingJobs => 0x0506,
            Status::ServerErrorBusy => 0x0507,
            Status::ServerErrorJobCanceled => 0x0508,
            Status::ServerErrorMultipleDocumentJobsNotSupported => 0x0509,
        }
    }
}

/// Why a message could not be read or built.
#[derive(Debug)]
pub enum CodecError {
    Parse(String),
}

impl CodecError {
    /// The error's text.
    pub open spec fn text(self) -> Seq<char> {
        match self {
            CodecError::Parse(s) => "malformed IPP request: "@ + s@,
        }
    }

    /// The error's text.
    pub fn message(&self) -> (r: String)
        ensures
            r@ == self.text(),
    {
        match self {
            CodecError::Parse(s) => {
                let mut r = owned("malformed IPP request: ");
                r.push_str(s.as_str());
                r
            },
        }
    }
}

// ------------------------------------------------------------------ requests

/// A parsed request. `payload` is everything after the end-of-attributes tag (the document).
#[derive(Debug)]
pub struct Request {
    pub version: u16,
    pub op: u16,
    pub request_id: i32,
    pub groups: Vec<AttrGroup>,
    pub payload: Vec<u8>,
}

/// The first attribute of a list with a name, up to case.
pub open spec fn find_attr(attrs: Seq<Attr>, name: Seq<char>) -> Option<Value>
    decreases attrs.len(),
{
    if attrs.len() == 0 {
        None
    } else if same_fold(attrs[0].name@, name) {
        Some(attrs[0].value)
    } else {
        find_attr(attrs.skip(1), name)
    }
}

/// The first value of an attribute in the groups of a tag, or in any group.
pub open spec fn find_value(
    groups: Seq<AttrGroup>,
    group: Option<Group>,
    name: Seq<char>,
) -> Option<Value>
    decreases groups.len(),
{
    if groups.len() == 0 {
        None
    } else if (group is None || group == Some(groups[0].tag)) && find_attr(
        groups[0].attrs@,
        name,
    ) is Some {
        find_attr(groups[0].attrs@, name)
    } else {
        find_value(groups.skip(1), group, name)
    }
}

/// The first member of a collection with a name, up to case.
pub open spec fn find_member(members: Seq<(String, Value)>, name: Seq<char>) -> Option<Value>
    decreases members.len(),
{
    if members.len() == 0 {
        None
    } else if same_fold(members[0].0@, name) {
        Some(members[0].1)
    } else {
        find_member(members.skip(1), name)
    }
}

/// The text of a value: strings as they are, numbers in decimal, of an array its first value.
pub open spec fn text_of(v: Value) -> Option<Seq<char>>
    decreases v,
{
    match v {
        Value::Keyword(s) => Some(s@),
        Value::NameWithoutLanguage(s) => Some(s@),
        Value::MemberAttrName(s) => Some(s@),
        Value::TextWithoutLanguage(s) => Some(s@),
        Value::TextWithLanguage { text, .. } => Some(text@),
        Value::NameWithLanguage { name, .. } => Some(name@),
        Value::Charset(s) => Some(s@),
        Value::NaturalLanguage(s) => Some(s@),
        Value::Uri(s) => Some(s@),
        Value::UriScheme(s) => Some(s@),
        Value::MimeMediaType(s) => Some(s@),
        Value::Integer(i) => Some(dec_int(i as int)),
        Value::Enum(i) => Some(dec_int(i as int)),
        Value::Boolean(b) => Some(
            if b {
                "true"@
            } else {
                "false"@
            },
        ),
        Value::Array(a) => if a@.len() > 0 {
            text_of(a@[0])
        } else {
            None
        },
        _ => None,
    }
}

/// The text of an optional value.
pub open spec fn text_of_opt(v: Option<Value>) -> Option<Seq<char>> {
    match v {
        Some(v) => text_of(v),
        None => None,
    }
}

/// The number of a value that is an integer or an enum.
pub open spec fn int_of(v: Value) -> Option<i32> {
    match v {
        Value::Integer(i) => Some(i),
        Value::Enum(i) => Some(i),
        _ => None,
    }
}

/// The texts of those values that have one, in order.
pub open spec fn texts_of(v: Seq<Value>) -> Seq<Seq<char>>
    decreases v.len(),
{
    if v.len() == 0 {
        Seq::empty()
    } else {
        match text_of(v.last()) {
            Some(t) => texts_of(v.drop_last()).push(t),
            None => texts_of(v.drop_last()),
        }
    }
}

/// The numbers of those values that have one, in order.
pub open spec fn ints_of(v: Seq<Value>) -> Seq<i32>
    decreases v.len(),
{
    if v.len() == 0 {
        Seq::empty()
    } else {
        match int_of(v.last()) {
            Some(i) => ints_of(v.drop_last()).push(i),
            None => ints_of(v.drop_last()),
        }
    }
}

/// The values of a value: those of an array, else itself.
pub open spec fn flat(v: Option<Value>) -> Seq<Value> {
    match v {
        Some(Value::Array(a)) => a@,
        Some(v) => seq![v],
        None => Seq::empty(),
    }
}

/// The views of a list of strings.
pub open spec fn string_views(v: Seq<String>) -> Seq<Seq<char>> {
    Seq::new(v.len(), |i: int| v[i]@)
}

/// The text of a value.
pub fn value_to_string(v: &Value) -> (r: Option<String>)
    ensures
        match r {
            Some(s) => text_of(*v) == Some(s@),
            None => text_of(*v) is None,
        },
    decreases v,
{
    match v {
        Value::Keyword(s) => Some(owned(s.as_str())),
        Value::NameWithoutLanguage(s) => Some(owned(s.as_str())),
        Value::MemberAttrName(s) => Some(owned(s.as_str())),
        Value::TextWithoutLanguage(s) => Some(owned(s.as_str())),
        Value::TextWithLanguage { text, .. } => Some(owned(text.as_str())),
        Value::NameWithLanguage { name, .. } => Some(owned(name.as_str())),
        Value::Charset(s) => Some(owned(s.as_str())),
        Value::NaturalLanguage(s) => Some(owned(s.as_str())),
        Value::Uri(s) => Some(owned(s.as_str())),
        Value::UriScheme(s) => Some(owned(s.as_str())),
        Value::MimeMediaType(s) => Some(owned(s.as_str())),
        Value::Integer(i) => {
            let mut t = String::new();
            push_int(&mut t, *i as i64);
            assert(t@ =~= dec_int(*i as int));
            Some(t)
        },
        Value::Enum(i) => {
            let mut t = String::new();
            push_int(&mut t, *i as i64);
            assert(t@ =~= dec_int(*i as int));
            Some(t)
        },
        Value::Boolean(b) => Some(
            if *b {
                owned("true")
            } else {
                owned("false")
            },
        ),
        Value::Array(a) => {
            if a.len() > 0 {
                assert(decreases_to!(*v => v->Array_0));
                assert(decreases_to!(*a => a[0]));
                value_to_string(&a[0])
            } else {
                None
            }
        },
        _ => None,
    }
}

fn value_to_int(v: &Value) -> (r: Option<i32>)
    ensures
        r == int_of(*v),
{
    match v {
        Value::Integer(i) => Some(*i),
        Value::Enum(i) => Some(*i),
        _ => None,
    }
}

fn attr_in<'a>(attrs: &'a Vec<Attr>, name: &str) -> (r: Option<&'a Value>)
    ensures
        match r {
            Some(v) => find_attr(attrs@, name@) == Some(*v),
            None => find_attr(attrs@, name@) is None,
        },
{
    let mut i: usize = 0;
    assert(attrs@.skip(0) =~= attrs@);
    while i < attrs.len()
        invariant
            i <= attrs.len(),
            find_attr(attrs@, name@) == find_attr(attrs@.skip(i as int), name@),
        decreases attrs.len() - i,
    {
        if eq_fold_str(attrs[i].name.as_str(), name) {
            return Some(&attrs[i].value);
        }
        assert(attrs@.skip(i as int).skip(1) =~= attrs@.skip(i as int + 1));
        i += 1;
    }
    None
}

impl Request {
    /// The first value of `name` in `group`, or in any group.
    pub open spec fn value(self, group: Option<Group>, name: Seq<char>) -> Option<Value> {
        find_value(self.groups@, group, name)
    }

    /// The text of the first value of `name`.
    pub open spec fn text(self, group: Option<Group>, name: Seq<char>) -> Option<Seq<char>> {
        text_of_opt(self.value(group, name))
    }

    /// The number of the first value of `name`, of an array its first.
    pub open spec fn number(self, group: Option<Group>, name: Seq<char>) -> Option<i32> {
        match self.value(group, name) {
            Some(Value::Array(a)) => if a@.len() > 0 {
                int_of(a@[0])
            } else {
                None
            },
            Some(v) => int_of(v),
            None => None,
        }
    }

    /// The first value of `name` in `group` (or in any group when `group` is `None`).
    pub fn get(&self, group: Option<Group>, name: &str) -> (r: Option<&Value>)
        ensures
            match r {
                Some(v) => self.value(group, name@) == Some(*v),
                None => self.value(group, name@) is None,
            },
    {
        let mut i: usize = 0;
        assert(self.groups@.skip(0) =~= self.groups@);
        while i < self.groups.len()
            invariant
                i <= self.groups.len(),
                find_value(self.groups@, group, name@) == find_value(
                    self.groups@.skip(i as int),
                    group,
                    name@,
                ),
            decreases self.groups.len() - i,
        {
            let g = &self.groups[i];
            let wanted = match group {
                None => true,
                Some(t) => t == g.tag,
            };
            if wanted {
                if let Some(v) = attr_in(&g.attrs, name) {
                    return Some(v);
                }
            }
            assert(self.groups@.skip(i as int).skip(1) =~= self.groups@.skip(i as int + 1));
            i += 1;
        }
        None
    }

    /// The text of the first value of `name`.
    pub fn get_str(&self, group: Option<Group>, name: &str) -> (r: Option<String>)
        ensures
            match r {
                Some(s) => self.text(group, name@) == Some(s@),
                None => self.text(group, name@) is None,
            },
    {
        match self.get(group, name) {
            Some(v) => value_to_string(v),
            None => None,
        }
    }

    /// The number of the first value of `name`, of an array its first.
    pub fn get_int(&self, group: Option<Group>, name: &str) -> (r: Option<i32>)
        ensures
            r == self.number(group, name@),
    {
        match self.get(group, name) {
            Some(v) => match v {
                Value::Array(a) => if a.len() > 0 {
                    value_to_int(&a[0])
                } else {
                    None
                },
                _ => value_to_int(v),
            },
            None => None,
        }
    }

    /// The truth value of `name`.
    pub fn get_bool(&self, group: Option<Group>, name: &str) -> (r: Option<bool>)
        ensures
            r == match self.value(group, name@) {
                Some(Value::Boolean(b)) => Some(b),
                _ => None,
            },
    {
        match self.get(group, name) {
            Some(Value::Boolean(b)) => Some(*b),
            _ => None,
        }
    }

    /// All texts of `name` (flattening an array).
    pub fn get_strs(&self, group: Option<Group>, name: &str) -> (r: Vec<String>)
        ensures
            string_views(r@) == texts_of(flat(self.value(group, name@))),
    {
        let mut out: Vec<String> = Vec::new();
        match self.get(group, name) {
            Some(v) => match v {
                Value::Array(a) => {
                    let mut i: usize = 0;
                    assert(string_views(out@) =~= texts_of(a@.take(0)));
                    while i < a.len()
                        invariant
                            i <= a.len(),
                            string_views(out@) == texts_of(a@.take(i as int)),
                        decreases a.len() - i,
                    {
                        let ghost was = out@;
                        assert(a@.take(i as int + 1).drop_last() =~= a@.take(i as int));
                        if let Some(s) = value_to_string(&a[i]) {
                            out.push(s);
                            assert(string_views(out@) =~= string_views(was).push(s@));
                        }
                        i += 1;
                    }
                    assert(a@.take(a@.len() as int) =~= a@);
                },
                _ => {
                    assert(flat(self.value(group, name@)) =~= seq![*v]);
                    assert(seq![*v].drop_last() =~= Seq::<Value>::empty());
                    assert(texts_of(seq![*v].drop_last()) =~= Seq::<Seq<char>>::empty());
                    if let Some(s) = value_to_string(v) {
                        out.push(s);
                        assert(string_views(out@) =~= texts_of(seq![*v]));
                    } else {
                        assert(string_views(out@) =~= texts_of(seq![*v]));
                    }
                },
            },
            None => {
                assert(string_views(out@) =~= texts_of(Seq::empty()));
            },
        }
        out
    }

    /// All numbers of `name` (flattening an array).
    pub fn get_ints(&self, group: Option<Group>, name: &str) -> (r: Vec<i32>)
        ensures
            r@ == ints_of(flat(self.value(group, name@))),
    {
        let mut out: Vec<i32> = Vec::new();
        match self.get(group, name) {
            Some(v) => match v {
                Value::Array(a) => {
                    let mut i: usize = 0;
                    assert(out@ =~= ints_of(a@.take(0)));
                    while i < a.len()
                        invariant
                            i <= a.len(),
                            out@ == ints_of(a@.take(i as int)),
                        decreases a.len() - i,
                    {
                        assert(a@.take(i as int + 1).drop_last() =~= a@.take(i as int));
                        if let Some(n) = value_to_int(&a[i]) {
                            out.push(n);
                        }
                        i += 1;
                    }
                    assert(a@.take(a@.len() as int) =~= a@);
                },
                _ => {
                    assert(flat(self.value(group, name@)) =~= seq![*v]);
                    assert(seq![*v].drop_last() =~= Seq::<Value>::empty());
                    assert(ints_of(seq![*v].drop_last()) =~= Seq::<i32>::empty());
                    if let Some(n) = value_to_int(v) {
                        out.push(n);
                    }
                    assert(out@ =~= ints_of(seq![*v]));
                },
            },
            None => {
                assert(out@ =~= ints_of(Seq::empty()));
            },
        }
        out
    }

    /// The members of the collection `name` (of an array's first value).
    pub open spec fn members(self, group: Option<Group>, name: Seq<char>) -> Option<
        Seq<(String, Value)>,
    > {
        match self.value(group, name) {
            Some(Value::Collection(c)) => Some(c@),
            Some(Value::Array(a)) => if a@.len() > 0 {
                match a@[0] {
                    Value::Collection(c) => Some(c@),
                    _ => None,
                }
            } else {
                None
            },
            _ => None,
        }
    }

    /// The value of a member of the collection `name`.
    pub open spec fn member(self, group: Option<Group>, name: Seq<char>, member: Seq<char>) -> Option<
        Value,
    > {
        match self.members(group, name) {
            Some(m) => find_member(m, member),
            None => None,
        }
    }

    /// A collection's member (of the first collection if it is an array).
    pub fn get_member(&self, group: Option<Group>, name: &str, member: &str) -> (r: Option<&Value>)
        ensures
            match r {
                Some(v) => self.member(group, name@, member@) == Some(*v),
                None => self.member(group, name@, member@) is None,
            },
    {
        let coll = match self.get(group, name) {
            Some(v) => match v {
                Value::Collection(c) => c,
                Value::Array(a) => {
                    if a.len() == 0 {
                        return None;
                    }
                    match &a[0] {
                        Value::Collection(c) => c,
                        _ => return None,
                    }
                },
                _ => return None,
            },
            None => return None,
        };
        member_in(coll, member)
    }

    /// The names of the attributes of the first operation group, in order.
    pub open spec fn operation_names(self) -> Seq<Seq<char>> {
        match first_of(self.groups@, Group::OperationAttributes) {
            Some(g) => Seq::new(g.attrs@.len(), |i: int| g.attrs@[i].name@),
            None => Seq::empty(),
        }
    }

    /// Names of the operation-attributes group in order.
    pub fn operation_attr_names(&self) -> (r: Vec<String>)
        ensures
            string_views(r@) == self.operation_names(),
    {
        let mut out: Vec<String> = Vec::new();
        let mut i: usize = 0;
        assert(self.groups@.skip(0) =~= self.groups@);
        while i < self.groups.len()
            invariant
                i <= self.groups.len(),
                out@.len() == 0,
                first_of(self.groups@, Group::OperationAttributes) == first_of(
                    self.groups@.skip(i as int),
                    Group::OperationAttributes,
                ),
            decreases self.groups.len() - i,
        {
            let g = &self.groups[i];
            if g.tag == Group::OperationAttributes {
                let mut j: usize = 0;
                while j < g.attrs.len()
                    invariant
                        j <= g.attrs.len(),
                        out@.len() == j,
                        forall|k: int| 0 <= k < j ==> (#[trigger] out@[k])@ == g.attrs@[k].name@,
                    decreases g.attrs.len() - j,
                {
                    out.push(owned(g.attrs[j].name.as_str()));
                    j += 1;
                }
                assert(string_views(out@) =~= self.operation_names());
                return out;
            }
            assert(self.groups@.skip(i as int).skip(1) =~= self.groups@.skip(i as int + 1));
            i += 1;
        }
        assert(string_views(out@) =~= self.operation_names());
        out
    }

    /// The tag of the first group.
    pub fn first_group_tag(&self) -> (r: Option<Group>)
        ensures
            r == if self.groups@.len() > 0 {
                Some(self.groups@[0].tag)
            } else {
                None
            },
    {
        if self.groups.len() > 0 {
            Some(self.groups[0].tag)
        } else {
            None
        }
    }

    /// The major version.
    pub fn version_major(&self) -> (r: u8)
        ensures
            r == self.version / 256,
    {
        (self.version / 256) as u8
    }
}

/// The first group of a tag.
pub open spec fn first_of(groups: Seq<AttrGroup>, tag: Group) -> Option<AttrGroup>
    decreases groups.len(),
{
    if groups.len() == 0 {
        None
    } else if groups[0].tag == tag {
        Some(groups[0])
    } else {
        first_of(groups.skip(1), tag)
    }
}

/// The first member with a name, up to case.
pub fn member_in<'a>(coll: &'a Vec<(String, Value)>, member: &str) -> (r: Option<&'a Value>)
    ensures
        match r {
            Some(v) => find_member(coll@, member@) == Some(*v),
            None => find_member(coll@, member@) is None,
        },
{
    let mut i: usize = 0;
    assert(coll@.skip(0) =~= coll@);
    while i < coll.len()
        invariant
            i <= coll.len(),
            find_member(coll@, member@) == find_member(coll@.skip(i as int), member@),
        decreases coll.len() - i,
    {
        if eq_fold_str(coll[i].0.as_str(), member) {
            return Some(&coll[i].1);
        }
        assert(coll@.skip(i as int).skip(1) =~= coll@.skip(i as int + 1));
        i += 1;
    }
    None
}

/// Four bytes as a signed number, high byte first.
pub open spec fn be32(b: Seq<u8>, i: int) -> int {
    let u = 65536 * be16(b, i) + be16(b, i + 2);
    if u < 0x8000_0000 {
        u
    } else {
        u - 0x1_0000_0000
    }
}

/// The header of a message: version, operation or status, request id.
pub fn peek_header(bytes: &[u8]) -> (r: Option<(u16, u16, i32)>)
    ensures
        match r {
            Some((version, op, id)) => bytes@.len() >= 8 && version == be16(bytes@, 0) && op
                == be16(bytes@, 2) && id == be32(bytes@, 4),
            None => bytes@.len() < 8,
        },
{
    if bytes.len() < 8 {
        return None;
    }
    let u: u32 = 16777216 * (bytes[4] as u32) + 65536 * (bytes[5] as u32) + 256 * (bytes[6] as u32)
        + bytes[7] as u32;
    let id: i32 = if u < 0x8000_0000 {
        u as i32
    } else {
        (u as i64 - 0x1_0000_0000) as i32
    };
    Some(
        (
            256 * (bytes[0] as u16) + bytes[1] as u16,
            256 * (bytes[2] as u16) + bytes[3] as u16,
            id,
        ),
    )
}

/// The message can be read.
pub open spec fn readable(body: Seq<u8>) -> bool {
    body.len() >= 8 && langs_ok(body, 8) && wire_parse(body) is Ok
}

/// `req` is what a message that can be read holds: what its header says, its groups, and the rest as
/// the payload.
pub open spec fn is_request_of(req: Request, body: Seq<u8>) -> bool {
    &&& req.version == be16(body, 0)
    &&& req.op == be16(body, 2)
    &&& req.request_id == be32(body, 4)
    &&& wire_parse(body) matches Ok((groups, pos))
    &&& group_models(req.groups@) == groups
    &&& req.payload@ == if pos < body.len() {
        body.skip(pos as int)
    } else {
        Seq::empty()
    }
}

/// What is wrong with a message that cannot be read.
pub open spec fn unreadable_text(body: Seq<u8>) -> Seq<char> {
    if body.len() < 8 {
        "shorter than an IPP header"@
    } else if !langs_ok(body, 8) {
        "a string is longer than its value"@
    } else {
        wire_parse(body)->Err_0
    }
}

/// Reads a complete request body. A value with a language whose lengths overrun it is an error, as is
/// whatever the `ipp` crate's parser refuses.
pub fn parse(body: &[u8]) -> (r: Result<Request, CodecError>)
    ensures
        match r {
            Ok(req) => readable(body@) && is_request_of(req, body@),
            Err(CodecError::Parse(t)) => !readable(body@) && t@ == unreadable_text(body@),
        },
{
    let (version, op, request_id) = match peek_header(body) {
        Some(h) => h,
        None => return Err(CodecError::Parse(owned("shorter than an IPP header"))),
    };
    if !check_langs(body, 8) {
        return Err(CodecError::Parse(owned("a string is longer than its value")));
    }
    match decode(body) {
        Ok((groups, pos)) => {
            let mut payload: Vec<u8> = Vec::new();
            if pos < body.len() {
                let rest = slice_subrange(body, pos, body.len());
                payload.extend_from_slice(rest);
                assert(payload@ =~= body@.skip(pos as int));
            }
            Ok(Request { version, op, request_id, groups, payload })
        },
        Err(e) => Err(CodecError::Parse(e)),
    }
}

// ------------------------------------------------------------------ values

/// The longest beginning of `s` that is at most `max` bytes and ends between two characters.
pub fn utf8_prefix(s: &str, max: usize) -> (r: String)
    ensures
        r@ == within_bytes(s@, max as int),
        byte_len(r@) <= max,
{
    let cs = chars_of(s);
    let k: usize = count_within(cs.as_slice(), max);
    proof {
        lemma_within_bytes(s@, max as int, k as int);
    }
    let cut = slice_subrange(cs.as_slice(), 0, k);
    assert(cut@ =~= s@.take(k as int));
    string_of(cut)
}

/// A keyword.
pub fn v_kw(s: &str) -> (r: Value)
    ensures
        r.model() == ValueView::Str(StrKind::Keyword, within_bytes(s@, 255)),
        writable(r.model()),
{
    Value::Keyword(utf8_prefix(s, 255))
}

/// A name.
pub fn v_name(s: &str) -> (r: Value)
    ensures
        r.model() == ValueView::Str(StrKind::Name, within_bytes(s@, 255)),
        writable(r.model()),
{
    Value::NameWithoutLanguage(utf8_prefix(s, 255))
}

/// A text.
pub fn v_text(s: &str) -> (r: Value)
    ensures
        r.model() == ValueView::Str(StrKind::Text, within_bytes(s@, 1023)),
        writable(r.model()),
{
    Value::TextWithoutLanguage(utf8_prefix(s, 1023))
}

/// An integer.
pub fn v_int(i: i32) -> (r: Value)
    ensures
        r.model() == ValueView::Integer(i),
        writable(r.model()),
{
    Value::Integer(i)
}

/// An enum.
pub fn v_enum(i: i32) -> (r: Value)
    ensures
        r.model() == ValueView::Enum(i),
        writable(r.model()),
{
    Value::Enum(i)
}

/// A truth value.
pub fn v_bool(b: bool) -> (r: Value)
    ensures
        r.model() == ValueView::Boolean(b),
        writable(r.model()),
{
    Value::Boolean(b)
}

/// A URI.
pub fn v_uri(s: &str) -> (r: Value)
    ensures
        r.model() == ValueView::Str(StrKind::Uri, within_bytes(s@, 1023)),
        writable(r.model()),
{
    Value::Uri(utf8_prefix(s, 1023))
}

/// A MIME media type.
pub fn v_mime(s: &str) -> (r: Value)
    ensures
        r.model() == ValueView::Str(StrKind::Mime, within_bytes(s@, 255)),
        writable(r.model()),
{
    Value::MimeMediaType(utf8_prefix(s, 255))
}

/// A charset.
pub fn v_charset(s: &str) -> (r: Value)
    ensures
        r.model() == ValueView::Str(StrKind::Charset, within_bytes(s@, 63)),
        writable(r.model()),
{
    Value::Charset(utf8_prefix(s, 63))
}

/// A natural language.
pub fn v_lang(s: &str) -> (r: Value)
    ensures
        r.model() == ValueView::Str(StrKind::Language, within_bytes(s@, 63)),
        writable(r.model()),
{
    Value::NaturalLanguage(utf8_prefix(s, 63))
}

/// A range of integers.
pub fn v_range(min: i32, max: i32) -> (r: Value)
    ensures
        r.model() == ValueView::Range(min, max),
        writable(r.model()),
{
    Value::RangeOfInteger { min, max }
}

/// A resolution in dots per inch, the same in both directions.
pub fn v_res(dpi: i32) -> (r: Value)
    ensures
        r.model() == ValueView::Resolution(dpi, dpi, 3),
        writable(r.model()),
{
    Value::Resolution { cross_feed: dpi, feed: dpi, units: 3 }
}

/// An octet string.
pub fn v_octets(b: &[u8]) -> (r: Value)
    ensures
        r.model() == ValueView::Octets(b@),
        writable(r.model()),
{
    let mut v: Vec<u8> = Vec::new();
    v.extend_from_slice(b);
    assert(v@ =~= b@);
    Value::OctetString(v)
}

/// The out-of-band value `unknown` (0x12).
pub fn v_unknown() -> (r: Value)
    ensures
        r.model() == ValueView::Other(0x12, Seq::empty()),
        writable(r.model()),
{
    let v: Vec<u8> = Vec::new();
    assert(v@ =~= Seq::<u8>::empty());
    Value::Other { tag: 0x12, data: v }
}

/// The out-of-band value `no-value` (0x13).
pub fn v_no_value() -> (r: Value)
    ensures
        r.model() == ValueView::NoValue,
        writable(r.model()),
{
    Value::NoValue
}

/// One value as itself, others as an array.
pub open spec fn array_view(v: Seq<ValueView>) -> ValueView {
    if v.len() == 1 {
        v[0]
    } else {
        ValueView::Array(v)
    }
}

/// One value as itself, others as an array.
pub fn v_array(vals: Vec<Value>) -> (r: Value)
    ensures
        r.model() == array_view(value_models(vals@)),
        (forall|i: int| 0 <= i < vals@.len() ==> writable((#[trigger] vals@[i]).model()))
            ==> writable(r.model()),
{
    let mut vals = vals;
    if vals.len() == 1 {
        let ghost was = vals@;
        let v = vals.pop().unwrap();
        assert(v == was[0]);
        assert(v.model() == value_models(was)[0]);
        v
    } else {
        proof {
            lemma_array_model(vals);
            reveal_with_fuel(writable, 2);
            assert forall|i: int| 0 <= i < vals@.len() && writable(
                (#[trigger] vals@[i]).model(),
            ) implies writable(value_models(vals@)[i]) by {}
        }
        Value::Array(vals)
    }
}

/// The views of keywords, cut to their limit.
pub open spec fn kw_views(v: Seq<&str>) -> Seq<ValueView> {
    Seq::new(
        v.len(),
        |i: int| ValueView::Str(StrKind::Keyword, within_bytes(v[i]@, 255)),
    )
}

/// Keywords.
pub fn v_kws(vals: &[&str]) -> (r: Value)
    ensures
        r.model() == array_view(kw_views(vals@)),
        writable(r.model()),
{
    let mut out: Vec<Value> = Vec::new();
    let mut i: usize = 0;
    while i < vals.len()
        invariant
            i <= vals.len(),
            out@.len() == i,
            forall|k: int|
                0 <= k < i ==> (#[trigger] out@[k]).model() == kw_views(vals@)[k] && writable(
                    out@[k].model(),
                ),
        decreases vals.len() - i,
    {
        out.push(v_kw(vals[i]));
        i += 1;
    }
    assert(value_models(out@) =~= kw_views(vals@));
    v_array(out)
}

/// The views of MIME media types, cut to their limit.
pub open spec fn mime_views(v: Seq<&str>) -> Seq<ValueView> {
    Seq::new(v.len(), |i: int| ValueView::Str(StrKind::Mime, within_bytes(v[i]@, 255)))
}

/// MIME media types.
pub fn v_mimes(vals: &[&str]) -> (r: Value)
    ensures
        r.model() == array_view(mime_views(vals@)),
        writable(r.model()),
{
    let mut out: Vec<Value> = Vec::new();
    let mut i: usize = 0;
    while i < vals.len()
        invariant
            i <= vals.len(),
            out@.len() == i,
            forall|k: int|
                0 <= k < i ==> (#[trigger] out@[k]).model() == mime_views(vals@)[k] && writable(
                    out@[k].model(),
                ),
        decreases vals.len() - i,
    {
        out.push(v_mime(vals[i]));
        i += 1;
    }
    assert(value_models(out@) =~= mime_views(vals@));
    v_array(out)
}

/// The views of URIs, cut to their limit.
pub open spec fn uri_views(v: Seq<&str>) -> Seq<ValueView> {
    Seq::new(v.len(), |i: int| ValueView::Str(StrKind::Uri, within_bytes(v[i]@, 1023)))
}

/// URIs.
pub fn v_uris(vals: &[&str]) -> (r: Value)
    ensures
        r.model() == array_view(uri_views(vals@)),
        writable(r.model()),
{
    let mut out: Vec<Value> = Vec::new();
    let mut i: usize = 0;
    while i < vals.len()
        invariant
            i <= vals.len(),
            out@.len() == i,
            forall|k: int|
                0 <= k < i ==> (#[trigger] out@[k]).model() == uri_views(vals@)[k] && writable(
                    out@[k].model(),
                ),
        decreases vals.len() - i,
    {
        out.push(v_uri(vals[i]));
        i += 1;
    }
    assert(value_models(out@) =~= uri_views(vals@));
    v_array(out)
}

/// The views of integers.
pub open spec fn int_views(v: Seq<i32>) -> Seq<ValueView> {
    Seq::new(v.len(), |i: int| ValueView::Integer(v[i]))
}

/// Integers.
pub fn v_ints(vals: &[i32]) -> (r: Value)
    ensures
        r.model() == array_view(int_views(vals@)),
        writable(r.model()),
{
    let mut out: Vec<Value> = Vec::new();
    let mut i: usize = 0;
    while i < vals.len()
        invariant
            i <= vals.len(),
            out@.len() == i,
            forall|k: int|
                0 <= k < i ==> (#[trigger] out@[k]).model() == int_views(vals@)[k] && writable(
                    out@[k].model(),
                ),
        decreases vals.len() - i,
    {
        out.push(v_int(vals[i]));
        i += 1;
    }
    assert(value_models(out@) =~= int_views(vals@));
    v_array(out)
}

/// The views of enums.
pub open spec fn enum_views(v: Seq<i32>) -> Seq<ValueView> {
    Seq::new(v.len(), |i: int| ValueView::Enum(v[i]))
}

/// Enums.
pub fn v_enums(vals: &[i32]) -> (r: Value)
    ensures
        r.model() == array_view(enum_views(vals@)),
        writable(r.model()),
{
    let mut out: Vec<Value> = Vec::new();
    let mut i: usize = 0;
    while i < vals.len()
        invariant
            i <= vals.len(),
            out@.len() == i,
            forall|k: int|
                0 <= k < i ==> (#[trigger] out@[k]).model() == enum_views(vals@)[k] && writable(
                    out@[k].model(),
                ),
        decreases vals.len() - i,
    {
        out.push(v_enum(vals[i]));
        i += 1;
    }
    assert(value_models(out@) =~= enum_views(vals@));
    v_array(out)
}

/// The last second of the last year that a date can hold.
pub const MAX_DATE_SECS: i64 = 2_005_949_145_599;

/// `d` is the date and time (UTC) of a number of seconds since 1970.
pub open spec fn is_datetime_of(d: DateTime, secs: int) -> bool {
    &&& is_date(d.year as int, d.month as int, d.day as int)
    &&& d.hour < 24
    &&& d.minutes < 60
    &&& d.seconds < 60
    &&& secs == 86400 * day_number(d.year as int, d.month as int, d.day as int) + 3600 * d.hour + 60
        * d.minutes + d.seconds
    &&& d.deci_seconds == 0
    &&& d.utc_dir == '+'
    &&& d.utc_hours == 0
    &&& d.utc_mins == 0
}

/// The moment that is written for a number of seconds since 1970: the first or the last that a date
/// from 1970 on can hold, where it lies outside.
pub open spec fn date_secs(secs: int) -> int {
    if secs < 0 {
        0
    } else if secs > MAX_DATE_SECS {
        MAX_DATE_SECS as int
    } else {
        secs
    }
}

/// The date and time (UTC) of a number of seconds since 1970.
pub open spec fn datetime_view(secs: int) -> ValueView {
    ValueView::DateTime(choose|d: DateTime| is_datetime_of(d, date_secs(secs)))
}

/// A moment has one date and time.
pub proof fn lemma_datetime_unique(a: DateTime, b: DateTime, secs: int)
    requires
        is_datetime_of(a, secs),
        is_datetime_of(b, secs),
    ensures
        a == b,
{
    let na = day_number(a.year as int, a.month as int, a.day as int);
    let nb = day_number(b.year as int, b.month as int, b.day as int);
    assert(na == nb);
    lemma_date_unique(
        a.year as int,
        a.month as int,
        a.day as int,
        b.year as int,
        b.month as int,
        b.day as int,
    );
    assert(a.hour == b.hour);
    assert(a.minutes == b.minutes);
}

/// The date and time (UTC) of a number of seconds since 1970. What lies before is written as 1970, and
/// what lies after the year 65535 as its last second.
pub fn v_datetime(secs: i64) -> (r: Value)
    ensures
        r.model() == datetime_view(secs as int),
        r.model() matches ValueView::DateTime(d) && is_datetime_of(d, date_secs(secs as int)),
        writable(r.model()),
{
    let t: i64 = if secs < 0 {
        0
    } else if secs > MAX_DATE_SECS {
        MAX_DATE_SECS
    } else {
        secs
    };
    let (y, m, d, hh, mm, ss) = civil_from_unix(t);
    proof {
        crate::ipp::civil::lemma_year_range(
            y as int,
            m as int,
            d as int,
            t as int,
            3600 * hh + 60 * mm + ss,
        );
    }
    let date = DateTime {
        year: y as u16,
        month: m,
        day: d,
        hour: hh,
        minutes: mm,
        seconds: ss,
        deci_seconds: 0,
        utc_dir: '+',
        utc_hours: 0,
        utc_mins: 0,
    };
    proof {
        assert(is_datetime_of(date, t as int));
        lemma_datetime_unique(
            date,
            choose|d: DateTime| is_datetime_of(d, date_secs(secs as int)),
            t as int,
        );
    }
    Value::DateTime(date)
}

// ------------------------------------------------------------------ collections

/// Collection builder. The members stand in the order of their names; a name that is added again
/// replaces the member.
#[derive(Debug)]
pub struct Coll {
    pub members: Vec<(String, Value)>,
}

/// The members with one set: replaced where the name is there, else inserted in order.
pub open spec fn with_member(
    m: Seq<(Seq<char>, ValueView)>,
    name: Seq<char>,
    v: ValueView,
) -> Seq<(Seq<char>, ValueView)>
    decreases m.len(),
{
    if m.len() == 0 {
        seq![(name, v)]
    } else if m[0].0 == name {
        m.update(0, (name, v))
    } else if before(name, m[0].0) {
        seq![(name, v)] + m
    } else {
        seq![m[0]] + with_member(m.skip(1), name, v)
    }
}

impl Coll {
    /// What the collection holds.
    pub open spec fn model(self) -> Seq<(Seq<char>, ValueView)> {
        member_models(self.members@)
    }

    /// The members can be written.
    pub open spec fn ok(self) -> bool {
        writable(ValueView::Collection(self.model()))
    }

    /// An empty collection.
    pub fn new() -> (r: Coll)
        ensures
            r.model() == Seq::<(Seq<char>, ValueView)>::empty(),
            r.ok(),
    {
        let c = Coll { members: Vec::new() };
        assert(c.model() =~= Seq::<(Seq<char>, ValueView)>::empty());
        c
    }

    /// The collection with a member set.
    pub fn add(self, member: &str, v: Value) -> (r: Coll)
        requires
            self.ok(),
            writable(v.model()),
        ensures
            r.model() == with_member(self.model(), within_bytes(member@, 255), v.model()),
            r.ok(),
    {
        let name = utf8_prefix(member, 255);
        let cs = chars_of(name.as_str());
        let ghost old_m = self.model();
        let ghost nm = name@;
        let mut members = self.members;
        let mut i: usize = 0;
        assert(old_m.skip(0) =~= old_m);
        assert(old_m.take(0) + with_member(old_m.skip(0), nm, v.model()) =~= with_member(
            old_m,
            nm,
            v.model(),
        ));
        while i < members.len()
            invariant_except_break
                with_member(old_m, nm, v.model()) == old_m.take(i as int) + with_member(
                    old_m.skip(i as int),
                    nm,
                    v.model(),
                ),
            invariant
                i <= members.len(),
                member_models(members@) == old_m,
                writable(ValueView::Collection(old_m)),
                writable(v.model()),
                old_m == self.model(),
                nm == within_bytes(member@, 255),
                name@ == nm,
                cs@ == nm,
                byte_len(nm) <= 255,
                forall|k: int| 0 <= k < i ==> before((#[trigger] old_m[k]).0, nm),
            ensures
                i <= members.len(),
                i < members.len() ==> before(nm, old_m[i as int].0),
                with_member(old_m, nm, v.model()) == old_m.take(i as int) + (seq![(nm, v.model())]
                    + old_m.skip(i as int)),
            decreases members.len() - i,
        {
            let other = chars_of(members[i].0.as_str());
            assert(old_m[i as int].0 == other@);
            assert(old_m.skip(i as int)[0] == old_m[i as int]);
            if same_str(members[i].0.as_str(), name.as_str()) {
                let ghost was = members@;
                members.set(i, (name, v));
                let c = Coll { members };
                assert(c.model() =~= old_m.update(i as int, (nm, v.model())));
                assert(old_m.take(i as int) + old_m.skip(i as int).update(0, (nm, v.model()))
                    =~= old_m.update(i as int, (nm, v.model())));
                proof {
                    lemma_replace_ok(old_m, i as int, nm, v.model());
                }
                return c;
            }
            if comes_before(cs.as_slice(), other.as_slice()) {
                assert(with_member(old_m.skip(i as int), nm, v.model()) == seq![(nm, v.model())]
                    + old_m.skip(i as int));
                break;
            }
            proof {
                lemma_before_total(nm, other@);
                assert(old_m.skip(i as int).skip(1) =~= old_m.skip(i as int + 1));
                assert(old_m.take(i as int) + (seq![old_m[i as int]] + with_member(
                    old_m.skip(i as int + 1),
                    nm,
                    v.model(),
                )) =~= old_m.take(i as int + 1) + with_member(
                    old_m.skip(i as int + 1),
                    nm,
                    v.model(),
                ));
            }
            i += 1;
            proof {
                if i == members.len() {
                    assert(old_m.skip(i as int) =~= Seq::<(Seq<char>, ValueView)>::empty());
                    assert(seq![(nm, v.model())] + old_m.skip(i as int) =~= seq![(nm, v.model())]);
                }
            }
        }
        let ghost was = members@;
        members.insert(i, (name, v));
        let c = Coll { members };
        assert(c.model() =~= old_m.insert(i as int, (nm, v.model())));
        assert(old_m.take(i as int) + (seq![(nm, v.model())] + old_m.skip(i as int))
            =~= old_m.insert(i as int, (nm, v.model())));
        proof {
            lemma_insert_ok(old_m, i as int, nm, v.model());
        }
        c
    }

    /// The collection as a value.
    pub fn build(self) -> (r: Value)
        requires
            self.ok(),
        ensures
            r.model() == ValueView::Collection(self.model()),
            writable(r.model()),
    {
        proof {
            lemma_collection_model(self.members);
        }
        Value::Collection(self.members)
    }
}

/// Replacing a member's value keeps a collection writable.
proof fn lemma_replace_ok(m: Seq<(Seq<char>, ValueView)>, i: int, name: Seq<char>, v: ValueView)
    requires
        writable(ValueView::Collection(m)),
        0 <= i < m.len(),
        m[i].0 == name,
        writable(v),
    ensures
        writable(ValueView::Collection(m.update(i, (name, v)))),
{
    reveal_with_fuel(writable, 2);
    let n = m.update(i, (name, v));
    assert forall|j: int| 0 <= j < n.len() implies byte_len((#[trigger] n[j]).0) <= 255 && writable(
        n[j].1,
    ) by {
        assert(byte_len(m[j].0) <= 255 && writable(m[j].1));
    }
    assert forall|j: int, k: int| 0 <= j < k < n.len() implies before(
        (#[trigger] n[j]).0,
        (#[trigger] n[k]).0,
    ) by {
        assert(before(m[j].0, m[k].0));
    }
}

/// Inserting a member in its place keeps a collection writable.
proof fn lemma_insert_ok(m: Seq<(Seq<char>, ValueView)>, i: int, name: Seq<char>, v: ValueView)
    requires
        writable(ValueView::Collection(m)),
        0 <= i <= m.len(),
        byte_len(name) <= 255,
        writable(v),
        forall|k: int| 0 <= k < i ==> before((#[trigger] m[k]).0, name),
        i < m.len() ==> before(name, m[i].0),
    ensures
        writable(ValueView::Collection(m.insert(i, (name, v)))),
{
    reveal_with_fuel(writable, 2);
    let n = m.insert(i, (name, v));
    assert forall|j: int| 0 <= j < n.len() implies byte_len((#[trigger] n[j]).0) <= 255 && writable(
        n[j].1,
    ) by {
        if j < i {
            assert(n[j] == m[j]);
            assert(byte_len(m[j].0) <= 255 && writable(m[j].1));
        } else if j > i {
            assert(n[j] == m[j - 1]);
            assert(byte_len(m[j - 1].0) <= 255 && writable(m[j - 1].1));
        }
    }
    assert forall|j: int, k: int| 0 <= j < k < n.len() implies before(
        (#[trigger] n[j]).0,
        (#[trigger] n[k]).0,
    ) by {
        let a = if j < i {
            m[j].0
        } else if j == i {
            name
        } else {
            m[j - 1].0
        };
        let b = if k < i {
            m[k].0
        } else if k == i {
            name
        } else {
            m[k - 1].0
        };
        assert(n[j].0 == a && n[k].0 == b);
        if j == i && k > i + 1 {
            assert(before(m[i].0, m[k - 1].0));
            lemma_before_transitive(name, m[i].0, m[k - 1].0);
        } else if j < i && k > i {
            assert(before(m[j].0, name));
            if k == i + 1 {
                lemma_before_transitive(m[j].0, name, m[i].0);
            } else {
                assert(before(m[j].0, m[k - 1].0));
            }
        } else if j < i && k < i {
            assert(before(m[j].0, m[k].0));
        } else if j > i {
            assert(before(m[j - 1].0, m[k - 1].0));
        }
    }
}

} // verus!
