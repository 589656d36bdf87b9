//! Audit message bodies, as the `linux_audit_parser` crate represents them.
//!
//! A [`Body`] is a list of key/value fields. Its contents are described here by
//! mathematical values; the few operations that the library needs on bodies, keys and
//! values are calls into the crate, and what is claimed of each stands above it.

use linux_audit_parser::{Body, Key, Value};
use vstd::prelude::*;
use vstd::utf8::*;

verus! {

/// How a text value was quoted in the audit log.
pub enum Quoting {
    Bare,
    Single,
    Double,
    Braces,
}

/// A number in the notation in which it was written.
pub enum FieldNumber {
    Hex(u64),
    Dec(i64),
    Oct(u64),
}

/// The variant of a [`Key`].
pub enum KeyKind {
    Name,
    NameUid,
    NameGid,
    Common,
    NameTranslated,
    Arg,
    ArgLen,
    Literal,
}

/// The contents of a [`Key`]: its variant, and the text that it is displayed as. In each variant
/// the text tells one key from the other, but for the case of the letters in a translated name.
pub struct FieldKey {
    pub kind: KeyKind,
    pub text: Seq<u8>,
}

/// The contents of a [`Value`], variant by variant.
pub enum FieldValue {
    Empty,
    Str(Seq<u8>, Quoting),
    Number(FieldNumber),
    List(Seq<FieldValue>),
    Owned(Seq<u8>),
    Pairs(Seq<(FieldKey, FieldValue)>),
    Segments(Seq<Seq<u8>>),
    StringifiedList(Seq<FieldValue>),
    Skipped(usize, usize),
    Literal(Seq<char>),
}

/// A field of a message body: its key, and its value.
pub type Field = (FieldKey, FieldValue);

/// The bytes of a value that is a single piece of text.
///
/// Numbers, lists, maps and elisions are not text. Braces belong to the text; quotes do not.
pub open spec fn scalar_bytes(value: FieldValue) -> Option<Seq<u8>> {
    match value {
        FieldValue::Empty => Some(Seq::empty()),
        FieldValue::Str(text, Quoting::Braces) => Some(seq![0x7bu8] + text + seq![0x7du8]),
        FieldValue::Str(text, _) => Some(text),
        FieldValue::Owned(text) => Some(text),
        FieldValue::Segments(parts) => Some(parts.flatten()),
        FieldValue::Literal(text) => Some(encode_utf8(text)),
        FieldValue::Number(_) => None,
        FieldValue::List(_) => None,
        FieldValue::StringifiedList(_) => None,
        FieldValue::Pairs(_) => None,
        FieldValue::Skipped(_, _) => None,
    }
}

/// The value of the first field whose key has the text `name`.
pub open spec fn first_value(fields: Seq<Field>, name: Seq<u8>) -> Option<FieldValue>
    decreases fields.len(),
{
    if fields.len() == 0 {
        None
    } else if fields[0].0.text == name {
        Some(fields[0].1)
    } else {
        first_value(fields.drop_first(), name)
    }
}

/// The body of an audit message, from `linux_audit_parser`.
#[verifier::external_type_specification]
#[verifier::external_body]
pub struct ExBody<'a>(Body<'a>);

/// The key of a field, from `linux_audit_parser`.
#[verifier::external_type_specification]
#[verifier::external_body]
pub struct ExKey(Key);

/// The value of a field, from `linux_audit_parser`.
#[verifier::external_type_specification]
#[verifier::external_body]
pub struct ExValue<'a>(Value<'a>);

/// The text of a key: what it is displayed as, and what it is compared by.
pub uninterp spec fn key_text(key: Key) -> Seq<u8>;

/// The contents of a value.
pub uninterp spec fn value_content(value: Value<'_>) -> FieldValue;

/// The fields of a body, in their order.
pub uninterp spec fn body_fields(body: Body<'_>) -> Seq<(FieldKey, FieldValue)>;

/// Calls `Body::get`: the value of the first field whose key has the text `name`, or `None`
/// if there is no such field.
#[verifier::external_body]
pub(crate) fn body_get<'a>(body: &'a Body<'_>, name: &str) -> (value: Option<&'a Value<'a>>)
    ensures
        match value {
            Some(found) => first_value(body_fields(*body), encode_utf8(name@)) == Some(
                value_content(*found),
            ),
            None => first_value(body_fields(*body), encode_utf8(name@)) is None,
        },
{
    body.get(name)
}

/// Calls `Body::push` with a key made of a literal and a value made of text: the field comes
/// last, the body keeps the text unquoted, and the other fields stay.
#[verifier::external_body]
pub(crate) fn body_push(body: &mut Body<'_>, name: &'static str, text: &str)
    ensures
        body_fields(*final(body)) == body_fields(*old(body)).push(
            (
                FieldKey { kind: KeyKind::Literal, text: encode_utf8(name@) },
                FieldValue::Str(encode_utf8(text@), Quoting::Bare),
            ),
        ),
{
    body.push((name.into(), text.into()));
}

/// Calls `<Key as PartialEq<str>>::eq`: whether the key has the text `name`.
#[verifier::external_body]
pub(crate) fn key_is(key: &Key, name: &str) -> (same: bool)
    ensures
        same == (key_text(*key) == encode_utf8(name@)),
{
    *key == *name
}

/// Tells a `Value::List` from the other variants and hands out its items, in their order.
#[verifier::external_body]
pub(crate) fn list_items<'a>(value: &'a Value<'a>) -> (items: Option<&'a Vec<Value<'a>>>)
    ensures
        match value_content(*value) {
            FieldValue::List(content) => items matches Some(values) && values@.len()
                == content.len() && forall|i: int|
                0 <= i < content.len() ==> value_content(#[trigger] values@[i]) == content[i],
            _ => items is None,
        },
{
    match value {
        Value::List(values) => Some(values),
        _ => None,
    }
}

/// Calls `<Vec<u8> as TryFrom<Value>>::try_from` on a copy of the value: its bytes if it is a
/// single piece of text, `None` in place of the error otherwise.
#[verifier::external_body]
pub(crate) fn value_bytes(value: &Value<'_>) -> (bytes: Option<Vec<u8>>)
    ensures
        match bytes {
            Some(text) => scalar_bytes(value_content(*value)) == Some(text@),
            None => scalar_bytes(value_content(*value)) is None,
        },
{
    value.clone().try_into().ok()
}

/// Where the first value of a name stands, if there is one.
proof fn lemma_first_position(fields: Seq<Field>, name: Seq<u8>) -> (position: int)
    ensures
        match first_value(fields, name) {
            Some(value) => {
                &&& 0 <= position < fields.len()
                &&& fields[position].0.text == name
                &&& fields[position].1 == value
                &&& forall|j: int| 0 <= j < position ==> (#[trigger] fields[j]).0.text != name
            },
            None => forall|j: int| 0 <= j < fields.len() ==> (#[trigger] fields[j]).0.text != name,
        },
    decreases fields.len(),
{
    if fields.len() == 0 || fields[0].0.text == name {
        0
    } else {
        let rest = fields.drop_first();
        let position = lemma_first_position(rest, name);
        assert forall|j: int|
            0 <= j < fields.len() && (first_value(rest, name) is Some ==> j <= position) implies (
        #[trigger] fields[j]).0.text != name by {
            if j > 0 {
                assert(fields[j] == rest[j - 1]);
            }
        }
        position + 1
    }
}

/// The first value of a name is that of a field with that name which no field with the same name
/// precedes, and there is one as soon as any field has the name.
pub proof fn law_first_field_counts(fields: Seq<Field>, name: Seq<u8>)
    ensures
        match first_value(fields, name) {
            Some(value) => exists|i: int|
                0 <= i < fields.len() && (#[trigger] fields[i]).0.text == name && fields[i].1 == value && (
                forall|j: int| 0 <= j < i ==> (#[trigger] fields[j]).0.text != name),
            None => forall|j: int| 0 <= j < fields.len() ==> (#[trigger] fields[j]).0.text != name,
        },
{
    let position = lemma_first_position(fields, name);
    if first_value(fields, name) is Some {
        assert(fields[position].0.text == name);
    }
}

/// The text of a value is what was written, whole: without its quotes, with its braces, its
/// segments one after the other. Numbers, lists, pairs and elisions are no text.
pub proof fn law_text_of_a_value_is_whole(value: FieldValue)
    ensures
        match value {
            FieldValue::Empty => scalar_bytes(value) == Some(Seq::<u8>::empty()),
            FieldValue::Str(text, quoting) => scalar_bytes(value) == Some(
                if quoting is Braces {
                    seq![0x7bu8] + text + seq![0x7du8]
                } else {
                    text
                },
            ),
            FieldValue::Owned(text) => scalar_bytes(value) == Some(text),
            FieldValue::Segments(parts) => scalar_bytes(value) == Some(parts.flatten()),
            FieldValue::Literal(text) => scalar_bytes(value) == Some(encode_utf8(text)),
            _ => scalar_bytes(value) is None,
        },
        scalar_bytes(value) is None <==> {
            ||| value is Number
            ||| value is List
            ||| value is StringifiedList
            ||| value is Pairs
            ||| value is Skipped
        },
{
}

} // verus!
