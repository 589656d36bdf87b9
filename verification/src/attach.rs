//! Writing an explanation into the record that it explains.

use linux_audit_parser::{Body, Key};
use vstd::prelude::*;
use vstd::utf8::*;

use crate::audit;
use crate::audit::{Field, FieldKey, FieldValue, KeyKind, Quoting};
use crate::query;
use crate::why;
use crate::why::{WhyModel, WhyReason, WhyResult};

verus! {

/// The key of the field that holds the reason.
pub open spec fn why_key() -> Seq<u8> {
    encode_utf8("SELINUX_WHY"@)
}

/// The key of the field that holds the detail.
pub open spec fn detail_key() -> Seq<u8> {
    encode_utf8("SELINUX_WHY_DETAIL"@)
}

/// Whether a field of that name belongs to an explanation.
pub open spec fn is_answer_key(name: Seq<u8>) -> bool {
    name == why_key() || name == detail_key()
}

/// The fields that belong to no explanation, in their order.
pub open spec fn other_fields(fields: Seq<Field>) -> Seq<Field> {
    fields.filter(|field: Field| !is_answer_key(field.0.text))
}

/// A field that holds text.
pub open spec fn text_field(name: Seq<u8>, text: Seq<char>) -> Field {
    (
        FieldKey { kind: KeyKind::Literal, text: name },
        FieldValue::Str(encode_utf8(text), Quoting::Bare),
    )
}

/// What bytes read as, with what is not UTF-8 in them replaced.
pub uninterp spec fn lossy_text(bytes: Seq<u8>) -> Seq<char>;

/// The text of a detail: what its bytes encode, if they are UTF-8, and otherwise what they read
/// as with what is not UTF-8 replaced.
pub open spec fn detail_text(bytes: Seq<u8>) -> Seq<char> {
    if valid_utf8(bytes) {
        decode_utf8(bytes)
    } else {
        lossy_text(bytes)
    }
}

/// The fields of a record once a reason and the text of a detail have been written into it:
/// they take the place of any earlier explanation, and stand last.
pub open spec fn attached_text(
    fields: Seq<Field>,
    reason: WhyReason,
    detail: Option<Seq<char>>,
) -> Seq<Field> {
    let reasoned = other_fields(fields).push(text_field(why_key(), why::reason_name(reason)));
    match detail {
        Some(text) => reasoned.push(text_field(detail_key(), text)),
        None => reasoned,
    }
}

/// The fields of a record once an explanation has been written into it, its detail as text.
pub open spec fn attached(fields: Seq<Field>, why: WhyModel) -> Seq<Field> {
    attached_text(
        fields,
        why.reason,
        match why.detail {
            Some(detail) => Some(detail_text(detail)),
            None => None,
        },
    )
}

/// Calls `String::from_utf8_lossy`: the bytes as text. Bytes that are UTF-8 are decoded as they
/// are; of others the replacement is only named.
#[verifier::external_body]
fn utf8_lossy(bytes: &Vec<u8>) -> (text: String)
    ensures
        text@ == lossy_text(bytes@),
        valid_utf8(bytes@) ==> text@ == decode_utf8(bytes@),
{
    String::from_utf8_lossy(bytes).into_owned()
}

/// Whether the field of that key belongs to no explanation.
fn is_other_field(key: &Key) -> (other: bool)
    ensures
        other == !is_answer_key(audit::key_text(*key)),
{
    !audit::key_is(key, "SELINUX_WHY") && !audit::key_is(key, "SELINUX_WHY_DETAIL")
}

/// Calls `Body::retain` with [`is_other_field`] on each key: the fields for which that holds
/// stay, in their order.
#[verifier::external_body]
fn retain_other_fields(body: &mut Body<'_>)
    ensures
        audit::body_fields(*final(body)) == other_fields(audit::body_fields(*old(body))),
{
    body.retain(|field| is_other_field(&field.0));
}

/// Writes a reason and the text of a detail into a record, in place of any earlier explanation.
pub fn attach_text(body: &mut Body<'_>, reason: WhyReason, detail: Option<&str>)
    ensures
        audit::body_fields(*final(body)) == attached_text(
            audit::body_fields(*old(body)),
            reason,
            match detail {
                Some(text) => Some(text@),
                None => None,
            },
        ),
        ({
            let fields = audit::body_fields(*final(body));
            &&& (audit::first_value(fields, encode_utf8("SELINUX_WHY"@)) matches Some(value)
                && audit::scalar_bytes(value) == Some(encode_utf8(why::reason_name(reason))))
            &&& match detail {
                Some(text) => (audit::first_value(fields, encode_utf8("SELINUX_WHY_DETAIL"@)) matches Some(
                    value,
                ) && audit::scalar_bytes(value) == Some(encode_utf8(text@))),
                None => audit::first_value(fields, encode_utf8("SELINUX_WHY_DETAIL"@)) is None,
            }
        }),
{
    proof {
        law_written_text_is_read_back(
            audit::body_fields(*body),
            reason,
            match detail {
                Some(text) => Some(text@),
                None => None,
            },
        );
    }
    retain_other_fields(body);
    audit::body_push(body, "SELINUX_WHY", reason.as_str());
    match detail {
        Some(text) => audit::body_push(body, "SELINUX_WHY_DETAIL", text),
        None => {},
    }
}

/// Writes an explanation into a record, in place of any earlier one.
pub fn attach_result(body: &mut Body<'_>, result: &WhyResult)
    ensures
        audit::body_fields(*final(body)) == attached(audit::body_fields(*old(body)), result@),
        result@.detail matches Some(detail) ==> detail_text(detail) == lossy_text(detail),
        ({
            let fields = audit::body_fields(*final(body));
            &&& (audit::first_value(fields, encode_utf8("SELINUX_WHY"@)) matches Some(value)
                && audit::scalar_bytes(value) == Some(encode_utf8(why::reason_name(result.reason))))
            &&& match result.detail {
                Some(detail) => (audit::first_value(fields, encode_utf8("SELINUX_WHY_DETAIL"@)) matches Some(
                    value,
                ) && audit::scalar_bytes(value) == Some(
                    if valid_utf8(detail@) {
                        detail@
                    } else {
                        encode_utf8(lossy_text(detail@))
                    },
                )),
                None => audit::first_value(fields, encode_utf8("SELINUX_WHY_DETAIL"@)) is None,
            }
        }),
{
    proof {
        law_explanation_is_read_back(audit::body_fields(*body), result@);
    }
    match &result.detail {
        Some(detail) => {
            let text = utf8_lossy(detail);
            attach_text(body, result.reason, Some(text.as_str()));
        },
        None => attach_text(body, result.reason, None),
    }
}

/// The two keys of an explanation are told apart from each other, and from the keys by which a
/// record poses its query.
pub proof fn lemma_answer_keys()
    ensures
        why_key() != detail_key(),
        !is_answer_key(encode_utf8("scontext"@)),
        !is_answer_key(encode_utf8("tcontext"@)),
        !is_answer_key(encode_utf8("tclass"@)),
        !is_answer_key(encode_utf8("denied"@)),
{
    reveal_strlit("SELINUX_WHY");
    reveal_strlit("SELINUX_WHY_DETAIL");
    reveal_strlit("scontext");
    reveal_strlit("tcontext");
    reveal_strlit("tclass");
    reveal_strlit("denied");
    is_ascii_chars_encode_utf8("SELINUX_WHY"@);
    is_ascii_chars_encode_utf8("SELINUX_WHY_DETAIL"@);
    is_ascii_chars_encode_utf8("scontext"@);
    is_ascii_chars_encode_utf8("tcontext"@);
    is_ascii_chars_encode_utf8("tclass"@);
    is_ascii_chars_encode_utf8("denied"@);
}

/// A field at the end is kept or not by its key alone.
proof fn lemma_other_fields_push(fields: Seq<Field>, field: Field)
    ensures
        other_fields(fields.push(field)) == if is_answer_key(field.0.text) {
            other_fields(fields)
        } else {
            other_fields(fields).push(field)
        },
{
    reveal(Seq::filter);
    assert(fields.push(field).drop_last() =~= fields);
}

/// What belongs to no explanation stays so.
proof fn lemma_other_fields_idempotent(fields: Seq<Field>)
    ensures
        other_fields(other_fields(fields)) == other_fields(fields),
    decreases fields.len(),
{
    reveal(Seq::filter);
    if fields.len() > 0 {
        let rest = fields.drop_last();
        assert(fields =~= rest.push(fields.last()));
        lemma_other_fields_push(rest, fields.last());
        lemma_other_fields_idempotent(rest);
        lemma_other_fields_push(other_fields(rest), fields.last());
    }
}

/// A field at the end is found where no earlier one has its key.
proof fn lemma_first_value_push(fields: Seq<Field>, field: Field, name: Seq<u8>)
    ensures
        audit::first_value(fields.push(field), name) == match audit::first_value(fields, name) {
            Some(value) => Some(value),
            None => if field.0.text == name {
                Some(field.1)
            } else {
                None
            },
        },
    decreases fields.len(),
{
    reveal_with_fuel(audit::first_value, 2);
    let longer = fields.push(field);
    if fields.len() == 0 {
        assert(longer.drop_first() =~= Seq::<Field>::empty());
    } else {
        assert(longer.drop_first() =~= fields.drop_first().push(field));
        lemma_first_value_push(fields.drop_first(), field, name);
    }
}

/// Among the other fields, the first of a name is the same, and none is of an explanation.
proof fn lemma_first_value_other(fields: Seq<Field>, name: Seq<u8>)
    ensures
        audit::first_value(other_fields(fields), name) == if is_answer_key(name) {
            None
        } else {
            audit::first_value(fields, name)
        },
    decreases fields.len(),
{
    reveal(Seq::filter);
    if fields.len() > 0 {
        let rest = fields.drop_last();
        assert(fields =~= rest.push(fields.last()));
        lemma_other_fields_push(rest, fields.last());
        lemma_first_value_other(rest, name);
        lemma_first_value_push(rest, fields.last(), name);
        lemma_first_value_push(other_fields(rest), fields.last(), name);
    }
}

/// An explanation changes nothing but the fields of explanations.
pub proof fn law_attach_keeps_other_fields(fields: Seq<Field>, why: WhyModel)
    ensures
        other_fields(attached(fields, why)) == other_fields(fields),
{
    let kept = other_fields(fields);
    let reason = text_field(why_key(), why::reason_name(why.reason));
    lemma_other_fields_idempotent(fields);
    lemma_other_fields_push(kept, reason);
    if let Some(detail) = why.detail {
        lemma_other_fields_push(kept.push(reason), text_field(detail_key(), detail_text(detail)));
    }
}

/// A later explanation takes the place of an earlier one, whole.
pub proof fn law_attach_replaces(fields: Seq<Field>, earlier: WhyModel, why: WhyModel)
    ensures
        attached(attached(fields, earlier), why) == attached(fields, why),
{
    law_attach_keeps_other_fields(fields, earlier);
}

/// What is read back of an explanation is what was written: the name of the reason, and the
/// detail, if there is one. Every other field reads as before.
pub proof fn law_attach_reads_back(fields: Seq<Field>, why: WhyModel, name: Seq<u8>)
    ensures
        audit::first_value(attached(fields, why), name) == if name == why_key() {
            Some(text_field(why_key(), why::reason_name(why.reason)).1)
        } else if name == detail_key() {
            match why.detail {
                Some(detail) => Some(text_field(detail_key(), detail_text(detail)).1),
                None => None,
            }
        } else {
            audit::first_value(fields, name)
        },
{
    let kept = other_fields(fields);
    let reason = text_field(why_key(), why::reason_name(why.reason));
    lemma_answer_keys();
    lemma_first_value_other(fields, name);
    lemma_first_value_push(kept, reason, name);
    if let Some(detail) = why.detail {
        lemma_first_value_push(
            kept.push(reason),
            text_field(detail_key(), detail_text(detail)),
            name,
        );
    }
}

/// An explained record poses the same query as before.
pub proof fn law_attach_keeps_query(fields: Seq<Field>, why: WhyModel)
    ensures
        query::query_of(attached(fields, why)) == query::query_of(fields),
{
    lemma_answer_keys();
    law_attach_reads_back(fields, why, encode_utf8("scontext"@));
    law_attach_reads_back(fields, why, encode_utf8("tcontext"@));
    law_attach_reads_back(fields, why, encode_utf8("tclass"@));
    law_attach_reads_back(fields, why, encode_utf8("denied"@));
}

/// After a reason and a text have been written into a record, the first field `SELINUX_WHY` has
/// the bytes of the reason's name, and the first field `SELINUX_WHY_DETAIL` those of the text, all
/// of them; without a text there is no such field. Whatever else the record says, it says as
/// before.
pub proof fn law_written_text_is_read_back(
    fields: Seq<Field>,
    reason: WhyReason,
    detail: Option<Seq<char>>,
)
    ensures
        ({
            let after = attached_text(fields, reason, detail);
            &&& (audit::first_value(after, encode_utf8("SELINUX_WHY"@)) matches Some(value)
                && audit::scalar_bytes(value) == Some(encode_utf8(why::reason_name(reason))))
            &&& match detail {
                Some(text) => (audit::first_value(after, encode_utf8("SELINUX_WHY_DETAIL"@)) matches Some(
                    value,
                ) && audit::scalar_bytes(value) == Some(encode_utf8(text))),
                None => audit::first_value(after, encode_utf8("SELINUX_WHY_DETAIL"@)) is None,
            }
            &&& forall|name: Seq<u8>|
                name != encode_utf8("SELINUX_WHY"@) && name != encode_utf8("SELINUX_WHY_DETAIL"@)
                    ==> #[trigger] audit::first_value(after, name) == audit::first_value(fields, name)
        }),
{
    let after = attached_text(fields, reason, detail);
    let kept = other_fields(fields);
    let answer = text_field(why_key(), why::reason_name(reason));
    lemma_answer_keys();
    assert forall|name: Seq<u8>| #[trigger] audit::first_value(after, name) == if name == why_key() {
        Some(answer.1)
    } else if name == detail_key() {
        match detail {
            Some(text) => Some(text_field(detail_key(), text).1),
            None => None,
        }
    } else {
        audit::first_value(fields, name)
    } by {
        lemma_first_value_other(fields, name);
        lemma_first_value_push(kept, answer, name);
        if let Some(text) = detail {
            lemma_first_value_push(kept.push(answer), text_field(detail_key(), text), name);
        }
    }
}

/// After an explanation has been written into a record, the first field `SELINUX_WHY` has the
/// bytes of the reason's name, and the first field `SELINUX_WHY_DETAIL` those of the detail: the
/// detail's own, however many, if they are UTF-8, and otherwise those of the text that they read
/// as. Without a detail there is no such field. Whatever else the record says, it says as before.
pub proof fn law_explanation_is_read_back(fields: Seq<Field>, why: WhyModel)
    ensures
        ({
            let after = attached(fields, why);
            &&& (audit::first_value(after, encode_utf8("SELINUX_WHY"@)) matches Some(value)
                && audit::scalar_bytes(value) == Some(encode_utf8(why::reason_name(why.reason))))
            &&& match why.detail {
                Some(detail) => (audit::first_value(after, encode_utf8("SELINUX_WHY_DETAIL"@)) matches Some(
                    value,
                ) && audit::scalar_bytes(value) == Some(
                    if valid_utf8(detail) {
                        detail
                    } else {
                        encode_utf8(lossy_text(detail))
                    },
                )),
                None => audit::first_value(after, encode_utf8("SELINUX_WHY_DETAIL"@)) is None,
            }
            &&& forall|name: Seq<u8>|
                name != encode_utf8("SELINUX_WHY"@) && name != encode_utf8("SELINUX_WHY_DETAIL"@)
                    ==> #[trigger] audit::first_value(after, name) == audit::first_value(fields, name)
        }),
{
    let text = match why.detail {
        Some(detail) => Some(detail_text(detail)),
        None => None,
    };
    law_written_text_is_read_back(fields, why.reason, text);
    if let Some(detail) = why.detail {
        if valid_utf8(detail) {
            decode_utf8_encode_utf8(detail);
        }
    }
}

/// A written explanation stands at the end of the record, the reason before the detail, both under
/// literal keys and without quotes. Before it stand the fields of the record under other keys,
/// each as it was and in the same order.
pub proof fn law_explanation_stands_last(
    fields: Seq<Field>,
    reason: WhyReason,
    detail: Option<Seq<char>>,
)
    ensures
        ({
            let others = fields.filter(
                |field: Field|
                    field.0.text != encode_utf8("SELINUX_WHY"@) && field.0.text != encode_utf8(
                        "SELINUX_WHY_DETAIL"@,
                    ),
            );
            let named: Field = (
                FieldKey { kind: KeyKind::Literal, text: encode_utf8("SELINUX_WHY"@) },
                FieldValue::Str(encode_utf8(why::reason_name(reason)), Quoting::Bare),
            );
            attached_text(fields, reason, detail) == match detail {
                Some(text) => others + seq![
                    named,
                    (
                        FieldKey { kind: KeyKind::Literal, text: encode_utf8("SELINUX_WHY_DETAIL"@) },
                        FieldValue::Str(encode_utf8(text), Quoting::Bare),
                    ),
                ],
                None => others + seq![named],
            }
        }),
{
    let is_other = |field: Field|
        field.0.text != encode_utf8("SELINUX_WHY"@) && field.0.text != encode_utf8(
            "SELINUX_WHY_DETAIL"@,
        );
    assert(is_other =~= (|field: Field| !is_answer_key(field.0.text)));
    let others = fields.filter(is_other);
    let named: Field = (
        FieldKey { kind: KeyKind::Literal, text: encode_utf8("SELINUX_WHY"@) },
        FieldValue::Str(encode_utf8(why::reason_name(reason)), Quoting::Bare),
    );
    match detail {
        Some(text) => {
            let told: Field = (
                FieldKey { kind: KeyKind::Literal, text: encode_utf8("SELINUX_WHY_DETAIL"@) },
                FieldValue::Str(encode_utf8(text), Quoting::Bare),
            );
            assert(others.push(named).push(told) =~= others + seq![named, told]);
        },
        None => {
            assert(others.push(named) =~= others + seq![named]);
        },
    }
}

/// An explanation is written as its reason and the text of its detail: what the detail's bytes
/// encode if they are UTF-8, and what they read as with the rest replaced if they are not.
pub proof fn law_detail_is_written_as_text(fields: Seq<Field>, why: WhyModel)
    ensures
        why.detail is None ==> attached(fields, why) == attached_text(fields, why.reason, None),
        why.detail matches Some(detail) ==> attached(fields, why) == attached_text(
            fields,
            why.reason,
            Some(
                if valid_utf8(detail) {
                    decode_utf8(detail)
                } else {
                    lossy_text(detail)
                },
            ),
        ),
{
}

} // verus!
