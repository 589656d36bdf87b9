//! Queries: what an AVC record asks of the policy, in a normal form.

use linux_audit_parser::{Body, Value};
use vstd::prelude::*;
use vstd::utf8::*;

use crate::audit;
use crate::audit::{Field, FieldValue};

verus! {

/// Whether `a` comes before `b` in the lexicographic order of byte strings.
pub open spec fn bytes_less(a: Seq<u8>, b: Seq<u8>) -> bool
    decreases a.len(),
{
    if b.len() == 0 {
        false
    } else if a.len() == 0 {
        true
    } else if a[0] != b[0] {
        a[0] < b[0]
    } else {
        bytes_less(a.drop_first(), b.drop_first())
    }
}

/// Each byte string comes before all that follow it.
pub open spec fn strictly_ascending(list: Seq<Seq<u8>>) -> bool {
    forall|i: int, j: int| 0 <= i < j < list.len() ==> bytes_less(#[trigger] list[i], #[trigger] list[j])
}

/// `list` holds the byte strings of `raw` that are not empty, each once and in ascending order.
pub open spec fn is_normal_form(raw: Seq<Seq<u8>>, list: Seq<Seq<u8>>) -> bool {
    &&& strictly_ascending(list)
    &&& forall|p: Seq<u8>| #[trigger] list.contains(p) <==> raw.contains(p) && p.len() > 0
}

/// The byte strings of `raw` that are not empty, each once and in ascending order.
pub open spec fn normal_form(raw: Seq<Seq<u8>>) -> Seq<Seq<u8>> {
    choose|list: Seq<Seq<u8>>| is_normal_form(raw, list)
}

/// No byte string comes before itself.
pub proof fn lemma_bytes_less_irreflexive(a: Seq<u8>)
    ensures
        !bytes_less(a, a),
    decreases a.len(),
{
    if a.len() > 0 {
        lemma_bytes_less_irreflexive(a.drop_first());
    }
}

/// The order of byte strings is transitive.
pub proof fn lemma_bytes_less_transitive(a: Seq<u8>, b: Seq<u8>, c: Seq<u8>)
    requires
        bytes_less(a, b),
        bytes_less(b, c),
    ensures
        bytes_less(a, c),
    decreases a.len(),
{
    if a.len() > 0 && b.len() > 0 && c.len() > 0 && a[0] == b[0] && b[0] == c[0] {
        lemma_bytes_less_transitive(a.drop_first(), b.drop_first(), c.drop_first());
    }
}

/// Of two different byte strings one comes before the other.
pub proof fn lemma_bytes_less_total(a: Seq<u8>, b: Seq<u8>)
    ensures
        bytes_less(a, b) || a == b || bytes_less(b, a),
    decreases a.len(),
{
    if a.len() > 0 && b.len() > 0 {
        if a[0] == b[0] {
            lemma_bytes_less_total(a.drop_first(), b.drop_first());
            if a.drop_first() == b.drop_first() {
                assert(a =~= seq![a[0]] + a.drop_first());
                assert(b =~= seq![b[0]] + b.drop_first());
            }
        }
    } else if a.len() == 0 && b.len() == 0 {
        assert(a =~= b);
    }
}

/// A strictly ascending list is determined by what it holds.
pub proof fn lemma_ascending_unique(s: Seq<Seq<u8>>, t: Seq<Seq<u8>>)
    requires
        strictly_ascending(s),
        strictly_ascending(t),
        forall|p: Seq<u8>| #[trigger] s.contains(p) <==> t.contains(p),
    ensures
        s == t,
    decreases s.len(),
{
    if s.len() == 0 {
        if t.len() > 0 {
            assert(t.contains(t[0]));
            assert(s.contains(t[0]));
        }
        assert(s =~= t);
    } else {
        assert(s.contains(s.last()));
        assert(t.contains(t.last()));
        assert(s.contains(t.last()));
        let i = choose|i: int| 0 <= i < s.len() && s[i] == t.last();
        let j = choose|j: int| 0 <= j < t.len() && t[j] == s.last();
        if i < s.len() - 1 && j < t.len() - 1 {
            assert(bytes_less(s[i], s[s.len() - 1]));
            assert(bytes_less(t[j], t[t.len() - 1]));
            lemma_bytes_less_transitive(s.last(), t.last(), s.last());
            lemma_bytes_less_irreflexive(s.last());
        }
        assert(s.last() == t.last());
        let s1 = s.drop_last();
        let t1 = t.drop_last();
        assert forall|p: Seq<u8>| #[trigger] s1.contains(p) <==> t1.contains(p) by {
            lemma_ascending_drop_last(s, p);
            lemma_ascending_drop_last(t, p);
        }
        lemma_ascending_unique(s1, t1);
        assert(s =~= s1.push(s.last()));
        assert(t =~= t1.push(t.last()));
    }
}

/// Without its last element, a strictly ascending list holds all the others.
proof fn lemma_ascending_drop_last(s: Seq<Seq<u8>>, p: Seq<u8>)
    requires
        strictly_ascending(s),
        s.len() > 0,
    ensures
        s.drop_last().contains(p) <==> s.contains(p) && p != s.last(),
{
    let rest = s.drop_last();
    if rest.contains(p) {
        let i = choose|i: int| 0 <= i < rest.len() && rest[i] == p;
        assert(s[i] == p);
        assert(bytes_less(s[i], s[s.len() - 1]));
        lemma_bytes_less_irreflexive(p);
    }
    if s.contains(p) && p != s.last() {
        let i = choose|i: int| 0 <= i < s.len() && s[i] == p;
        assert(rest[i] == p);
    }
}

/// The normal form is the only list that [`is_normal_form`] accepts.
pub proof fn lemma_normal_form_unique(raw: Seq<Seq<u8>>, list: Seq<Seq<u8>>)
    requires
        is_normal_form(raw, list),
    ensures
        list == normal_form(raw),
{
    let chosen = normal_form(raw);
    assert(is_normal_form(raw, chosen));
    assert forall|p: Seq<u8>| #[trigger] list.contains(p) <==> chosen.contains(p) by {}
    lemma_ascending_unique(list, chosen);
}

/// An ascending list stays so when a byte string is put between those before it and those
/// after it, and then holds that byte string besides its own.
proof fn lemma_insert_ascending(list: Seq<Seq<u8>>, at: int, item: Seq<u8>)
    requires
        strictly_ascending(list),
        0 <= at <= list.len(),
        forall|j: int| 0 <= j < at ==> bytes_less(#[trigger] list[j], item),
        at < list.len() ==> bytes_less(item, list[at]),
    ensures
        strictly_ascending(list.insert(at, item)),
        forall|p: Seq<u8>| #[trigger]
            list.insert(at, item).contains(p) <==> list.contains(p) || p == item,
{
    let after = list.insert(at, item);
    assert forall|j: int, k: int| 0 <= j < k < after.len() implies bytes_less(
        #[trigger] after[j],
        #[trigger] after[k],
    ) by {
        let from_j = if j < at { j } else { j - 1 };
        let from_k = if k < at { k } else { k - 1 };
        if j == at {
            if k > at + 1 {
                assert(bytes_less(list[at], list[from_k]));
                lemma_bytes_less_transitive(item, list[at], list[from_k]);
            }
        } else if k != at {
            assert(bytes_less(list[from_j], list[from_k]));
        }
    }
    assert forall|p: Seq<u8>| #[trigger] after.contains(p) <==> list.contains(p) || p == item by {
        if after.contains(p) {
            let j = choose|j: int| 0 <= j < after.len() && after[j] == p;
            if j < at {
                assert(list[j] == p);
            } else if j > at {
                assert(list[j - 1] == p);
            }
        }
        if list.contains(p) {
            let j = choose|j: int| 0 <= j < list.len() && list[j] == p;
            if j < at {
                assert(after[j] == p);
            } else {
                assert(after[j + 1] == p);
            }
        }
        if p == item {
            assert(after[at] == p);
        }
    }
}

/// A byte string that an ascending list does not hold has a place in it.
proof fn lemma_gap(list: Seq<Seq<u8>>, item: Seq<u8>) -> (at: int)
    requires
        strictly_ascending(list),
        !list.contains(item),
    ensures
        0 <= at <= list.len(),
        forall|j: int| 0 <= j < at ==> bytes_less(#[trigger] list[j], item),
        at < list.len() ==> bytes_less(item, list[at]),
    decreases list.len(),
{
    if list.len() == 0 {
        0
    } else {
        let last = list.last();
        lemma_bytes_less_total(last, item);
        if bytes_less(last, item) {
            assert forall|j: int| 0 <= j < list.len() implies bytes_less(#[trigger] list[j], item) by {
                if j < list.len() - 1 {
                    assert(bytes_less(list[j], list[list.len() - 1]));
                    lemma_bytes_less_transitive(list[j], last, item);
                }
            }
            list.len() as int
        } else {
            let rest = list.drop_last();
            assert forall|j: int| 0 <= j < rest.len() implies rest[j] != item by {
                assert(list[j] != item);
            }
            let at = lemma_gap(rest, item);
            assert forall|j: int| 0 <= j < at implies bytes_less(#[trigger] list[j], item) by {
                assert(rest[j] == list[j]);
            }
            at
        }
    }
}

/// Every list has a normal form.
pub proof fn lemma_normal_form_exists(raw: Seq<Seq<u8>>)
    ensures
        is_normal_form(raw, normal_form(raw)),
    decreases raw.len(),
{
    if raw.len() == 0 {
        assert(is_normal_form(raw, Seq::<Seq<u8>>::empty()));
    } else {
        let rest = raw.drop_last();
        let item = raw.last();
        lemma_normal_form_exists(rest);
        let list = normal_form(rest);
        assert forall|p: Seq<u8>| raw.contains(p) <==> rest.contains(p) || p == item by {
            assert(raw =~= rest.push(item));
            if rest.contains(p) {
                let j = choose|j: int| 0 <= j < rest.len() && rest[j] == p;
                assert(raw[j] == p);
            }
            if raw.contains(p) && p != item {
                let j = choose|j: int| 0 <= j < raw.len() && raw[j] == p;
                assert(rest[j] == p);
            }
            if p == item {
                assert(raw[raw.len() - 1] == p);
            }
        }
        if item.len() == 0 || list.contains(item) {
            assert(is_normal_form(raw, list));
        } else {
            let at = lemma_gap(list, item);
            lemma_insert_ascending(list, at, item);
            assert(is_normal_form(raw, list.insert(at, item)));
        }
    }
}

/// How two byte strings lie to each other.
enum Side {
    Before,
    Same,
    After,
}

/// Compares two byte strings.
fn side(a: &Vec<u8>, b: &Vec<u8>) -> (side: Side)
    ensures
        match side {
            Side::Before => bytes_less(a@, b@),
            Side::Same => a@ == b@,
            Side::After => bytes_less(b@, a@),
        },
{
    let mut i: usize = 0;
    assert(a@.skip(0) =~= a@);
    assert(b@.skip(0) =~= b@);
    while i < a.len() && i < b.len()
        invariant
            i <= a.len(),
            i <= b.len(),
            a@.take(i as int) == b@.take(i as int),
            bytes_less(a@, b@) == bytes_less(a@.skip(i as int), b@.skip(i as int)),
            bytes_less(b@, a@) == bytes_less(b@.skip(i as int), a@.skip(i as int)),
        decreases a.len() - i,
    {
        assert(a@.skip(i as int).drop_first() =~= a@.skip(i + 1));
        assert(b@.skip(i as int).drop_first() =~= b@.skip(i + 1));
        if a[i] < b[i] {
            return Side::Before;
        }
        if b[i] < a[i] {
            return Side::After;
        }
        assert(a@.take(i + 1) =~= a@.take(i as int).push(a@[i as int]));
        assert(b@.take(i + 1) =~= b@.take(i as int).push(b@[i as int]));
        i = i + 1;
    }
    if i < b.len() {
        Side::Before
    } else if i < a.len() {
        Side::After
    } else {
        assert(a@ =~= a@.take(i as int));
        assert(b@ =~= b@.take(i as int));
        Side::Same
    }
}

/// The byte strings in a list of vectors.
pub open spec fn byte_strings(list: Seq<Vec<u8>>) -> Seq<Seq<u8>> {
    Seq::new(list.len(), |i: int| list[i]@)
}

/// Puts a byte string into its place in an ascending list, unless the list has it already.
fn insert_ascending(list: &mut Vec<Vec<u8>>, item: Vec<u8>)
    requires
        strictly_ascending(byte_strings(old(list)@)),
    ensures
        strictly_ascending(byte_strings(final(list)@)),
        forall|p: Seq<u8>| #[trigger]
            byte_strings(final(list)@).contains(p) <==> byte_strings(old(list)@).contains(p) || p
                == item@,
{
    let ghost before = byte_strings(list@);
    let ghost added = item@;
    let mut i: usize = 0;
    while i < list.len()
        invariant
            i <= list.len(),
            before == byte_strings(list@),
            strictly_ascending(before),
            forall|j: int| 0 <= j < i ==> bytes_less(#[trigger] before[j], item@),
            list == old(list),
            item@ == added,
        ensures
            i < list.len() ==> bytes_less(item@, before[i as int]),
        decreases list.len() - i,
    {
        match side(&list[i], &item) {
            Side::Before => {
                i = i + 1;
            },
            Side::Same => {
                assert(before[i as int] == added);
                assert(before.contains(added));
                return ;
            },
            Side::After => {
                break;
            },
        }
    }
    list.insert(i, item);
    proof {
        assert(byte_strings(list@) =~= before.insert(i as int, added));
        lemma_insert_ascending(before, i as int, added);
    }
}

/// The byte strings that are not empty, each once and in ascending order.
pub fn normalize(raw: Vec<Vec<u8>>) -> (list: Vec<Vec<u8>>)
    ensures
        byte_strings(list@) == normal_form(byte_strings(raw@)),
        is_normal_form(byte_strings(raw@), byte_strings(list@)),
{
    let ghost all = byte_strings(raw@);
    let mut rest = raw;
    let mut list: Vec<Vec<u8>> = Vec::new();
    assert(all.skip(all.len() as int) =~= Seq::<Seq<u8>>::empty());
    assert(byte_strings(list@) =~= Seq::<Seq<u8>>::empty());
    while rest.len() > 0
        invariant
            all.len() >= rest.len(),
            byte_strings(rest@) == all.take(rest.len() as int),
            is_normal_form(all.skip(rest.len() as int), byte_strings(list@)),
        decreases rest.len(),
    {
        let ghost n = rest.len() as int;
        let ghost done = all.skip(n);
        let ghost before = byte_strings(list@);
        match rest.pop() {
            Some(item) => {
                let ghost added = item@;
                assert(byte_strings(rest@) =~= all.take(n - 1));
                assert(added == all.take(n)[n - 1]);
                if item.len() > 0 {
                    insert_ascending(&mut list, item);
                }
                proof {
                    let now = all.skip(n - 1);
                    assert(now =~= seq![added] + done);
                    assert forall|p: Seq<u8>| #[trigger]
                        byte_strings(list@).contains(p) <==> now.contains(p) && p.len() > 0 by {
                        assert(now.contains(p) <==> p == added || done.contains(p)) by {
                            if p == added {
                                assert(now[0] == p);
                            }
                            if done.contains(p) {
                                let j = choose|j: int| 0 <= j < done.len() && done[j] == p;
                                assert(now[j + 1] == p);
                            }
                            if now.contains(p) && p != added {
                                let j = choose|j: int| 0 <= j < now.len() && now[j] == p;
                                assert(done[j - 1] == p);
                            }
                        }
                        assert(before.contains(p) <==> done.contains(p) && p.len() > 0);
                    }
                }
            },
            None => {},
        }
    }
    assert(all.skip(0) =~= all);
    proof {
        lemma_normal_form_unique(all, byte_strings(list@));
    }
    list
}

/// What a denied access asks of the policy.
#[derive(Debug, PartialEq, Eq)]
pub struct AvcQuery {
    pub scontext: Vec<u8>,
    pub tcontext: Vec<u8>,
    pub tclass: Vec<u8>,
    pub permissions: Vec<Vec<u8>>,
}

/// The mathematical value of an [`AvcQuery`].
#[verifier::ext_equal]
pub struct QueryModel {
    pub scontext: Seq<u8>,
    pub tcontext: Seq<u8>,
    pub tclass: Seq<u8>,
    pub permissions: Seq<Seq<u8>>,
}

impl View for AvcQuery {
    type V = QueryModel;

    open spec fn view(&self) -> QueryModel {
        QueryModel {
            scontext: self.scontext@,
            tcontext: self.tcontext@,
            tclass: self.tclass@,
            permissions: byte_strings(self.permissions@),
        }
    }
}

/// The query for a source, a target, a class and the permissions that were denied, if any
/// permission is left in the normal form of the latter.
pub open spec fn query_from(
    scontext: Seq<u8>,
    tcontext: Seq<u8>,
    tclass: Seq<u8>,
    denied: Seq<Seq<u8>>,
) -> Option<QueryModel> {
    let permissions = normal_form(denied);
    if permissions.len() == 0 {
        None
    } else {
        Some(QueryModel { scontext, tcontext, tclass, permissions })
    }
}

/// The text of the first field of that name, if there is one and it is text.
pub open spec fn field_text(fields: Seq<Field>, name: Seq<char>) -> Option<Seq<u8>> {
    match audit::first_value(fields, encode_utf8(name)) {
        Some(value) => audit::scalar_bytes(value),
        None => None,
    }
}

/// The texts among the items of a list.
pub open spec fn texts(items: Seq<FieldValue>) -> Seq<Seq<u8>>
    decreases items.len(),
{
    if items.len() == 0 {
        Seq::empty()
    } else {
        match audit::scalar_bytes(items.last()) {
            Some(text) => texts(items.drop_last()).push(text),
            None => texts(items.drop_last()),
        }
    }
}

/// The permissions that a record calls denied: the texts of a list, or a single text.
pub open spec fn denied_permissions(fields: Seq<Field>) -> Option<Seq<Seq<u8>>> {
    match audit::first_value(fields, encode_utf8("denied"@)) {
        Some(FieldValue::List(items)) => Some(texts(items)),
        Some(value) => match audit::scalar_bytes(value) {
            Some(text) => Some(seq![text]),
            None => None,
        },
        None => None,
    }
}

/// The query that a record poses.
///
/// A record that lacks the contexts, the class or the denied permissions poses none: the
/// records that AppArmor writes under the same type are of that kind.
pub open spec fn query_of(fields: Seq<Field>) -> Option<QueryModel> {
    match (
        field_text(fields, "scontext"@),
        field_text(fields, "tcontext"@),
        field_text(fields, "tclass"@),
        denied_permissions(fields),
    ) {
        (Some(scontext), Some(tcontext), Some(tclass), Some(denied)) => query_from(
            scontext,
            tcontext,
            tclass,
            denied,
        ),
        _ => None,
    }
}

/// Copies a list of byte strings.
pub(crate) fn copy_list(list: &Vec<Vec<u8>>) -> (copy: Vec<Vec<u8>>)
    ensures
        byte_strings(copy@) == byte_strings(list@),
{
    let mut copy: Vec<Vec<u8>> = Vec::new();
    let mut i: usize = 0;
    while i < list.len()
        invariant
            i <= list.len(),
            copy.len() == i,
            forall|j: int| 0 <= j < i ==> (#[trigger] copy@[j])@ == list@[j]@,
        decreases list.len() - i,
    {
        let item = list[i].clone();
        assert(item@ =~= list@[i as int]@);
        copy.push(item);
        i = i + 1;
    }
    assert(byte_strings(copy@) =~= byte_strings(list@));
    copy
}

impl Clone for AvcQuery {
    fn clone(&self) -> (copy: AvcQuery)
        ensures
            copy@ == self@,
    {
        let scontext = self.scontext.clone();
        let tcontext = self.tcontext.clone();
        let tclass = self.tclass.clone();
        assert(scontext@ =~= self.scontext@);
        assert(tcontext@ =~= self.tcontext@);
        assert(tclass@ =~= self.tclass@);
        AvcQuery { scontext, tcontext, tclass, permissions: copy_list(&self.permissions) }
    }
}

impl AvcQuery {
    /// The query for a source, a target, a class and the permissions that were denied.
    ///
    /// The permissions are brought into their normal form; `None` if none is left in it.
    pub fn new(scontext: Vec<u8>, tcontext: Vec<u8>, tclass: Vec<u8>, denied: Vec<Vec<u8>>) -> (query:
        Option<AvcQuery>)
        ensures
            match query {
                Some(posed) => query_from(
                    scontext@,
                    tcontext@,
                    tclass@,
                    byte_strings(denied@),
                ) == Some(posed@),
                None => query_from(scontext@, tcontext@, tclass@, byte_strings(denied@)) is None,
            },
            query is Some <==> exists|i: int| 0 <= i < denied@.len() && (#[trigger] denied@[i])@.len() > 0,
            query matches Some(posed) ==> is_normal_form(
                byte_strings(denied@),
                byte_strings(posed.permissions@),
            ),
            query matches Some(posed) ==> {
                &&& posed.scontext@ == scontext@
                &&& posed.tcontext@ == tcontext@
                &&& posed.tclass@ == tclass@
                &&& forall|i: int|
                    0 <= i < posed.permissions@.len() ==> (#[trigger] posed.permissions@[i])@.len() > 0
                        && exists|k: int| 0 <= k < denied@.len() && (#[trigger] denied@[k])@
                        == posed.permissions@[i]@
                &&& forall|k: int|
                    0 <= k < denied@.len() && (#[trigger] denied@[k])@.len() > 0 ==> exists|i: int|
                        0 <= i < posed.permissions@.len() && (#[trigger] posed.permissions@[i])@
                            == denied@[k]@
                &&& forall|i: int, j: int|
                    0 <= i < j < posed.permissions@.len() ==> bytes_less(
                        (#[trigger] posed.permissions@[i])@,
                        (#[trigger] posed.permissions@[j])@,
                    )
            },
    {
        let ghost given = denied@;
        let ghost raw = byte_strings(given);
        let permissions = normalize(denied);
        let ghost list = byte_strings(permissions@);
        proof {
            assert forall|i: int| 0 <= i < given.len() && (#[trigger] given[i])@.len() > 0 implies list.len()
                > 0 by {
                assert(raw[i] == given[i]@);
                assert(raw.contains(raw[i]));
                assert(list.contains(raw[i]));
            }
            if list.len() > 0 {
                assert(list.contains(list[0]));
                let i = choose|i: int| 0 <= i < raw.len() && raw[i] == list[0];
                assert(given[i]@.len() > 0);
            }
            assert forall|i: int| 0 <= i < permissions@.len() implies (#[trigger] permissions@[i])@.len()
                > 0 && exists|k: int| 0 <= k < given.len() && (#[trigger] given[k])@
                == permissions@[i]@ by {
                assert(list[i] == permissions@[i]@);
                assert(list.contains(list[i]));
                let k = choose|k: int| 0 <= k < raw.len() && raw[k] == list[i];
                assert(given[k]@ == permissions@[i]@);
            }
            assert forall|k: int| 0 <= k < given.len() && (#[trigger] given[k])@.len() > 0 implies exists|
                i: int,
            |
                0 <= i < permissions@.len() && (#[trigger] permissions@[i])@ == given[k]@ by {
                assert(raw[k] == given[k]@);
                assert(raw.contains(raw[k]));
                assert(list.contains(raw[k]));
                let i = choose|i: int| 0 <= i < list.len() && list[i] == raw[k];
                assert(permissions@[i]@ == given[k]@);
            }
            assert forall|i: int, j: int| 0 <= i < j < permissions@.len() implies bytes_less(
                (#[trigger] permissions@[i])@,
                (#[trigger] permissions@[j])@,
            ) by {
                assert(bytes_less(list[i], list[j]));
            }
        }
        if permissions.is_empty() {
            None
        } else {
            Some(AvcQuery { scontext, tcontext, tclass, permissions })
        }
    }
}

/// The text of the first field of that name, if there is one and it is text.
fn text_of(body: &Body<'_>, name: &str) -> (text: Option<Vec<u8>>)
    ensures
        match text {
            Some(bytes) => field_text(audit::body_fields(*body), name@) == Some(bytes@),
            None => field_text(audit::body_fields(*body), name@) is None,
        },
{
    match audit::body_get(body, name) {
        Some(value) => audit::value_bytes(value),
        None => None,
    }
}

/// The contents of a list of values.
spec fn contents(items: Seq<Value<'_>>) -> Seq<FieldValue> {
    Seq::new(items.len(), |i: int| audit::value_content(items[i]))
}

/// The texts among the items of a list.
fn collect_texts(items: &Vec<Value<'_>>) -> (list: Vec<Vec<u8>>)
    ensures
        byte_strings(list@) == texts(contents(items@)),
{
    let ghost content = contents(items@);
    let mut list: Vec<Vec<u8>> = Vec::new();
    let mut i: usize = 0;
    assert(byte_strings(list@) =~= texts(content.take(0)));
    while i < items.len()
        invariant
            i <= items.len(),
            content == contents(items@),
            byte_strings(list@) == texts(content.take(i as int)),
        decreases items.len() - i,
    {
        let ghost before = list@;
        assert(content.take(i + 1).drop_last() =~= content.take(i as int));
        match audit::value_bytes(&items[i]) {
            Some(text) => {
                list.push(text);
                assert(byte_strings(list@) =~= byte_strings(before).push(text@));
            },
            None => {},
        }
        i = i + 1;
    }
    assert(content.take(i as int) =~= content);
    list
}

/// The query that a record poses, if it poses one.
pub fn extract_query(body: &Body<'_>) -> (query: Option<AvcQuery>)
    ensures
        match query {
            Some(posed) => query_of(audit::body_fields(*body)) == Some(posed@),
            None => query_of(audit::body_fields(*body)) is None,
        },
        query matches Some(posed) ==> ({
            let fields = audit::body_fields(*body);
            &&& (audit::first_value(fields, encode_utf8("scontext"@)) matches Some(value)
                && audit::scalar_bytes(value) == Some(posed.scontext@))
            &&& (audit::first_value(fields, encode_utf8("tcontext"@)) matches Some(value)
                && audit::scalar_bytes(value) == Some(posed.tcontext@))
            &&& (audit::first_value(fields, encode_utf8("tclass"@)) matches Some(value)
                && audit::scalar_bytes(value) == Some(posed.tclass@))
        }),
{
    let scontext = text_of(body, "scontext")?;
    let tcontext = text_of(body, "tcontext")?;
    let tclass = text_of(body, "tclass")?;
    let denied = audit::body_get(body, "denied")?;
    let permissions = match audit::list_items(denied) {
        Some(items) => {
            assert(contents(items@) =~= audit::value_content(*denied)->List_0);
            collect_texts(items)
        },
        None => {
            let text = audit::value_bytes(denied)?;
            let mut single: Vec<Vec<u8>> = Vec::new();
            single.push(text);
            assert(byte_strings(single@) =~= seq![text@]);
            single
        },
    };
    AvcQuery::new(scontext, tcontext, tclass, permissions)
}

/// A query names permissions, none of them empty, each once and in ascending order, and they
/// are those that the record calls denied.
pub proof fn law_query_is_normal(fields: Seq<Field>)
    ensures
        query_of(fields) matches Some(query) ==> {
            &&& query.permissions.len() > 0
            &&& strictly_ascending(query.permissions)
            &&& forall|p: Seq<u8>| #[trigger]
                query.permissions.contains(p) <==> p.len() > 0 && denied_permissions(
                fields,
            )->0.contains(p)
            &&& denied_permissions(fields) is Some
        },
{
    if let Some(denied) = denied_permissions(fields) {
        lemma_normal_form_exists(denied);
    }
}

/// A record poses a query if and only if it has both contexts and the class as text, and calls
/// a permission denied that is not empty. So no record of AppArmor, which has none of these
/// fields, poses one.
pub proof fn law_query_needs_all_fields(fields: Seq<Field>)
    ensures
        query_of(fields) is Some <==> {
            &&& field_text(fields, "scontext"@) is Some
            &&& field_text(fields, "tcontext"@) is Some
            &&& field_text(fields, "tclass"@) is Some
            &&& denied_permissions(fields) is Some
            &&& exists|i: int|
                0 <= i < denied_permissions(fields)->0.len() && (
                #[trigger] denied_permissions(fields)->0[i]).len() > 0
        },
{
    if let Some(denied) = denied_permissions(fields) {
        lemma_normal_form_exists(denied);
        let list = normal_form(denied);
        assert forall|i: int| 0 <= i < denied.len() && (#[trigger] denied[i]).len() > 0 implies list.len()
            > 0 by {
            assert(denied.contains(denied[i]));
            assert(list.contains(denied[i]));
        }
        if list.len() > 0 {
            assert(list.contains(list[0]));
            let i = choose|i: int| 0 <= i < denied.len() && denied[i] == list[0];
            assert(denied[i].len() > 0);
        }
    }
}

/// The order in which permissions are called denied, repetitions and empty ones do not matter.
pub proof fn law_query_ignores_order(
    scontext: Seq<u8>,
    tcontext: Seq<u8>,
    tclass: Seq<u8>,
    denied: Seq<Seq<u8>>,
    again: Seq<Seq<u8>>,
)
    requires
        forall|p: Seq<u8>| p.len() > 0 ==> (#[trigger] denied.contains(p) <==> again.contains(p)),
    ensures
        query_from(scontext, tcontext, tclass, denied) == query_from(
            scontext,
            tcontext,
            tclass,
            again,
        ),
{
    lemma_normal_form_exists(denied);
    let list = normal_form(denied);
    assert forall|p: Seq<u8>| #[trigger] list.contains(p) <==> again.contains(p) && p.len() > 0 by {
        if p.len() > 0 {
            assert(denied.contains(p) <==> again.contains(p));
        }
    }
    assert(is_normal_form(again, list));
    lemma_normal_form_unique(again, list);
}

/// Permissions that are in normal form stay as they are.
pub proof fn law_normal_form_is_stable(raw: Seq<Seq<u8>>)
    ensures
        normal_form(normal_form(raw)) == normal_form(raw),
{
    lemma_normal_form_exists(raw);
    let list = normal_form(raw);
    assert(is_normal_form(list, list));
    lemma_normal_form_unique(list, list);
}

/// Byte strings are ordered by the first byte in which they differ, and where they do not differ
/// as far as the shorter one goes, by their lengths.
pub proof fn law_order_is_lexicographic(a: Seq<u8>, b: Seq<u8>)
    ensures
        bytes_less(a, b) <==> {
            ||| a.len() < b.len() && a == b.take(a.len() as int)
            ||| exists|i: int|
                0 <= i < a.len() && i < b.len() && a.take(i) == b.take(i) && #[trigger] a[i] < b[i]
        },
    decreases a.len(),
{
    if a.len() > 0 && b.len() > 0 && a[0] == b[0] {
        let x = a.drop_first();
        let y = b.drop_first();
        law_order_is_lexicographic(x, y);
        if x.len() < y.len() && x == y.take(x.len() as int) {
            assert forall|k: int| 0 <= k < a.len() implies #[trigger] a[k] == b.take(a.len() as int)[k] by {
                if k > 0 {
                    assert(x[k - 1] == y.take(x.len() as int)[k - 1]);
                }
            }
            assert(a =~= b.take(a.len() as int));
        }
        if a.len() < b.len() && a == b.take(a.len() as int) {
            assert forall|k: int| 0 <= k < x.len() implies #[trigger] x[k] == y.take(x.len() as int)[k] by {
                assert(a[k + 1] == b.take(a.len() as int)[k + 1]);
            }
            assert(x =~= y.take(x.len() as int));
        }
        if exists|i: int|
            0 <= i < x.len() && i < y.len() && x.take(i) == y.take(i) && #[trigger] x[i] < y[i] {
            let i = choose|i: int|
                0 <= i < x.len() && i < y.len() && x.take(i) == y.take(i) && #[trigger] x[i] < y[i];
            assert(a[i + 1] < b[i + 1]);
            assert forall|k: int| 0 <= k < i + 1 implies #[trigger] a.take(i + 1)[k] == b.take(i + 1)[k] by {
                if k > 0 {
                    assert(x.take(i)[k - 1] == y.take(i)[k - 1]);
                }
            }
            assert(a.take(i + 1) =~= b.take(i + 1));
        }
        if exists|i: int|
            0 <= i < a.len() && i < b.len() && a.take(i) == b.take(i) && #[trigger] a[i] < b[i] {
            let i = choose|i: int|
                0 <= i < a.len() && i < b.len() && a.take(i) == b.take(i) && #[trigger] a[i] < b[i];
            assert(x[i - 1] < y[i - 1]);
            assert forall|k: int| 0 <= k < i - 1 implies #[trigger] x.take(i - 1)[k] == y.take(i - 1)[k] by {
                assert(a.take(i)[k + 1] == b.take(i)[k + 1]);
            }
            assert(x.take(i - 1) =~= y.take(i - 1));
        }
    } else if a.len() > 0 && b.len() > 0 {
        assert(a.take(0) =~= b.take(0));
        if a.len() < b.len() && a == b.take(a.len() as int) {
            assert(a[0] == b.take(a.len() as int)[0]);
        }
        assert forall|i: int|
            0 <= i < a.len() && i < b.len() && a.take(i) == b.take(i) && #[trigger] a[i] < b[i] implies i
            == 0 by {
            if i > 0 {
                assert(a.take(i)[0] == b.take(i)[0]);
            }
        }
    } else if b.len() > 0 {
        assert(a =~= b.take(0));
    }
}

/// A query holds its source, its target and its class as they were given, each in its own place
/// and whatever the permissions are. Its permissions are the given ones that are not empty, in
/// ascending order, and there is no query without one.
pub proof fn law_query_keeps_what_it_is_given(
    scontext: Seq<u8>,
    tcontext: Seq<u8>,
    tclass: Seq<u8>,
    denied: Seq<Seq<u8>>,
)
    ensures
        query_from(scontext, tcontext, tclass, denied) is Some <==> exists|i: int|
            0 <= i < denied.len() && (#[trigger] denied[i]).len() > 0,
        query_from(scontext, tcontext, tclass, denied) matches Some(query) ==> {
            &&& query.scontext == scontext
            &&& query.tcontext == tcontext
            &&& query.tclass == tclass
            &&& forall|p: Seq<u8>| #[trigger]
                query.permissions.contains(p) <==> denied.contains(p) && p.len() > 0
            &&& forall|i: int, j: int|
                0 <= i < j < query.permissions.len() ==> bytes_less(
                    #[trigger] query.permissions[i],
                    #[trigger] query.permissions[j],
                )
        },
{
    lemma_normal_form_exists(denied);
    let list = normal_form(denied);
    assert forall|i: int| 0 <= i < denied.len() && (#[trigger] denied[i]).len() > 0 implies list.len() > 0 by {
        assert(denied.contains(denied[i]));
        assert(list.contains(denied[i]));
    }
    if list.len() > 0 {
        assert(list.contains(list[0]));
        let i = choose|i: int| 0 <= i < denied.len() && denied[i] == list[0];
        assert(denied[i].len() > 0);
    }
}

/// A text is among those of a list if and only if some item is that text.
proof fn lemma_texts(items: Seq<FieldValue>, text: Seq<u8>)
    ensures
        texts(items).contains(text) <==> exists|i: int|
            0 <= i < items.len() && audit::scalar_bytes(#[trigger] items[i]) == Some(text),
    decreases items.len(),
{
    if items.len() > 0 {
        let rest = items.drop_last();
        lemma_texts(rest, text);
        let found = texts(items);
        let before = texts(rest);
        if before.contains(text) {
            let k = choose|k: int| 0 <= k < before.len() && before[k] == text;
            assert(found[k] == text);
        }
        if found.contains(text) && !before.contains(text) {
            let k = choose|k: int| 0 <= k < found.len() && found[k] == text;
            if k < before.len() {
                assert(before[k] == text);
            }
            assert(audit::scalar_bytes(items[items.len() - 1]) == Some(text));
        }
        if audit::scalar_bytes(items.last()) == Some(text) {
            assert(found[found.len() - 1] == text);
        }
        if exists|i: int| 0 <= i < rest.len() && audit::scalar_bytes(#[trigger] rest[i]) == Some(text) {
            let i = choose|i: int|
                0 <= i < rest.len() && audit::scalar_bytes(#[trigger] rest[i]) == Some(text);
            assert(audit::scalar_bytes(items[i]) == Some(text));
        }
        if exists|i: int| 0 <= i < items.len() && audit::scalar_bytes(#[trigger] items[i]) == Some(text) {
            let i = choose|i: int|
                0 <= i < items.len() && audit::scalar_bytes(#[trigger] items[i]) == Some(text);
            if i < rest.len() {
                assert(audit::scalar_bytes(rest[i]) == Some(text));
            }
        }
    }
}

/// If a record poses a query, the source, the target and the class are the texts of the record's
/// first fields of these names, each its own. The permissions are, in ascending order, the texts
/// in the first field `denied` that are not empty: those of the items if it is a list, and its
/// own if it is not.
pub proof fn law_query_is_read_from_its_fields(fields: Seq<Field>)
    ensures
        query_of(fields) matches Some(query) ==> {
            &&& (audit::first_value(fields, encode_utf8("scontext"@)) matches Some(value)
                && audit::scalar_bytes(value) == Some(query.scontext))
            &&& (audit::first_value(fields, encode_utf8("tcontext"@)) matches Some(value)
                && audit::scalar_bytes(value) == Some(query.tcontext))
            &&& (audit::first_value(fields, encode_utf8("tclass"@)) matches Some(value)
                && audit::scalar_bytes(value) == Some(query.tclass))
            &&& forall|p: Seq<u8>| #[trigger]
                query.permissions.contains(p) <==> p.len() > 0 && match audit::first_value(
                    fields,
                    encode_utf8("denied"@),
                ) {
                    Some(FieldValue::List(items)) => exists|i: int|
                        0 <= i < items.len() && audit::scalar_bytes(#[trigger] items[i]) == Some(p),
                    Some(value) => audit::scalar_bytes(value) == Some(p),
                    None => false,
                }
            &&& forall|i: int, j: int|
                0 <= i < j < query.permissions.len() ==> bytes_less(
                    #[trigger] query.permissions[i],
                    #[trigger] query.permissions[j],
                )
        },
{
    if let Some(query) = query_of(fields) {
        let denied = denied_permissions(fields)->0;
        law_query_keeps_what_it_is_given(query.scontext, query.tcontext, query.tclass, denied);
        lemma_normal_form_exists(denied);
        assert forall|p: Seq<u8>| #[trigger]
            query.permissions.contains(p) <==> p.len() > 0 && match audit::first_value(
                fields,
                encode_utf8("denied"@),
            ) {
                Some(FieldValue::List(items)) => exists|i: int|
                    0 <= i < items.len() && audit::scalar_bytes(#[trigger] items[i]) == Some(p),
                Some(value) => audit::scalar_bytes(value) == Some(p),
                None => false,
            } by {
            match audit::first_value(fields, encode_utf8("denied"@)) {
                Some(FieldValue::List(items)) => lemma_texts(items, p),
                Some(value) => {
                    let text = audit::scalar_bytes(value)->0;
                    assert(denied =~= seq![text]);
                    assert(denied[0] == text);
                    assert(denied.contains(p) <==> text == p);
                },
                None => {},
            }
        }
    }
}

/// A record poses a query as soon as its first fields `scontext`, `tcontext` and `tclass` are
/// texts and its first field `denied` holds a text that is not empty, whatever else it has; and
/// not otherwise.
pub proof fn law_record_poses_a_query(fields: Seq<Field>)
    ensures
        query_of(fields) is Some <==> {
            &&& (audit::first_value(fields, encode_utf8("scontext"@)) matches Some(value)
                && audit::scalar_bytes(value) is Some)
            &&& (audit::first_value(fields, encode_utf8("tcontext"@)) matches Some(value)
                && audit::scalar_bytes(value) is Some)
            &&& (audit::first_value(fields, encode_utf8("tclass"@)) matches Some(value)
                && audit::scalar_bytes(value) is Some)
            &&& match audit::first_value(fields, encode_utf8("denied"@)) {
                Some(FieldValue::List(items)) => exists|i: int|
                    0 <= i < items.len() && (audit::scalar_bytes(#[trigger] items[i]) matches Some(text)
                        && text.len() > 0),
                Some(value) => (audit::scalar_bytes(value) matches Some(text) && text.len() > 0),
                None => false,
            }
        },
{
    law_query_needs_all_fields(fields);
    match audit::first_value(fields, encode_utf8("denied"@)) {
        Some(FieldValue::List(items)) => {
            let denied = texts(items);
            if exists|i: int|
                0 <= i < items.len() && (audit::scalar_bytes(#[trigger] items[i]) matches Some(text)
                    && text.len() > 0) {
                let i = choose|i: int|
                    0 <= i < items.len() && (audit::scalar_bytes(#[trigger] items[i]) matches Some(text)
                        && text.len() > 0);
                let text = audit::scalar_bytes(items[i])->0;
                lemma_texts(items, text);
                let k = choose|k: int| 0 <= k < denied.len() && denied[k] == text;
                assert(denied_permissions(fields)->0[k].len() > 0);
            }
            if exists|k: int| 0 <= k < denied.len() && (#[trigger] denied[k]).len() > 0 {
                let k = choose|k: int| 0 <= k < denied.len() && (#[trigger] denied[k]).len() > 0;
                assert(denied.contains(denied[k]));
                lemma_texts(items, denied[k]);
                let i = choose|i: int|
                    0 <= i < items.len() && audit::scalar_bytes(#[trigger] items[i]) == Some(denied[k]);
                assert(audit::scalar_bytes(items[i]) matches Some(text) && text.len() > 0);
            }
        },
        Some(value) => {
            if let Some(text) = audit::scalar_bytes(value) {
                assert(denied_permissions(fields)->0 =~= seq![text]);
                assert(denied_permissions(fields)->0[0] == text);
            }
        },
        None => {},
    }
}

/// A query stands for its four parts, byte for byte.
pub proof fn law_query_is_its_parts(query: AvcQuery)
    ensures
        query@.scontext == query.scontext@,
        query@.tcontext == query.tcontext@,
        query@.tclass == query.tclass@,
        query@.permissions.len() == query.permissions@.len(),
        forall|i: int|
            0 <= i < query.permissions@.len() ==> #[trigger] query@.permissions[i]
                == query.permissions@[i]@,
{
}

} // verus!
