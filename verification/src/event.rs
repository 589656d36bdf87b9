//! Audit events: records of several types, each with one body or more.

use linux_audit_parser::Body;
use vstd::prelude::*;

use crate::audit;
use crate::audit::Field;

verus! {

/// The bodies of the records of one type.
pub enum EventValues<'a> {
    Single(Body<'a>),
    Multi(Vec<Body<'a>>),
}

/// The records of an event, grouped by message type. Each type occurs once; a group keeps the
/// place at which its type was first inserted.
pub struct EventBody<'a> {
    groups: Vec<(u32, EventValues<'a>)>,
}

/// An audit event.
pub struct Event<'a> {
    pub is_filtered: bool,
    pub body: EventBody<'a>,
}

/// No message type occurs twice.
pub open spec fn distinct_types(groups: Seq<(u32, EventValues<'_>)>) -> bool {
    forall|i: int, j: int|
        0 <= i < j < groups.len() ==> (#[trigger] groups[i]).0 != (#[trigger] groups[j]).0
}

impl<'a> EventBody<'a> {
    #[verifier::type_invariant]
    spec fn keyed(self) -> bool {
        distinct_types(self.groups@)
    }
}

impl<'a> View for EventBody<'a> {
    type V = Seq<(u32, EventValues<'a>)>;

    closed spec fn view(&self) -> Seq<(u32, EventValues<'a>)> {
        self.groups@
    }
}

/// The mathematical value of [`EventValues`]: whether they are a list, and the fields of each
/// body.
#[verifier::ext_equal]
pub struct ValuesModel {
    pub multi: bool,
    pub bodies: Seq<Seq<Field>>,
}

/// The mathematical value of an [`Event`].
#[verifier::ext_equal]
pub struct EventModel {
    pub is_filtered: bool,
    pub body: Seq<(u32, ValuesModel)>,
}

impl<'a> View for EventValues<'a> {
    type V = ValuesModel;

    open spec fn view(&self) -> ValuesModel {
        match self {
            EventValues::Single(body) => ValuesModel {
                multi: false,
                bodies: seq![audit::body_fields(*body)],
            },
            EventValues::Multi(bodies) => ValuesModel {
                multi: true,
                bodies: Seq::new(bodies@.len(), |i: int| audit::body_fields(bodies@[i])),
            },
        }
    }
}

impl<'a> View for Event<'a> {
    type V = EventModel;

    open spec fn view(&self) -> EventModel {
        EventModel {
            is_filtered: self.is_filtered,
            body: Seq::new(self.body@.len(), |i: int| (self.body@[i].0, self.body@[i].1@)),
        }
    }
}

/// The number of the message type `AVC`: the access decisions of the kernel.
pub const AVC: u32 = 1400;

/// The number of the message type `USER_AVC`: the access decisions of user space.
pub const USER_AVC: u32 = 1107;

/// The position of the group of records of that type, the first if there were several.
pub open spec fn group_position(body: Seq<(u32, ValuesModel)>, ty: u32) -> Option<int>
    decreases body.len(),
{
    if body.len() == 0 {
        None
    } else {
        match group_position(body.drop_last(), ty) {
            Some(i) => Some(i),
            None => if body.last().0 == ty {
                Some(body.len() - 1)
            } else {
                None
            },
        }
    }
}

/// Whether an event has records of that type.
pub open spec fn has_type(event: EventModel, ty: u32) -> bool {
    group_position(event.body, ty) is Some
}

/// The bodies of the records of that type.
pub open spec fn bodies_of(event: EventModel, ty: u32) -> Seq<Seq<Field>> {
    match group_position(event.body, ty) {
        Some(k) => event.body[k].1.bodies,
        None => Seq::empty(),
    }
}

/// The event with other bodies in the records of that type, if it has such records.
pub open spec fn with_bodies(event: EventModel, ty: u32, bodies: Seq<Seq<Field>>) -> EventModel {
    match group_position(event.body, ty) {
        Some(k) => EventModel {
            body: event.body.update(
                k,
                (event.body[k].0, ValuesModel { bodies, ..event.body[k].1 }),
            ),
            ..event
        },
        None => event,
    }
}

/// The position is that of the first group of its type; without one, no group is of that type.
pub proof fn lemma_group_position(body: Seq<(u32, ValuesModel)>, ty: u32)
    ensures
        match group_position(body, ty) {
            Some(k) => 0 <= k < body.len() && body[k].0 == ty && forall|i: int|
                0 <= i < k ==> (#[trigger] body[i]).0 != ty,
            None => forall|i: int| 0 <= i < body.len() ==> (#[trigger] body[i]).0 != ty,
        },
    decreases body.len(),
{
    if body.len() > 0 {
        let rest = body.drop_last();
        lemma_group_position(rest, ty);
        match group_position(rest, ty) {
            Some(k) => {
                assert(body[k] == rest[k]);
                assert forall|i: int| 0 <= i < k implies (#[trigger] body[i]).0 != ty by {
                    assert(rest[i].0 != ty);
                }
            },
            None => {
                assert forall|i: int| 0 <= i < body.len() - 1 implies (#[trigger] body[i]).0 != ty by {
                    assert(rest[i].0 != ty);
                }
            },
        }
    }
}

/// An event has records of a type if one of its groups is of that type.
pub proof fn lemma_has_type(event: Event<'_>, ty: u32)
    ensures
        has_type(event@, ty) <==> exists|k: int|
            0 <= k < event.body@.len() && (#[trigger] event.body@[k]).0 == ty,
{
    lemma_group_position(event@.body, ty);
    match group_position(event@.body, ty) {
        Some(k) => {
            assert(event.body@[k].0 == ty);
        },
        None => {
            assert forall|k: int| 0 <= k < event.body@.len() implies (#[trigger] event.body@[k]).0 != ty by {
                assert(event@.body[k].0 != ty);
            }
        },
    }
}

/// The first group of a type is where no earlier one is.
pub proof fn lemma_group_position_is(body: Seq<(u32, ValuesModel)>, ty: u32, k: int)
    requires
        0 <= k < body.len(),
        body[k].0 == ty,
        forall|i: int| 0 <= i < k ==> (#[trigger] body[i]).0 != ty,
    ensures
        group_position(body, ty) == Some(k),
{
    lemma_group_position(body, ty);
    let found = group_position(body, ty)->0;
    if found < k {
        assert(body[found].0 != ty);
    } else if k < found {
        assert(body[k].0 != ty);
    }
}

/// Replacing the bodies of one type keeps the types where they are.
pub proof fn lemma_with_bodies_positions(event: EventModel, ty: u32, bodies: Seq<Seq<Field>>, other: u32)
    ensures
        group_position(with_bodies(event, ty, bodies).body, other) == group_position(event.body, other),
{
    let changed = with_bodies(event, ty, bodies);
    lemma_group_position(event.body, ty);
    lemma_group_position(event.body, other);
    lemma_group_position(changed.body, other);
    match group_position(event.body, other) {
        Some(k) => {
            lemma_group_position_is(changed.body, other, k);
        },
        None => {
            if let Some(k) = group_position(changed.body, other) {
                assert(event.body[k].0 != other);
            }
        },
    }
}

/// Replaced bodies are those that the event has then, and the bodies of other types stay.
pub proof fn lemma_with_bodies(event: EventModel, ty: u32, bodies: Seq<Seq<Field>>, other: u32)
    ensures
        has_type(event, ty) ==> bodies_of(with_bodies(event, ty, bodies), ty) == bodies,
        other != ty ==> bodies_of(with_bodies(event, ty, bodies), other) == bodies_of(event, other),
        with_bodies(event, ty, bodies_of(event, ty)) == event,
{
    lemma_group_position(event.body, ty);
    lemma_group_position(event.body, other);
    lemma_with_bodies_positions(event, ty, bodies, ty);
    lemma_with_bodies_positions(event, ty, bodies, other);
    assert(with_bodies(event, ty, bodies_of(event, ty)).body =~= event.body);
}

/// Of two replacements of the bodies of one type the later one counts.
pub proof fn lemma_with_bodies_twice(
    event: EventModel,
    ty: u32,
    bodies: Seq<Seq<Field>>,
    later: Seq<Seq<Field>>,
)
    ensures
        with_bodies(with_bodies(event, ty, bodies), ty, later) == with_bodies(event, ty, later),
{
    lemma_group_position(event.body, ty);
    lemma_with_bodies_positions(event, ty, bodies, ty);
    assert(with_bodies(with_bodies(event, ty, bodies), ty, later).body =~= with_bodies(
        event,
        ty,
        later,
    ).body);
}

/// The number of bodies of one type fits a machine word.
pub proof fn lemma_len_fits(values: EventValues<'_>)
    ensures
        values@.bodies.len() <= usize::MAX,
{
    if let EventValues::Multi(bodies) = values {
        assert(bodies@.len() == bodies.len());
    }
}

impl<'a> EventBody<'a> {
    /// A body without records.
    pub fn new() -> (body: EventBody<'a>)
        ensures
            body@ == Seq::<(u32, EventValues<'a>)>::empty(),
    {
        EventBody { groups: Vec::new() }
    }

    /// The body of these groups.
    pub(crate) fn from_groups(groups: Vec<(u32, EventValues<'a>)>) -> (body: EventBody<'a>)
        requires
            distinct_types(groups@),
        ensures
            body@ == groups@,
    {
        EventBody { groups }
    }

    /// The groups, in their order.
    pub fn groups(&self) -> (groups: &Vec<(u32, EventValues<'a>)>)
        ensures
            groups@ == self@,
            distinct_types(self@),
    {
        proof {
            use_type_invariant(self);
        }
        &self.groups
    }

    /// Gives up the body and hands out its groups, in their order.
    pub fn into_groups(self) -> (groups: Vec<(u32, EventValues<'a>)>)
        ensures
            groups@ == self@,
            distinct_types(self@),
    {
        proof {
            use_type_invariant(&self);
        }
        self.groups
    }

    /// The position of the group of that type.
    fn position(&self, ty: u32) -> (found: Option<usize>)
        ensures
            match found {
                Some(k) => k < self@.len() && self@[k as int].0 == ty && forall|i: int|
                    0 <= i < k ==> (#[trigger] self@[i]).0 != ty,
                None => forall|i: int| 0 <= i < self@.len() ==> (#[trigger] self@[i]).0 != ty,
            },
    {
        let mut k: usize = 0;
        while k < self.groups.len()
            invariant
                k <= self.groups.len(),
                forall|i: int| 0 <= i < k ==> (#[trigger] self@[i]).0 != ty,
            decreases self.groups.len() - k,
        {
            if self.groups[k].0 == ty {
                return Some(k);
            }
            k = k + 1;
        }
        None
    }

    /// Whether there are records of that type.
    pub fn contains_key(&self, ty: u32) -> (found: bool)
        ensures
            found <==> exists|k: int| 0 <= k < self@.len() && (#[trigger] self@[k]).0 == ty,
    {
        match self.position(ty) {
            Some(k) => {
                assert(self@[k as int].0 == ty);
                true
            },
            None => false,
        }
    }

    /// Puts records of a type in, and returns those whose place they take, if there were any.
    pub fn insert(&mut self, ty: u32, values: EventValues<'a>) -> (replaced: Option<EventValues<'a>>)
        ensures
            match replaced {
                Some(earlier) => exists|k: int|
                    0 <= k < old(self)@.len() && #[trigger] old(self)@[k] == (ty, earlier)
                        && final(self)@ == old(self)@.update(k, (ty, values)),
                None => final(self)@ == old(self)@.push((ty, values)) && forall|k: int|
                    0 <= k < old(self)@.len() ==> (#[trigger] old(self)@[k]).0 != ty,
            },
            distinct_types(final(self)@),
    {
        proof {
            use_type_invariant(&*self);
        }
        let found = self.position(ty);
        let ghost before = self@;
        let mut groups: Vec<(u32, EventValues<'a>)> = Vec::new();
        std::mem::swap(&mut groups, &mut self.groups);
        let replaced = match found {
            Some(k) => {
                let (_, earlier) = groups.remove(k);
                groups.insert(k, (ty, values));
                assert(groups@ =~= before.update(k as int, (ty, values)));
                assert(before[k as int] == (ty, earlier));
                Some(earlier)
            },
            None => {
                groups.push((ty, values));
                None
            },
        };
        self.groups = groups;
        replaced
    }
}

impl<'a> Default for EventBody<'a> {
    fn default() -> (body: EventBody<'a>)
        ensures
            body@ == Seq::<(u32, EventValues<'a>)>::empty(),
    {
        EventBody::new()
    }
}

impl<'a> Event<'a> {
    /// The position of the group of records of that type.
    pub fn find(&self, ty: u32) -> (found: Option<usize>)
        ensures
            match found {
                Some(k) => group_position(self@.body, ty) == Some(k as int) && k < self.body@.len(),
                None => group_position(self@.body, ty) is None,
            },
    {
        let found = self.body.position(ty);
        proof {
            lemma_group_position(self@.body, ty);
            if let Some(k) = found {
                assert forall|i: int| 0 <= i < k implies (#[trigger] self@.body[i]).0 != ty by {
                    assert(self.body@[i].0 != ty);
                }
                lemma_group_position_is(self@.body, ty, k as int);
            } else if let Some(k) = group_position(self@.body, ty) {
                assert(self.body@[k].0 != ty);
            }
        }
        found
    }
}

/// An event stands for its mark and for its groups, in their order and with all their bodies.
pub proof fn law_event_is_its_groups(event: Event<'_>)
    ensures
        event@.is_filtered == event.is_filtered,
        event@.body.len() == event.body@.len(),
        forall|k: int|
            0 <= k < event.body@.len() ==> #[trigger] event@.body[k] == (
                event.body@[k].0,
                event.body@[k].1@,
            ),
{
}

/// A group stands for the fields of its one body, or for those of each body of its list.
pub proof fn law_group_is_its_bodies(values: EventValues<'_>)
    ensures
        match values {
            EventValues::Single(body) => !values@.multi && values@.bodies.len() == 1 && values@.bodies[0]
                == audit::body_fields(body),
            EventValues::Multi(bodies) => values@.multi && values@.bodies.len() == bodies@.len()
                && forall|j: int|
                0 <= j < bodies@.len() ==> #[trigger] values@.bodies[j] == audit::body_fields(bodies@[j]),
        },
{
}

/// The bodies of a type are those of its group, wherever that stands in the event, and other
/// bodies take their place there and nowhere else. Without such a group there are none, and
/// nothing changes.
pub proof fn law_type_is_found_anywhere(event: EventModel, ty: u32, bodies: Seq<Seq<Field>>)
    requires
        forall|i: int, j: int|
            0 <= i < j < event.body.len() ==> (#[trigger] event.body[i]).0 != (#[trigger] event.body[j]).0,
    ensures
        forall|k: int|
            0 <= k < event.body.len() && (#[trigger] event.body[k]).0 == ty ==> {
                &&& has_type(event, ty)
                &&& bodies_of(event, ty) == event.body[k].1.bodies
                &&& with_bodies(event, ty, bodies) == EventModel {
                    is_filtered: event.is_filtered,
                    body: event.body.update(
                        k,
                        (ty, ValuesModel { multi: event.body[k].1.multi, bodies }),
                    ),
                }
            },
        (forall|k: int| 0 <= k < event.body.len() ==> (#[trigger] event.body[k]).0 != ty) ==> {
            &&& !has_type(event, ty)
            &&& bodies_of(event, ty).len() == 0
            &&& with_bodies(event, ty, bodies) == event
        },
{
    lemma_group_position(event.body, ty);
    if let Some(found) = group_position(event.body, ty) {
        assert forall|k: int| 0 <= k < event.body.len() && (#[trigger] event.body[k]).0 == ty implies k
            == found by {
            if k < found {
                assert(event.body[k].0 != event.body[found].0);
            } else if found < k {
                assert(event.body[found].0 != event.body[k].0);
            }
        }
        assert(event.body[found].0 == ty);
    }
}

} // verus!
