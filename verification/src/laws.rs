//! What holds of the processing of events as a whole, whatever the shim answers.

use vstd::prelude::*;

use crate::analyzer;
use crate::analyzer::AnalyzerModel;
use crate::attach;
use crate::audit::Field;
use crate::cache;
use crate::cache::CacheEntry;
use crate::enrich;
use crate::error::{Notice, SelinuxError};
use crate::event;
use crate::event::{EventModel, AVC, USER_AVC};
use crate::native::NativeModel;
use crate::query;
use crate::query::QueryModel;
use crate::runtime;
use crate::runtime::{AnalysisModel, ProgressModel, RuntimeModel, StepModel};
use crate::why::WhyModel;

verus! {

/// What the shim answers: whether the policy has changed, how opening a context ends, and what
/// each query comes to.
pub struct Shim {
    pub policy: (i32, i32),
    pub open: (i32, usize),
    pub analyze: spec_fn(QueryModel) -> (i32, NativeModel),
}

/// The step that follows once the shim has done what the event waits for.
pub open spec fn next(progress: ProgressModel, shim: Shim) -> StepModel {
    match progress {
        ProgressModel::Done(_, _) => StepModel { progress, notices: Seq::empty() },
        ProgressModel::CheckPolicy(check) => runtime::policy_answered(
            check,
            shim.policy.0,
            shim.policy.1,
        ),
        ProgressModel::Close(closing) => StepModel {
            progress: ProgressModel::Open(closing.event),
            notices: Seq::empty(),
        },
        ProgressModel::Open(event) => runtime::open_answered(event, shim.open.0, shim.open.1),
        ProgressModel::Analyze(analysis) => {
            let (status, native) = (shim.analyze)(analysis.query);
            runtime::analysis_answered(analysis, status, native)
        },
    }
}

/// The event that is being processed.
pub open spec fn event_in(progress: ProgressModel) -> EventModel {
    match progress {
        ProgressModel::Done(_, event) => event,
        ProgressModel::CheckPolicy(check) => check.event,
        ProgressModel::Close(closing) => closing.event,
        ProgressModel::Open(event) => event,
        ProgressModel::Analyze(analysis) => analysis.event,
    }
}

/// Two lists of bodies differ in nothing but the fields of explanations.
pub open spec fn same_but_answers(before: Seq<Seq<Field>>, after: Seq<Seq<Field>>) -> bool {
    &&& before.len() == after.len()
    &&& forall|j: int|
        0 <= j < before.len() ==> attach::other_fields(#[trigger] after[j]) == attach::other_fields(
            before[j],
        )
}

/// Two events differ in nothing but the fields of explanations in AVC records of the kernel and
/// of user space.
pub open spec fn only_explained(before: EventModel, after: EventModel) -> bool {
    &&& before.is_filtered == after.is_filtered
    &&& before.body.len() == after.body.len()
    &&& forall|k: int|
        #![trigger after.body[k]]
        0 <= k < before.body.len() ==> {
            &&& after.body[k].0 == before.body[k].0
            &&& after.body[k].1.multi == before.body[k].1.multi
            &&& same_but_answers(before.body[k].1.bodies, after.body[k].1.bodies)
            &&& before.body[k].0 != AVC && before.body[k].0 != USER_AVC ==> after.body[k]
                == before.body[k]
        }
}

/// A sweep changes nothing but the fields of explanations.
proof fn lemma_sweep_answers(cache: Seq<CacheEntry>, bodies: Seq<Seq<Field>>, from: nat)
    ensures
        same_but_answers(bodies, enrich::sweep(cache, bodies, from).bodies),
    decreases bodies.len() - from,
{
    if from < bodies.len() {
        let fields = bodies[from as int];
        match query::query_of(fields) {
            None => lemma_sweep_answers(cache, bodies, from + 1),
            Some(query) => match cache::remembered(cache, query) {
                Some(why) => {
                    let after = bodies.update(from as int, attach::attached(fields, why));
                    attach::law_attach_keeps_other_fields(fields, why);
                    lemma_sweep_answers(cache::touched(cache, query), after, from + 1);
                    let done = enrich::sweep(cache::touched(cache, query), after, from + 1).bodies;
                    assert forall|j: int| 0 <= j < bodies.len() implies attach::other_fields(
                        #[trigger] done[j],
                    ) == attach::other_fields(bodies[j]) by {
                        assert(attach::other_fields(done[j]) == attach::other_fields(after[j]));
                    }
                },
                None => lemma_sweep_answers(cache, bodies, from + 1),
            },
        }
    }
}

/// Bodies that differ in nothing but explanations make events of that kind.
proof fn lemma_with_bodies_explained(event: EventModel, ty: u32, bodies: Seq<Seq<Field>>)
    requires
        ty == AVC || ty == USER_AVC,
        same_but_answers(event::bodies_of(event, ty), bodies),
    ensures
        only_explained(event, event::with_bodies(event, ty, bodies)),
{
    event::lemma_group_position(event.body, ty);
}

/// Differing in nothing but explanations is transitive.
proof fn lemma_only_explained_transitive(a: EventModel, b: EventModel, c: EventModel)
    requires
        only_explained(a, b),
        only_explained(b, c),
    ensures
        only_explained(a, c),
{
    assert forall|k: int| #![trigger c.body[k]] 0 <= k < a.body.len() implies {
        &&& c.body[k].0 == a.body[k].0
        &&& c.body[k].1.multi == a.body[k].1.multi
        &&& same_but_answers(a.body[k].1.bodies, c.body[k].1.bodies)
        &&& a.body[k].0 != AVC && a.body[k].0 != USER_AVC ==> c.body[k] == a.body[k]
    } by {
        let x = a.body[k].1.bodies;
        let y = b.body[k].1.bodies;
        let z = c.body[k].1.bodies;
        assert(same_but_answers(x, y));
        assert(same_but_answers(y, z));
        assert forall|j: int| 0 <= j < x.len() implies attach::other_fields(#[trigger] z[j])
            == attach::other_fields(x[j]) by {
            assert(attach::other_fields(y[j]) == attach::other_fields(x[j]));
        }
    }
}

/// What going on with the bodies of an event comes to: the event is done or waits for an answer
/// that is needed, its context is kept, and nothing but explanations has changed.
proof fn lemma_continued(analyzer: AnalyzerModel, event: EventModel, ty: u32, index: nat)
    requires
        ty == AVC || ty == USER_AVC,
    ensures
        ({
            let step = runtime::continued(analyzer, event, ty, index);
            &&& only_explained(event, event_in(step.progress))
            &&& runtime::open_context(step.progress) == Some(analyzer.handle)
            &&& step.progress is Done || step.progress is Analyze
            &&& step.progress matches ProgressModel::Analyze(analysis) ==> runtime::is_posed(analysis)
            &&& step.progress matches ProgressModel::Done(runtime, _) ==> runtime.requested
        }),
    decreases
            if ty == AVC {
                1int
            } else {
                0int
            },
{
    let bodies = event::bodies_of(event, ty);
    let done = enrich::sweep(analyzer.cache, bodies, index);
    let after = event::with_bodies(event, ty, done.bodies);
    enrich::lemma_sweep(analyzer.cache, bodies, index);
    lemma_sweep_answers(analyzer.cache, bodies, index);
    lemma_with_bodies_explained(event, ty, done.bodies);
    event::lemma_with_bodies(event, ty, done.bodies, ty);
    if done.stop is None && ty == AVC {
        let next = AnalyzerModel { cache: done.cache, ..analyzer };
        lemma_continued(next, after, USER_AVC, 0);
        lemma_only_explained_transitive(
            event,
            after,
            event_in(runtime::continued(next, after, USER_AVC, 0).progress),
        );
    }
}

/// An event waits for nothing that is not needed.
pub open spec fn is_sound(progress: ProgressModel) -> bool {
    progress matches ProgressModel::Analyze(analysis) ==> runtime::is_posed(analysis)
}

/// Whatever the shim answers, a step changes nothing in the event but the fields of
/// explanations in AVC records. In particular a failure of the shim costs the event nothing.
pub proof fn law_only_explanations_change(progress: ProgressModel, shim: Shim)
    requires
        is_sound(progress),
    ensures
        only_explained(event_in(progress), event_in(next(progress, shim).progress)),
{
    lemma_next(progress, shim);
}

/// The shim is asked a query only if a record of the event poses it, if no answer to it is
/// remembered, and if no zero byte stands in it.
pub proof fn law_asked_only_what_is_needed(progress: ProgressModel, shim: Shim)
    requires
        is_sound(progress),
    ensures
        is_sound(next(progress, shim).progress),
{
    lemma_next(progress, shim);
}

/// A context stays the open one until it is closed, a new one is opened only when none is open,
/// and only a context that the shim has opened is ever open.
pub proof fn law_one_context_at_a_time(progress: ProgressModel, shim: Shim)
    requires
        is_sound(progress),
    ensures
        runtime::open_context(next(progress, shim).progress) == match progress {
            ProgressModel::Close(_) => None,
            ProgressModel::Open(_) => match analyzer::opened(shim.open.0, shim.open.1) {
                Ok(Some(analyzer)) => Some(analyzer.handle),
                _ => None,
            },
            _ => runtime::open_context(progress),
        },
{
    lemma_next(progress, shim);
}

/// What [`law_only_explanations_change`], [`law_asked_only_what_is_needed`] and
/// [`law_one_context_at_a_time`] say.
proof fn lemma_next(progress: ProgressModel, shim: Shim)
    requires
        is_sound(progress),
    ensures
        only_explained(event_in(progress), event_in(next(progress, shim).progress)),
        is_sound(next(progress, shim).progress),
        runtime::open_context(next(progress, shim).progress) == match progress {
            ProgressModel::Close(_) => None,
            ProgressModel::Open(_) => match analyzer::opened(shim.open.0, shim.open.1) {
                Ok(Some(analyzer)) => Some(analyzer.handle),
                _ => None,
            },
            _ => runtime::open_context(progress),
        },
{
    match progress {
        ProgressModel::CheckPolicy(check) => lemma_continued(check.analyzer, check.event, AVC, 0),
        ProgressModel::Open(event) => {
            if let Ok(Some(analyzer)) = analyzer::opened(shim.open.0, shim.open.1) {
                lemma_continued(analyzer, event, AVC, 0);
            }
        },
        ProgressModel::Analyze(analysis) => {
            let AnalysisModel { analyzer, event, ty, index, query } = analysis;
            let (status, native) = (shim.analyze)(query);
            match analyzer::judged(status, native) {
                Ok(why) => {
                    let bodies = event::bodies_of(event, ty);
                    let fields = bodies[index as int];
                    let explained = bodies.update(index as int, attach::attached(fields, why));
                    let after = event::with_bodies(event, ty, explained);
                    let richer = AnalyzerModel {
                        cache: cache::stored(analyzer.cache, query, why),
                        ..analyzer
                    };
                    attach::law_attach_keeps_other_fields(fields, why);
                    lemma_with_bodies_explained(event, ty, explained);
                    lemma_continued(richer, after, ty, index + 1);
                    lemma_only_explained_transitive(
                        event,
                        after,
                        event_in(runtime::continued(richer, after, ty, index + 1).progress),
                    );
                },
                Err(_) => lemma_continued(analyzer, event, ty, index + 1),
            }
        },
        _ => {},
    }
}

/// Where the processing stands after the shim has done `count` times what the event waits for.
pub open spec fn after_steps(progress: ProgressModel, shim: Shim, count: nat) -> ProgressModel
    decreases count,
{
    if count == 0 {
        progress
    } else {
        after_steps(next(progress, shim).progress, shim, (count - 1) as nat)
    }
}

/// What the log hears of meanwhile.
pub open spec fn heard(progress: ProgressModel, shim: Shim, count: nat) -> Seq<Notice>
    decreases count,
{
    if count == 0 {
        Seq::empty()
    } else {
        let step = next(progress, shim);
        step.notices + heard(step.progress, shim, (count - 1) as nat)
    }
}

/// What the shim's answer to a query means.
pub open spec fn answer(shim: Shim, query: QueryModel) -> Result<WhyModel, SelinuxError> {
    let (status, native) = (shim.analyze)(query);
    analyzer::judged(status, native)
}

/// A record with the explanation that the shim has for it. Without a query, or without an
/// explanation, the record stays as it is.
pub open spec fn explained(fields: Seq<Field>, shim: Shim) -> Seq<Field> {
    match query::query_of(fields) {
        Some(query) => if analyzer::has_nul(query) {
            fields
        } else {
            match answer(shim, query) {
                Ok(why) => attach::attached(fields, why),
                Err(_) => fields,
            }
        },
        None => fields,
    }
}

/// What the log hears of a record: that it poses a query to which the shim has no explanation.
pub open spec fn failure(fields: Seq<Field>, shim: Shim) -> Seq<Notice> {
    match query::query_of(fields) {
        Some(query) => if analyzer::has_nul(query) {
            seq![Notice::ReasoningFailed(SelinuxError::InteriorNul)]
        } else {
            match answer(shim, query) {
                Ok(_) => Seq::empty(),
                Err(error) => seq![Notice::ReasoningFailed(error)],
            }
        },
        None => Seq::empty(),
    }
}

/// What the log hears of the bodies from `from` on.
pub open spec fn failures(bodies: Seq<Seq<Field>>, from: nat, shim: Shim) -> Seq<Notice>
    decreases bodies.len() - from,
{
    if from >= bodies.len() {
        Seq::empty()
    } else {
        failure(bodies[from as int], shim) + failures(bodies, from + 1, shim)
    }
}

/// What the log hears of the AVC records of an event.
pub open spec fn event_failures(event: EventModel, shim: Shim) -> Seq<Notice> {
    failures(event::bodies_of(event, AVC), 0, shim) + failures(
        event::bodies_of(event, USER_AVC),
        0,
        shim,
    )
}

/// Bodies of which those from `from` on are explained.
pub open spec fn explained_bodies(bodies: Seq<Seq<Field>>, from: nat, shim: Shim) -> Seq<Seq<Field>> {
    Seq::new(
        bodies.len(),
        |j: int|
            if j >= from {
                explained(bodies[j], shim)
            } else {
                bodies[j]
            },
    )
}

/// The event with the bodies of type `ty` explained from `from` on.
pub open spec fn explained_type(event: EventModel, ty: u32, from: nat, shim: Shim) -> EventModel {
    event::with_bodies(event, ty, explained_bodies(event::bodies_of(event, ty), from, shim))
}

/// The event with all its AVC records explained, those of the kernel and those of user space.
pub open spec fn explained_event(event: EventModel, shim: Shim) -> EventModel {
    explained_type(explained_type(event, AVC, 0, shim), USER_AVC, 0, shim)
}

/// The event with the bodies of type `ty` explained from `from` on and, after the records of
/// the kernel, those of user space.
spec fn explained_rest(event: EventModel, ty: u32, from: nat, shim: Shim) -> EventModel {
    let first = explained_type(event, ty, from, shim);
    if ty == AVC {
        explained_type(first, USER_AVC, 0, shim)
    } else {
        first
    }
}

/// What the log hears of the bodies of type `ty` from `from` on and, after the records of the
/// kernel, of those of user space.
spec fn failures_rest(event: EventModel, ty: u32, from: nat, shim: Shim) -> Seq<Notice> {
    let first = failures(event::bodies_of(event, ty), from, shim);
    if ty == AVC {
        first + failures(event::bodies_of(event, USER_AVC), 0, shim)
    } else {
        first
    }
}

/// What the log hears of bodies depends on none before them.
proof fn lemma_failures_suffix(
    bodies: Seq<Seq<Field>>,
    others: Seq<Seq<Field>>,
    from: nat,
    shim: Shim,
)
    requires
        bodies.len() == others.len(),
        forall|j: int| from <= j < bodies.len() ==> #[trigger] bodies[j] == others[j],
    ensures
        failures(bodies, from, shim) == failures(others, from, shim),
    decreases bodies.len() - from,
{
    if from < bodies.len() {
        lemma_failures_suffix(bodies, others, from + 1, shim);
    }
}

/// What the log hears of a sweep is what it should hear of the bodies on its way.
proof fn lemma_sweep_failures(cache: Seq<CacheEntry>, bodies: Seq<Seq<Field>>, from: nat, shim: Shim)
    requires
        agrees(cache, shim),
    ensures
        ({
            let done = enrich::sweep(cache, bodies, from);
            failures(bodies, from, shim) == done.notices + match done.stop {
                Some((i, _)) => failures(bodies, i, shim),
                None => Seq::empty(),
            }
        }),
    decreases bodies.len() - from,
{
    let done = enrich::sweep(cache, bodies, from);
    if from < bodies.len() {
        let fields = bodies[from as int];
        match query::query_of(fields) {
            None => lemma_sweep_failures(cache, bodies, from + 1, shim),
            Some(query) => match cache::remembered(cache, query) {
                Some(why) => {
                    let after = bodies.update(from as int, attach::attached(fields, why));
                    let touched = cache::touched(cache, query);
                    lemma_touched_agrees(cache, query, shim);
                    cache::lemma_position(cache, query);
                    let at = cache::position(cache, query)->0;
                    assert(cache[at] == (query, why));
                    lemma_sweep_failures(touched, after, from + 1, shim);
                    lemma_failures_suffix(bodies, after, from + 1, shim);
                    enrich::lemma_sweep(touched, after, from + 1);
                    if let Some((i, _)) = done.stop {
                        lemma_failures_suffix(bodies, after, i, shim);
                    }
                },
                None => {
                    if analyzer::has_nul(query) {
                        lemma_sweep_failures(cache, bodies, from + 1, shim);
                    }
                },
            },
        }
    }
    assert(failures(bodies, from, shim) =~= done.notices + match done.stop {
        Some((i, _)) => failures(bodies, i, shim),
        None => Seq::empty(),
    });
}

/// What is remembered is what the shim would answer.
pub open spec fn agrees(entries: Seq<CacheEntry>, shim: Shim) -> bool {
    &&& cache::is_cache(entries)
    &&& forall|i: int|
        0 <= i < entries.len() ==> !analyzer::has_nul((#[trigger] entries[i]).0) && answer(
            shim,
            entries[i].0,
        ) == Ok::<_, SelinuxError>(entries[i].1)
}

/// Looking a query up keeps what is remembered in agreement with the shim.
proof fn lemma_touched_agrees(entries: Seq<CacheEntry>, query: QueryModel, shim: Shim)
    requires
        agrees(entries, shim),
    ensures
        agrees(cache::touched(entries, query), shim),
{
    cache::law_lookup_forgets_nothing(entries, query, query);
    cache::lemma_position(entries, query);
    if let Some(i) = cache::position(entries, query) {
        let after = cache::touched(entries, query);
        assert forall|j: int| 0 <= j < after.len() implies !analyzer::has_nul((#[trigger] after[j]).0)
            && answer(shim, after[j].0) == Ok::<_, SelinuxError>(after[j].1) by {
            let k = if j < i { j } else if j == after.len() - 1 { i } else { j + 1 };
            assert(after[j] == entries[k]);
        }
    }
}

/// Storing what the shim answers keeps what is remembered in agreement with the shim.
proof fn lemma_stored_agrees(entries: Seq<CacheEntry>, query: QueryModel, why: WhyModel, shim: Shim)
    requires
        agrees(entries, shim),
        !analyzer::has_nul(query),
        answer(shim, query) == Ok::<_, SelinuxError>(why),
    ensures
        agrees(cache::stored(entries, query, why), shim),
{
    cache::law_stored_is_remembered(entries, query, why);
    cache::lemma_position(entries, query);
    let after = cache::stored(entries, query, why);
    let gap = match cache::position(entries, query) {
        Some(i) => i,
        None => if entries.len() >= cache::CACHE_ENTRIES {
            0
        } else {
            entries.len() as int
        },
    };
    assert forall|j: int| 0 <= j < after.len() implies !analyzer::has_nul((#[trigger] after[j]).0)
        && answer(shim, after[j].0) == Ok::<_, SelinuxError>(after[j].1) by {
        if j < after.len() - 1 {
            let k = if j < gap { j } else { j + 1 };
            assert(after[j] == entries[k]);
        }
    }
}

/// A sweep explains the bodies on its way as the shim would.
proof fn lemma_sweep_explains(cache: Seq<CacheEntry>, bodies: Seq<Seq<Field>>, from: nat, shim: Shim)
    requires
        agrees(cache, shim),
    ensures
        ({
            let done = enrich::sweep(cache, bodies, from);
            let end = match done.stop {
                Some((i, _)) => i,
                None => bodies.len(),
            };
            &&& agrees(done.cache, shim)
            &&& forall|j: int|
                from <= j < end && j < bodies.len() ==> #[trigger] done.bodies[j] == explained(bodies[j], shim)
        }),
    decreases bodies.len() - from,
{
    if from < bodies.len() {
        let fields = bodies[from as int];
        match query::query_of(fields) {
            None => {
                lemma_sweep_explains(cache, bodies, from + 1, shim);
                enrich::lemma_sweep(cache, bodies, from + 1);
            },
            Some(query) => match cache::remembered(cache, query) {
                Some(why) => {
                    let after = bodies.update(from as int, attach::attached(fields, why));
                    lemma_touched_agrees(cache, query, shim);
                    cache::lemma_position(cache, query);
                    let i = cache::position(cache, query)->0;
                    assert(cache[i] == (query, why));
                    lemma_sweep_explains(cache::touched(cache, query), after, from + 1, shim);
                    enrich::lemma_sweep(cache::touched(cache, query), after, from + 1);
                },
                None => {
                    lemma_sweep_explains(cache, bodies, from + 1, shim);
                    enrich::lemma_sweep(cache, bodies, from + 1);
                },
            },
        }
    }
}

/// The bodies that are still to be gone through.
spec fn bodies_left(event: EventModel, ty: u32, index: nat) -> int {
    let here = event::bodies_of(event, ty).len() - index;
    if ty == AVC {
        here + event::bodies_of(event, USER_AVC).len()
    } else {
        here
    }
}

/// Lists of notices are joined in any grouping.
proof fn lemma_regroup(
    a: Seq<Notice>,
    b: Seq<Notice>,
    c: Seq<Notice>,
    d: Seq<Notice>,
    x: Seq<Notice>,
    y: Seq<Notice>,
)
    ensures
        c + d == x + y ==> a + ((b + c) + d) == (a + (b + x)) + y,
        x + Seq::<Notice>::empty() == x,
        (a + (b + x)) + Seq::<Notice>::empty() == a + (b + x),
{
    assert((b + c) + d =~= b + (c + d));
    assert(a + (b + (x + y)) =~= (a + (b + x)) + y);
    assert(x + Seq::<Notice>::empty() =~= x);
    assert((a + (b + x)) + Seq::<Notice>::empty() =~= a + (b + x));
}

/// From any body on, the rest of an event is explained as the shim would, and what is
/// remembered afterwards agrees with the shim again.
proof fn lemma_explains_rest(
    analyzer: AnalyzerModel,
    event: EventModel,
    ty: u32,
    index: nat,
    shim: Shim,
) -> (count: nat)
    requires
        ty == AVC || ty == USER_AVC,
        agrees(analyzer.cache, shim),
        index <= event::bodies_of(event, ty).len(),
    ensures
        count <= bodies_left(event, ty, index),
        ({
            let step = runtime::continued(analyzer, event, ty, index);
            step.notices + heard(step.progress, shim, count) == failures_rest(
                event,
                ty,
                index,
                shim,
            )
        }),
        ({
            let step = runtime::continued(analyzer, event, ty, index);
            after_steps(step.progress, shim, count) matches ProgressModel::Done(runtime, after) && {
                &&& after == explained_rest(event, ty, index, shim)
                &&& runtime.requested
                &&& runtime.analyzer matches Some(left) && left.handle == analyzer.handle && agrees(
                    left.cache,
                    shim,
                )
            }
        }),
    decreases bodies_left(event, ty, index),
            if ty == AVC {
                1int
            } else {
                0int
            },
{
    let bodies = event::bodies_of(event, ty);
    let done = enrich::sweep(analyzer.cache, bodies, index);
    let swept = event::with_bodies(event, ty, done.bodies);
    let next_analyzer = AnalyzerModel { cache: done.cache, ..analyzer };
    enrich::lemma_sweep(analyzer.cache, bodies, index);
    lemma_sweep_explains(analyzer.cache, bodies, index, shim);
    lemma_sweep_failures(analyzer.cache, bodies, index, shim);
    event::lemma_with_bodies(event, ty, done.bodies, ty);
    event::lemma_with_bodies(event, ty, done.bodies, USER_AVC);
    let target = explained_bodies(bodies, index, shim);
    match done.stop {
        None => {
            assert(done.bodies =~= target);
            let step = runtime::continued(analyzer, event, ty, index);
            let count = if ty == AVC {
                lemma_explains_rest(next_analyzer, swept, USER_AVC, 0, shim)
            } else {
                0
            };
            assert(step.notices + heard(step.progress, shim, count) =~= failures_rest(
                event,
                ty,
                index,
                shim,
            ));
            count
        },
        Some((i, query)) => {
            let fields = done.bodies[i as int];
            assert(event::has_type(event, ty));
            let (after_analyzer, after_bodies) = match answer(shim, query) {
                Ok(why) => (
                    AnalyzerModel { cache: cache::stored(done.cache, query, why), ..analyzer },
                    done.bodies.update(i as int, attach::attached(fields, why)),
                ),
                Err(_) => (next_analyzer, done.bodies),
            };
            if let Ok(why) = answer(shim, query) {
                lemma_stored_agrees(done.cache, query, why, shim);
            }
            let after = event::with_bodies(swept, ty, after_bodies);
            event::lemma_with_bodies_twice(event, ty, done.bodies, after_bodies);
            event::lemma_with_bodies(swept, ty, after_bodies, ty);
            event::lemma_with_bodies(swept, ty, after_bodies, USER_AVC);
            event::lemma_with_bodies_positions(event, ty, done.bodies, ty);
            assert(event::bodies_of(after, ty) == after_bodies);
            assert(explained_bodies(after_bodies, i + 1, shim) =~= target);
            event::lemma_with_bodies_twice(event, ty, after_bodies, target);
            assert(explained_type(after, ty, i + 1, shim) == explained_type(event, ty, index, shim));
            let rest = lemma_explains_rest(after_analyzer, after, ty, i + 1, shim);
            lemma_failures_suffix(bodies, after_bodies, i + 1, shim);
            event::lemma_with_bodies(event, ty, after_bodies, USER_AVC);
            let step = runtime::continued(analyzer, event, ty, index);
            let onward = runtime::continued(after_analyzer, after, ty, i + 1);
            let answered = next(step.progress, shim);
            assert(answered.progress == onward.progress);
            assert(answered.notices =~= failure(bodies[i as int], shim) + onward.notices);
            assert(event::bodies_of(after, USER_AVC) == if ty == AVC {
                event::bodies_of(event, USER_AVC)
            } else {
                after_bodies
            });
            lemma_regroup(
                done.notices,
                failure(bodies[i as int], shim),
                onward.notices,
                heard(onward.progress, shim, rest),
                failures(bodies, i + 1, shim),
                if ty == AVC {
                    failures(event::bodies_of(event, USER_AVC), 0, shim)
                } else {
                    Seq::empty()
                },
            );
            rest + 1
        },
    }
}

/// The number of AVC records of an event.
pub open spec fn record_count(event: EventModel) -> nat {
    event::bodies_of(event, AVC).len() + event::bodies_of(event, USER_AVC).len()
}

/// Under the policy that the context was opened with, every AVC record of an event ends up with
/// the explanation that the shim has for it, whether it came from the shim or was remembered;
/// what is remembered afterwards agrees with the shim again, and so serves the next event.
///
/// This takes the policy check and one answer at most for each record. The log hears of each
/// record without an explanation, once and in order, and of nothing else.
pub proof fn law_records_are_explained(runtime: RuntimeModel, event: EventModel, shim: Shim) -> (count: nat)
    requires
        runtime.requested,
        runtime::is_relevant(event),
        runtime.analyzer matches Some(analyzer) && agrees(analyzer.cache, shim),
        analyzer::generation(shim.policy.0, shim.policy.1) == Ok::<_, SelinuxError>(false),
    ensures
        count <= 1 + record_count(event),
        heard(runtime::begun(runtime, event), shim, count) == event_failures(event, shim),
        after_steps(runtime::begun(runtime, event), shim, count) matches ProgressModel::Done(
            later,
            after,
        ) && {
            &&& after == explained_event(event, shim)
            &&& later.requested
            &&& later.analyzer matches Some(left) && left.handle == runtime.analyzer->0.handle
                && agrees(left.cache, shim)
        },
{
    let count = lemma_explains_rest(runtime.analyzer->0, event, AVC, 0, shim);
    assert(next(runtime::begun(runtime, event), shim) == runtime::continued(
        runtime.analyzer->0,
        event,
        AVC,
        0,
    ));
    count + 1
}

/// What the log hears of a context that is opened anew.
pub open spec fn reopening(shim: Shim) -> Seq<Notice> {
    let opened = seq![runtime::reloaded(shim.open.0, shim.open.1).1];
    match analyzer::generation(shim.policy.0, shim.policy.1) {
        Ok(_) => opened,
        Err(error) => seq![Notice::PolicyCheckFailed(error)] + opened,
    }
}

/// Once the policy has changed, or once that cannot be told, no earlier decision counts: the
/// context is closed and opened anew, and every AVC record ends up with the explanation that
/// the shim has for it now, whatever was remembered. The log hears of the new context, and then
/// of each record without an explanation.
pub proof fn law_records_are_explained_anew(
    runtime: RuntimeModel,
    event: EventModel,
    shim: Shim,
) -> (count: nat)
    requires
        runtime.requested,
        runtime::is_relevant(event),
        runtime.analyzer is Some,
        analyzer::generation(shim.policy.0, shim.policy.1) != Ok::<_, SelinuxError>(false),
        analyzer::opened(shim.open.0, shim.open.1) matches Ok(Some(_)),
    ensures
        count <= 3 + record_count(event),
        heard(runtime::begun(runtime, event), shim, count) == reopening(shim) + event_failures(
            event,
            shim,
        ),
        after_steps(runtime::begun(runtime, event), shim, count) matches ProgressModel::Done(
            later,
            after,
        ) && {
            &&& after == explained_event(event, shim)
            &&& later.requested
            &&& later.analyzer matches Some(left) && left.handle == shim.open.1 && agrees(
                left.cache,
                shim,
            )
        },
{
    reveal_with_fuel(after_steps, 4);
    let fresh = AnalyzerModel { handle: shim.open.1, cache: Seq::empty() };
    let count = lemma_explains_rest(fresh, event, AVC, 0, shim);
    reveal_with_fuel(heard, 4);
    let begin = runtime::begun(runtime, event);
    assert(heard(begin, shim, count + 3) =~= reopening(shim) + event_failures(event, shim));
    count + 3
}

/// Where no analyzer can be had any more, the event passes as it is, and so do later ones.
pub proof fn law_events_pass_without_analyzer(runtime: RuntimeModel, event: EventModel, shim: Shim)
    requires
        runtime.requested,
        runtime::is_relevant(event),
        runtime.analyzer is Some,
        analyzer::generation(shim.policy.0, shim.policy.1) != Ok::<_, SelinuxError>(false),
        !(analyzer::opened(shim.open.0, shim.open.1) matches Ok(Some(_))),
    ensures
        after_steps(runtime::begun(runtime, event), shim, 3) == ProgressModel::Done(
            RuntimeModel { requested: true, analyzer: None },
            event,
        ),
        heard(runtime::begun(runtime, event), shim, 3) == reopening(shim),
        forall|later: EventModel|
            #[trigger] runtime::begun(RuntimeModel { requested: true, analyzer: None }, later)
                == ProgressModel::Done(RuntimeModel { requested: true, analyzer: None }, later),
{
    reveal_with_fuel(after_steps, 4);
    reveal_with_fuel(heard, 4);
    assert(heard(runtime::begun(runtime, event), shim, 3) =~= reopening(shim));
}

/// An event that is filtered out or has no AVC records, and any event for which enrichment was
/// not requested, passes as it is, without a native call.
pub proof fn law_other_events_pass(runtime: RuntimeModel, event: EventModel)
    requires
        !runtime.requested || !runtime::is_relevant(event),
    ensures
        runtime::begun(runtime, event) == ProgressModel::Done(runtime, event),
{
}

/// Explaining a record again, under the same policy, changes nothing.
pub proof fn law_explaining_is_idempotent(fields: Seq<Field>, shim: Shim)
    ensures
        explained(explained(fields, shim), shim) == explained(fields, shim),
{
    if let Some(query) = query::query_of(fields) {
        if let Ok(why) = answer(shim, query) {
            attach::law_attach_keeps_query(fields, why);
            attach::law_attach_replaces(fields, why, why);
        }
    }
}

/// Explaining the records of an event again, under the same policy, changes nothing.
pub proof fn law_explaining_event_is_idempotent(event: EventModel, shim: Shim)
    ensures
        explained_event(explained_event(event, shim), shim) == explained_event(event, shim),
{
    let first = explained_type(event, AVC, 0, shim);
    let once = explained_event(event, shim);
    let kernel = explained_bodies(event::bodies_of(event, AVC), 0, shim);
    let user = explained_bodies(event::bodies_of(first, USER_AVC), 0, shim);
    lemma_explained_bodies_again(event::bodies_of(event, AVC), shim);
    lemma_explained_bodies_again(event::bodies_of(first, USER_AVC), shim);
    event::lemma_with_bodies(event, AVC, kernel, AVC);
    event::lemma_with_bodies(first, USER_AVC, user, AVC);
    event::lemma_with_bodies_positions(event, AVC, kernel, AVC);
    event::lemma_with_bodies_positions(event, AVC, kernel, USER_AVC);
    event::lemma_with_bodies_positions(first, USER_AVC, user, AVC);
    event::lemma_with_bodies_positions(first, USER_AVC, user, USER_AVC);
    event::lemma_with_bodies(once, AVC, kernel, AVC);
    event::lemma_with_bodies(once, USER_AVC, user, USER_AVC);
}

/// Explained bodies stay as they are when they are explained again.
proof fn lemma_explained_bodies_again(bodies: Seq<Seq<Field>>, shim: Shim)
    ensures
        explained_bodies(explained_bodies(bodies, 0, shim), 0, shim) == explained_bodies(bodies, 0, shim),
{
    let once = explained_bodies(bodies, 0, shim);
    assert forall|j: int| 0 <= j < bodies.len() implies #[trigger] explained(once[j], shim) == once[j] by {
        law_explaining_is_idempotent(bodies[j], shim);
    }
    assert(explained_bodies(once, 0, shim) =~= once);
}

/// Processing an explained event again, under the same policy, leaves it as it is, and what is
/// remembered still agrees with the shim.
pub proof fn law_processing_again_changes_nothing(
    runtime: RuntimeModel,
    event: EventModel,
    shim: Shim,
) -> (count: nat)
    requires
        runtime.requested,
        runtime::is_relevant(event),
        runtime.analyzer matches Some(analyzer) && agrees(analyzer.cache, shim),
        analyzer::generation(shim.policy.0, shim.policy.1) == Ok::<_, SelinuxError>(false),
    ensures
        count <= 1 + record_count(event),
        after_steps(
            runtime::begun(runtime, explained_event(event, shim)),
            shim,
            count,
        ) matches ProgressModel::Done(later, after) && {
            &&& after == explained_event(event, shim)
            &&& later.requested
            &&& later.analyzer matches Some(left) && left.handle == runtime.analyzer->0.handle
                && agrees(left.cache, shim)
        },
{
    let first = explained_type(event, AVC, 0, shim);
    let kernel = explained_bodies(event::bodies_of(event, AVC), 0, shim);
    let user = explained_bodies(event::bodies_of(first, USER_AVC), 0, shim);
    law_explaining_event_is_idempotent(event, shim);
    event::lemma_with_bodies(event, AVC, kernel, USER_AVC);
    event::lemma_with_bodies(first, USER_AVC, user, AVC);
    event::lemma_with_bodies_positions(event, AVC, kernel, AVC);
    event::lemma_with_bodies_positions(event, AVC, kernel, USER_AVC);
    event::lemma_with_bodies_positions(first, USER_AVC, user, AVC);
    event::lemma_with_bodies_positions(first, USER_AVC, user, USER_AVC);
    law_records_are_explained(runtime, explained_event(event, shim), shim)
}

/// What an event waits for is done one by one: the shim says whether the policy has changed,
/// closes the context, opens one, or answers the query of a record. An event that is done waits
/// for nothing.
pub proof fn law_shim_does_what_is_waited_for(progress: ProgressModel, shim: Shim)
    ensures
        match progress {
            ProgressModel::Done(_, _) => next(progress, shim).progress == progress && next(
                progress,
                shim,
            ).notices.len() == 0,
            ProgressModel::CheckPolicy(check) => next(progress, shim) == runtime::policy_answered(
                check,
                shim.policy.0,
                shim.policy.1,
            ),
            ProgressModel::Close(closing) => next(progress, shim).progress == ProgressModel::Open(
                closing.event,
            ) && next(progress, shim).notices.len() == 0,
            ProgressModel::Open(event) => next(progress, shim) == runtime::open_answered(
                event,
                shim.open.0,
                shim.open.1,
            ),
            ProgressModel::Analyze(analysis) => next(progress, shim) == runtime::analysis_answered(
                analysis,
                (shim.analyze)(analysis.query).0,
                (shim.analyze)(analysis.query).1,
            ),
        },
{
}

/// Steps add up: after some and then some more, the event stands where it stands after all of
/// them, and the log has heard of the first ones first.
pub proof fn law_steps_add_up(progress: ProgressModel, shim: Shim, some: nat, more: nat)
    ensures
        after_steps(progress, shim, 0) == progress,
        after_steps(progress, shim, 1) == next(progress, shim).progress,
        heard(progress, shim, 0).len() == 0,
        heard(progress, shim, 1) == next(progress, shim).notices,
        after_steps(progress, shim, some + more) == after_steps(
            after_steps(progress, shim, some),
            shim,
            more,
        ),
        heard(progress, shim, some + more) == heard(progress, shim, some) + heard(
            after_steps(progress, shim, some),
            shim,
            more,
        ),
    decreases some,
{
    reveal_with_fuel(after_steps, 2);
    reveal_with_fuel(heard, 2);
    assert(heard(progress, shim, 1) =~= next(progress, shim).notices);
    if some == 0 {
        assert(heard(progress, shim, more) =~= heard(progress, shim, 0) + heard(progress, shim, more));
    } else {
        let step = next(progress, shim);
        let fewer = (some - 1) as nat;
        law_steps_add_up(step.progress, shim, fewer, more);
        assert(some + more - 1 == fewer + more);
        let later = after_steps(progress, shim, some);
        assert(heard(progress, shim, some + more) =~= heard(progress, shim, some) + heard(
            later,
            shim,
            more,
        ));
    }
}

/// What an explained event is, record by record.
proof fn lemma_explained_event(event: EventModel, shim: Shim)
    requires
        forall|i: int, j: int|
            0 <= i < j < event.body.len() ==> (#[trigger] event.body[i]).0 != (#[trigger] event.body[j]).0,
    ensures
        ({
            let after = explained_event(event, shim);
            &&& after.is_filtered == event.is_filtered
            &&& after.body.len() == event.body.len()
            &&& forall|k: int|
                #![trigger after.body[k]]
                0 <= k < event.body.len() ==> {
                    &&& after.body[k].0 == event.body[k].0
                    &&& after.body[k].1.multi == event.body[k].1.multi
                    &&& after.body[k].1.bodies.len() == event.body[k].1.bodies.len()
                    &&& event.body[k].0 != 1400 && event.body[k].0 != 1107 ==> after.body[k]
                        == event.body[k]
                }
            &&& forall|k: int, j: int|
                #![trigger after.body[k].1.bodies[j]]
                0 <= k < event.body.len() && (event.body[k].0 == 1400 || event.body[k].0 == 1107) && 0 <= j
                    < event.body[k].1.bodies.len() ==> after.body[k].1.bodies[j]
                    == match query::query_of(event.body[k].1.bodies[j]) {
                    Some(query) => if analyzer::has_nul(query) {
                        event.body[k].1.bodies[j]
                    } else {
                        match analyzer::judged((shim.analyze)(query).0, (shim.analyze)(query).1) {
                            Ok(why) => attach::attached(event.body[k].1.bodies[j], why),
                            Err(_) => event.body[k].1.bodies[j],
                        }
                    },
                    None => event.body[k].1.bodies[j],
                }
        }),
{
    let kernel = explained_bodies(event::bodies_of(event, AVC), 0, shim);
    let first = explained_type(event, AVC, 0, shim);
    let user = explained_bodies(event::bodies_of(first, USER_AVC), 0, shim);
    event::law_type_is_found_anywhere(event, AVC, kernel);
    event::lemma_group_position(event.body, AVC);
    assert forall|i: int, j: int| 0 <= i < j < first.body.len() implies (#[trigger] first.body[i]).0 != (
    #[trigger] first.body[j]).0 by {
        assert(event.body[i].0 != event.body[j].0);
    }
    event::law_type_is_found_anywhere(first, USER_AVC, user);
    event::lemma_group_position(first.body, USER_AVC);
}

/// Under the policy that the context was opened with, every record of type `AVC` or `USER_AVC`
/// ends up, wherever it stands in the event, with the explanation that the shim has for its query,
/// if it poses one that the shim takes and explains. Every other record ends up as it was, and so
/// does the order of the records.
pub proof fn law_every_record_ends_up_explained(runtime: RuntimeModel, event: EventModel, shim: Shim) -> (
    count: nat)
    requires
        runtime.requested,
        !event.is_filtered,
        exists|k: int|
            0 <= k < event.body.len() && ((#[trigger] event.body[k]).0 == 1400 || event.body[k].0 == 1107),
        forall|i: int, j: int|
            0 <= i < j < event.body.len() ==> (#[trigger] event.body[i]).0 != (#[trigger] event.body[j]).0,
        runtime.analyzer is Some,
        cache::is_cache(runtime.analyzer->0.cache),
        forall|i: int|
            0 <= i < runtime.analyzer->0.cache.len() ==> !analyzer::has_nul(
                (#[trigger] runtime.analyzer->0.cache[i]).0,
            ) && analyzer::judged(
                (shim.analyze)(runtime.analyzer->0.cache[i].0).0,
                (shim.analyze)(runtime.analyzer->0.cache[i].0).1,
            ) == Ok::<_, SelinuxError>(runtime.analyzer->0.cache[i].1),
        shim.policy == (0i32, 0i32),
    ensures
        after_steps(runtime::begun(runtime, event), shim, count) matches ProgressModel::Done(
            later,
            after,
        ) && {
            &&& later.requested
            &&& later.analyzer matches Some(left) && left.handle == runtime.analyzer->0.handle
            &&& after.is_filtered == event.is_filtered
            &&& after.body.len() == event.body.len()
            &&& forall|k: int|
                #![trigger after.body[k]]
                0 <= k < event.body.len() ==> {
                    &&& after.body[k].0 == event.body[k].0
                    &&& after.body[k].1.multi == event.body[k].1.multi
                    &&& after.body[k].1.bodies.len() == event.body[k].1.bodies.len()
                    &&& event.body[k].0 != 1400 && event.body[k].0 != 1107 ==> after.body[k]
                        == event.body[k]
                }
            &&& forall|k: int, j: int|
                #![trigger after.body[k].1.bodies[j]]
                0 <= k < event.body.len() && (event.body[k].0 == 1400 || event.body[k].0 == 1107) && 0 <= j
                    < event.body[k].1.bodies.len() ==> after.body[k].1.bodies[j]
                    == match query::query_of(event.body[k].1.bodies[j]) {
                    Some(query) => if analyzer::has_nul(query) {
                        event.body[k].1.bodies[j]
                    } else {
                        match analyzer::judged((shim.analyze)(query).0, (shim.analyze)(query).1) {
                            Ok(why) => attach::attached(event.body[k].1.bodies[j], why),
                            Err(_) => event.body[k].1.bodies[j],
                        }
                    },
                    None => event.body[k].1.bodies[j],
                }
        },
{
    runtime::law_events_with_avc_records_are_taken_up(runtime, event);
    lemma_explained_event(event, shim);
    law_records_are_explained(runtime, event, shim)
}

/// Once the shim does not say that the policy is unchanged, every record ends up with the
/// explanation that the shim has for it now, whatever was remembered, and the new context is the
/// one at the address that the shim gave, whichever that is.
pub proof fn law_every_record_ends_up_explained_anew(
    runtime: RuntimeModel,
    event: EventModel,
    shim: Shim,
) -> (count: nat)
    requires
        runtime.requested,
        runtime.analyzer is Some,
        !event.is_filtered,
        exists|k: int|
            0 <= k < event.body.len() && ((#[trigger] event.body[k]).0 == 1400 || event.body[k].0 == 1107),
        forall|i: int, j: int|
            0 <= i < j < event.body.len() ==> (#[trigger] event.body[i]).0 != (#[trigger] event.body[j]).0,
        shim.policy != (0i32, 0i32),
        shim.open.0 == 0,
        shim.open.1 != 0,
    ensures
        after_steps(runtime::begun(runtime, event), shim, count) matches ProgressModel::Done(
            later,
            after,
        ) && {
            &&& later.requested
            &&& later.analyzer matches Some(left) && left.handle == shim.open.1
            &&& after.is_filtered == event.is_filtered
            &&& after.body.len() == event.body.len()
            &&& forall|k: int|
                #![trigger after.body[k]]
                0 <= k < event.body.len() ==> {
                    &&& after.body[k].0 == event.body[k].0
                    &&& after.body[k].1.multi == event.body[k].1.multi
                    &&& after.body[k].1.bodies.len() == event.body[k].1.bodies.len()
                    &&& event.body[k].0 != 1400 && event.body[k].0 != 1107 ==> after.body[k]
                        == event.body[k]
                }
            &&& forall|k: int, j: int|
                #![trigger after.body[k].1.bodies[j]]
                0 <= k < event.body.len() && (event.body[k].0 == 1400 || event.body[k].0 == 1107) && 0 <= j
                    < event.body[k].1.bodies.len() ==> after.body[k].1.bodies[j]
                    == match query::query_of(event.body[k].1.bodies[j]) {
                    Some(query) => if analyzer::has_nul(query) {
                        event.body[k].1.bodies[j]
                    } else {
                        match analyzer::judged((shim.analyze)(query).0, (shim.analyze)(query).1) {
                            Ok(why) => attach::attached(event.body[k].1.bodies[j], why),
                            Err(_) => event.body[k].1.bodies[j],
                        }
                    },
                    None => event.body[k].1.bodies[j],
                }
        },
{
    runtime::law_events_with_avc_records_are_taken_up(runtime, event);
    lemma_explained_event(event, shim);
    law_records_are_explained_anew(runtime, event, shim)
}

/// Of the records of an event the log hears, in their order and those of the kernel first, of each
/// that poses a query without getting an explanation: with the error of a zero byte if the shim
/// does not take the query, and with that of the shim's answer otherwise.
pub proof fn law_log_hears_of_each_failure(event: EventModel, shim: Shim)
    ensures
        ({
            let told = |fields: Seq<Field>|
                match query::query_of(fields) {
                    Some(query) => if analyzer::has_nul(query) {
                        seq![Notice::ReasoningFailed(SelinuxError::InteriorNul)]
                    } else {
                        match analyzer::judged((shim.analyze)(query).0, (shim.analyze)(query).1) {
                            Ok(_) => Seq::<Notice>::empty(),
                            Err(error) => seq![Notice::ReasoningFailed(error)],
                        }
                    },
                    None => Seq::<Notice>::empty(),
                };
            event_failures(event, shim) == event::bodies_of(event, 1400).map_values(told).flatten()
                + event::bodies_of(event, 1107).map_values(told).flatten()
        }),
{
    let told = |fields: Seq<Field>|
        match query::query_of(fields) {
            Some(query) => if analyzer::has_nul(query) {
                seq![Notice::ReasoningFailed(SelinuxError::InteriorNul)]
            } else {
                match analyzer::judged((shim.analyze)(query).0, (shim.analyze)(query).1) {
                    Ok(_) => Seq::<Notice>::empty(),
                    Err(error) => seq![Notice::ReasoningFailed(error)],
                }
            },
            None => Seq::<Notice>::empty(),
        };
    assert(told =~= (|fields: Seq<Field>| failure(fields, shim)));
    lemma_failures_flattened(event::bodies_of(event, AVC), 0, shim);
    lemma_failures_flattened(event::bodies_of(event, USER_AVC), 0, shim);
    assert(event::bodies_of(event, AVC).skip(0) =~= event::bodies_of(event, AVC));
    assert(event::bodies_of(event, USER_AVC).skip(0) =~= event::bodies_of(event, USER_AVC));
}

/// What the log hears of bodies is what it hears of each, one after the other.
proof fn lemma_failures_flattened(bodies: Seq<Seq<Field>>, from: nat, shim: Shim)
    requires
        from <= bodies.len(),
    ensures
        failures(bodies, from, shim) == bodies.skip(from as int).map_values(
            |fields: Seq<Field>| failure(fields, shim),
        ).flatten(),
    decreases bodies.len() - from,
{
    let told = |fields: Seq<Field>| failure(fields, shim);
    let rest = bodies.skip(from as int);
    if from < bodies.len() {
        lemma_failures_flattened(bodies, from + 1, shim);
        assert(rest.map_values(told).drop_first() =~= bodies.skip(from as int + 1).map_values(told));
        assert(rest.map_values(told).first() == failure(bodies[from as int], shim));
    } else {
        assert(rest.map_values(told).len() == 0);
        assert(rest.map_values(told).flatten() =~= Seq::<Notice>::empty());
    }
}

/// No record is passed over. An event is done only if each of its records of the two types poses
/// no query, or one that is remembered, which then explains it, or one with a zero byte; and it
/// waits for the shim's answer only if that holds of the records of the kernel before those of
/// user space, and of all before the one in question. The other records are as they were.
pub proof fn law_no_record_is_passed_over(analyzer: AnalyzerModel, event: EventModel)
    requires
        cache::is_cache(analyzer.cache),
        forall|i: int, j: int|
            0 <= i < j < event.body.len() ==> (#[trigger] event.body[i]).0 != (#[trigger] event.body[j]).0,
    ensures
        ({
            let step = runtime::continued(analyzer, event, 1400, 0);
            let after = match step.progress {
                ProgressModel::Done(_, done) => done,
                ProgressModel::Analyze(analysis) => analysis.event,
                _ => event,
            };
            &&& step.progress is Done || step.progress is Analyze
            &&& step.progress matches ProgressModel::Done(runtime, _) ==> runtime.requested && (
            runtime.analyzer matches Some(left) && left.handle == analyzer.handle)
            &&& step.progress matches ProgressModel::Analyze(analysis) ==> analysis.analyzer.handle
                == analyzer.handle
            &&& after.is_filtered == event.is_filtered
            &&& after.body.len() == event.body.len()
            &&& forall|k: int|
                #![trigger after.body[k]]
                0 <= k < event.body.len() ==> {
                    &&& after.body[k].0 == event.body[k].0
                    &&& after.body[k].1.multi == event.body[k].1.multi
                    &&& after.body[k].1.bodies.len() == event.body[k].1.bodies.len()
                    &&& event.body[k].0 != 1400 && event.body[k].0 != 1107 ==> after.body[k]
                        == event.body[k]
                }
            &&& forall|k: int, j: int|
                #![trigger after.body[k].1.bodies[j]]
                0 <= k < event.body.len() && (event.body[k].0 == 1400 || event.body[k].0 == 1107) && 0 <= j
                    < event.body[k].1.bodies.len() ==> {
                    let fields = event.body[k].1.bodies[j];
                    let seen = match step.progress {
                        ProgressModel::Analyze(analysis) => if event.body[k].0 == analysis.ty {
                            j < analysis.index
                        } else {
                            event.body[k].0 == 1400
                        },
                        _ => true,
                    };
                    let known = match query::query_of(fields) {
                        Some(query) => cache::remembered(analyzer.cache, query),
                        None => None,
                    };
                    &&& after.body[k].1.bodies[j] == if seen && known is Some {
                        attach::attached(fields, known->0)
                    } else {
                        fields
                    }
                    &&& seen && known is None && query::query_of(fields) is Some ==> analyzer::has_nul(
                        query::query_of(fields)->0,
                    )
                }
        }),
{
    let kernel = event::bodies_of(event, AVC);
    let first = enrich::sweep(analyzer.cache, kernel, 0);
    enrich::law_sweep_explains_what_is_remembered(analyzer.cache, kernel, 0);
    event::law_type_is_found_anywhere(event, AVC, first.bodies);
    event::lemma_group_position(event.body, AVC);
    let middle = event::with_bodies(event, AVC, first.bodies);
    let later = AnalyzerModel { cache: first.cache, ..analyzer };
    assert forall|i: int, j: int| 0 <= i < j < middle.body.len() implies (#[trigger] middle.body[i]).0
        != (#[trigger] middle.body[j]).0 by {
        assert(event.body[i].0 != event.body[j].0);
    }
    let user = event::bodies_of(middle, USER_AVC);
    let second = enrich::sweep(first.cache, user, 0);
    enrich::law_sweep_explains_what_is_remembered(first.cache, user, 0);
    event::law_type_is_found_anywhere(middle, USER_AVC, second.bodies);
    event::lemma_group_position(middle.body, USER_AVC);
    reveal_with_fuel(runtime::continued, 2);
}

} // verus!
