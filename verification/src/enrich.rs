//! Going through the bodies of an event, as far as the remembered decisions lead.

use vstd::prelude::*;

use crate::analyzer;
use crate::analyzer::{Analyzer, AnalyzerModel};
use crate::attach;
use crate::audit::Field;
use crate::cache;
use crate::cache::CacheEntry;
use crate::error::{Notice, SelinuxError};
use crate::event::{EventValues, ValuesModel};
use crate::query;
use crate::query::{AvcQuery, QueryModel};
use crate::why::WhyResult;

verus! {

/// How far bodies could be gone through without asking the shim.
#[verifier::ext_equal]
pub struct Sweep {
    /// The decisions that are remembered then.
    pub cache: Seq<CacheEntry>,
    /// The bodies as they are then.
    pub bodies: Seq<Seq<Field>>,
    /// What the log should hear of.
    pub notices: Seq<Notice>,
    /// The first body that takes an answer of the shim, and the query that it poses.
    pub stop: Option<(nat, QueryModel)>,
}

/// Goes through the bodies from position `from` on, until one takes an answer of the shim.
///
/// A body that poses no query is left alone. One whose query has a remembered answer gets that
/// answer written into it. One whose query the shim would not take is left alone, and the log
/// hears of it.
pub open spec fn sweep(cache: Seq<CacheEntry>, bodies: Seq<Seq<Field>>, from: nat) -> Sweep
    decreases bodies.len() - from,
{
    if from >= bodies.len() {
        Sweep { cache, bodies, notices: Seq::empty(), stop: None }
    } else {
        let fields = bodies[from as int];
        match query::query_of(fields) {
            None => sweep(cache, bodies, from + 1),
            Some(query) => match cache::remembered(cache, query) {
                Some(why) => sweep(
                    cache::touched(cache, query),
                    bodies.update(from as int, attach::attached(fields, why)),
                    from + 1,
                ),
                None => if analyzer::has_nul(query) {
                    let rest = sweep(cache, bodies, from + 1);
                    Sweep {
                        notices: seq![Notice::ReasoningFailed(SelinuxError::InteriorNul)]
                            + rest.notices,
                        ..rest
                    }
                } else {
                    Sweep { cache, bodies, notices: Seq::empty(), stop: Some((from, query)) }
                },
            },
        }
    }
}

/// What a sweep leaves alone, and where it stops: the bodies outside its way stay as they are,
/// and the body that it stops at poses the query, to which no answer is remembered and which
/// the shim can be asked.
pub proof fn lemma_sweep(cache: Seq<CacheEntry>, bodies: Seq<Seq<Field>>, from: nat)
    ensures
        ({
            let done = sweep(cache, bodies, from);
            &&& done.bodies.len() == bodies.len()
            &&& forall|j: int| 0 <= j < from && j < bodies.len() ==> #[trigger] done.bodies[j] == bodies[j]
            &&& done.stop matches Some((i, query)) ==> {
                &&& from <= i < bodies.len()
                &&& query::query_of(done.bodies[i as int]) == Some(query)
                &&& cache::remembered(done.cache, query) is None
                &&& !analyzer::has_nul(query)
                &&& forall|j: int| i <= j < bodies.len() ==> #[trigger] done.bodies[j] == bodies[j]
            }
        }),
    decreases bodies.len() - from,
{
    if from < bodies.len() {
        let fields = bodies[from as int];
        match query::query_of(fields) {
            None => lemma_sweep(cache, bodies, from + 1),
            Some(query) => match cache::remembered(cache, query) {
                Some(why) => lemma_sweep(
                    cache::touched(cache, query),
                    bodies.update(from as int, attach::attached(fields, why)),
                    from + 1,
                ),
                None => lemma_sweep(cache, bodies, from + 1),
            },
        }
    }
}

impl<'a> EventValues<'a> {
    /// The number of bodies.
    pub fn len(&self) -> (len: usize)
        ensures
            len == self@.bodies.len(),
    {
        match self {
            EventValues::Single(_) => 1,
            EventValues::Multi(bodies) => bodies.len(),
        }
    }

    /// The query that a body poses, if it poses one.
    pub fn query_at(&self, index: usize) -> (query: Option<AvcQuery>)
        requires
            index < self@.bodies.len(),
        ensures
            match query {
                Some(posed) => query::query_of(self@.bodies[index as int]) == Some(posed@),
                None => query::query_of(self@.bodies[index as int]) is None,
            },
    {
        match self {
            EventValues::Single(body) => query::extract_query(body),
            EventValues::Multi(bodies) => query::extract_query(&bodies[index]),
        }
    }

    /// Writes an explanation into a body.
    pub fn attach_at(&mut self, index: usize, result: &WhyResult)
        requires
            index < old(self)@.bodies.len(),
        ensures
            final(self)@ == (ValuesModel {
                bodies: old(self)@.bodies.update(
                    index as int,
                    attach::attached(old(self)@.bodies[index as int], result@),
                ),
                ..old(self)@
            }),
    {
        let ghost before = self@;
        match self {
            EventValues::Single(body) => attach::attach_result(body, result),
            EventValues::Multi(bodies) => attach::attach_result(&mut bodies[index], result),
        }
        assert(self@.bodies =~= before.bodies.update(
            index as int,
            attach::attached(before.bodies[index as int], result@),
        ));
    }
}

/// Goes through the bodies from position `from` on, until one takes an answer of the shim:
/// returns its position and the query that it poses, or `None` when all bodies are done.
pub fn enrich_values(
    analyzer: &mut Analyzer,
    values: &mut EventValues<'_>,
    from: usize,
    notices: &mut Vec<Notice>,
) -> (stop: Option<(usize, AvcQuery)>)
    ensures
        ({
            let done = sweep(old(analyzer)@.cache, old(values)@.bodies, from as nat);
            &&& final(analyzer)@ == (AnalyzerModel { cache: done.cache, ..old(analyzer)@ })
            &&& final(values)@ == (ValuesModel { bodies: done.bodies, ..old(values)@ })
            &&& final(notices)@ == old(notices)@ + done.notices
            &&& match stop {
                Some((index, query)) => done.stop == Some((index as nat, query@)),
                None => done.stop is None,
            }
        }),
{
    let ghost done = sweep(analyzer@.cache, values@.bodies, from as nat);
    let ghost mut added = Seq::<Notice>::empty();
    let mut i: usize = from;
    assert(notices@ =~= notices@ + added);
    while i < values.len()
        invariant
            done == sweep(old(analyzer)@.cache, old(values)@.bodies, from as nat),
            analyzer@.handle == old(analyzer)@.handle,
            values@.multi == old(values)@.multi,
            notices@ == old(notices)@ + added,
            ({
                let rest = sweep(analyzer@.cache, values@.bodies, i as nat);
                &&& done.cache == rest.cache
                &&& done.bodies == rest.bodies
                &&& done.stop == rest.stop
                &&& done.notices == added + rest.notices
            }),
        decreases values@.bodies.len() - i,
    {
        if let Some(query) = values.query_at(i) {
            match analyzer.lookup(&query) {
                Ok(Some(result)) => values.attach_at(i, &result),
                Ok(None) => {
                    assert(done.notices =~= added);
                    return Some((i, query));
                },
                Err(error) => {
                    let notice = Notice::ReasoningFailed(error);
                    let ghost rest = sweep(analyzer@.cache, values@.bodies, (i + 1) as nat);
                    notices.push(notice);
                    proof {
                        assert(added.push(notice) + rest.notices =~= added + (seq![notice]
                            + rest.notices));
                        added = added.push(notice);
                        assert(notices@ =~= old(notices)@ + added);
                    }
                },
            }
        }
        i = i + 1;
    }
    assert(done.notices =~= added);
    None
}

/// Bodies before the start stay as they are, and so do all from the one on that the shim has to
/// be asked about. Of the bodies between, each whose query is remembered gets that answer and no
/// other, and the rest stay as they are: they pose no query, or one with a zero byte. The shim has
/// to be asked about the first body whose query is not remembered and has no zero byte. Nothing
/// is forgotten on the way.
pub proof fn law_sweep_explains_what_is_remembered(
    cache: Seq<CacheEntry>,
    bodies: Seq<Seq<Field>>,
    from: nat,
)
    requires
        cache::is_cache(cache),
    ensures
        ({
            let done = sweep(cache, bodies, from);
            &&& done.bodies.len() == bodies.len()
            &&& done.stop matches Some((i, query)) ==> {
                &&& from <= i < bodies.len()
                &&& query::query_of(bodies[i as int]) == Some(query)
                &&& cache::remembered(cache, query) is None
                &&& !analyzer::has_nul(query)
            }
            &&& forall|j: int|
                0 <= j < bodies.len() && (j < from || (done.stop matches Some((i, _)) && j >= i))
                    ==> #[trigger] done.bodies[j] == bodies[j]
            &&& forall|j: int|
                from <= j < bodies.len() && (done.stop matches Some((i, _)) ==> j < i)
                    ==> #[trigger] done.bodies[j] == match query::query_of(bodies[j]) {
                    Some(query) => match cache::remembered(cache, query) {
                        Some(why) => attach::attached(bodies[j], why),
                        None => bodies[j],
                    },
                    None => bodies[j],
                }
            &&& forall|j: int|
                #![trigger bodies[j]]
                from <= j < bodies.len() && (done.stop matches Some((i, _)) ==> j < i)
                    && query::query_of(bodies[j]) is Some && cache::remembered(
                    cache,
                    query::query_of(bodies[j])->0,
                ) is None ==> analyzer::has_nul(query::query_of(bodies[j])->0)
            &&& cache::is_cache(done.cache)
            &&& forall|query: QueryModel| #[trigger]
                cache::remembered(done.cache, query) == cache::remembered(cache, query)
        }),
    decreases bodies.len() - from,
{
    if from < bodies.len() {
        let fields = bodies[from as int];
        match query::query_of(fields) {
            None => law_sweep_explains_what_is_remembered(cache, bodies, from + 1),
            Some(query) => match cache::remembered(cache, query) {
                Some(why) => {
                    let later = cache::touched(cache, query);
                    let changed = bodies.update(from as int, attach::attached(fields, why));
                    cache::law_lookup_forgets_nothing(cache, query, query);
                    assert forall|other: QueryModel| #[trigger]
                        cache::remembered(later, other) == cache::remembered(cache, other) by {
                        cache::law_lookup_forgets_nothing(cache, query, other);
                    }
                    law_sweep_explains_what_is_remembered(later, changed, from + 1);
                    assert forall|j: int| from < j < bodies.len() implies #[trigger] changed[j]
                        == bodies[j] by {}
                    let done = sweep(cache, bodies, from);
                    assert(done == sweep(later, changed, from + 1));
                    assert forall|j: int|
                        0 <= j < bodies.len() && (j < from || (done.stop matches Some((i, _)) && j >= i))
                            implies #[trigger] done.bodies[j] == bodies[j] by {
                        assert(changed[j] == bodies[j]);
                    }
                    assert forall|j: int|
                        from <= j < bodies.len() && (done.stop matches Some((i, _)) ==> j < i)
                            implies #[trigger] done.bodies[j] == match query::query_of(bodies[j]) {
                        Some(query) => match cache::remembered(cache, query) {
                            Some(why) => attach::attached(bodies[j], why),
                            None => bodies[j],
                        },
                        None => bodies[j],
                    } by {
                        if j > from {
                            assert(changed[j] == bodies[j]);
                        } else {
                            assert(done.bodies[j] == changed[j]);
                        }
                    }
                    assert forall|j: int|
                        #![trigger bodies[j]]
                        from <= j < bodies.len() && (done.stop matches Some((i, _)) ==> j < i)
                            && query::query_of(bodies[j]) is Some && cache::remembered(
                            cache,
                            query::query_of(bodies[j])->0,
                        ) is None implies analyzer::has_nul(query::query_of(bodies[j])->0) by {
                        assert(changed[j] == if j == from {
                            attach::attached(fields, why)
                        } else {
                            bodies[j]
                        });
                    }
                },
                None => {
                    if analyzer::has_nul(query) {
                        law_sweep_explains_what_is_remembered(cache, bodies, from + 1);
                    }
                },
            },
        }
    }
}

/// The remembered decisions are used in the order of the bodies, from the start up to the one
/// that the shim has to be asked about.
pub proof fn law_sweep_uses_decisions_in_order(
    cache: Seq<CacheEntry>,
    bodies: Seq<Seq<Field>>,
    from: nat,
)
    requires
        from <= bodies.len(),
    ensures
        ({
            let done = sweep(cache, bodies, from);
            let end = match done.stop {
                Some((i, _)) => i as int,
                None => bodies.len() as int,
            };
            done.cache == bodies.subrange(from as int, end).fold_left_alt(
                cache,
                |entries: Seq<CacheEntry>, fields: Seq<Field>|
                    match query::query_of(fields) {
                        Some(query) => cache::touched(entries, query),
                        None => entries,
                    },
            )
        }),
    decreases bodies.len() - from,
{
    let done = sweep(cache, bodies, from);
    let end = match done.stop {
        Some((i, _)) => i as int,
        None => bodies.len() as int,
    };
    lemma_sweep(cache, bodies, from);
    let way = bodies.subrange(from as int, end);
    if from < bodies.len() {
        let fields = bodies[from as int];
        let moved = match query::query_of(fields) {
            Some(query) => cache::touched(cache, query),
            None => cache,
        };
        let stops = match query::query_of(fields) {
            Some(query) => cache::remembered(cache, query) is None && !analyzer::has_nul(query),
            None => false,
        };
        if stops {
            assert(way.len() == 0);
        } else {
            let changed = match query::query_of(fields) {
                Some(query) => match cache::remembered(cache, query) {
                    Some(why) => bodies.update(from as int, attach::attached(fields, why)),
                    None => bodies,
                },
                None => bodies,
            };
            law_sweep_uses_decisions_in_order(moved, changed, from + 1);
            lemma_sweep(moved, changed, from + 1);
            let rest = sweep(moved, changed, from + 1);
            assert(rest.stop == done.stop && rest.cache == done.cache);
            assert(way[0] == fields);
            assert(way.subrange(1, way.len() as int) =~= changed.subrange(from as int + 1, end));
        }
    } else {
        assert(way.len() == 0);
    }
}

/// The log hears of a zero byte once for each body on the way whose query is not remembered, and
/// of nothing else.
pub proof fn law_sweep_reports_zero_bytes(cache: Seq<CacheEntry>, bodies: Seq<Seq<Field>>, from: nat)
    requires
        cache::is_cache(cache),
        from <= bodies.len(),
    ensures
        ({
            let done = sweep(cache, bodies, from);
            let end = match done.stop {
                Some((i, _)) => i as int,
                None => bodies.len() as int,
            };
            &&& done.notices.len() == bodies.subrange(from as int, end).filter(
                |fields: Seq<Field>|
                    query::query_of(fields) is Some && cache::remembered(
                        cache,
                        query::query_of(fields)->0,
                    ) is None,
            ).len()
            &&& forall|n: int|
                0 <= n < done.notices.len() ==> #[trigger] done.notices[n] == Notice::ReasoningFailed(
                    SelinuxError::InteriorNul,
                )
        }),
    decreases bodies.len() - from,
{
    let done = sweep(cache, bodies, from);
    let end = match done.stop {
        Some((i, _)) => i as int,
        None => bodies.len() as int,
    };
    lemma_sweep(cache, bodies, from);
    let unanswered = |fields: Seq<Field>|
        query::query_of(fields) is Some && cache::remembered(cache, query::query_of(fields)->0) is None;
    let way = bodies.subrange(from as int, end);
    reveal_with_fuel(Seq::filter, 2);
    if from < bodies.len() {
        let fields = bodies[from as int];
        let (moved, changed) = match query::query_of(fields) {
            Some(query) => match cache::remembered(cache, query) {
                Some(why) => (
                    cache::touched(cache, query),
                    bodies.update(from as int, attach::attached(fields, why)),
                ),
                None => (cache, bodies),
            },
            None => (cache, bodies),
        };
        let stops = unanswered(fields) && !analyzer::has_nul(query::query_of(fields)->0);
        if stops {
            assert(way =~= Seq::<Seq<Field>>::empty());
        } else {
            if let Some(query) = query::query_of(fields) {
                cache::law_lookup_forgets_nothing(cache, query, query);
            }
            law_sweep_reports_zero_bytes(moved, changed, from + 1);
            lemma_sweep(moved, changed, from + 1);
            let later = |fields: Seq<Field>|
                query::query_of(fields) is Some && cache::remembered(
                    moved,
                    query::query_of(fields)->0,
                ) is None;
            assert forall|fields: Seq<Field>| #[trigger] later(fields) == unanswered(fields) by {
                if let (Some(query), Some(other)) = (
                    query::query_of(bodies[from as int]),
                    query::query_of(fields),
                ) {
                    cache::law_lookup_forgets_nothing(cache, query, other);
                }
            }
            assert(later =~= unanswered);
            assert(sweep(moved, changed, from + 1).stop == done.stop);
            let rest = changed.subrange(from as int + 1, end);
            assert(rest =~= bodies.subrange(from as int + 1, end));
            assert(way =~= seq![fields] + rest);
            Seq::filter_distributes_over_add(seq![fields], rest, unanswered);
            assert(seq![fields].drop_last() =~= Seq::<Seq<Field>>::empty());
            assert(seq![fields].filter(unanswered).len() == if unanswered(fields) {
                1nat
            } else {
                0nat
            });
        }
    } else {
        assert(way =~= Seq::<Seq<Field>>::empty());
    }
}

} // verus!
