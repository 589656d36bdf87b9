//! The decisions that the analyzer remembers, the least recently used first.

use indexmap::IndexMap;
use vstd::prelude::*;

use crate::query;
use crate::query::{AvcQuery, QueryModel};
use crate::why::{WhyModel, WhyResult};

verus! {

/// How many decisions are remembered.
pub const CACHE_ENTRIES: usize = 1024;

/// The four parts of a query, by which a decision is found.
pub type QueryKey = (Vec<u8>, Vec<u8>, Vec<u8>, Vec<Vec<u8>>);

/// A remembered decision.
pub type CacheEntry = (QueryModel, WhyModel);

/// The query whose parts a key holds.
pub open spec fn key_model(key: QueryKey) -> QueryModel {
    QueryModel {
        scontext: key.0@,
        tcontext: key.1@,
        tclass: key.2@,
        permissions: query::byte_strings(key.3@),
    }
}

/// A map that keeps the order in which its entries were inserted, from `indexmap`.
#[verifier::external_type_specification]
#[verifier::external_body]
#[verifier::reject_recursive_types(K)]
#[verifier::reject_recursive_types(V)]
#[verifier::reject_recursive_types(S)]
pub struct ExIndexMap<K, V, S>(IndexMap<K, V, S>);

/// The entries of a map of decisions, in their order.
pub uninterp spec fn map_entries(map: IndexMap<QueryKey, WhyResult>) -> Seq<(QueryModel, WhyModel)>;

/// No two entries answer the same query.
pub open spec fn distinct_queries(entries: Seq<CacheEntry>) -> bool {
    forall|i: int, j: int|
        0 <= i < j < entries.len() ==> (#[trigger] entries[i]).0 != (#[trigger] entries[j]).0
}

/// The position of the entry that answers `query`.
pub open spec fn position(entries: Seq<CacheEntry>, query: QueryModel) -> Option<int>
    decreases entries.len(),
{
    if entries.len() == 0 {
        None
    } else if entries.last().0 == query {
        Some(entries.len() - 1)
    } else {
        position(entries.drop_last(), query)
    }
}

/// The remembered answer to `query`.
pub open spec fn remembered(entries: Seq<CacheEntry>, query: QueryModel) -> Option<WhyModel> {
    match position(entries, query) {
        Some(i) => Some(entries[i].1),
        None => None,
    }
}

/// The entries after `query` has been looked up: the one that answers it was used last.
pub open spec fn touched(entries: Seq<CacheEntry>, query: QueryModel) -> Seq<CacheEntry> {
    match position(entries, query) {
        Some(i) => entries.remove(i).push(entries[i]),
        None => entries,
    }
}

/// The entries after an answer to `query` has been stored: it takes the place of an earlier
/// answer or, where all places are taken, of the entry that was not used for the longest time.
pub open spec fn stored(entries: Seq<CacheEntry>, query: QueryModel, why: WhyModel) -> Seq<CacheEntry> {
    let others = match position(entries, query) {
        Some(i) => entries.remove(i),
        None => if entries.len() >= CACHE_ENTRIES {
            entries.remove(0)
        } else {
            entries
        },
    };
    others.push((query, why))
}

/// The entries that a cache can hold: one at most for each query, and no more than the limit.
pub open spec fn is_cache(entries: Seq<CacheEntry>) -> bool {
    &&& entries.len() <= CACHE_ENTRIES
    &&& distinct_queries(entries)
}

/// A position is that of an entry that answers the query; without one, no entry does.
pub proof fn lemma_position(entries: Seq<CacheEntry>, query: QueryModel)
    ensures
        match position(entries, query) {
            Some(i) => 0 <= i < entries.len() && entries[i].0 == query,
            None => forall|i: int| 0 <= i < entries.len() ==> (#[trigger] entries[i]).0 != query,
        },
    decreases entries.len(),
{
    if entries.len() > 0 && entries.last().0 != query {
        let rest = entries.drop_last();
        lemma_position(rest, query);
        if position(entries, query) is None {
            assert forall|i: int| 0 <= i < entries.len() implies (#[trigger] entries[i]).0 != query by {
                if i < entries.len() - 1 {
                    assert(rest[i].0 != query);
                }
            }
        }
    }
}

/// Where no two entries answer the same query, the position of an entry is its own.
pub proof fn lemma_position_of(entries: Seq<CacheEntry>, i: int)
    requires
        distinct_queries(entries),
        0 <= i < entries.len(),
    ensures
        position(entries, entries[i].0) == Some(i),
{
    lemma_position(entries, entries[i].0);
    let j = position(entries, entries[i].0)->0;
    if i < j {
        assert(entries[i].0 != entries[j].0);
    } else if j < i {
        assert(entries[j].0 != entries[i].0);
    }
}

/// Calls `IndexMap::new`: a map without entries.
#[verifier::external_body]
fn map_new() -> (map: IndexMap<QueryKey, WhyResult>)
    ensures
        map_entries(map) == Seq::<CacheEntry>::empty(),
{
    IndexMap::new()
}

/// Calls `IndexMap::len`: the number of entries.
#[verifier::external_body]
fn map_len(map: &IndexMap<QueryKey, WhyResult>) -> (len: usize)
    ensures
        len == map_entries(*map).len(),
{
    map.len()
}

/// Calls `IndexMap::get_index_of`: the position of the entry whose key has the same parts, or
/// `None` if no entry has such a key.
#[verifier::external_body]
fn map_index_of(map: &IndexMap<QueryKey, WhyResult>, key: &QueryKey) -> (index: Option<usize>)
    ensures
        match index {
            Some(i) => i < map_entries(*map).len() && map_entries(*map)[i as int].0 == key_model(*key),
            None => forall|i: int|
                0 <= i < map_entries(*map).len() ==> (#[trigger] map_entries(*map)[i]).0 != key_model(*key),
        },
{
    map.get_index_of(key)
}

/// Calls `IndexMap::shift_remove_index`: takes the entry at a position out and closes the gap;
/// beyond the last entry there is nothing to take.
#[verifier::external_body]
fn map_remove(map: &mut IndexMap<QueryKey, WhyResult>, index: usize) -> (removed: Option<(QueryKey, WhyResult)>)
    ensures
        match removed {
            Some(entry) => {
                &&& index < map_entries(*old(map)).len()
                &&& map_entries(*old(map))[index as int] == (key_model(entry.0), entry.1@)
                &&& map_entries(*final(map)) == map_entries(*old(map)).remove(index as int)
            },
            None => {
                &&& index >= map_entries(*old(map)).len()
                &&& map_entries(*final(map)) == map_entries(*old(map))
            },
        },
{
    map.shift_remove_index(index)
}

/// Calls `IndexMap::insert`: if an entry's key has the same parts, that entry keeps its place
/// and gets the new value; otherwise the new entry comes last. The other entries stay.
#[verifier::external_body]
fn map_insert(map: &mut IndexMap<QueryKey, WhyResult>, key: QueryKey, value: WhyResult)
    ensures
        forall|i: int|
            0 <= i < map_entries(*old(map)).len() && (#[trigger] map_entries(*old(map))[i]).0
                == key_model(key) ==> map_entries(*final(map)) == map_entries(*old(map)).update(
                i,
                (key_model(key), value@),
            ),
        (forall|i: int|
            0 <= i < map_entries(*old(map)).len() ==> (#[trigger] map_entries(*old(map))[i]).0
                != key_model(key)) ==> map_entries(*final(map)) == map_entries(*old(map)).push(
            (key_model(key), value@),
        ),
{
    map.insert(key, value);
}

/// The decisions that the analyzer remembers.
pub struct DecisionCache {
    entries: IndexMap<QueryKey, WhyResult>,
}

impl DecisionCache {
    #[verifier::type_invariant]
    spec fn bounded(self) -> bool {
        is_cache(map_entries(self.entries))
    }
}

impl View for DecisionCache {
    type V = Seq<CacheEntry>;

    closed spec fn view(&self) -> Seq<CacheEntry> {
        map_entries(self.entries)
    }
}

/// The parts of a query, as a key.
fn key_of(query: &AvcQuery) -> (key: QueryKey)
    ensures
        key_model(key) == query@,
{
    let copy = query.clone();
    (copy.scontext, copy.tcontext, copy.tclass, copy.permissions)
}

/// Without one of its entries a cache holds the others, and none of them answers its query.
proof fn lemma_removed(entries: Seq<CacheEntry>, i: int)
    requires
        is_cache(entries),
        0 <= i < entries.len(),
    ensures
        is_cache(entries.remove(i)),
        forall|j: int| 0 <= j < entries.len() - 1 ==> (#[trigger] entries.remove(i)[j]).0 != entries[i].0,
{
    let others = entries.remove(i);
    assert forall|j: int, k: int| 0 <= j < k < others.len() implies (#[trigger] others[j]).0 != (
    #[trigger] others[k]).0 by {
        let from_j = if j < i { j } else { j + 1 };
        let from_k = if k < i { k } else { k + 1 };
        assert(entries[from_j].0 != entries[from_k].0);
    }
    assert forall|j: int| 0 <= j < others.len() implies (#[trigger] others[j]).0 != entries[i].0 by {
        if j < i {
            assert(entries[j].0 != entries[i].0);
        } else {
            assert(entries[i].0 != entries[j + 1].0);
        }
    }
}

impl DecisionCache {
    /// A cache that remembers nothing.
    pub fn new() -> (cache: DecisionCache)
        ensures
            cache@ == Seq::<CacheEntry>::empty(),
    {
        DecisionCache { entries: map_new() }
    }

    /// The number of remembered decisions: never more than [`CACHE_ENTRIES`], nor two for the
    /// same query.
    pub fn len(&self) -> (len: usize)
        ensures
            len == self@.len(),
            is_cache(self@),
    {
        proof {
            use_type_invariant(self);
        }
        map_len(&self.entries)
    }

    /// The remembered answer to a query, which is then the one that was used last.
    pub fn get(&mut self, key: &AvcQuery) -> (result: Option<WhyResult>)
        ensures
            match result {
                Some(why) => remembered(old(self)@, key@) == Some(why@),
                None => remembered(old(self)@, key@) is None,
            },
            final(self)@ == touched(old(self)@, key@),
            is_cache(final(self)@),
            result is None ==> final(self)@ == old(self)@ && forall|i: int|
                0 <= i < old(self)@.len() ==> (#[trigger] old(self)@[i]).0 != key@,
            result matches Some(why) ==> exists|i: int|
                0 <= i < old(self)@.len() && #[trigger] old(self)@[i] == (key@, why@) && final(self)@
                    == old(self)@.remove(i).push((key@, why@)),
    {
        proof {
            use_type_invariant(&*self);
            lemma_position(self@, key@);
        }
        let idx = map_index_of(&self.entries, &key_of(key))?;
        proof {
            lemma_position_of(self@, idx as int);
            lemma_removed(self@, idx as int);
        }
        // The map is taken out while it changes, so that the cache stays valid throughout.
        let mut entries = map_new();
        std::mem::swap(&mut entries, &mut self.entries);
        let (key, value) = map_remove(&mut entries, idx)?;
        let result = value.clone();
        map_insert(&mut entries, key, value);
        self.entries = entries;
        Some(result)
    }

    /// Remembers an answer, which is then the one that was used last.
    pub fn insert(&mut self, key: AvcQuery, value: WhyResult)
        ensures
            final(self)@ == stored(old(self)@, key@, value@),
            is_cache(final(self)@),
            final(self)@.last() == (key@, value@),
            (forall|i: int| 0 <= i < old(self)@.len() ==> (#[trigger] old(self)@[i]).0 != key@)
                ==> final(self)@.drop_last() == if old(self)@.len() == 1024 {
                old(self)@.remove(0)
            } else {
                old(self)@
            },
            forall|i: int|
                0 <= i < old(self)@.len() && (#[trigger] old(self)@[i]).0 == key@
                    ==> final(self)@.drop_last() == old(self)@.remove(i),
    {
        let key = key_of(&key);
        proof {
            use_type_invariant(&*self);
            lemma_position(self@, key_model(key));
        }
        let found = map_index_of(&self.entries, &key);
        let mut entries = map_new();
        std::mem::swap(&mut entries, &mut self.entries);
        match found {
            Some(idx) => {
                proof {
                    lemma_position_of(map_entries(entries), idx as int);
                    lemma_removed(map_entries(entries), idx as int);
                }
                let _ = map_remove(&mut entries, idx);
            },
            None => {
                if map_len(&entries) >= CACHE_ENTRIES {
                    proof {
                        lemma_removed(map_entries(entries), 0);
                    }
                    let _ = map_remove(&mut entries, 0);
                }
            },
        }
        map_insert(&mut entries, key, value);
        self.entries = entries;
    }
}

/// Looking a query up keeps every remembered answer, and leaves the one that was looked up as
/// the one that was used last.
pub proof fn law_lookup_forgets_nothing(entries: Seq<CacheEntry>, query: QueryModel, other: QueryModel)
    requires
        is_cache(entries),
    ensures
        is_cache(touched(entries, query)),
        remembered(touched(entries, query), other) == remembered(entries, other),
        remembered(entries, query) matches Some(why) ==> touched(entries, query).last() == (query, why),
{
    lemma_position(entries, query);
    lemma_position(entries, other);
    if let Some(i) = position(entries, query) {
        let after = touched(entries, query);
        lemma_removed(entries, i);
        assert(is_cache(after));
        lemma_position(after, other);
        if let Some(j) = position(entries, other) {
            let to = if j < i { j } else if j == i { after.len() - 1 } else { j - 1 };
            assert(after[to] == entries[j]);
            lemma_position_of(after, to);
        } else if let Some(to) = position(after, other) {
            let j = if to < i { to } else if to == after.len() - 1 { i } else { to + 1 };
            assert(after[to] == entries[j]);
        }
    }
}

/// A stored answer is remembered, as the one that was used last.
pub proof fn law_stored_is_remembered(entries: Seq<CacheEntry>, query: QueryModel, why: WhyModel)
    requires
        is_cache(entries),
    ensures
        is_cache(stored(entries, query, why)),
        remembered(stored(entries, query, why), query) == Some(why),
        stored(entries, query, why).last() == (query, why),
{
    lemma_position(entries, query);
    if let Some(i) = position(entries, query) {
        lemma_removed(entries, i);
    } else if entries.len() >= CACHE_ENTRIES {
        lemma_removed(entries, 0);
        assert forall|j: int| 0 <= j < entries.len() - 1 implies (#[trigger] entries.remove(0)[j]).0
            != query by {
            assert(entries.remove(0)[j] == entries[j + 1]);
        }
    }
    let after = stored(entries, query, why);
    assert(is_cache(after));
    lemma_position_of(after, after.len() - 1);
}

/// Storing an answer forgets at most one other: the answer that was not used for the longest
/// time, and that only if all places are taken and the query had no answer yet.
pub proof fn law_only_oldest_is_forgotten(
    entries: Seq<CacheEntry>,
    query: QueryModel,
    why: WhyModel,
    other: QueryModel,
)
    requires
        is_cache(entries),
        other != query,
    ensures
        ({
            let evicts = entries.len() == CACHE_ENTRIES && remembered(entries, query) is None;
            remembered(stored(entries, query, why), other) == if evicts && entries[0].0 == other {
                None
            } else {
                remembered(entries, other)
            }
        }),
{
    law_stored_is_remembered(entries, query, why);
    lemma_position(entries, query);
    lemma_position(entries, other);
    let after = stored(entries, query, why);
    lemma_position(after, other);
    let gap = match position(entries, query) {
        Some(i) => i,
        None => if entries.len() >= CACHE_ENTRIES {
            0
        } else {
            entries.len() as int
        },
    };
    assert forall|j: int| 0 <= j < entries.len() && j != gap implies #[trigger] entries[j] == after[if j < gap {
        j
    } else {
        j - 1
    }] by {}
    if let Some(j) = position(entries, other) {
        if j != gap {
            let to = if j < gap { j } else { j - 1 };
            assert(after[to] == entries[j]);
            lemma_position_of(after, to);
        } else {
            lemma_position_of(entries, 0);
            if let Some(to) = position(after, other) {
                let from = if to < gap { to } else { to + 1 };
                assert(after[to] == entries[from]);
                lemma_position_of(entries, from);
            }
        }
    } else {
        if let Some(to) = position(after, other) {
            let from = if to < gap { to } else { to + 1 };
            assert(after[to] == entries[from]);
        }
        if entries.len() > 0 {
            assert(entries[0].0 != other);
        }
    }
}

/// One use of a cache: an answer to the query is stored or, without one, looked up.
pub struct Use {
    pub query: QueryModel,
    pub store: Option<WhyModel>,
}

/// The entries after one use.
pub open spec fn after_use(entries: Seq<CacheEntry>, usage: Use) -> Seq<CacheEntry> {
    match usage.store {
        Some(why) => stored(entries, usage.query, why),
        None => touched(entries, usage.query),
    }
}

/// The entries after some uses, one after the other.
pub open spec fn after_uses(entries: Seq<CacheEntry>, uses: Seq<Use>) -> Seq<CacheEntry>
    decreases uses.len(),
{
    if uses.len() == 0 {
        entries
    } else {
        after_use(after_uses(entries, uses.drop_last()), uses.last())
    }
}

/// The queries other than `kept` that were looked up or stored.
pub open spec fn other_queries(uses: Seq<Use>, kept: QueryModel) -> Set<QueryModel> {
    uses.map_values(|usage: Use| usage.query).to_set().remove(kept)
}

/// An answer to `kept` is remembered, and every entry that was used since answers a query of
/// `others`.
pub open spec fn only_used_since(entries: Seq<CacheEntry>, kept: QueryModel, others: Set<QueryModel>) -> bool {
    &&& position(entries, kept) is Some
    &&& forall|j: int|
        position(entries, kept)->0 < j < entries.len() ==> others.contains((#[trigger] entries[j]).0)
}

/// Where a full cache has no answer to `query` and the oldest entry is the one for `kept`, as
/// many queries as there are places were used since, `query` among them.
proof fn lemma_others_fill_the_cache(
    entries: Seq<CacheEntry>,
    query: QueryModel,
    kept: QueryModel,
    others: Set<QueryModel>,
)
    requires
        is_cache(entries),
        entries.len() == CACHE_ENTRIES,
        position(entries, kept) == Some(0int),
        position(entries, query) is None,
        only_used_since(entries, kept, others),
        others.contains(query),
        others.finite(),
    ensures
        others.len() >= CACHE_ENTRIES,
{
    lemma_position(entries, query);
    let queries = Seq::new(
        entries.len(),
        |j: int|
            if j == 0 {
                query
            } else {
                entries[j].0
            },
    );
    assert forall|i: int, j: int|
        0 <= i < queries.len() && 0 <= j < queries.len() && i != j implies queries[i] != queries[j] by {
        assert(entries[i].0 != query && entries[j].0 != query);
        if i < j {
            assert(entries[i].0 != entries[j].0);
        } else {
            assert(entries[j].0 != entries[i].0);
        }
    }
    queries.unique_seq_to_set();
    assert forall|q: QueryModel| queries.to_set().contains(q) implies others.contains(q) by {
        let j = choose|j: int| 0 <= j < queries.len() && queries[j] == q;
        if j > 0 {
            assert(others.contains(entries[j].0));
        }
    }
    vstd::set_lib::lemma_len_subset(queries.to_set(), others);
}

/// One use keeps an answer, if fewer other queries than there are places were used since.
pub proof fn lemma_use_keeps(
    entries: Seq<CacheEntry>,
    usage: Use,
    kept: QueryModel,
    others: Set<QueryModel>,
)
    requires
        is_cache(entries),
        only_used_since(entries, kept, others),
        others.finite(),
        others.len() < CACHE_ENTRIES,
        usage.query == kept ==> usage.store is None,
        usage.query != kept ==> others.contains(usage.query),
    ensures
        is_cache(after_use(entries, usage)),
        remembered(after_use(entries, usage), kept) == remembered(entries, kept),
        only_used_since(after_use(entries, usage), kept, others),
{
    let i = position(entries, kept)->0;
    lemma_position(entries, kept);
    lemma_position(entries, usage.query);
    let after = after_use(entries, usage);
    match usage.store {
        Some(why) => law_stored_is_remembered(entries, usage.query, why),
        None => law_lookup_forgets_nothing(entries, usage.query, kept),
    }
    if usage.query == kept {
        lemma_position_of(after, after.len() - 1);
    } else {
        let evicts = usage.store is Some && entries.len() >= CACHE_ENTRIES;
        let gap = match position(entries, usage.query) {
            Some(j) => j,
            None => if evicts {
                0
            } else {
                entries.len() as int
            },
        };
        if position(entries, usage.query) is None && evicts && i == 0 {
            lemma_others_fill_the_cache(entries, usage.query, kept, others);
        }
        let to = if i < gap { i } else { i - 1 };
        assert(after[to] == entries[i]);
        lemma_position_of(after, to);
        assert forall|j: int| to < j < after.len() implies others.contains((#[trigger] after[j]).0) by {
            if j < gap {
                assert(after[j] == entries[j]);
            } else if j + 1 < entries.len() {
                assert(after[j] == entries[j + 1]);
            }
        }
    }
}

/// An answer that was used last outlives any number of uses, as long as fewer other queries
/// than the cache has places are among them. Looking it up again does no harm; only storing
/// another answer in its place would.
pub proof fn law_last_used_outlives(entries: Seq<CacheEntry>, uses: Seq<Use>)
    requires
        is_cache(entries),
        entries.len() > 0,
        other_queries(uses, entries.last().0).len() < CACHE_ENTRIES,
        forall|i: int|
            0 <= i < uses.len() && (#[trigger] uses[i]).query == entries.last().0 ==> uses[i].store is None,
    ensures
        remembered(after_uses(entries, uses), entries.last().0) == Some(entries.last().1),
        is_cache(after_uses(entries, uses)),
{
    let kept = entries.last().0;
    let queries = uses.map_values(|usage: Use| usage.query);
    vstd::seq_lib::seq_to_set_is_finite(queries);
    assert forall|i: int| 0 <= i < uses.len() && uses[i].query != kept implies other_queries(
        uses,
        kept,
    ).contains((#[trigger] uses[i]).query) by {
        assert(queries[i] == uses[i].query);
    }
    lemma_uses_keep(entries, uses, other_queries(uses, kept));
}

/// As [`law_last_used_outlives`], for uses whose other queries are among `others`.
proof fn lemma_uses_keep(entries: Seq<CacheEntry>, uses: Seq<Use>, others: Set<QueryModel>)
    requires
        is_cache(entries),
        entries.len() > 0,
        others.finite(),
        others.len() < CACHE_ENTRIES,
        forall|i: int|
            0 <= i < uses.len() && (#[trigger] uses[i]).query == entries.last().0 ==> uses[i].store is None,
        forall|i: int|
            0 <= i < uses.len() && (#[trigger] uses[i]).query != entries.last().0 ==> others.contains(
                uses[i].query,
            ),
    ensures
        is_cache(after_uses(entries, uses)),
        remembered(after_uses(entries, uses), entries.last().0) == Some(entries.last().1),
        only_used_since(after_uses(entries, uses), entries.last().0, others),
    decreases uses.len(),
{
    let kept = entries.last().0;
    if uses.len() == 0 {
        lemma_position_of(entries, entries.len() - 1);
    } else {
        let earlier = uses.drop_last();
        assert forall|i: int| 0 <= i < earlier.len() implies #[trigger] earlier[i] == uses[i] by {}
        lemma_uses_keep(entries, earlier, others);
        assert(uses[uses.len() - 1] == uses.last());
        lemma_use_keeps(after_uses(entries, earlier), uses.last(), kept, others);
    }
}

/// A cache holds 1024 entries at most, and no two for the same query.
pub proof fn law_cache_is_bounded(entries: Seq<CacheEntry>)
    ensures
        is_cache(entries) <==> entries.len() <= 1024 && forall|i: int, j: int|
            0 <= i < entries.len() && 0 <= j < entries.len() && (#[trigger] entries[i]).0 == (
            #[trigger] entries[j]).0 ==> i == j,
{
    if is_cache(entries) {
        assert forall|i: int, j: int|
            0 <= i < entries.len() && 0 <= j < entries.len() && (#[trigger] entries[i]).0 == (
            #[trigger] entries[j]).0 implies i == j by {
            if i < j {
                assert(entries[i].0 != entries[j].0);
            } else if j < i {
                assert(entries[j].0 != entries[i].0);
            }
        }
    }
}

/// A query is answered by the entry that has it, wherever that stands; the entry then moves to
/// the end, and the others keep their order. Without such an entry there is no answer, and
/// nothing moves.
pub proof fn law_lookup_finds_the_entry(entries: Seq<CacheEntry>, query: QueryModel)
    requires
        is_cache(entries),
    ensures
        forall|i: int|
            0 <= i < entries.len() && (#[trigger] entries[i]).0 == query ==> {
                &&& remembered(entries, query) == Some(entries[i].1)
                &&& touched(entries, query) == entries.take(i) + entries.skip(i + 1) + seq![entries[i]]
            },
        (forall|i: int| 0 <= i < entries.len() ==> (#[trigger] entries[i]).0 != query) ==> {
            &&& remembered(entries, query) is None
            &&& touched(entries, query) == entries
        },
{
    lemma_position(entries, query);
    assert forall|i: int| 0 <= i < entries.len() && (#[trigger] entries[i]).0 == query implies remembered(
        entries,
        query,
    ) == Some(entries[i].1) && touched(entries, query) == entries.take(i) + entries.skip(i + 1) + seq![
        entries[i],
    ] by {
        lemma_position_of(entries, i);
        assert(touched(entries, query) =~= entries.take(i) + entries.skip(i + 1) + seq![entries[i]]);
    }
}

/// A stored answer comes last. An entry for the same query goes, wherever it stands; if there is
/// none and 1024 places are taken, the first entry goes; otherwise none. The entries that stay
/// keep their order.
pub proof fn law_store_comes_last(entries: Seq<CacheEntry>, query: QueryModel, why: WhyModel)
    requires
        is_cache(entries),
    ensures
        forall|i: int|
            0 <= i < entries.len() && (#[trigger] entries[i]).0 == query ==> stored(entries, query, why)
                == entries.take(i) + entries.skip(i + 1) + seq![(query, why)],
        (forall|i: int| 0 <= i < entries.len() ==> (#[trigger] entries[i]).0 != query) ==> stored(
            entries,
            query,
            why,
        ) == if entries.len() == 1024 {
            entries.skip(1) + seq![(query, why)]
        } else {
            entries + seq![(query, why)]
        },
{
    lemma_position(entries, query);
    assert forall|i: int| 0 <= i < entries.len() && (#[trigger] entries[i]).0 == query implies stored(
        entries,
        query,
        why,
    ) == entries.take(i) + entries.skip(i + 1) + seq![(query, why)] by {
        lemma_position_of(entries, i);
        assert(stored(entries, query, why) =~= entries.take(i) + entries.skip(i + 1) + seq![(query, why)]);
    }
    if position(entries, query) is None {
        if entries.len() == 1024 {
            assert(stored(entries, query, why) =~= entries.skip(1) + seq![(query, why)]);
        } else {
            assert(stored(entries, query, why) =~= entries + seq![(query, why)]);
        }
    } else {
        let i = position(entries, query)->0;
        assert(entries[i].0 == query);
    }
}

/// A decision is found by all four parts of its query: keys with the same query have the same
/// parts.
pub proof fn law_key_has_all_parts(key: QueryKey, query: AvcQuery)
    ensures
        key_model(key) == query@ <==> {
            &&& key.0@ == query.scontext@
            &&& key.1@ == query.tcontext@
            &&& key.2@ == query.tclass@
            &&& key.3@.len() == query.permissions@.len()
            &&& forall|i: int| 0 <= i < key.3@.len() ==> (#[trigger] key.3@[i])@ == query.permissions@[i]@
        },
{
    let same = query::byte_strings(key.3@);
    let asked = query::byte_strings(query.permissions@);
    if key_model(key) == query@ {
        assert(same.len() == key.3@.len() && asked.len() == query.permissions@.len());
        assert forall|i: int| 0 <= i < key.3@.len() implies (#[trigger] key.3@[i])@
            == query.permissions@[i]@ by {
            assert(same[i] == asked[i]);
        }
    } else if key.3@.len() == query.permissions@.len() && forall|i: int|
        0 <= i < key.3@.len() ==> (#[trigger] key.3@[i])@ == query.permissions@[i]@ {
        assert(same =~= asked);
    }
}

} // verus!
