//! The analyzer: a context of the native shim, and the decisions it has made so far.
//!
//! The shim's calls are made by the embedding program. Each function here that needs the
//! outcome of such a call takes it as plain values.

use std::marker::PhantomData;
use std::rc::Rc;

use vstd::prelude::*;

use crate::cache;
use crate::cache::{CacheEntry, DecisionCache, Use};
use crate::error;
use crate::error::SelinuxError;
use crate::native;
use crate::native::{LaurelSelinux, NativeModel, NativeResult};
use crate::query;
use crate::query::{AvcQuery, QueryModel};
use crate::why;
use crate::why::{WhyModel, WhyReason, WhyResult};

verus! {

/// An analyzer at work.
///
/// It stays on the thread that opened it: the shim keeps its state in process globals.
pub struct Analyzer {
    handle: LaurelSelinux,
    cache: DecisionCache,
    _not_send_sync: PhantomData<Rc<()>>,
}

/// The mathematical value of an [`Analyzer`]: the address of its context, and the decisions
/// that it remembers.
pub struct AnalyzerModel {
    pub handle: usize,
    pub cache: Seq<CacheEntry>,
}

impl View for Analyzer {
    type V = AnalyzerModel;

    closed spec fn view(&self) -> AnalyzerModel {
        AnalyzerModel { handle: self.handle.spec_address(), cache: self.cache@ }
    }
}

/// What became of opening a context: an analyzer that remembers nothing, none where SELinux is
/// disabled, or an error.
pub open spec fn opened(status: i32, handle: usize) -> Result<Option<AnalyzerModel>, SelinuxError> {
    if status == native::DISABLED {
        Ok(None)
    } else if status != native::OK {
        Err(error::error_of_status(status))
    } else if handle == 0 {
        Err(SelinuxError::InvalidNativeResult)
    } else {
        Ok(Some(AnalyzerModel { handle, cache: Seq::empty() }))
    }
}

/// What the shim says of the policy generation.
pub open spec fn generation(status: i32, changed: i32) -> Result<bool, SelinuxError> {
    if status != native::OK {
        Err(error::error_of_status(status))
    } else if changed == 0 {
        Ok(false)
    } else if changed == 1 {
        Ok(true)
    } else {
        Err(SelinuxError::InvalidNativeResult)
    }
}

/// Whether a zero byte stands anywhere in a query; the shim takes no such query.
pub open spec fn has_nul(query: QueryModel) -> bool {
    ||| query.scontext.contains(0)
    ||| query.tcontext.contains(0)
    ||| query.tclass.contains(0)
    ||| exists|i: int| 0 <= i < query.permissions.len() && (#[trigger] query.permissions[i]).contains(0)
}

/// What the shim's answer to a query means.
pub open spec fn judged(status: i32, native: NativeModel) -> Result<WhyModel, SelinuxError> {
    if status != native::OK {
        Err(error::error_of_status(status))
    } else {
        match why::reason_of(native.reason) {
            None => Err(SelinuxError::InvalidNativeResult),
            Some(reason) => if native.detail_len == 0 {
                Ok(WhyModel { reason, detail: None })
            } else {
                match native.detail {
                    None => Err(SelinuxError::InvalidNativeResult),
                    Some(detail) => Ok(WhyModel { reason, detail: Some(detail) }),
                }
            },
        }
    }
}

/// What the shim's answer to `query` means. A query that the shim does not take has no answer.
pub open spec fn resolved(query: QueryModel, status: i32, native: NativeModel) -> Result<
    WhyModel,
    SelinuxError,
> {
    if has_nul(query) {
        Err(SelinuxError::InteriorNul)
    } else {
        judged(status, native)
    }
}

/// An explanation has no empty detail: it has one that says something, or none.
pub open spec fn is_telling(why: WhyModel) -> bool {
    why.detail matches Some(detail) ==> detail.len() > 0
}

/// The decisions that an analyzer can remember: no more than the limit, one at most for each
/// query, none for a query that the shim does not take, and none with an empty detail.
pub open spec fn is_sound_cache(entries: Seq<CacheEntry>) -> bool {
    &&& cache::is_cache(entries)
    &&& forall|i: int|
        0 <= i < entries.len() ==> !has_nul((#[trigger] entries[i]).0) && is_telling(entries[i].1)
}

/// A remembered answer is one of the decisions that can be remembered.
proof fn lemma_remembered_is_sound(entries: Seq<CacheEntry>, query: QueryModel)
    requires
        is_sound_cache(entries),
    ensures
        cache::remembered(entries, query) matches Some(why) ==> is_telling(why) && !has_nul(query),
        is_sound_cache(cache::touched(entries, query)),
{
    cache::lemma_position(entries, query);
    cache::law_lookup_forgets_nothing(entries, query, query);
    if let Some(i) = cache::position(entries, query) {
        let after = cache::touched(entries, query);
        assert forall|j: int| 0 <= j < after.len() implies !has_nul((#[trigger] after[j]).0)
            && is_telling(after[j].1) by {
            let k = if j < i { j } else if j == after.len() - 1 { i } else { j + 1 };
            assert(after[j] == entries[k]);
        }
    }
}

/// What the shim explains can be remembered.
proof fn lemma_resolved_is_sound(
    entries: Seq<CacheEntry>,
    query: QueryModel,
    status: i32,
    native: NativeModel,
)
    requires
        is_sound_cache(entries),
        native::is_consistent(native),
    ensures
        resolved(query, status, native) matches Ok(why) ==> is_telling(why) && is_sound_cache(
            cache::stored(entries, query, why),
        ),
{
    if let Ok(why) = resolved(query, status, native) {
        cache::lemma_position(entries, query);
        cache::law_stored_is_remembered(entries, query, why);
        let after = cache::stored(entries, query, why);
        let gap = match cache::position(entries, query) {
            Some(i) => i,
            None => if entries.len() >= cache::CACHE_ENTRIES {
                0
            } else {
                entries.len() as int
            },
        };
        assert forall|j: int| 0 <= j < after.len() implies !has_nul((#[trigger] after[j]).0)
            && is_telling(after[j].1) by {
            if j < after.len() - 1 {
                assert(after[j] == entries[if j < gap {
                    j
                } else {
                    j + 1
                }]);
            }
        }
    }
}

/// What is remembered of a query: the answer, nothing if the shim is to be asked, or an error if
/// the shim does not take the query.
pub open spec fn looked_up(entries: Seq<CacheEntry>, query: QueryModel) -> Result<
    Option<WhyModel>,
    SelinuxError,
> {
    match cache::remembered(entries, query) {
        Some(why) => Ok(Some(why)),
        None => if has_nul(query) {
            Err(SelinuxError::InteriorNul)
        } else {
            Ok(None)
        },
    }
}

/// A request to an analyzer: a query, and what the shim answers if it is asked.
pub struct Request {
    pub query: QueryModel,
    pub status: i32,
    pub native: NativeModel,
}

/// What a request comes to, and the decisions that are remembered then: a remembered answer is
/// given again, and otherwise the shim is asked, if it takes the query.
pub open spec fn requested(entries: Seq<CacheEntry>, request: Request) -> (
    Result<WhyModel, SelinuxError>,
    Seq<CacheEntry>,
) {
    match cache::remembered(entries, request.query) {
        Some(why) => (Ok(why), cache::touched(entries, request.query)),
        None => match resolved(request.query, request.status, request.native) {
            Ok(why) => (Ok(why), cache::stored(entries, request.query, why)),
            Err(error) => (Err(error), entries),
        },
    }
}

/// The decisions that are remembered after some requests, one after the other.
pub open spec fn after_requests(entries: Seq<CacheEntry>, requests: Seq<Request>) -> Seq<CacheEntry>
    decreases requests.len(),
{
    if requests.len() == 0 {
        entries
    } else {
        requested(after_requests(entries, requests.drop_last()), requests.last()).1
    }
}

/// A request comes to what is remembered of its query. Only if that is nothing does the shim's
/// answer count, and then looking the query up first has changed nothing.
pub proof fn law_lookup_precedes_the_shim(entries: Seq<CacheEntry>, request: Request)
    ensures
        match looked_up(entries, request.query) {
            Ok(Some(why)) => requested(entries, request) == (
                Ok::<WhyModel, SelinuxError>(why),
                cache::touched(entries, request.query),
            ),
            Err(error) => requested(entries, request) == (Err::<WhyModel, SelinuxError>(error), entries),
            Ok(None) => {
                &&& cache::touched(entries, request.query) == entries
                &&& requested(cache::touched(entries, request.query), request) == requested(entries, request)
                &&& requested(entries, request).0 == judged(request.status, request.native)
            },
        },
{
}

/// The queries other than `kept` that were asked.
pub open spec fn other_requests(requests: Seq<Request>, kept: QueryModel) -> Set<QueryModel> {
    requests.map_values(|request: Request| request.query).to_set().remove(kept)
}

/// The answer that an analyzer gave last is given again, whatever the shim would say by now and
/// however often the analyzer was asked since, as long as fewer other queries than the cache has
/// places were among the requests.
pub proof fn law_last_answer_is_given_again(
    entries: Seq<CacheEntry>,
    requests: Seq<Request>,
    again: Request,
)
    requires
        cache::is_cache(entries),
        entries.len() > 0,
        again.query == entries.last().0,
        other_requests(requests, entries.last().0).len() < cache::CACHE_ENTRIES,
    ensures
        requested(after_requests(entries, requests), again).0 == Ok::<WhyModel, SelinuxError>(
            entries.last().1,
        ),
{
    let kept = entries.last().0;
    let queries = requests.map_values(|request: Request| request.query);
    vstd::seq_lib::seq_to_set_is_finite(queries);
    assert forall|i: int| 0 <= i < requests.len() && requests[i].query != kept implies other_requests(
        requests,
        kept,
    ).contains((#[trigger] requests[i]).query) by {
        assert(queries[i] == requests[i].query);
    }
    lemma_requests_keep(entries, requests, other_requests(requests, kept));
}

/// As [`law_last_answer_is_given_again`], for requests whose other queries are among `others`.
proof fn lemma_requests_keep(
    entries: Seq<CacheEntry>,
    requests: Seq<Request>,
    others: Set<QueryModel>,
)
    requires
        cache::is_cache(entries),
        entries.len() > 0,
        others.finite(),
        others.len() < cache::CACHE_ENTRIES,
        forall|i: int|
            0 <= i < requests.len() && (#[trigger] requests[i]).query != entries.last().0
                ==> others.contains(requests[i].query),
    ensures
        cache::is_cache(after_requests(entries, requests)),
        cache::remembered(after_requests(entries, requests), entries.last().0) == Some(
            entries.last().1,
        ),
        cache::only_used_since(after_requests(entries, requests), entries.last().0, others),
    decreases requests.len(),
{
    let kept = entries.last().0;
    if requests.len() == 0 {
        cache::lemma_position_of(entries, entries.len() - 1);
    } else {
        let earlier = requests.drop_last();
        let last = requests.last();
        assert forall|i: int| 0 <= i < earlier.len() implies #[trigger] earlier[i] == requests[i] by {}
        lemma_requests_keep(entries, earlier, others);
        assert(requests[requests.len() - 1] == last);
        let before = after_requests(entries, earlier);
        let store = match cache::remembered(before, last.query) {
            Some(_) => None,
            None => match resolved(last.query, last.status, last.native) {
                Ok(why) => Some(why),
                Err(_) => None,
            },
        };
        let usage = Use { query: last.query, store };
        assert(cache::after_use(before, usage) == requested(before, last).1);
        cache::lemma_use_keeps(before, usage, kept, others);
    }
}

/// Whatever an analyzer was asked since it was opened, it remembers no more decisions than the
/// limit, one at most for each query, none for a query with a zero byte and none with an empty
/// detail; and no explanation that it gives has an empty detail.
pub proof fn law_analyzer_stays_sound(requests: Seq<Request>, request: Request)
    requires
        forall|i: int| 0 <= i < requests.len() ==> native::is_consistent((#[trigger] requests[i]).native),
        native::is_consistent(request.native),
    ensures
        is_sound_cache(after_requests(Seq::empty(), requests)),
        requested(after_requests(Seq::empty(), requests), request).0 matches Ok(why) ==> is_telling(why),
    decreases requests.len(),
{
    if requests.len() > 0 {
        let earlier = requests.drop_last();
        let last = requests.last();
        assert forall|i: int| 0 <= i < earlier.len() implies native::is_consistent(
            (#[trigger] earlier[i]).native,
        ) by {
            assert(earlier[i] == requests[i]);
        }
        assert(requests[requests.len() - 1] == last);
        law_analyzer_stays_sound(earlier, last);
        let before = after_requests(Seq::empty(), earlier);
        lemma_remembered_is_sound(before, last.query);
        lemma_resolved_is_sound(before, last.query, last.status, last.native);
    }
    let now = after_requests(Seq::empty(), requests);
    lemma_remembered_is_sound(now, request.query);
    lemma_resolved_is_sound(now, request.query, request.status, request.native);
}

/// Whether a zero byte stands in a byte string.
fn bytes_have_nul(bytes: &Vec<u8>) -> (found: bool)
    ensures
        found == bytes@.contains(0),
{
    let mut i: usize = 0;
    while i < bytes.len()
        invariant
            i <= bytes.len(),
            forall|j: int| 0 <= j < i ==> bytes@[j] != 0,
        decreases bytes.len() - i,
    {
        if bytes[i] == 0 {
            return true;
        }
        i = i + 1;
    }
    false
}

/// Whether a zero byte stands anywhere in a query.
fn query_has_nul(query: &AvcQuery) -> (found: bool)
    ensures
        found == has_nul(query@),
{
    if bytes_have_nul(&query.scontext) || bytes_have_nul(&query.tcontext) || bytes_have_nul(
        &query.tclass,
    ) {
        return true;
    }
    let mut i: usize = 0;
    while i < query.permissions.len()
        invariant
            i <= query.permissions.len(),
            forall|j: int| 0 <= j < i ==> !(#[trigger] query@.permissions[j]).contains(0),
        decreases query.permissions.len() - i,
    {
        if bytes_have_nul(&query.permissions[i]) {
            assert(query@.permissions[i as int].contains(0));
            return true;
        }
        i = i + 1;
    }
    false
}

impl Analyzer {
    #[verifier::type_invariant]
    spec fn sound(self) -> bool {
        is_sound_cache(self.cache@)
    }

    /// The analyzer for a context that the shim was asked to open.
    ///
    /// `handle` is the address that the shim left, or zero; it counts only on success.
    pub fn open(status: i32, handle: usize) -> (analyzer: Result<Option<Analyzer>, SelinuxError>)
        ensures
            match analyzer {
                Ok(Some(ready)) => opened(status, handle) == Ok::<_, SelinuxError>(Some(ready@)),
                Ok(None) => opened(status, handle) == Ok::<_, SelinuxError>(None::<AnalyzerModel>),
                Err(error) => opened(status, handle) == Err::<Option<AnalyzerModel>, _>(error),
            },
            (analyzer matches Ok(Some(_))) <==> status == 0 && handle != 0,
            analyzer matches Ok(Some(ready)) ==> ready@.handle == handle && ready@.cache.len() == 0,
            (analyzer matches Ok(None)) <==> status == 1,
            (analyzer matches Err(SelinuxError::InvalidNativeResult)) <==> status == 0 && handle == 0,
            analyzer matches Err(error) ==> status != 0 ==> error == error::error_of_status(status),
    {
        if status == native::DISABLED {
            return Ok(None);
        }
        if status != native::OK {
            return Err(error::status_error(status));
        }
        match LaurelSelinux::from_address(handle) {
            Some(handle) => Ok(
                Some(Analyzer { handle, cache: DecisionCache::new(), _not_send_sync: PhantomData }),
            ),
            None => Err(SelinuxError::InvalidNativeResult),
        }
    }

    /// Whether the policy has changed since the context was opened, as the shim says.
    pub fn policy_changed(status: i32, changed: i32) -> (result: Result<bool, SelinuxError>)
        ensures
            result == generation(status, changed),
            result == Ok::<bool, SelinuxError>(true) <==> status == 0 && changed == 1,
            result == Ok::<bool, SelinuxError>(false) <==> status == 0 && changed == 0,
            result == Err::<bool, SelinuxError>(SelinuxError::InvalidNativeResult) <==> status == 0
                && changed != 0 && changed != 1,
            result matches Err(error) ==> status != 0 ==> error == error::error_of_status(status),
    {
        if status != native::OK {
            return Err(error::status_error(status));
        }
        match changed {
            0 => Ok(false),
            1 => Ok(true),
            _ => Err(SelinuxError::InvalidNativeResult),
        }
    }

    /// The address of the analyzer's context.
    pub fn address(&self) -> (address: usize)
        ensures
            address == self@.handle,
            address != 0,
    {
        self.handle.address()
    }

    /// Gives up the analyzer and hands out its context, which is then to be closed.
    pub fn into_handle(self) -> (handle: LaurelSelinux)
        ensures
            handle.spec_address() == self@.handle,
    {
        self.handle
    }

    /// The remembered answer to a query.
    ///
    /// `Ok(None)` if there is none and the shim is to be asked; an error if there is none and
    /// the shim cannot be asked.
    pub fn lookup(&mut self, query: &AvcQuery) -> (result: Result<Option<WhyResult>, SelinuxError>)
        ensures
            match result {
                Ok(Some(why)) => looked_up(old(self)@.cache, query@) == Ok::<_, SelinuxError>(
                    Some(why@),
                ),
                Ok(None) => looked_up(old(self)@.cache, query@) == Ok::<_, SelinuxError>(
                    None::<WhyModel>,
                ),
                Err(error) => looked_up(old(self)@.cache, query@) == Err::<Option<WhyModel>, _>(error),
            },
            final(self)@ == (AnalyzerModel {
                cache: cache::touched(old(self)@.cache, query@),
                ..old(self)@
            }),
            is_sound_cache(final(self)@.cache),
            result matches Ok(Some(why)) ==> is_telling(why@),
            result matches Ok(Some(why)) ==> old(self)@.cache.contains((query@, why@)),
            !(result matches Ok(Some(_))) ==> final(self)@ == old(self)@ && forall|i: int|
                0 <= i < old(self)@.cache.len() ==> (#[trigger] old(self)@.cache[i]).0 != query@,
            result matches Err(error) ==> error is InteriorNul,
    {
        proof {
            use_type_invariant(&*self);
            lemma_remembered_is_sound(self.cache@, query@);
            cache::lemma_position(self.cache@, query@);
        }
        // The cache is taken out while it changes, so that the analyzer stays valid throughout.
        let mut cache = DecisionCache::new();
        std::mem::swap(&mut cache, &mut self.cache);
        let remembered = cache.get(query);
        self.cache = cache;
        if let Some(result) = remembered {
            return Ok(Some(result));
        }
        if query_has_nul(query) {
            return Err(SelinuxError::InteriorNul);
        }
        Ok(None)
    }

    /// The answer to a query: the remembered one or, without one, what the shim's answer means,
    /// which is then remembered if it is an explanation.
    ///
    /// `status` and `native` are what the shim answers to the query; they count only if
    /// [`Analyzer::lookup`] has nothing to say of it.
    pub fn analyze(&mut self, query: &AvcQuery, status: i32, native: NativeResult) -> (result: Result<
        WhyResult,
        SelinuxError,
    >)
        ensures
            ({
                let request = Request { query: query@, status, native: native@ };
                let (answer, entries) = requested(old(self)@.cache, request);
                &&& match result {
                    Ok(why) => answer == Ok::<_, SelinuxError>(why@),
                    Err(error) => answer == Err::<WhyModel, _>(error),
                }
                &&& final(self)@ == (AnalyzerModel { cache: entries, ..old(self)@ })
            }),
            is_sound_cache(final(self)@.cache),
            result matches Ok(why) ==> is_telling(why@),
            ({
                let unknown = forall|i: int|
                    0 <= i < old(self)@.cache.len() ==> (#[trigger] old(self)@.cache[i]).0 != query@;
                &&& !unknown ==> (result matches Ok(why) && old(self)@.cache.contains((query@, why@)))
                &&& unknown && result is Err ==> final(self)@ == old(self)@
                &&& unknown ==> (result matches Ok(why) ==> {
                    &&& status == 0
                    &&& final(self)@.cache.last() == (query@, why@)
                    &&& why.reason is Allow <==> native@.reason == 0
                    &&& why.reason is DontAudit <==> native@.reason == 1
                    &&& why.reason is TeRule <==> native@.reason == 2
                    &&& why.reason is Boolean <==> native@.reason == 3
                    &&& why.reason is Constraint <==> native@.reason == 4
                    &&& why.reason is Rbac <==> native@.reason == 5
                    &&& why.reason is Bounds <==> native@.reason == 6
                    &&& why.detail is Some <==> native@.detail_len > 0
                    &&& why.detail matches Some(bytes) ==> native@.detail == Some(bytes@)
                })
            }),
    {
        proof {
            use_type_invariant(&*self);
            cache::lemma_position(self.cache@, query@);
        }
        if let Some(result) = self.lookup(query)? {
            return Ok(result);
        }
        let ghost answer = native@;
        let ghost before = self.cache@;
        proof {
            use_type_invariant(&*self);
        }
        if status != native::OK {
            return Err(error::status_error(status));
        }
        let (reason, bytes, detail_len) = native.into_parts();
        let reason = WhyReason::from_native(reason)?;
        let detail = if detail_len == 0 {
            None
        } else {
            match bytes {
                Some(bytes) => Some(bytes),
                None => {
                    return Err(SelinuxError::InvalidNativeResult);
                },
            }
        };
        let result = WhyResult { reason, detail };
        proof {
            lemma_resolved_is_sound(before, query@, status, answer);
        }
        let mut cache = DecisionCache::new();
        std::mem::swap(&mut cache, &mut self.cache);
        cache.insert(query.clone(), result.clone());
        self.cache = cache;
        Ok(result)
    }
}

/// A context is at work exactly if the shim reports success and leaves an address, whichever
/// that is, and then nothing is remembered yet. SELinux is disabled exactly if the shim says so.
/// Everything else is an error: that of the status or, on success without an address, that of an
/// invalid result.
pub proof fn law_open_succeeds_at_any_address(status: i32, handle: usize)
    ensures
        opened(status, handle) == Ok::<Option<AnalyzerModel>, SelinuxError>(
            Some(AnalyzerModel { handle, cache: Seq::empty() }),
        ) <==> status == 0 && handle != 0,
        (opened(status, handle) matches Ok(Some(_))) <==> status == 0 && handle != 0,
        (opened(status, handle) matches Ok(None)) <==> status == 1,
        status != 0 && status != 1 ==> opened(status, handle) == Err::<
            Option<AnalyzerModel>,
            SelinuxError,
        >(error::error_of_status(status)),
        status == 0 && handle == 0 ==> opened(status, handle) == Err::<
            Option<AnalyzerModel>,
            SelinuxError,
        >(SelinuxError::InvalidNativeResult),
{
}

/// The policy has changed if the shim says one, and has not if it says zero. Nothing else that it
/// says on success is valid, and without success only the status counts.
pub proof fn law_policy_change_is_zero_or_one(status: i32, changed: i32)
    ensures
        generation(status, changed) == Ok::<bool, SelinuxError>(true) <==> status == 0 && changed == 1,
        generation(status, changed) == Ok::<bool, SelinuxError>(false) <==> status == 0 && changed == 0,
        status == 0 && changed != 0 && changed != 1 ==> generation(status, changed) == Err::<
            bool,
            SelinuxError,
        >(SelinuxError::InvalidNativeResult),
        status != 0 ==> generation(status, changed) == Err::<bool, SelinuxError>(
            error::error_of_status(status),
        ),
{
}

/// The shim takes a query exactly if each byte of its contexts, of its class and of each of its
/// permissions is other than zero.
pub proof fn law_shim_takes_queries_without_zero_bytes(query: QueryModel)
    ensures
        !has_nul(query) <==> {
            &&& forall|i: int| 0 <= i < query.scontext.len() ==> #[trigger] query.scontext[i] != 0
            &&& forall|i: int| 0 <= i < query.tcontext.len() ==> #[trigger] query.tcontext[i] != 0
            &&& forall|i: int| 0 <= i < query.tclass.len() ==> #[trigger] query.tclass[i] != 0
            &&& forall|p: int, i: int|
                0 <= p < query.permissions.len() && 0 <= i < query.permissions[p].len()
                    ==> #[trigger] query.permissions[p][i] != 0
        },
{
    if has_nul(query) {
        if exists|p: int| 0 <= p < query.permissions.len() && (#[trigger] query.permissions[p]).contains(0) {
            let p = choose|p: int|
                0 <= p < query.permissions.len() && (#[trigger] query.permissions[p]).contains(0);
            let i = choose|i: int| 0 <= i < query.permissions[p].len() && query.permissions[p][i] == 0;
            assert(query.permissions[p][i] == 0);
        }
    } else {
        assert forall|p: int, i: int|
            0 <= p < query.permissions.len() && 0 <= i < query.permissions[p].len() implies
            #[trigger] query.permissions[p][i] != 0 by {
            assert(!query.permissions[p].contains(0));
        }
        assert forall|i: int| 0 <= i < query.scontext.len() implies #[trigger] query.scontext[i] != 0 by {
            assert(!query.scontext.contains(0));
        }
        assert forall|i: int| 0 <= i < query.tcontext.len() implies #[trigger] query.tcontext[i] != 0 by {
            assert(!query.tcontext.contains(0));
        }
        assert forall|i: int| 0 <= i < query.tclass.len() implies #[trigger] query.tclass[i] != 0 by {
            assert(!query.tclass.contains(0));
        }
    }
}

/// The shim explains exactly if it reports success, its number means a reason, and the detail that
/// it announces is there. The explanation then has the reason that the number means, and the
/// shim's detail byte for byte, or none where none is announced. Otherwise the error is that of
/// the status or, on success, that of an invalid result.
pub proof fn law_explanation_is_what_the_shim_says(status: i32, native: NativeModel)
    ensures
        judged(status, native) is Ok <==> {
            &&& status == 0
            &&& 0 <= native.reason <= 6
            &&& native.detail_len > 0 ==> native.detail is Some
        },
        judged(status, native) matches Ok(why) ==> {
            &&& why.reason is Allow <==> native.reason == 0
            &&& why.reason is DontAudit <==> native.reason == 1
            &&& why.reason is TeRule <==> native.reason == 2
            &&& why.reason is Boolean <==> native.reason == 3
            &&& why.reason is Constraint <==> native.reason == 4
            &&& why.reason is Rbac <==> native.reason == 5
            &&& why.reason is Bounds <==> native.reason == 6
            &&& native.detail_len > 0 ==> why.detail == native.detail
            &&& native.detail_len == 0 ==> why.detail is None
        },
        judged(status, native) matches Err(error) ==> error == if status == 0 {
            SelinuxError::InvalidNativeResult
        } else {
            error::error_of_status(status)
        },
{
}

/// What is remembered of a query decides, wherever it stands among the decisions. If nothing is,
/// a query with a zero byte is an error; and any other gets what the shim says, which is then
/// remembered as the last decision if it explains, and changes nothing if it does not.
pub proof fn law_request_is_answered_once(entries: Seq<CacheEntry>, request: Request)
    requires
        cache::is_cache(entries),
    ensures
        forall|i: int|
            0 <= i < entries.len() && (#[trigger] entries[i]).0 == request.query ==> {
                &&& looked_up(entries, request.query) == Ok::<_, SelinuxError>(Some(entries[i].1))
                &&& requested(entries, request).0 == Ok::<_, SelinuxError>(entries[i].1)
                &&& requested(entries, request).1 == entries.take(i) + entries.skip(i + 1) + seq![
                    entries[i],
                ]
            },
        (forall|i: int| 0 <= i < entries.len() ==> (#[trigger] entries[i]).0 != request.query) ==> {
            let answer = judged(request.status, request.native);
            if has_nul(request.query) {
                &&& looked_up(entries, request.query) == Err::<Option<WhyModel>, _>(
                    SelinuxError::InteriorNul,
                )
                &&& requested(entries, request) == (
                    Err::<WhyModel, SelinuxError>(SelinuxError::InteriorNul),
                    entries,
                )
            } else {
                &&& looked_up(entries, request.query) == Ok::<_, SelinuxError>(None::<WhyModel>)
                &&& requested(entries, request).0 == answer
                &&& answer is Err ==> requested(entries, request).1 == entries
                &&& answer matches Ok(why) ==> requested(entries, request).1 == if entries.len() == 1024 {
                    entries.skip(1) + seq![(request.query, why)]
                } else {
                    entries + seq![(request.query, why)]
                }
            }
        },
{
    cache::lemma_position(entries, request.query);
    cache::law_lookup_finds_the_entry(entries, request.query);
    if let Some(i) = cache::position(entries, request.query) {
        assert(entries[i].0 == request.query);
    }
    if let Ok(why) = judged(request.status, request.native) {
        cache::law_store_comes_last(entries, request.query, why);
    }
}

/// An analyzer remembers 1024 decisions at most, one for each query, and none that it could not
/// have been told by the shim.
pub proof fn law_remembered_decisions_are_sound(entries: Seq<CacheEntry>)
    ensures
        is_sound_cache(entries) <==> {
            &&& entries.len() <= 1024
            &&& forall|i: int, j: int|
                0 <= i < j < entries.len() ==> (#[trigger] entries[i]).0 != (#[trigger] entries[j]).0
            &&& forall|i: int| 0 <= i < entries.len() ==> !has_nul((#[trigger] entries[i]).0)
            &&& forall|i: int|
                0 <= i < entries.len() && (#[trigger] entries[i]).1.detail is Some
                    ==> entries[i].1.detail->0.len() > 0
        },
{
}

} // verus!
