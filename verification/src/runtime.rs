//! The enrichment of events, one native call at a time.
//!
//! [`Runtime::process`] and the functions that continue it decide what to do; whenever the
//! next decision depends on the native shim, they return the call that is to be made, as a
//! variant of [`Progress`], and are continued with its outcome.

use vstd::prelude::*;

use crate::analyzer;
use crate::analyzer::{Analyzer, AnalyzerModel};
use crate::attach;
use crate::cache;
use crate::enrich;
use crate::error;
use crate::error::{Notice, SelinuxError};
use crate::event;
use crate::event::{Event, EventBody, EventModel, ValuesModel, AVC, USER_AVC};
use crate::native::{LaurelSelinux, NativeModel, NativeResult};
use crate::query;
use crate::query::{AvcQuery, QueryModel};

verus! {

/// The part of the program that explains denials, between two events.
pub struct Runtime {
    requested: bool,
    analyzer: Option<Analyzer>,
}

/// The mathematical value of a [`Runtime`].
pub struct RuntimeModel {
    pub requested: bool,
    pub analyzer: Option<AnalyzerModel>,
}

impl View for Runtime {
    type V = RuntimeModel;

    closed spec fn view(&self) -> RuntimeModel {
        RuntimeModel {
            requested: self.requested,
            analyzer: match self.analyzer {
                Some(analyzer) => Some(analyzer@),
                None => None,
            },
        }
    }
}

/// An event waits for the shim to say whether the policy has changed.
pub struct PolicyCheck<'a> {
    analyzer: Analyzer,
    event: Event<'a>,
}

/// The mathematical value of a [`PolicyCheck`].
pub struct PolicyCheckModel {
    pub analyzer: AnalyzerModel,
    pub event: EventModel,
}

impl<'a> PolicyCheck<'a> {
    /// The event that waits.
    pub closed spec fn spec_event(self) -> Event<'a> {
        self.event
    }
}

impl<'a> View for PolicyCheck<'a> {
    type V = PolicyCheckModel;

    closed spec fn view(&self) -> PolicyCheckModel {
        PolicyCheckModel { analyzer: self.analyzer@, event: self.event@ }
    }
}

/// An event waits for an outdated context to be closed.
pub struct Closing<'a> {
    handle: LaurelSelinux,
    event: Event<'a>,
}

/// The mathematical value of a [`Closing`].
pub struct ClosingModel {
    pub handle: usize,
    pub event: EventModel,
}

impl<'a> Closing<'a> {
    /// The event that waits.
    pub closed spec fn spec_event(self) -> Event<'a> {
        self.event
    }
}

impl<'a> View for Closing<'a> {
    type V = ClosingModel;

    closed spec fn view(&self) -> ClosingModel {
        ClosingModel { handle: self.handle.spec_address(), event: self.event@ }
    }
}

/// An event waits for a context to be opened; no other is open.
pub struct Opening<'a> {
    event: Event<'a>,
}

impl<'a> Opening<'a> {
    /// The event that waits.
    pub closed spec fn spec_event(self) -> Event<'a> {
        self.event
    }
}

impl<'a> View for Opening<'a> {
    type V = EventModel;

    closed spec fn view(&self) -> EventModel {
        self.event@
    }
}

/// A record of an event waits for the shim to answer the query that it poses.
pub struct Analysis<'a> {
    analyzer: Analyzer,
    event: Event<'a>,
    ty: u32,
    index: usize,
    query: AvcQuery,
}

/// The mathematical value of an [`Analysis`]: the record is the one at `index` among those of
/// type `ty`.
pub struct AnalysisModel {
    pub analyzer: AnalyzerModel,
    pub event: EventModel,
    pub ty: u32,
    pub index: nat,
    pub query: QueryModel,
}

impl<'a> Analysis<'a> {
    /// The event that waits.
    pub closed spec fn spec_event(self) -> Event<'a> {
        self.event
    }
}

impl<'a> View for Analysis<'a> {
    type V = AnalysisModel;

    closed spec fn view(&self) -> AnalysisModel {
        AnalysisModel {
            analyzer: self.analyzer@,
            event: self.event@,
            ty: self.ty,
            index: self.index as nat,
            query: self.query@,
        }
    }
}

/// The AVC record poses the query, no answer to it is remembered, and the shim can be asked.
pub open spec fn is_posed(analysis: AnalysisModel) -> bool {
    let bodies = event::bodies_of(analysis.event, analysis.ty);
    &&& analysis.ty == AVC || analysis.ty == USER_AVC
    &&& analysis.index < bodies.len()
    &&& query::query_of(bodies[analysis.index as int]) == Some(analysis.query)
    &&& cache::remembered(analysis.analyzer.cache, analysis.query) is None
    &&& !analyzer::has_nul(analysis.query)
}

impl<'a> Analysis<'a> {
    #[verifier::type_invariant]
    spec fn posed(self) -> bool {
        is_posed(self@)
    }
}

/// Where the processing of an event stands.
pub enum Progress<'a> {
    /// The event is done.
    Done(Runtime, Event<'a>),
    /// The shim is to say whether the policy has changed.
    CheckPolicy(PolicyCheck<'a>),
    /// The shim is to close a context.
    Close(Closing<'a>),
    /// The shim is to open a context.
    Open(Opening<'a>),
    /// The shim is to answer a query.
    Analyze(Analysis<'a>),
}

/// The mathematical value of a [`Progress`].
pub enum ProgressModel {
    Done(RuntimeModel, EventModel),
    CheckPolicy(PolicyCheckModel),
    Close(ClosingModel),
    Open(EventModel),
    Analyze(AnalysisModel),
}

impl<'a> View for Progress<'a> {
    type V = ProgressModel;

    open spec fn view(&self) -> ProgressModel {
        match self {
            Progress::Done(runtime, event) => ProgressModel::Done(runtime@, event@),
            Progress::CheckPolicy(check) => ProgressModel::CheckPolicy(check@),
            Progress::Close(closing) => ProgressModel::Close(closing@),
            Progress::Open(opening) => ProgressModel::Open(opening@),
            Progress::Analyze(analysis) => ProgressModel::Analyze(analysis@),
        }
    }
}

/// The context that is open at the shim, if one is.
pub open spec fn open_context(progress: ProgressModel) -> Option<usize> {
    match progress {
        ProgressModel::Done(runtime, _) => match runtime.analyzer {
            Some(analyzer) => Some(analyzer.handle),
            None => None,
        },
        ProgressModel::CheckPolicy(check) => Some(check.analyzer.handle),
        ProgressModel::Close(closing) => Some(closing.handle),
        ProgressModel::Open(_) => None,
        ProgressModel::Analyze(analysis) => Some(analysis.analyzer.handle),
    }
}

impl<'a> Progress<'a> {
    /// The event itself.
    pub open spec fn spec_event(self) -> Event<'a> {
        match self {
            Progress::Done(_, event) => event,
            Progress::CheckPolicy(check) => check.spec_event(),
            Progress::Close(closing) => closing.spec_event(),
            Progress::Open(opening) => opening.spec_event(),
            Progress::Analyze(analysis) => analysis.spec_event(),
        }
    }
}

impl<'a> Progress<'a> {
    /// The address of the context that is open at the shim, if one is.
    pub fn context(&self) -> (address: Option<usize>)
        ensures
            address == open_context(self@),
    {
        match self {
            Progress::Done(runtime, _) => match &runtime.analyzer {
                Some(analyzer) => Some(analyzer.address()),
                None => None,
            },
            Progress::CheckPolicy(check) => Some(check.address()),
            Progress::Close(closing) => Some(closing.address()),
            Progress::Open(_) => None,
            Progress::Analyze(analysis) => Some(analysis.address()),
        }
    }
}

/// Two events are the same but for the bodies of AVC records.
pub open spec fn same_but_avc(before: Event<'_>, after: Event<'_>) -> bool {
    &&& after.is_filtered == before.is_filtered
    &&& after.body@.len() == before.body@.len()
    &&& forall|k: int|
        #![trigger after.body@[k]]
        0 <= k < before.body@.len() ==> {
            &&& after.body@[k].0 == before.body@[k].0
            &&& before.body@[k].0 != AVC && before.body@[k].0 != USER_AVC ==> after.body@[k]
                == before.body@[k]
        }
}

/// A step of the processing of an event: where it stands, and what the log should hear of.
pub struct Step<'a> {
    pub progress: Progress<'a>,
    pub notices: Vec<Notice>,
}

/// The mathematical value of a [`Step`].
#[verifier::ext_equal]
pub struct StepModel {
    pub progress: ProgressModel,
    pub notices: Seq<Notice>,
}

impl<'a> View for Step<'a> {
    type V = StepModel;

    open spec fn view(&self) -> StepModel {
        StepModel { progress: self.progress@, notices: self.notices@ }
    }
}

/// Where a new runtime stands.
pub enum Startup {
    /// It is ready.
    Ready(Runtime),
    /// The shim is to open a context.
    Open(FirstOpening),
}

/// A new runtime waits for its first context to be opened.
pub struct FirstOpening {}

/// The runtime for a context that the shim was asked to open, and what the log should hear.
///
/// Without a context the runtime goes on, and lets events pass as they are.
pub open spec fn reloaded(status: i32, handle: usize) -> (RuntimeModel, Notice) {
    match analyzer::opened(status, handle) {
        Ok(Some(analyzer)) => (
            RuntimeModel { requested: true, analyzer: Some(analyzer) },
            Notice::Initialized,
        ),
        Ok(None) => (RuntimeModel { requested: true, analyzer: None }, Notice::NotEnabled),
        Err(error) => (RuntimeModel { requested: true, analyzer: None }, Notice::Unavailable(error)),
    }
}

/// Whether an event has records that could be explained: it is not filtered out, and has AVC
/// records of the kernel or of user space.
pub open spec fn is_relevant(event: EventModel) -> bool {
    !event.is_filtered && (event::has_type(event, AVC) || event::has_type(event, USER_AVC))
}

/// The first step with an event. It is done at once unless enrichment was requested, the event
/// is relevant, and there is an analyzer.
pub open spec fn begun(runtime: RuntimeModel, event: EventModel) -> ProgressModel {
    match runtime.analyzer {
        Some(analyzer) => if runtime.requested && is_relevant(event) {
            ProgressModel::CheckPolicy(PolicyCheckModel { analyzer, event })
        } else {
            ProgressModel::Done(runtime, event)
        },
        None => ProgressModel::Done(runtime, event),
    }
}

/// Goes on with the bodies of type `ty` from `index` on, and after the AVC records of the
/// kernel with those of user space.
pub open spec fn continued(analyzer: AnalyzerModel, event: EventModel, ty: u32, index: nat) -> StepModel
    decreases
            if ty == AVC {
                1int
            } else {
                0int
            },
{
    let done = enrich::sweep(analyzer.cache, event::bodies_of(event, ty), index);
    let analyzer = AnalyzerModel { cache: done.cache, ..analyzer };
    let event = event::with_bodies(event, ty, done.bodies);
    match done.stop {
        Some((index, query)) => StepModel {
            progress: ProgressModel::Analyze(AnalysisModel { analyzer, event, ty, index, query }),
            notices: done.notices,
        },
        None => if ty == AVC {
            let rest = continued(analyzer, event, USER_AVC, 0);
            StepModel { notices: done.notices + rest.notices, ..rest }
        } else {
            StepModel {
                progress: ProgressModel::Done(
                    RuntimeModel { requested: true, analyzer: Some(analyzer) },
                    event,
                ),
                notices: done.notices,
            }
        },
    }
}

/// The step after the shim has spoken of the policy. If the policy has changed, or if that
/// cannot be told, the context is closed; otherwise the event's bodies are gone through.
pub open spec fn policy_answered(check: PolicyCheckModel, status: i32, changed: i32) -> StepModel {
    let closing = ProgressModel::Close(
        ClosingModel { handle: check.analyzer.handle, event: check.event },
    );
    match analyzer::generation(status, changed) {
        Ok(false) => continued(check.analyzer, check.event, AVC, 0),
        Ok(true) => StepModel { progress: closing, notices: Seq::empty() },
        Err(error) => StepModel {
            progress: closing,
            notices: seq![Notice::PolicyCheckFailed(error)],
        },
    }
}

/// The step after a context was to be opened. With an analyzer the event's bodies are gone
/// through; without one the event is done.
pub open spec fn open_answered(event: EventModel, status: i32, handle: usize) -> StepModel {
    let (runtime, notice) = reloaded(status, handle);
    match runtime.analyzer {
        Some(analyzer) => {
            let rest = continued(analyzer, event, AVC, 0);
            StepModel { notices: seq![notice] + rest.notices, ..rest }
        },
        None => StepModel {
            progress: ProgressModel::Done(runtime, event),
            notices: seq![notice],
        },
    }
}

/// The step after the shim has answered a query. An explanation is remembered and written into
/// the record; a failure leaves the record as it was. Either way the next record follows.
pub open spec fn analysis_answered(
    analysis: AnalysisModel,
    status: i32,
    native: NativeModel,
) -> StepModel {
    let AnalysisModel { analyzer, event, ty, index, query } = analysis;
    match analyzer::judged(status, native) {
        Ok(why) => {
            let bodies = event::bodies_of(event, ty);
            let explained = bodies.update(
                index as int,
                attach::attached(bodies[index as int], why),
            );
            continued(
                AnalyzerModel { cache: cache::stored(analyzer.cache, query, why), ..analyzer },
                event::with_bodies(event, ty, explained),
                ty,
                index + 1,
            )
        },
        Err(error) => {
            let rest = continued(analyzer, event, ty, index + 1);
            StepModel { notices: seq![Notice::ReasoningFailed(error)] + rest.notices, ..rest }
        },
    }
}

impl Runtime {
    /// A new runtime. If enrichment is requested, a context is to be opened first.
    pub fn new(requested: bool) -> (startup: Startup)
        ensures
            match startup {
                Startup::Ready(runtime) => !requested && runtime@ == (RuntimeModel {
                    requested: false,
                    analyzer: None,
                }),
                Startup::Open(_) => requested,
            },
    {
        if requested {
            Startup::Open(FirstOpening {  })
        } else {
            Startup::Ready(Runtime { requested, analyzer: None })
        }
    }

    /// The runtime for a context that the shim was asked to open, and what the log should hear.
    fn reload(status: i32, handle: usize) -> (reloaded_runtime: (Runtime, Notice))
        ensures
            (reloaded_runtime.0@, reloaded_runtime.1) == reloaded(status, handle),
            reloaded_runtime.0@.requested,
            reloaded_runtime.0@.analyzer is Some <==> status == 0 && handle != 0,
            reloaded_runtime.0@.analyzer matches Some(analyzer) ==> analyzer.handle == handle
                && analyzer.cache.len() == 0,
            reloaded_runtime.1 is Initialized <==> status == 0 && handle != 0,
            reloaded_runtime.1 is NotEnabled <==> status == 1,
            reloaded_runtime.1 is Initialized || reloaded_runtime.1 is NotEnabled || reloaded_runtime.1 is Unavailable,
    {
        match Analyzer::open(status, handle) {
            Ok(Some(analyzer)) => (
                Runtime { requested: true, analyzer: Some(analyzer) },
                Notice::Initialized,
            ),
            Ok(None) => (Runtime { requested: true, analyzer: None }, Notice::NotEnabled),
            Err(error) => (
                Runtime { requested: true, analyzer: None },
                Notice::Unavailable(error),
            ),
        }
    }

    /// Begins with an event.
    pub fn process<'a>(self, event: Event<'a>) -> (progress: Progress<'a>)
        ensures
            progress@ == begun(self@, event@),
            progress.spec_event() == event,
            progress matches Progress::Done(runtime, passed) ==> runtime == self && passed == event,
            progress is CheckPolicy <==> {
                &&& self@.requested
                &&& self@.analyzer is Some
                &&& !event.is_filtered
                &&& exists|k: int|
                    0 <= k < event.body@.len() && ((#[trigger] event.body@[k]).0 == 1400
                        || event.body@[k].0 == 1107)
            },
            progress is CheckPolicy || progress is Done,
            progress matches Progress::CheckPolicy(check) ==> Some(check@.analyzer) == self@.analyzer,
    {
        if !self.requested || event.is_filtered {
            return Progress::Done(self, event);
        }
        proof {
            event::lemma_has_type(event, AVC);
            event::lemma_has_type(event, USER_AVC);
        }
        if !event.body.contains_key(AVC) && !event.body.contains_key(USER_AVC) {
            return Progress::Done(self, event);
        }
        match self.analyzer {
            Some(analyzer) => Progress::CheckPolicy(PolicyCheck { analyzer, event }),
            None => Progress::Done(Runtime { requested: self.requested, analyzer: None }, event),
        }
    }

    /// Ends the runtime and hands out its context, if it has one, which is then to be closed.
    pub fn into_handle(self) -> (handle: Option<LaurelSelinux>)
        ensures
            match handle {
                Some(context) => self@.analyzer matches Some(analyzer) && analyzer.handle
                    == context.spec_address(),
                None => self@.analyzer is None,
            },
    {
        match self.analyzer {
            Some(analyzer) => Some(analyzer.into_handle()),
            None => None,
        }
    }
}

impl FirstOpening {
    /// The runtime for the outcome of opening its context, and what the log should hear of it.
    pub fn opened(self, status: i32, handle: usize) -> (ready: (Runtime, Notice))
        ensures
            (ready.0@, ready.1) == reloaded(status, handle),
            ready.0@.requested,
            ready.0@.analyzer is Some <==> status == 0 && handle != 0,
            ready.0@.analyzer matches Some(analyzer) ==> analyzer.handle == handle
                && analyzer.cache.len() == 0,
            ready.1 is Initialized <==> status == 0 && handle != 0,
            ready.1 is NotEnabled <==> status == 1,
            ready.1 is Initialized || ready.1 is NotEnabled || ready.1 is Unavailable,
    {
        Runtime::reload(status, handle)
    }
}

/// Goes on with the bodies of type `ty` from `index` on.
fn go_on<'a>(
    analyzer: Analyzer,
    event: Event<'a>,
    ty: u32,
    index: usize,
    notices: Vec<Notice>,
) -> (step: Step<'a>)
    requires
        ty == AVC || ty == USER_AVC,
    ensures
        ({
            let rest = continued(analyzer@, event@, ty, index as nat);
            step@ == (StepModel { notices: notices@ + rest.notices, ..rest })
        }),
        step.progress is Done || step.progress is Analyze,
        same_but_avc(event, step.progress.spec_event()),
    decreases
            if ty == AVC {
                1int
            } else {
                0int
            },
{
    let mut analyzer = analyzer;
    let mut event = event;
    let mut notices = notices;
    let ghost given = event;
    let ghost before = event@;
    let ghost heard = notices@;
    let ghost analyzer_before = analyzer@;
    let ghost from = index as nat;
    let ghost done = enrich::sweep(analyzer_before.cache, event::bodies_of(before, ty), from);
    let stop = match event.find(ty) {
        Some(k) => {
            let Event { is_filtered, body } = event;
            let mut groups = body.into_groups();
            let stop = enrich::enrich_values(
                &mut analyzer,
                &mut groups[k].1,
                index,
                &mut notices,
            );
            event = Event { is_filtered, body: EventBody::from_groups(groups) };
            proof {
                event::lemma_group_position(before.body, ty);
                assert(before.body[k as int].0 == given.body@[k as int].0);
            }
            assert(event@.body =~= event::with_bodies(before, ty, done.bodies).body);
            assert(same_but_avc(given, event));
            stop
        },
        None => {
            assert(notices@ =~= heard + done.notices);
            None
        },
    };
    match stop {
        Some((index, query)) => {
            proof {
                enrich::lemma_sweep(analyzer_before.cache, event::bodies_of(before, ty), from);
                event::lemma_with_bodies(before, ty, done.bodies, ty);
            }
            Step {
                progress: Progress::Analyze(Analysis { analyzer, event, ty, index, query }),
                notices,
            }
        },
        None => {
            if ty == AVC {
                let ghost rest = continued(analyzer@, event@, USER_AVC, 0);
                assert(heard + done.notices + rest.notices =~= heard + (done.notices
                    + rest.notices));
                go_on(analyzer, event, USER_AVC, 0, notices)
            } else {
                Step {
                    progress: Progress::Done(
                        Runtime { requested: true, analyzer: Some(analyzer) },
                        event,
                    ),
                    notices,
                }
            }
        },
    }
}

impl<'a> PolicyCheck<'a> {
    /// The address of the context to ask.
    pub fn address(&self) -> (address: usize)
        ensures
            address == self@.analyzer.handle,
            address != 0,
    {
        self.analyzer.address()
    }

    /// Goes on with what the shim says of the policy.
    pub fn answered(self, status: i32, changed: i32) -> (step: Step<'a>)
        ensures
            step@ == policy_answered(self@, status, changed),
            same_but_avc(self.spec_event(), step.progress.spec_event()),
            step.progress is Close ==> step.progress.spec_event() == self.spec_event(),
            step.progress is Close <==> !(status == 0 && changed == 0),
            step.progress matches Progress::Close(closing) ==> closing@.handle == self@.analyzer.handle,
            step.progress is Close ==> step.notices@.len() == if status == 0 && changed == 1 {
                0int
            } else {
                1int
            },
    {
        let mut notices: Vec<Notice> = Vec::new();
        let outdated = match Analyzer::policy_changed(status, changed) {
            Ok(changed) => changed,
            Err(error) => {
                notices.push(Notice::PolicyCheckFailed(error));
                assert(notices@ =~= seq![Notice::PolicyCheckFailed(error)]);
                true
            },
        };
        if outdated {
            let closing = Closing { handle: self.analyzer.into_handle(), event: self.event };
            Step { progress: Progress::Close(closing), notices }
        } else {
            let ghost rest = continued(self.analyzer@, self.event@, AVC, 0);
            assert(Seq::<Notice>::empty() + rest.notices =~= rest.notices);
            go_on(self.analyzer, self.event, AVC, 0, notices)
        }
    }
}

impl<'a> Closing<'a> {
    /// The address of the context to close.
    pub fn address(&self) -> (address: usize)
        ensures
            address == self@.handle,
            address != 0,
    {
        self.handle.address()
    }

    /// Goes on once the context is closed.
    pub fn closed(self) -> (progress: Progress<'a>)
        ensures
            progress@ == ProgressModel::Open(self@.event),
            progress.spec_event() == self.spec_event(),
    {
        Progress::Open(Opening { event: self.event })
    }
}

impl<'a> Opening<'a> {
    /// Goes on with the outcome of opening a context.
    pub fn opened(self, status: i32, handle: usize) -> (step: Step<'a>)
        ensures
            step@ == open_answered(self@, status, handle),
            same_but_avc(self.spec_event(), step.progress.spec_event()),
            reloaded(status, handle).0.analyzer is None ==> step.progress.spec_event()
                == self.spec_event(),
            !(status == 0 && handle != 0) ==> step.progress is Done && step.progress.spec_event()
                == self.spec_event(),
    {
        let (runtime, notice) = Runtime::reload(status, handle);
        let mut notices: Vec<Notice> = Vec::new();
        notices.push(notice);
        assert(notices@ =~= seq![notice]);
        match runtime.analyzer {
            Some(analyzer) => go_on(analyzer, self.event, AVC, 0, notices),
            None => Step {
                progress: Progress::Done(
                    Runtime { requested: runtime.requested, analyzer: None },
                    self.event,
                ),
                notices,
            },
        }
    }
}

impl<'a> Analysis<'a> {
    /// The address of the context to ask.
    pub fn address(&self) -> (address: usize)
        ensures
            address == self@.analyzer.handle,
            address != 0,
    {
        self.analyzer.address()
    }

    /// The query to ask; no zero byte stands in it.
    pub fn query(&self) -> (query: &AvcQuery)
        ensures
            query@ == self@.query,
            is_posed(self@),
    {
        proof {
            use_type_invariant(self);
        }
        &self.query
    }

    /// Goes on with the shim's answer.
    pub fn answered(self, status: i32, native: NativeResult) -> (step: Step<'a>)
        ensures
            step@ == analysis_answered(self@, status, native@),
            same_but_avc(self.spec_event(), step.progress.spec_event()),
    {
        proof {
            use_type_invariant(&self);
            event::lemma_group_position(self.event@.body, self.ty);
            let k = event::group_position(self.event@.body, self.ty)->0;
            event::lemma_len_fits(self.event.body@[k].1);
        }
        let Analysis { analyzer, event, ty, index, query } = self;
        let mut analyzer = analyzer;
        let mut event = event;
        let mut notices: Vec<Notice> = Vec::new();
        let ghost before = event@;
        match analyzer.analyze(&query, status, native) {
            Ok(result) => {
                if let Some(k) = event.find(ty) {
                    let Event { is_filtered, body } = event;
                    let mut groups = body.into_groups();
                    groups[k].1.attach_at(index, &result);
                    event = Event { is_filtered, body: EventBody::from_groups(groups) };
                    let ghost bodies = event::bodies_of(before, ty);
                    assert(event@.body =~= event::with_bodies(
                        before,
                        ty,
                        bodies.update(
                            index as int,
                            attach::attached(bodies[index as int], result@),
                        ),
                    ).body);
                }
            },
            Err(error) => {
                notices.push(Notice::ReasoningFailed(error));
            },
        }
        let ghost rest = continued(analyzer@, event@, ty, index as nat + 1);
        assert(Seq::<Notice>::empty() + rest.notices =~= rest.notices);
        go_on(analyzer, event, ty, index + 1, notices)
    }
}

/// The policy is checked exactly if enrichment was requested, an analyzer is at work, the event is
/// not filtered out, and some group of it is of type `AVC` or `USER_AVC`, wherever that stands and
/// whatever other groups there are. In every other case the event is done at once, and neither
/// the runtime nor the event has changed.
pub proof fn law_events_with_avc_records_are_taken_up(runtime: RuntimeModel, event: EventModel)
    ensures
        begun(runtime, event) is CheckPolicy <==> {
            &&& runtime.requested
            &&& runtime.analyzer is Some
            &&& !event.is_filtered
            &&& exists|k: int|
                0 <= k < event.body.len() && ((#[trigger] event.body[k]).0 == 1400 || event.body[k].0
                    == 1107)
        },
        begun(runtime, event) matches ProgressModel::CheckPolicy(check) ==> Some(check.analyzer)
            == runtime.analyzer && check.event == event,
        !(begun(runtime, event) is CheckPolicy) ==> begun(runtime, event) == ProgressModel::Done(
            runtime,
            event,
        ),
        is_relevant(event) <==> !event.is_filtered && exists|k: int|
            0 <= k < event.body.len() && ((#[trigger] event.body[k]).0 == 1400 || event.body[k].0 == 1107),
{
    event::lemma_group_position(event.body, AVC);
    event::lemma_group_position(event.body, USER_AVC);
    if let Some(k) = event::group_position(event.body, AVC) {
        assert(event.body[k].0 == 1400);
    } else if let Some(k) = event::group_position(event.body, USER_AVC) {
        assert(event.body[k].0 == 1107);
    }
}

/// A runtime works with any context that the shim has opened, and remembers nothing of an earlier
/// one; the log hears which of the three ways the opening went.
pub proof fn law_opening_is_reported(status: i32, handle: usize)
    ensures
        status == 0 && handle != 0 ==> reloaded(status, handle) == (
            RuntimeModel {
                requested: true,
                analyzer: Some(AnalyzerModel { handle, cache: Seq::empty() }),
            },
            Notice::Initialized,
        ),
        !(status == 0 && handle != 0) ==> reloaded(status, handle) == (
            RuntimeModel { requested: true, analyzer: None },
            if status == 1 {
                Notice::NotEnabled
            } else if status == 0 {
                Notice::Unavailable(SelinuxError::InvalidNativeResult)
            } else {
                Notice::Unavailable(error::error_of_status(status))
            },
        ),
{
}

/// Records are gone through only where the shim says that the policy is unchanged. Where it says
/// anything else the context of the analyzer is to be closed, the event waits as it is, and the
/// log hears of it unless the shim said that the policy has changed.
pub proof fn law_context_is_kept_while_the_policy_is(
    check: PolicyCheckModel,
    status: i32,
    changed: i32,
)
    ensures
        status == 0 && changed == 0 ==> policy_answered(check, status, changed) == continued(
            check.analyzer,
            check.event,
            1400,
            0,
        ),
        !(status == 0 && changed == 0) ==> policy_answered(check, status, changed).progress
            == ProgressModel::Close(ClosingModel { handle: check.analyzer.handle, event: check.event }),
        status == 0 && changed == 1 ==> policy_answered(check, status, changed).notices
            == Seq::<Notice>::empty(),
        status == 0 && changed != 0 && changed != 1 ==> policy_answered(check, status, changed).notices
            == seq![Notice::PolicyCheckFailed(SelinuxError::InvalidNativeResult)],
        status != 0 ==> policy_answered(check, status, changed).notices == seq![
            Notice::PolicyCheckFailed(error::error_of_status(status)),
        ],
{
}

/// With a new context the records are gone through from the first on, with nothing remembered.
/// Without one the event is done as it is. The log hears first how the opening went.
pub proof fn law_records_follow_the_opening(event: EventModel, status: i32, handle: usize)
    ensures
        ({
            let step = open_answered(event, status, handle);
            if status == 0 && handle != 0 {
                let rest = continued(
                    AnalyzerModel { handle, cache: Seq::empty() },
                    event,
                    1400,
                    0,
                );
                &&& step.progress == rest.progress
                &&& step.notices == seq![Notice::Initialized] + rest.notices
            } else {
                &&& step.progress == ProgressModel::Done(
                    RuntimeModel { requested: true, analyzer: None },
                    event,
                )
                &&& step.notices == seq![
                    if status == 1 {
                        Notice::NotEnabled
                    } else if status == 0 {
                        Notice::Unavailable(SelinuxError::InvalidNativeResult)
                    } else {
                        Notice::Unavailable(error::error_of_status(status))
                    },
                ]
            }
        }),
{
}

/// Where the shim explains, the explanation is written into the record that was asked about and
/// into no other, and is remembered. Where it does not, nothing changes but that the log hears of
/// it. Either way the next record of the same type follows.
pub proof fn law_answer_goes_to_its_record(
    analysis: AnalysisModel,
    status: i32,
    native: NativeModel,
    k: int,
)
    requires
        forall|i: int, j: int|
            0 <= i < j < analysis.event.body.len() ==> (#[trigger] analysis.event.body[i]).0 != (
            #[trigger] analysis.event.body[j]).0,
        0 <= k < analysis.event.body.len(),
        analysis.event.body[k].0 == analysis.ty,
        analysis.index < analysis.event.body[k].1.bodies.len(),
    ensures
        ({
            let step = analysis_answered(analysis, status, native);
            let values = analysis.event.body[k].1;
            match analyzer::judged(status, native) {
                Ok(why) => step == continued(
                    AnalyzerModel {
                        handle: analysis.analyzer.handle,
                        cache: cache::stored(analysis.analyzer.cache, analysis.query, why),
                    },
                    EventModel {
                        is_filtered: analysis.event.is_filtered,
                        body: analysis.event.body.update(
                            k,
                            (
                                analysis.ty,
                                ValuesModel {
                                    multi: values.multi,
                                    bodies: values.bodies.update(
                                        analysis.index as int,
                                        attach::attached(values.bodies[analysis.index as int], why),
                                    ),
                                },
                            ),
                        ),
                    },
                    analysis.ty,
                    analysis.index + 1,
                ),
                Err(error) => {
                    let rest = continued(
                        analysis.analyzer,
                        analysis.event,
                        analysis.ty,
                        analysis.index + 1,
                    );
                    &&& step.progress == rest.progress
                    &&& step.notices == seq![Notice::ReasoningFailed(error)] + rest.notices
                },
            }
        }),
{
    let values = analysis.event.body[k].1;
    if let Ok(why) = analyzer::judged(status, native) {
        let explained = values.bodies.update(
            analysis.index as int,
            attach::attached(values.bodies[analysis.index as int], why),
        );
        event::law_type_is_found_anywhere(analysis.event, analysis.ty, explained);
    }
}

/// The records of a type are gone through where they stand. If the shim has to be asked about one
/// of them, the event waits for that. Otherwise those of user space follow those of the kernel,
/// and after them the event is done. Where an event has no records of a type, the same holds as
/// after the last of them.
pub proof fn law_kernel_records_precede_those_of_user_space(
    analyzer: AnalyzerModel,
    event: EventModel,
    ty: u32,
    index: nat,
)
    requires
        ty == 1400 || ty == 1107,
        forall|i: int, j: int|
            0 <= i < j < event.body.len() ==> (#[trigger] event.body[i]).0 != (#[trigger] event.body[j]).0,
    ensures
        forall|k: int|
            0 <= k < event.body.len() && (#[trigger] event.body[k]).0 == ty ==> ({
                let done = enrich::sweep(analyzer.cache, event.body[k].1.bodies, index);
                let later = AnalyzerModel { handle: analyzer.handle, cache: done.cache };
                let swept = EventModel {
                    is_filtered: event.is_filtered,
                    body: event.body.update(
                        k,
                        (ty, ValuesModel { multi: event.body[k].1.multi, bodies: done.bodies }),
                    ),
                };
                let rest = continued(later, swept, 1107, 0);
                continued(analyzer, event, ty, index) == match done.stop {
                    Some((position, query)) => StepModel {
                        progress: ProgressModel::Analyze(
                            AnalysisModel {
                                analyzer: later,
                                event: swept,
                                ty,
                                index: position,
                                query,
                            },
                        ),
                        notices: done.notices,
                    },
                    None => if ty == 1400 {
                        StepModel { progress: rest.progress, notices: done.notices + rest.notices }
                    } else {
                        StepModel {
                            progress: ProgressModel::Done(
                                RuntimeModel { requested: true, analyzer: Some(later) },
                                swept,
                            ),
                            notices: done.notices,
                        }
                    },
                }
            }),
        (forall|k: int| 0 <= k < event.body.len() ==> (#[trigger] event.body[k]).0 != ty) ==> continued(
            analyzer,
            event,
            ty,
            index,
        ) == if ty == 1400 {
            continued(analyzer, event, 1107, 0)
        } else {
            StepModel {
                progress: ProgressModel::Done(
                    RuntimeModel { requested: true, analyzer: Some(analyzer) },
                    event,
                ),
                notices: Seq::empty(),
            }
        },
{
    let done = enrich::sweep(analyzer.cache, event::bodies_of(event, ty), index);
    event::law_type_is_found_anywhere(event, ty, done.bodies);
    if forall|k: int| 0 <= k < event.body.len() ==> (#[trigger] event.body[k]).0 != ty {
        assert(done.notices =~= Seq::<Notice>::empty());
        let rest = continued(analyzer, event, 1107, 0);
        assert(done.notices + rest.notices =~= rest.notices);
    }
}

/// The context that is open is that of the analyzer, or the one that is about to be closed; while
/// one is about to be opened, none is.
pub proof fn law_open_context_is_the_analyzers(progress: ProgressModel)
    ensures
        match progress {
            ProgressModel::Done(runtime, _) => {
                &&& runtime.analyzer is None ==> open_context(progress) is None
                &&& runtime.analyzer matches Some(analyzer) ==> open_context(progress) == Some(
                    analyzer.handle,
                )
            },
            ProgressModel::CheckPolicy(check) => open_context(progress) == Some(check.analyzer.handle),
            ProgressModel::Close(closing) => open_context(progress) == Some(closing.handle),
            ProgressModel::Open(_) => open_context(progress) is None,
            ProgressModel::Analyze(analysis) => open_context(progress) == Some(analysis.analyzer.handle),
        },
{
}

/// The shim is asked about a record of one of the two types that poses the query, if no decision
/// is remembered for it and the shim takes it.
pub proof fn law_query_asked_is_posed(analysis: AnalysisModel)
    requires
        forall|i: int, j: int|
            0 <= i < j < analysis.event.body.len() ==> (#[trigger] analysis.event.body[i]).0 != (
            #[trigger] analysis.event.body[j]).0,
    ensures
        is_posed(analysis) <==> {
            &&& analysis.ty == 1400 || analysis.ty == 1107
            &&& exists|k: int|
                0 <= k < analysis.event.body.len() && (#[trigger] analysis.event.body[k]).0 == analysis.ty
                    && analysis.index < analysis.event.body[k].1.bodies.len() && query::query_of(
                    analysis.event.body[k].1.bodies[analysis.index as int],
                ) == Some(analysis.query)
            &&& forall|i: int|
                0 <= i < analysis.analyzer.cache.len() ==> (#[trigger] analysis.analyzer.cache[i]).0
                    != analysis.query
            &&& !analyzer::has_nul(analysis.query)
        },
{
    event::law_type_is_found_anywhere(analysis.event, analysis.ty, Seq::empty());
    event::lemma_group_position(analysis.event.body, analysis.ty);
    cache::lemma_position(analysis.analyzer.cache, analysis.query);
    if let Some(k) = event::group_position(analysis.event.body, analysis.ty) {
        assert(analysis.event.body[k].0 == analysis.ty);
    }
    if let Some(i) = cache::position(analysis.analyzer.cache, analysis.query) {
        assert(analysis.analyzer.cache[i].0 == analysis.query);
    }
}

/// A step stands for where the event is and for all that the log should hear, in order; and where
/// the event is, for what it waits for.
pub proof fn law_step_is_its_parts(step: Step<'_>)
    ensures
        step@.notices == step.notices@,
        match step.progress {
            Progress::Done(runtime, event) => step@.progress == ProgressModel::Done(runtime@, event@),
            Progress::CheckPolicy(check) => step@.progress == ProgressModel::CheckPolicy(check@),
            Progress::Close(closing) => step@.progress == ProgressModel::Close(closing@),
            Progress::Open(opening) => step@.progress == ProgressModel::Open(opening@),
            Progress::Analyze(analysis) => step@.progress == ProgressModel::Analyze(analysis@),
        },
{
}

/// Two events are the same but for their AVC records exactly if they are alike in their mark and
/// in the types of their groups, and each group of another type is the same.
pub proof fn law_only_avc_groups_differ(before: Event<'_>, after: Event<'_>)
    ensures
        same_but_avc(before, after) <==> {
            &&& before.is_filtered == after.is_filtered
            &&& before.body@.len() == after.body@.len()
            &&& forall|k: int|
                0 <= k < before.body@.len() ==> (#[trigger] after.body@[k]).0 == before.body@[k].0
            &&& forall|k: int|
                0 <= k < before.body@.len() && before.body@[k].0 != 1400 && before.body@[k].0 != 1107
                    ==> #[trigger] after.body@[k] == before.body@[k]
        },
{
}

} // verus!
