use linux_audit_parser::{Body, MessageType, Value};
use selinux_why::analyzer::Analyzer;
use selinux_why::error::{Notice, SelinuxError};
use selinux_why::event::{Event, EventBody, EventValues, AVC, USER_AVC};
use selinux_why::native::{self, LaurelSelinux, NativeResult};
use selinux_why::query::{extract_query, AvcQuery};
use selinux_why::runtime::{Progress, Runtime, Startup};
use selinux_why::why::WhyReason;

/// A shim that gives fixed answers and keeps a list of the calls.
struct Shim {
    policy: (i32, i32),
    open: (i32, usize),
    calls: Vec<String>,
}

impl Shim {
    fn new() -> Shim {
        Shim { policy: (native::OK, 0), open: (native::OK, 0x1000), calls: vec![] }
    }

    fn answer(&self, query: &AvcQuery) -> (i32, NativeResult) {
        if query.tclass == b"unknown" {
            return (native::BAD_CLASS, NativeResult::without_detail(-1, 0));
        }
        let answer = if query.tclass == b"boolean" {
            NativeResult::with_detail(native::BOOLEAN, query.scontext.clone())
        } else {
            NativeResult::without_detail(native::TERULE, 0)
        };
        (native::OK, answer)
    }
}

fn start(shim: &mut Shim) -> Runtime {
    match Runtime::new(true) {
        Startup::Open(opening) => {
            let (runtime, notice) = opening.opened(shim.open.0, shim.open.1);
            shim.calls.push(notice.message());
            runtime
        }
        Startup::Ready(_) => panic!("a context has to be opened"),
    }
}

fn process<'a>(
    runtime: Runtime,
    event: Event<'a>,
    shim: &mut Shim,
) -> (Runtime, Event<'a>, Vec<Notice>) {
    let mut notices = vec![];
    let mut progress = runtime.process(event);
    loop {
        let step = match progress {
            Progress::Done(runtime, event) => return (runtime, event, notices),
            Progress::CheckPolicy(check) => {
                shim.calls.push(format!("check {:x}", check.address()));
                check.answered(shim.policy.0, shim.policy.1)
            }
            Progress::Close(closing) => {
                shim.calls.push(format!("close {:x}", closing.address()));
                progress = closing.closed();
                continue;
            }
            Progress::Open(opening) => {
                shim.calls.push("open".to_string());
                opening.opened(shim.open.0, shim.open.1)
            }
            Progress::Analyze(analysis) => {
                let name = String::from_utf8_lossy(&analysis.query().scontext).into_owned();
                shim.calls.push(format!("analyze {:x} {}", analysis.address(), name));
                let (status, answer) = shim.answer(analysis.query());
                analysis.answered(status, answer)
            }
        };
        notices.extend(step.notices);
        progress = step.progress;
    }
}

fn record(scontext: &str, tclass: &str) -> Body<'static> {
    let mut body = Body::default();
    body.push(("scontext".into(), scontext.into()));
    body.push(("tcontext".into(), "t".into()));
    body.push(("tclass".into(), tclass.into()));
    body.push(("denied".into(), Value::List(vec!["read".into()])));
    body
}

fn event_of(groups: Vec<(u32, EventValues<'static>)>) -> Event<'static> {
    let mut body = EventBody::new();
    for (ty, values) in groups {
        assert!(body.insert(ty, values).is_none());
    }
    Event { is_filtered: false, body }
}

fn single(ty: u32, body: Body<'static>) -> Event<'static> {
    event_of(vec![(ty, EventValues::Single(body))])
}

fn text(body: &Body<'_>, name: &str) -> Option<Vec<u8>> {
    body.get(name).cloned().and_then(|value| value.try_into().ok())
}

fn bodies<'a, 'b>(event: &'b Event<'a>, group: usize) -> Vec<&'b Body<'a>> {
    match &event.body.groups()[group].1 {
        EventValues::Single(body) => vec![body],
        EventValues::Multi(bodies) => bodies.iter().collect(),
    }
}

fn why(event: &Event<'_>, group: usize) -> Vec<Option<String>> {
    bodies(event, group)
        .into_iter()
        .map(|body| text(body, "SELINUX_WHY").map(|bytes| String::from_utf8(bytes).expect("text")))
        .collect()
}

fn terule() -> Option<String> {
    Some("TERULE".to_string())
}

#[test]
fn message_types_are_those_of_the_parser() {
    assert_eq!(AVC, MessageType::AVC.0);
    assert_eq!(USER_AVC, MessageType::USER_AVC.0);
}

#[test]
fn runtime_without_request_is_ready_and_idle() {
    let runtime = match Runtime::new(false) {
        Startup::Ready(runtime) => runtime,
        Startup::Open(_) => panic!("nothing was requested"),
    };
    let mut shim = Shim::new();
    let (runtime, event, notices) = process(runtime, single(AVC, record("s", "file")), &mut shim);
    assert_eq!(why(&event, 0), vec![None]);
    assert!(notices.is_empty());
    assert!(shim.calls.is_empty());
    assert!(runtime.into_handle().is_none());
}

#[test]
fn record_is_explained() {
    let mut shim = Shim::new();
    let runtime = start(&mut shim);
    let (runtime, event, notices) = process(runtime, single(AVC, record("s", "boolean")), &mut shim);
    assert_eq!(why(&event, 0), vec![Some("BOOLEAN".to_string())]);
    assert_eq!(text(bodies(&event, 0)[0], "SELINUX_WHY_DETAIL"), Some(b"s".to_vec()));
    assert!(notices.is_empty());
    assert_eq!(
        shim.calls,
        ["SELinux WHY analyzer initialized", "check 1000", "analyze 1000 s"]
    );
    assert_eq!(runtime.into_handle().map(|handle| handle.address()), Some(0x1000));
}

#[test]
fn remembered_answer_is_not_asked_again() {
    let mut shim = Shim::new();
    let runtime = start(&mut shim);
    let (runtime, first, _) = process(runtime, single(AVC, record("s", "file")), &mut shim);
    let (_, second, _) = process(runtime, single(USER_AVC, record("s", "file")), &mut shim);
    assert_eq!(why(&first, 0), vec![terule()]);
    assert_eq!(why(&second, 0), vec![terule()]);
    assert_eq!(
        shim.calls,
        ["SELinux WHY analyzer initialized", "check 1000", "analyze 1000 s", "check 1000"]
    );
}

#[test]
fn all_records_of_both_types_are_explained_in_order() {
    let mut shim = Shim::new();
    let runtime = start(&mut shim);
    let mut apparmor = Body::default();
    apparmor.push(("apparmor".into(), "STATUS".into()));
    let event = event_of(vec![
            (USER_AVC, EventValues::Single(record("u", "file"))),
            (1300, EventValues::Single(record("x", "file"))),
            (
                AVC,
                EventValues::Multi(vec![
                    record("a", "file"),
                    apparmor,
                    record("a", "file"),
                    record("b", "file"),
                ]),
            ),
        ]);
    let (_, event, notices) = process(runtime, event, &mut shim);
    assert_eq!(why(&event, 0), vec![terule()]);
    assert_eq!(why(&event, 1), vec![None]);
    assert_eq!(why(&event, 2), vec![terule(), None, terule(), terule()]);
    assert!(notices.is_empty());
    assert_eq!(
        shim.calls[1..],
        ["check 1000", "analyze 1000 a", "analyze 1000 b", "analyze 1000 u"]
    );
}

#[test]
fn failed_record_is_left_and_the_next_follows() {
    let mut shim = Shim::new();
    let runtime = start(&mut shim);
    let event = event_of(vec![(
            AVC,
            EventValues::Multi(vec![
                record("a", "unknown"),
                record("nul\0", "file"),
                record("b", "file"),
            ]),
        )]);
    let (_, event, notices) = process(runtime, event, &mut shim);
    assert_eq!(why(&event, 0), vec![None, None, terule()]);
    assert_eq!(
        notices,
        [
            Notice::ReasoningFailed(SelinuxError::BadClass),
            Notice::ReasoningFailed(SelinuxError::InteriorNul),
        ]
    );
    assert_eq!(shim.calls[1..], ["check 1000", "analyze 1000 a", "analyze 1000 b"]);
    assert!(*bodies(&event, 0)[0] == record("a", "unknown"));
}

#[test]
fn filtered_and_other_events_pass() {
    let mut shim = Shim::new();
    let runtime = start(&mut shim);
    let mut event = single(AVC, record("s", "file"));
    event.is_filtered = true;
    let (runtime, event, _) = process(runtime, event, &mut shim);
    assert_eq!(why(&event, 0), vec![None]);
    let (_, event, _) = process(runtime, single(1300, record("s", "file")), &mut shim);
    assert_eq!(why(&event, 0), vec![None]);
    assert_eq!(shim.calls.len(), 1);
}

#[test]
fn changed_policy_makes_all_decisions_void() {
    let mut shim = Shim::new();
    let runtime = start(&mut shim);
    let (runtime, _, _) = process(runtime, single(AVC, record("s", "file")), &mut shim);
    shim.policy = (native::OK, 1);
    shim.open = (native::OK, 0x2000);
    let (runtime, event, notices) = process(runtime, single(AVC, record("s", "file")), &mut shim);
    assert_eq!(why(&event, 0), vec![terule()]);
    assert_eq!(notices, [Notice::Initialized]);
    assert_eq!(
        shim.calls[3..],
        ["check 1000", "close 1000", "open", "analyze 2000 s"]
    );
    assert_eq!(runtime.into_handle().map(|handle| handle.address()), Some(0x2000));
}

#[test]
fn failed_policy_check_reopens() {
    let mut shim = Shim::new();
    let runtime = start(&mut shim);
    shim.policy = (native::POLICY_ERROR, -1);
    let (runtime, event, notices) = process(runtime, single(AVC, record("s", "file")), &mut shim);
    assert_eq!(why(&event, 0), vec![terule()]);
    assert_eq!(
        notices,
        [Notice::PolicyCheckFailed(SelinuxError::Policy), Notice::Initialized]
    );
    shim.policy = (native::OK, 2);
    let (_, _, notices) = process(runtime, single(AVC, record("s", "file")), &mut shim);
    assert_eq!(
        notices,
        [
            Notice::PolicyCheckFailed(SelinuxError::InvalidNativeResult),
            Notice::Initialized,
        ]
    );
}

#[test]
fn events_pass_once_no_context_can_be_opened() {
    let mut shim = Shim::new();
    let runtime = start(&mut shim);
    shim.policy = (native::OK, 1);
    shim.open = (native::BUSY, 0);
    let (runtime, event, notices) = process(runtime, single(AVC, record("s", "file")), &mut shim);
    assert_eq!(why(&event, 0), vec![None]);
    assert_eq!(notices, [Notice::Unavailable(SelinuxError::Busy)]);
    let calls = shim.calls.len();
    shim.open = (native::OK, 0x3000);
    let (runtime, event, _) = process(runtime, single(AVC, record("s", "file")), &mut shim);
    assert_eq!(why(&event, 0), vec![None]);
    assert_eq!(shim.calls.len(), calls);
    assert!(runtime.into_handle().is_none());
}

#[test]
fn explaining_again_changes_nothing() {
    let mut shim = Shim::new();
    let runtime = start(&mut shim);
    let (runtime, once, _) = process(runtime, single(AVC, record("s", "boolean")), &mut shim);
    let copy = bodies(&once, 0)[0].clone();
    let (_, twice, _) = process(runtime, once, &mut shim);
    assert!(*bodies(&twice, 0)[0] == copy);
}

#[test]
fn opening_a_context() {
    assert!(matches!(Analyzer::open(native::DISABLED, 0), Ok(None)));
    assert!(matches!(Analyzer::open(native::NOMEM, 1), Err(SelinuxError::OutOfMemory)));
    assert!(matches!(
        Analyzer::open(native::OK, 0),
        Err(SelinuxError::InvalidNativeResult)
    ));
    let analyzer = match Analyzer::open(native::OK, 9) {
        Ok(Some(analyzer)) => analyzer,
        _ => panic!("a context was opened"),
    };
    assert_eq!(analyzer.address(), 9);
    assert_eq!(analyzer.into_handle().address(), 9);
    assert!(LaurelSelinux::from_address(0).is_none());
}

#[test]
fn start_without_selinux_or_with_an_error() {
    for (status, notice) in [
        (native::DISABLED, Notice::NotEnabled),
        (native::NOMEM, Notice::Unavailable(SelinuxError::OutOfMemory)),
    ] {
        match Runtime::new(true) {
            Startup::Open(opening) => {
                let (runtime, heard) = opening.opened(status, 0);
                assert_eq!(heard, notice);
                assert!(runtime.into_handle().is_none());
            }
            Startup::Ready(_) => panic!("a context has to be opened"),
        }
    }
}

#[test]
fn policy_generations() {
    assert_eq!(Analyzer::policy_changed(native::OK, 0), Ok(false));
    assert_eq!(Analyzer::policy_changed(native::OK, 1), Ok(true));
    assert_eq!(
        Analyzer::policy_changed(native::OK, -1),
        Err(SelinuxError::InvalidNativeResult)
    );
    assert_eq!(
        Analyzer::policy_changed(native::INVALID_ARGUMENT, 1),
        Err(SelinuxError::InvalidArgument)
    );
}

#[test]
fn answers_of_the_shim() {
    let mut analyzer = match Analyzer::open(native::OK, 9) {
        Ok(Some(analyzer)) => analyzer,
        _ => panic!("a context was opened"),
    };
    let query = extract_query(&record("s", "file")).expect("query");
    assert_eq!(analyzer.lookup(&query), Ok(None));
    assert_eq!(
        analyzer.analyze(&query, native::COMPUTE_ERROR, NativeResult::without_detail(0, 0)),
        Err(SelinuxError::Compute)
    );
    assert_eq!(
        analyzer.analyze(&query, native::OK, NativeResult::without_detail(7, 0)),
        Err(SelinuxError::InvalidNativeResult)
    );
    assert_eq!(
        analyzer.analyze(&query, native::OK, NativeResult::without_detail(native::RBAC, 3)),
        Err(SelinuxError::InvalidNativeResult)
    );
    assert_eq!(analyzer.lookup(&query), Ok(None));
    let why = analyzer
        .analyze(&query, native::OK, NativeResult::with_detail(native::RBAC, b"xyz".to_vec()))
        .expect("explanation");
    assert_eq!(why.reason, WhyReason::Rbac);
    assert_eq!(why.detail, Some(b"xyz".to_vec()));
    assert_eq!(analyzer.lookup(&query), Ok(Some(why.clone())));
    let later = NativeResult::without_detail(native::ALLOW, 0);
    assert_eq!(analyzer.analyze(&query, native::OK, later), Ok(why.clone()));
    let later = NativeResult::without_detail(-1, 0);
    assert_eq!(analyzer.analyze(&query, native::BUSY, later), Ok(why));
    let query = extract_query(&record("other", "file")).expect("query");
    let empty = analyzer
        .analyze(&query, native::OK, NativeResult::with_detail(native::ALLOW, vec![]))
        .expect("explanation");
    assert_eq!(empty.detail, None);
}

#[test]
fn zero_byte_anywhere_stops_a_query() {
    let mut analyzer = match Analyzer::open(native::OK, 9) {
        Ok(Some(analyzer)) => analyzer,
        _ => panic!("a context was opened"),
    };
    let plain = extract_query(&record("s", "file")).expect("query");
    let mut query = plain.clone();
    query.tcontext = vec![1, 0];
    assert_eq!(analyzer.lookup(&query), Err(SelinuxError::InteriorNul));
    let mut query = plain.clone();
    query.tclass = vec![0, 1];
    assert_eq!(analyzer.lookup(&query), Err(SelinuxError::InteriorNul));
    let mut query = plain.clone();
    query.permissions.push(vec![b'x', 0, b'y']);
    assert_eq!(analyzer.lookup(&query), Err(SelinuxError::InteriorNul));
    assert_eq!(analyzer.lookup(&plain), Ok(None));
}

#[test]
fn zero_byte_is_refused_whatever_the_answer() {
    let mut analyzer = match Analyzer::open(native::OK, 9) {
        Ok(Some(analyzer)) => analyzer,
        _ => panic!("a context was opened"),
    };
    let mut query = extract_query(&record("s", "file")).expect("query");
    query.scontext.push(0);
    assert_eq!(
        analyzer.analyze(&query, native::OK, NativeResult::without_detail(native::ALLOW, 0)),
        Err(SelinuxError::InteriorNul)
    );
    assert_eq!(analyzer.lookup(&query), Err(SelinuxError::InteriorNul));
}

#[test]
fn detail_and_its_length_belong_together() {
    assert_eq!(
        NativeResult::with_detail(3, b"abc".to_vec()).into_parts(),
        (3, Some(b"abc".to_vec()), 3)
    );
    assert_eq!(NativeResult::without_detail(-1, 5).into_parts(), (-1, None, 5));
}

#[test]
fn processing_an_explained_event_again_changes_nothing() {
    let mut shim = Shim::new();
    let runtime = start(&mut shim);
    let event = event_of(vec![
            (
                AVC,
                EventValues::Multi(vec![
                    record("a", "boolean"),
                    record("b", "unknown"),
                    record("c", "file"),
                ]),
            ),
            (USER_AVC, EventValues::Single(record("d", "boolean"))),
        ]);
    let (runtime, once, _) = process(runtime, event, &mut shim);
    let copies: Vec<Body> = bodies(&once, 0)
        .into_iter()
        .chain(bodies(&once, 1))
        .cloned()
        .collect();
    let (_, twice, _) = process(runtime, once, &mut shim);
    let again: Vec<&Body> = bodies(&twice, 0)
        .into_iter()
        .chain(bodies(&twice, 1))
        .collect();
    assert_eq!(copies.len(), again.len());
    for (before, after) in copies.iter().zip(again) {
        assert!(before == after);
    }
}

#[test]
fn last_answer_is_given_again() {
    let mut analyzer = match Analyzer::open(native::OK, 9) {
        Ok(Some(analyzer)) => analyzer,
        _ => panic!("a context was opened"),
    };
    let kept = extract_query(&record("kept", "file")).expect("query");
    let answer = NativeResult::with_detail(native::BOOLEAN, b"first".to_vec());
    let why = analyzer.analyze(&kept, native::OK, answer).expect("explanation");
    for round in 0..2 {
        for n in 1..1024 {
            let other = extract_query(&record(&format!("{}", n), "file")).expect("query");
            let answer = NativeResult::without_detail(round, 0);
            assert!(analyzer.analyze(&other, native::OK, answer).is_ok());
        }
    }
    let later = NativeResult::without_detail(native::ALLOW, 0);
    assert_eq!(analyzer.analyze(&kept, native::OK, later), Ok(why));
    for n in 0..1024 {
        let other = extract_query(&record(&format!("new{}", n), "file")).expect("query");
        let answer = NativeResult::without_detail(native::RBAC, 0);
        assert!(analyzer.analyze(&other, native::OK, answer).is_ok());
    }
    assert_eq!(analyzer.lookup(&kept), Ok(None));
}

#[test]
fn open_context_is_known_at_every_step() {
    let mut shim = Shim::new();
    let runtime = start(&mut shim);
    let progress = runtime.process(single(AVC, record("s", "file")));
    assert_eq!(progress.context(), Some(0x1000));
    let closing = match progress {
        Progress::CheckPolicy(check) => check.answered(native::OK, 1).progress,
        _ => panic!("the policy has to be checked"),
    };
    assert_eq!(closing.context(), Some(0x1000));
    let opening = match closing {
        Progress::Close(closing) => closing.closed(),
        _ => panic!("the context has to be closed"),
    };
    assert_eq!(opening.context(), None);
    let analysis = match opening {
        Progress::Open(opening) => opening.opened(native::OK, 0x2000).progress,
        _ => panic!("a context has to be opened"),
    };
    assert_eq!(analysis.context(), Some(0x2000));
    let done = match analysis {
        Progress::Analyze(analysis) => {
            let answer = NativeResult::without_detail(native::ALLOW, 0);
            analysis.answered(native::OK, answer).progress
        }
        _ => panic!("the shim has to be asked"),
    };
    assert!(matches!(done, Progress::Done(_, _)));
    assert_eq!(done.context(), Some(0x2000));
}

#[test]
fn each_type_occurs_once_in_an_event() {
    let mut body = EventBody::new();
    assert!(body.insert(AVC, EventValues::Single(record("a", "file"))).is_none());
    assert!(body.insert(1300, EventValues::Multi(vec![])).is_none());
    let earlier = body.insert(AVC, EventValues::Single(record("b", "file")));
    match earlier {
        Some(EventValues::Single(body)) => assert_eq!(text(&body, "scontext"), Some(b"a".to_vec())),
        _ => panic!("the type was there"),
    }
    assert!(body.contains_key(AVC));
    assert!(body.contains_key(1300));
    assert!(!body.contains_key(USER_AVC));
    let event = Event { is_filtered: false, body };
    assert_eq!(event.find(1300), Some(1));
    assert_eq!(event.find(USER_AVC), None);
    assert_eq!(text(bodies(&event, 0)[0], "scontext"), Some(b"b".to_vec()));
    assert_eq!(event.body.into_groups().len(), 2);
}
