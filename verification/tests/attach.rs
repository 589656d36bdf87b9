use linux_audit_parser::{Body, Key, Value};
use selinux_why::attach::{attach_result, attach_text};
use selinux_why::query::extract_query;
use selinux_why::why::{WhyReason, WhyResult};

fn record() -> Body<'static> {
    let mut body = Body::default();
    body.push(("scontext".into(), "a".into()));
    body.push(("tcontext".into(), "b".into()));
    body.push(("tclass".into(), "c".into()));
    body.push(("denied".into(), Value::List(vec!["read".into()])));
    body
}

fn text(body: &Body<'_>, name: &str) -> Option<Vec<u8>> {
    body.get(name).cloned().and_then(|value| value.try_into().ok())
}

fn why(reason: WhyReason, detail: Option<&[u8]>) -> WhyResult {
    WhyResult { reason, detail: detail.map(|bytes| bytes.to_vec()) }
}

#[test]
fn explanation_reads_back() {
    let mut body = record();
    attach_result(&mut body, &why(WhyReason::Boolean, Some(b"httpd_can_network_connect")));
    assert_eq!(text(&body, "SELINUX_WHY"), Some(b"BOOLEAN".to_vec()));
    assert_eq!(
        text(&body, "SELINUX_WHY_DETAIL"),
        Some(b"httpd_can_network_connect".to_vec())
    );
    assert_eq!(body.len(), 6);
}

#[test]
fn no_detail_no_field() {
    let mut body = record();
    attach_result(&mut body, &why(WhyReason::TeRule, None));
    assert_eq!(text(&body, "SELINUX_WHY"), Some(b"TERULE".to_vec()));
    assert_eq!(text(&body, "SELINUX_WHY_DETAIL"), None);
    assert_eq!(body.len(), 5);
}

#[test]
fn later_explanation_replaces_earlier_one() {
    let mut body = record();
    attach_result(&mut body, &why(WhyReason::Boolean, Some(b"x")));
    attach_result(&mut body, &why(WhyReason::Rbac, None));
    assert_eq!(text(&body, "SELINUX_WHY"), Some(b"RBAC".to_vec()));
    assert_eq!(text(&body, "SELINUX_WHY_DETAIL"), None);
    let mut once = record();
    attach_result(&mut once, &why(WhyReason::Rbac, None));
    assert!(body == once);
}

#[test]
fn keys_are_compared_by_their_text() {
    let mut body = record();
    body.push((Key::from(&b"SELINUX_WHY"[..]), "forged".into()));
    body.push((Key::NameTranslated(b"selinux_why_detail"[..].into()), "forged".into()));
    body.push((Key::from(&b"SELINUX_WHYS"[..]), "kept".into()));
    attach_result(&mut body, &why(WhyReason::Allow, None));
    assert_eq!(text(&body, "SELINUX_WHY"), Some(b"ALLOW".to_vec()));
    assert_eq!(text(&body, "SELINUX_WHY_DETAIL"), None);
    assert_eq!(text(&body, "SELINUX_WHYS"), Some(b"kept".to_vec()));
    assert_eq!(body.len(), 6);
}

#[test]
fn other_fields_and_the_query_stay() {
    let mut body = record();
    let before = extract_query(&body);
    attach_result(&mut body, &why(WhyReason::Bounds, Some(b"y")));
    assert!(before.is_some());
    assert_eq!(extract_query(&body), before);
    assert_eq!(text(&body, "scontext"), Some(b"a".to_vec()));
}

#[test]
fn detail_that_is_not_utf8_is_replaced() {
    let mut body = record();
    attach_result(&mut body, &why(WhyReason::Constraint, Some(b"a\xffb")));
    assert_eq!(
        text(&body, "SELINUX_WHY_DETAIL"),
        Some("a\u{fffd}b".as_bytes().to_vec())
    );
}

#[test]
fn text_is_attached_as_it_is() {
    let mut body = record();
    attach_text(&mut body, WhyReason::DontAudit, Some("gr\u{fc}n"));
    assert_eq!(text(&body, "SELINUX_WHY"), Some(b"DONTAUDIT".to_vec()));
    assert_eq!(
        text(&body, "SELINUX_WHY_DETAIL"),
        Some("gr\u{fc}n".as_bytes().to_vec())
    );
}

#[test]
fn empty_detail_is_still_a_field() {
    let mut body = record();
    attach_result(&mut body, &why(WhyReason::Allow, Some(b"")));
    assert_eq!(text(&body, "SELINUX_WHY_DETAIL"), Some(vec![]));
}

#[test]
fn kept_fields_keep_their_keys() {
    let mut body = Body::default();
    body.push((Key::NameUID(b"auid"[..].into()), 7i64.into()));
    body.push((Key::Arg(2, Some(1)), "x".into()));
    attach_result(&mut body, &why(WhyReason::Allow, None));
    let keys: Vec<Key> = body.into_iter().map(|(key, _)| key).collect();
    assert!(keys[0] == Key::NameUID(b"auid"[..].into()));
    assert!(keys[1] == Key::Arg(2, Some(1)));
    assert!(keys[2] == Key::Literal("SELINUX_WHY"));
    assert_eq!(keys.len(), 3);
}
