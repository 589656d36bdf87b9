use linux_audit_parser::{Body, Number, Quote, Value};
use selinux_why::query::{extract_query, normalize, AvcQuery};

fn selinux_body() -> Body<'static> {
    let mut body = Body::default();
    body.push(("scontext".into(), "system_u:system_r:httpd_t:s0".into()));
    body.push(("tcontext".into(), "system_u:object_r:http_port_t:s0".into()));
    body.push(("tclass".into(), "tcp_socket".into()));
    body.push((
        "denied".into(),
        Value::List(vec!["name_connect".into(), "read".into()]),
    ));
    body
}

fn body_denying(denied: Value<'_>) -> Body<'static> {
    let mut body = Body::default();
    body.push(("scontext".into(), "a".into()));
    body.push(("tcontext".into(), "b".into()));
    body.push(("tclass".into(), "c".into()));
    body.push(("denied".into(), denied));
    body
}

fn permissions_of(denied: Value<'_>) -> Option<Vec<Vec<u8>>> {
    extract_query(&body_denying(denied)).map(|query| query.permissions)
}

#[test]
fn extracts_and_normalizes_selinux_avc() {
    let query = extract_query(&selinux_body()).expect("SELinux AVC");
    assert_eq!(query.tclass, b"tcp_socket");
    assert_eq!(
        query.permissions,
        vec![b"name_connect".to_vec(), b"read".to_vec()]
    );
}

#[test]
fn rejects_apparmor_avc() {
    let mut body = Body::default();
    body.push(("apparmor".into(), "STATUS".into()));
    body.push(("operation".into(), "profile_replace".into()));
    assert!(extract_query(&body).is_none());
}

#[test]
fn extracts_both_contexts() {
    let query = extract_query(&selinux_body()).expect("SELinux AVC");
    assert_eq!(query.scontext, b"system_u:system_r:httpd_t:s0");
    assert_eq!(query.tcontext, b"system_u:object_r:http_port_t:s0");
}

#[test]
fn every_field_is_needed() {
    for missing in ["scontext", "tcontext", "tclass", "denied"] {
        let mut body = selinux_body();
        body.retain(|(key, _)| key != missing);
        assert!(extract_query(&body).is_none(), "{}", missing);
    }
}

#[test]
fn first_field_of_a_name_counts() {
    let mut body = selinux_body();
    body.push(("tclass".into(), "file".into()));
    let query = extract_query(&body).expect("SELinux AVC");
    assert_eq!(query.tclass, b"tcp_socket");
}

#[test]
fn permissions_are_sorted_once_and_not_empty() {
    let denied = Value::List(vec![
        "write".into(),
        "".into(),
        "append".into(),
        "write".into(),
        "app".into(),
    ]);
    assert_eq!(
        permissions_of(denied),
        Some(vec![b"app".to_vec(), b"append".to_vec(), b"write".to_vec()])
    );
}

#[test]
fn order_of_permissions_does_not_matter() {
    let one = permissions_of(Value::List(vec!["b".into(), "a".into(), "b".into()]));
    let other = permissions_of(Value::List(vec!["a".into(), "".into(), "b".into()]));
    assert!(one.is_some());
    assert_eq!(one, other);
}

#[test]
fn single_permission_needs_no_list() {
    assert_eq!(permissions_of("read".into()), Some(vec![b"read".to_vec()]));
}

#[test]
fn items_that_are_not_text_are_skipped() {
    let denied = Value::List(vec![
        Value::Number(Number::Dec(7)),
        "read".into(),
        Value::List(vec!["write".into()]),
        Value::Skipped((1, 2)),
    ]);
    assert_eq!(permissions_of(denied), Some(vec![b"read".to_vec()]));
}

#[test]
fn no_permission_is_no_query() {
    assert_eq!(permissions_of(Value::List(vec![])), None);
    assert_eq!(permissions_of(Value::List(vec!["".into()])), None);
    assert_eq!(permissions_of(Value::Empty), None);
    assert_eq!(permissions_of(Value::Number(Number::Hex(7))), None);
    assert_eq!(
        permissions_of(Value::StringifiedList(vec!["read".into()])),
        None
    );
    assert_eq!(
        permissions_of(Value::Map(vec![("read".into(), "x".into())])),
        None
    );
}

#[test]
fn kinds_of_text() {
    assert_eq!(
        permissions_of(Value::Str(b"read", Quote::Braces)),
        Some(vec![b"{read}".to_vec()])
    );
    assert_eq!(
        permissions_of(Value::Str(b"read", Quote::Double)),
        Some(vec![b"read".to_vec()])
    );
    assert_eq!(
        permissions_of(Value::Segments(vec![b"re", b"ad"])),
        Some(vec![b"read".to_vec()])
    );
    assert_eq!(
        permissions_of(Value::Literal("read")),
        Some(vec![b"read".to_vec()])
    );
    assert_eq!(
        permissions_of(Value::Owned(b"read".to_vec())),
        Some(vec![b"read".to_vec()])
    );
}

#[test]
fn context_that_is_not_text_is_no_query() {
    let mut body = Body::default();
    body.push(("scontext".into(), Value::Number(Number::Oct(1))));
    body.push(("tcontext".into(), "b".into()));
    body.push(("tclass".into(), "c".into()));
    body.push(("denied".into(), "read".into()));
    assert!(extract_query(&body).is_none());
}

#[test]
fn normalize_orders_bytes_lexicographically() {
    let list = normalize(vec![
        vec![2],
        vec![1, 255],
        vec![],
        vec![1],
        vec![255],
        vec![1, 0],
        vec![2],
    ]);
    assert_eq!(
        list,
        vec![vec![1], vec![1, 0], vec![1, 255], vec![2], vec![255]]
    );
    assert_eq!(normalize(list.clone()), list);
}

#[test]
fn query_from_parts() {
    let query = AvcQuery::new(
        b"s".to_vec(),
        b"t".to_vec(),
        b"c".to_vec(),
        vec![b"y".to_vec(), b"x".to_vec()],
    )
    .expect("permissions");
    assert_eq!(query.scontext, b"s");
    assert_eq!(query.tcontext, b"t");
    assert_eq!(query.tclass, b"c");
    assert_eq!(query.permissions, vec![b"x".to_vec(), b"y".to_vec()]);
    assert_eq!(query.clone(), query);
    assert!(AvcQuery::new(vec![], vec![], vec![], vec![vec![]]).is_none());
}
