use kser::{ErrorInfo, ErrorKind, ExecResult, KserErrors, KserTypeErrors, KvMap, Message, Value};

fn str_map(pairs: &[(&str, Value)]) -> KvMap {
    let mut m = KvMap::new();
    for (k, v) in pairs {
        m.insert(k.to_string(), v.clone());
    }
    m
}

#[test]
fn message_uuid_invariant_on_construction() {
    let msg = Message::new(None, "hello", None, None, None);
    assert_eq!(msg.result().uuid, *msg.uuid());
    assert_eq!(msg.uuid().len(), 36);

    let explicit = Message::new(Some("id-1".to_string()), "hello", None, None, None);
    assert_eq!(*explicit.uuid(), "id-1".to_string());
    assert_eq!(explicit.result().uuid, "id-1".to_string());
}

#[test]
fn message_adopts_supplied_result_under_its_own_uuid() {
    let mut seeded = ExecResult::new("other".to_string());
    seeded.retval.insert("x".to_string(), Value::Int(7));
    let msg = Message::new(Some("mine".to_string()), "roll", None, Some(seeded), None);
    assert_eq!(msg.result().uuid, "mine".to_string());
    assert_eq!(msg.result().retval.get("x"), Some(&Value::Int(7)));
}

#[test]
fn as_result_projects_uuid_and_retval_only() {
    let mut msg = Message::new(Some("m".to_string()), "e", None, None, None);
    msg.set_stdout("text".to_string());
    msg.insert_retval("k".to_string(), Value::Str("v".to_string()));
    let r = msg.as_result();
    assert_eq!(r.uuid, "m".to_string());
    assert_eq!(r.stdout, None);
    assert_eq!(r.error, None);
    assert_eq!(r.retval.get("k"), Some(&Value::Str("v".to_string())));
}

#[test]
fn kvmap_insert_replaces_and_appends() {
    let mut m = KvMap::new();
    m.insert("a".to_string(), Value::Int(1));
    m.insert("b".to_string(), Value::Int(2));
    m.insert("a".to_string(), Value::Int(3));
    assert_eq!(m.len(), 2);
    assert_eq!(m.get("a"), Some(&Value::Int(3)));
    assert_eq!(m.get("b"), Some(&Value::Int(2)));
    assert_eq!(m.get("c"), None);
}

#[test]
fn merge_retval_is_union_with_right_precedence() {
    let mut r1 = ExecResult::new("u".to_string());
    r1.retval = str_map(&[("a", Value::Int(1)), ("b", Value::Int(2))]);
    let mut r2 = ExecResult::new("u".to_string());
    r2.retval = str_map(&[("b", Value::Int(9)), ("c", Value::Int(3))]);
    let merged = r1.merge(&r2);
    assert_eq!(merged.retval.len(), 3);
    assert_eq!(merged.retval.get("a"), Some(&Value::Int(1)));
    assert_eq!(merged.retval.get("b"), Some(&Value::Int(9)));
    assert_eq!(merged.retval.get("c"), Some(&Value::Int(3)));
}

#[test]
fn merge_stdout_and_error_prefer_right_when_present() {
    let mut r1 = ExecResult::new("u".to_string());
    r1.stdout = Some("left".to_string());
    let mut r2 = ExecResult::new("u".to_string());
    r2.error = Some(ErrorInfo::new(ErrorKind::Internal, "boom".to_string()));
    let m = r1.merge(&r2);
    assert_eq!(m.stdout, Some("left".to_string()));
    assert!(m.error.is_some());
    assert_eq!(m.error.as_ref().unwrap().message, "boom".to_string());
    assert!(m.is_error());

    let mut r3 = ExecResult::new("u".to_string());
    r3.stdout = Some("right".to_string());
    let m2 = r1.merge(&r3);
    assert_eq!(m2.stdout, Some("right".to_string()));
    assert_eq!(m2.error, None);
    assert!(!m2.is_error());
}

#[test]
fn merge_keeps_left_uuid() {
    let r1 = ExecResult::new("left".to_string());
    let r2 = ExecResult::new("right".to_string());
    assert_eq!(r1.merge(&r2).uuid, "left".to_string());
}

#[test]
fn record_error_keeps_accumulated_output() {
    let mut msg = Message::new(Some("m".to_string()), "e", None, None, None);
    msg.set_stdout("kept".to_string());
    msg.insert_retval("k".to_string(), Value::Int(5));
    msg.record_error(ErrorInfo::new(ErrorKind::Validation, "bad".to_string()));
    assert_eq!(msg.result().stdout, Some("kept".to_string()));
    assert_eq!(msg.result().retval.get("k"), Some(&Value::Int(5)));
    assert_eq!(msg.result().error.as_ref().unwrap().code, 400);
    assert_eq!(msg.result().uuid, "m".to_string());
}

#[test]
fn error_kind_codes_and_msgids() {
    assert_eq!(ErrorKind::Configuration.as_type().code, 500);
    assert_eq!(ErrorKind::Validation.as_type().code, 400);
    assert_eq!(ErrorKind::Validation.as_type().msgid, "Err-05612");
    assert_eq!(ErrorKind::NotFound.as_type().code, 404);
    assert_eq!(ErrorKind::NotImplemented.as_type().code, 501);
    assert_eq!(ErrorKind::Io.as_type().msgid, "Err-11553");
    assert_eq!(ErrorKind::Serialization.as_type().msgid, "Err-31807");
    assert_eq!(ErrorKind::Transport.as_type().msgid, "Err-02932");
}

#[test]
fn kafka_error_type_and_msgid_lookup() {
    let t = KserTypeErrors::kafka_error();
    assert_eq!(t.code, 500);
    assert_eq!(t.msgid, "Err-02932");
    assert_eq!(t.label, "Kafka Error");
    assert_eq!(KserTypeErrors::from_msgid("Err-02932").msgid, "Err-02932");
    assert_eq!(KserTypeErrors::from_msgid("Err-02932").code, 500);
    assert_eq!(KserTypeErrors::from_msgid("Err-02932").label, "Kafka Error");
    assert_eq!(KserTypeErrors::from_msgid("Err-00000").msgid, "Err-15452");
    assert_eq!(KserTypeErrors::from_msgid("Err-00000").label, "Generic Error");
}

#[test]
fn infrastructure_error_accessors() {
    let e = KserErrors::ConfigurationError("missing file".to_string());
    assert_eq!(e.code(), 500);
    assert_eq!(e.msgid(), "Err-15160");
    assert_eq!(*e.message(), "missing file".to_string());
    assert!(e.extra().is_none());
    let j = KserErrors::JSONError("bad".to_string());
    assert_eq!(j.code(), 500);
    assert_eq!(j.msgid(), "Err-31807");
    let k = KserErrors::KafkaError("down".to_string());
    assert_eq!(k.msgid(), "Err-02932");
    let io = KserErrors::IoError("eof".to_string());
    assert_eq!(io.msgid(), "Err-11553");
}

#[test]
fn default_message_is_blank_with_fresh_uuid() {
    let msg = Message::default();
    assert_eq!(msg.uuid().len(), 36);
    assert_eq!(*msg.entrypoint(), String::new());
    assert_eq!(msg.params().len(), 0);
    assert_eq!(msg.metadata().len(), 0);
    assert_eq!(msg.result().uuid, *msg.uuid());
    assert_eq!(msg.result().error, None);
}

#[test]
fn search_value_looks_in_retval() {
    let mut r = ExecResult::new("u".to_string());
    r.retval.insert("turn".to_string(), Value::Int(2));
    assert_eq!(r.search_value("turn"), Some(&Value::Int(2)));
    assert_eq!(r.search_value("missing"), None);
}
