use kser::codec::{decode_message, encode_message, int_to_string, parse_config};
use kser::producer::{make_record, prepare_batch, summarize_deliveries};
use kser::task::label;
use kser::{
    BaseRegistry, Consumer, DeliveryOutcome, ErrorInfo, ErrorKind, ExecResult, Handler, KvMap,
    Message, RecordOutcome, Register, Registry, Value,
};

fn hello_msg(user: Option<&str>) -> Message {
    let mut params = KvMap::new();
    if let Some(u) = user {
        params.insert("user".to_string(), Value::Str(u.to_string()));
    }
    Message::new(None, "hello", Some(params), None, None)
}

#[test]
fn validation_error_names_missing_user() {
    let reg = BaseRegistry::with_defaults();
    let mut msg = hello_msg(None);
    let out = reg.execute(&mut msg);
    assert!(out.is_ok());
    let err = msg.result().error.as_ref().expect("a validation error is recorded");
    assert_eq!(err.code, 400);
    assert_eq!(err.msgid, "Err-05612");
    assert_eq!(err.message, "required field 'user' not set!");
    assert!(err.message.contains("user"));
    assert_eq!(msg.result().uuid, *msg.uuid());
}

#[test]
fn hello_greets_the_user() {
    let reg = BaseRegistry::with_defaults();
    let mut msg = hello_msg(Some("Joe"));
    let out = reg.execute(&mut msg).expect("hooks do not fail");
    let text = out.stdout.expect("a greeting is written");
    assert!(text.starts_with("Hello Joe from "));
    assert!(msg.result().error.is_none());
}

#[test]
fn unregistered_entrypoint_yields_not_found() {
    let reg = BaseRegistry::with_defaults();
    let mut msg = Message::new(None, "foo", None, None, None);
    let out = reg.execute(&mut msg);
    assert!(out.is_ok());
    let err = msg.result().error.as_ref().expect("a miss is recorded as data");
    assert_eq!(err.code, 404);
    assert_eq!(err.message, "Entrypoint 'foo' is not registered");
    assert_eq!(msg.result().uuid, *msg.uuid());
}

#[test]
fn registry_is_populated_explicitly() {
    let mut reg = BaseRegistry::new();
    let mut msg = Message::new(None, "hello", None, None, None);
    reg.execute(&mut msg).unwrap();
    assert_eq!(msg.result().error.as_ref().unwrap().code, 404);

    reg.register("hello".to_string(), Handler::Hello);
    let mut msg2 = hello_msg(Some("Ada"));
    let out = reg.execute(&mut msg2).unwrap();
    assert!(out.stdout.unwrap().starts_with("Hello Ada from "));
}

#[test]
fn static_dispatch_through_default_registrations() {
    let mut msg = hello_msg(Some("Joe"));
    <BaseRegistry as Register>::execute(&mut msg).unwrap();
    assert!(msg.result().stdout.as_ref().unwrap().starts_with("Hello Joe from "));
}

#[test]
fn roll_chain_increments_turn() {
    let reg = BaseRegistry::with_defaults();

    let mut t1 = Message::new(None, "roll", None, None, None);
    reg.execute(&mut t1).unwrap();
    assert_eq!(t1.result().retval.get("turn"), Some(&Value::Int(1)));
    match t1.result().retval.get("turn-1") {
        Some(Value::Int(n)) => assert!((1..=5).contains(n)),
        other => panic!("turn-1 should be a die roll, got {:?}", other),
    }
    assert_eq!(t1.result().uuid, *t1.uuid());

    let mut t2 = Message::new(None, "roll", None, Some(t1.result().clone()), None);
    reg.execute(&mut t2).unwrap();
    assert_eq!(t2.result().retval.get("turn"), Some(&Value::Int(2)));
    match t2.result().retval.get("turn-2") {
        Some(Value::Int(n)) => assert!((1..=5).contains(n)),
        other => panic!("turn-2 should be a die roll, got {:?}", other),
    }

    let mut t3 = Message::new(None, "roll", None, Some(t2.result().clone()), None);
    reg.execute(&mut t3).unwrap();
    assert_eq!(t3.result().retval.get("turn"), Some(&Value::Int(3)));
    match t3.result().retval.get("turn-3") {
        Some(Value::Int(n)) => assert!((1..=5).contains(n)),
        other => panic!("turn-3 should be a die roll, got {:?}", other),
    }
    assert_eq!(t3.result().uuid, *t3.uuid());
}

#[test]
fn roll_reads_turn_from_params_first() {
    let reg = BaseRegistry::with_defaults();
    let mut params = KvMap::new();
    params.insert("turn".to_string(), Value::Int(6));
    let mut msg = Message::new(None, "roll", Some(params), None, None);
    reg.execute(&mut msg).unwrap();
    assert_eq!(msg.result().retval.get("turn"), Some(&Value::Int(7)));
}

#[test]
fn encode_fixed_message_exactly() {
    let msg = Message::new(Some("u1".to_string()), "ep", None, None, None);
    let enc = encode_message(&msg);
    let expected = "{\"uuid\":\"u1\",\"entrypoint\":\"ep\",\"metadata\":{},\"params\":{},\"result\":{\"uuid\":\"u1\",\"stdout\":null,\"retval\":{},\"error\":null}}";
    assert_eq!(enc, expected);
}

#[test]
fn encoded_envelope_is_valid_json() {
    let mut params = KvMap::new();
    params.insert("user".to_string(), Value::Str("Jo\"e\\\n".to_string()));
    params.insert("n".to_string(), Value::Int(-42));
    params.insert("ok".to_string(), Value::Bool(true));
    params.insert("none".to_string(), Value::Null);
    let msg = Message::new(Some("u2".to_string()), "hello", Some(params), None, None);
    let enc = encode_message(&msg);
    let parsed: serde_json::Value = serde_json::from_str(&enc).expect("the envelope is JSON");
    assert_eq!(parsed["uuid"], serde_json::Value::String("u2".to_string()));
    assert_eq!(parsed["entrypoint"], serde_json::Value::String("hello".to_string()));
    assert_eq!(parsed["params"]["user"], serde_json::Value::String("Jo\"e\\\n".to_string()));
    assert_eq!(parsed["params"]["n"], serde_json::Value::from(-42));
    assert_eq!(parsed["params"]["ok"], serde_json::Value::Bool(true));
    assert_eq!(parsed["params"]["none"], serde_json::Value::Null);
    assert_eq!(parsed["result"]["uuid"], serde_json::Value::String("u2".to_string()));
}

#[test]
fn round_trip_plain_message() {
    let msg = Message::new(Some("u3".to_string()), "roll", None, None, None);
    let back = decode_message(&encode_message(&msg)).expect("its own encoding decodes");
    assert_eq!(back, msg);
}

#[test]
fn round_trip_full_message() {
    let mut params = KvMap::new();
    params.insert("text".to_string(), Value::Str("a\"b\\c\nd\te\rf".to_string()));
    params.insert("big".to_string(), Value::Int(i64::MAX));
    params.insert("small".to_string(), Value::Int(i64::MIN));
    params.insert("zero".to_string(), Value::Int(0));
    params.insert("no".to_string(), Value::Bool(false));
    let mut meta = KvMap::new();
    meta.insert("origin".to_string(), Value::Str("unit".to_string()));
    let mut result = ExecResult::new("u4".to_string());
    result.stdout = Some("done".to_string());
    result.retval.insert("turn".to_string(), Value::Int(3));
    let mut extra = KvMap::new();
    extra.insert("ctx".to_string(), Value::Str("here".to_string()));
    result.error = Some(ErrorInfo {
        code: 400,
        msgid: "Err-05612".to_string(),
        message: "field 'x' not set".to_string(),
        extra: Some(extra),
    });
    let msg = Message::new(Some("u4".to_string()), "hello", Some(params), Some(result), Some(meta));
    let enc = encode_message(&msg);
    let back = decode_message(&enc).expect("its own encoding decodes");
    assert_eq!(back, msg);
}

#[test]
fn decode_rejects_garbage_and_duplicates() {
    assert!(decode_message("not json").is_err());
    assert!(decode_message("").is_err());
    assert!(decode_message("{\"uuid\":\"u\"}").is_err());
    let dup = "{\"uuid\":\"u\",\"entrypoint\":\"e\",\"metadata\":{\"a\":\"x\",\"a\":\"y\"},\"params\":{},\"result\":{\"uuid\":\"u\",\"stdout\":null,\"retval\":{},\"error\":null}}";
    assert!(decode_message(dup).is_err());
}

#[test]
fn decode_adopts_result_under_message_uuid() {
    let wire = "{\"uuid\":\"outer\",\"entrypoint\":\"e\",\"metadata\":{},\"params\":{},\"result\":{\"uuid\":\"inner\",\"stdout\":null,\"retval\":{},\"error\":null}}";
    let msg = decode_message(wire).unwrap();
    assert_eq!(msg.result().uuid, "outer".to_string());
}

#[test]
fn int_text_matches_decimal_form() {
    assert_eq!(int_to_string(0), "0");
    assert_eq!(int_to_string(7), "7");
    assert_eq!(int_to_string(-1), "-1");
    assert_eq!(int_to_string(1234567890), "1234567890");
    assert_eq!(int_to_string(i64::MAX), "9223372036854775807");
    assert_eq!(int_to_string(i64::MIN), "-9223372036854775808");
}

#[test]
fn label_names_entrypoint_uuid_and_action() {
    let msg = Message::new(Some("u1".to_string()), "ep", None, None, None);
    assert_eq!(label(&msg, Some("Run")), "ep[u1] - Run");
    assert_eq!(label(&msg, None), "ep[u1]");
}

#[test]
fn consumer_skips_bad_payload_and_dispatches_good_one() {
    let consumer = Consumer::new(BaseRegistry::with_defaults());

    let bad = consumer.handle_payload("not a message");
    assert!(bad.commit);
    assert!(matches!(bad.outcome, RecordOutcome::Skipped(_)));

    let msg = hello_msg(Some("Joe"));
    let good = consumer.handle_payload(&encode_message(&msg));
    assert!(good.commit);
    match good.outcome {
        RecordOutcome::Dispatched(res) => {
            assert!(res.stdout.unwrap().starts_with("Hello Joe from "));
        },
        _ => panic!("the valid payload should dispatch"),
    }
}

#[test]
fn bulk_send_records_and_delivery_report() {
    let m1 = Message::new(Some("a".to_string()), "e", None, None, None);
    let m2 = Message::new(Some("b".to_string()), "e", None, None, None);
    let m3 = Message::new(Some("c".to_string()), "e", None, None, None);
    let records = prepare_batch(&vec![m1, m2, m3]);
    assert_eq!(records.len(), 3);
    assert_eq!(records[0].key, "Key a");
    assert_eq!(records[1].key, "Key b");
    assert_eq!(records[2].key, "Key c");
    assert!(records[0].payload.starts_with("{\"uuid\":\"a\""));

    let outcomes = vec![
        DeliveryOutcome::Delivered,
        DeliveryOutcome::Failed("broker down".to_string()),
        DeliveryOutcome::Delivered,
    ];
    let report = summarize_deliveries(&outcomes);
    assert_eq!(report.delivered, 2);
    assert_eq!(report.failed, 1);
    assert_eq!(report.delivered + report.failed, 3);
}

#[test]
fn single_record_key_uses_uuid() {
    let m = Message::new(Some("one".to_string()), "e", None, None, None);
    let rec = make_record(&m);
    assert_eq!(rec.key, "Key one");
    assert!(rec.payload.contains("\"entrypoint\":\"e\""));
}

#[test]
fn config_text_parses_to_string_options() {
    let pairs = parse_config("{\"bootstrap.servers\":\"localhost:9092\",\"group.id\":\"g\"}")
        .expect("a string map parses");
    assert_eq!(pairs.len(), 2);
    assert_eq!(pairs[0], ("bootstrap.servers".to_string(), "localhost:9092".to_string()));
    assert_eq!(pairs[1], ("group.id".to_string(), "g".to_string()));
    assert_eq!(parse_config("{}").unwrap().len(), 0);
    assert!(parse_config("{\"a\":1}").is_err());
    assert!(parse_config("nope").is_err());
    assert!(parse_config("{\"a\":\"b\"} ").is_err());
}
