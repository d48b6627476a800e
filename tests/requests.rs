use ctl_feed::requests::{PropertyValue, RequestIdGenerator, WSRequest, WSRequestError, WSRequestId, WSRequestKind};
use serde_json::Value;

fn strings(items: &[&str]) -> Vec<String> {
    items.iter().map(|s| s.to_string()).collect()
}

fn object(members: Vec<(&str, Value)>) -> Value {
    let mut map = serde_json::Map::new();
    for (k, v) in members {
        map.insert(k.to_string(), v);
    }
    Value::Object(map)
}

fn text_array(items: &[&str]) -> Value {
    Value::Array(items.iter().map(|s| Value::String(s.to_string())).collect())
}

fn parsed(req: &WSRequest) -> Value {
    serde_json::from_str(&req.to_json()).unwrap()
}

#[test]
fn test_serialize_subscribe_with_int_id() {
    let req = WSRequest {
        kind: WSRequestKind::Subscribe(strings(&["btcusdt@aggTrade", "btcusdt@depth"])),
        id: Some(WSRequestId::Int(1)),
    };
    assert_eq!(
        parsed(&req),
        object(vec![
            ("method", Value::from("SUBSCRIBE")),
            ("params", text_array(&["btcusdt@aggTrade", "btcusdt@depth"])),
            ("id", Value::from(1)),
        ])
    );
}

#[test]
fn test_serialize_subscribe_with_string_id() {
    let req = WSRequest {
        kind: WSRequestKind::Subscribe(strings(&["btcusdt@trade"])),
        id: Some(WSRequestId::try_from_text("my-request-id").unwrap()),
    };
    assert_eq!(
        parsed(&req),
        object(vec![
            ("method", Value::from("SUBSCRIBE")),
            ("params", text_array(&["btcusdt@trade"])),
            ("id", Value::from("my-request-id")),
        ])
    );
}

#[test]
fn test_serialize_subscribe_without_id() {
    let req = WSRequest { kind: WSRequestKind::Subscribe(strings(&["btcusdt@kline_1m"])), id: None };
    assert_eq!(
        parsed(&req),
        object(vec![
            ("method", Value::from("SUBSCRIBE")),
            ("params", text_array(&["btcusdt@kline_1m"])),
            ("id", Value::Null),
        ])
    );
}

#[test]
fn test_serialize_unsubscribe() {
    let req = WSRequest {
        kind: WSRequestKind::Unsubscribe(strings(&["btcusdt@depth"])),
        id: Some(WSRequestId::Int(312)),
    };
    assert_eq!(
        parsed(&req),
        object(vec![
            ("method", Value::from("UNSUBSCRIBE")),
            ("params", text_array(&["btcusdt@depth"])),
            ("id", Value::from(312)),
        ])
    );
}

#[test]
fn test_serialize_list_subscriptions() {
    let req = WSRequest { kind: WSRequestKind::ListSubscriptions, id: Some(WSRequestId::Int(3)) };
    assert_eq!(parsed(&req), object(vec![("method", Value::from("LIST_SUBSCRIPTIONS")), ("id", Value::from(3))]));
}

#[test]
fn test_serialize_set_property() {
    let req = WSRequest {
        kind: WSRequestKind::SetProperty(vec![PropertyValue::Text("combined".to_string()), PropertyValue::Bool(true)]),
        id: Some(WSRequestId::Int(5)),
    };
    assert_eq!(
        parsed(&req),
        object(vec![
            ("method", Value::from("SET_PROPERTY")),
            ("params", Value::Array(vec![Value::from("combined"), Value::Bool(true)])),
            ("id", Value::from(5)),
        ])
    );
}

#[test]
fn test_serialize_get_property() {
    let req = WSRequest {
        kind: WSRequestKind::GetProperty(strings(&["combined"])),
        id: Some(WSRequestId::Int(2)),
    };
    assert_eq!(
        parsed(&req),
        object(vec![
            ("method", Value::from("GET_PROPERTY")),
            ("params", text_array(&["combined"])),
            ("id", Value::from(2)),
        ])
    );
}

#[test]
fn frame_text_is_compact_and_ordered() {
    let req = WSRequest {
        kind: WSRequestKind::Unsubscribe(strings(&["btcusdt@trade", "ethusdt@trade"])),
        id: Some(WSRequestId::Int(-42)),
    };
    assert_eq!(req.to_json(), "{\"method\":\"UNSUBSCRIBE\",\"params\":[\"btcusdt@trade\",\"ethusdt@trade\"],\"id\":-42}");
    let req = WSRequest { kind: WSRequestKind::Subscribe(Vec::new()), id: Some(WSRequestId::Int(i64::MIN)) };
    assert_eq!(req.to_json(), "{\"method\":\"SUBSCRIBE\",\"params\":[],\"id\":-9223372036854775808}");
}

#[test]
fn frame_text_escapes_strings() {
    let req = WSRequest {
        kind: WSRequestKind::SetProperty(vec![PropertyValue::Text("a\"b\\c".to_string()), PropertyValue::Null, PropertyValue::Int(7)]),
        id: Some(WSRequestId::try_from_text("x\ny").unwrap()),
    };
    assert_eq!(req.to_json(), "{\"method\":\"SET_PROPERTY\",\"params\":[\"a\\\"b\\\\c\",null,7],\"id\":\"x\\ny\"}");
}

#[test]
fn test_request_id_from_i64() {
    let id: WSRequestId = 123i64.into();
    assert_eq!(id, WSRequestId::Int(123));
}

#[test]
fn test_request_id_from_u64() {
    let id: WSRequestId = 456u64.into();
    assert_eq!(id, WSRequestId::Int(456));
    assert_eq!(WSRequestId::from_u64(u64::MAX), WSRequestId::Int(-1));
}

#[test]
fn test_request_id_try_from_str_valid() {
    let id = WSRequestId::try_from_text("valid-id").unwrap();
    assert!(matches!(id, WSRequestId::String(_)));
}

#[test]
fn test_request_id_try_from_str_max_length() {
    let id_str = "a".repeat(36);
    let result = WSRequestId::try_from_text(id_str.as_str());
    assert!(result.is_ok());
}

#[test]
fn test_request_id_try_from_str_too_long() {
    let id_str = "a".repeat(37);
    let result = WSRequestId::try_from_text(id_str.as_str());
    assert!(result.is_err());
    match result.unwrap_err() {
        WSRequestError::RequestIdTooLong { id, len, max } => {
            assert_eq!(len, 37);
            assert_eq!(max, 36);
            assert_eq!(id.as_str(), "");
        }
    }
}

#[test]
fn request_id_length_counts_characters() {
    let id_str = "é".repeat(36);
    assert!(WSRequestId::try_from_text(id_str.as_str()).is_ok());
}

#[test]
fn test_ws_request_from_tuple() {
    let kind = WSRequestKind::Subscribe(strings(&["btcusdt@trade"]));
    let id = Some(WSRequestId::Int(1));

    let req: WSRequest = (kind.clone(), id.clone()).into();

    assert_eq!(req.kind, kind);
    assert_eq!(req.id, id);
}

#[test]
fn request_ids_come_in_sequence() {
    let mut ids = RequestIdGenerator::new(1);
    assert_eq!(ids.next_id(), WSRequestId::Int(1));
    assert_eq!(ids.next_id(), WSRequestId::Int(2));
    let mut last = RequestIdGenerator::new(u64::MAX);
    assert_eq!(last.next_id(), WSRequestId::Int(-1));
    assert_eq!(last.next_id(), WSRequestId::Int(0));
}
