use nvda_remote::event::{decode_event, EventType};
use nvda_remote::json::Json;
use nvda_remote::text::{bytes_equal, str_equal};

fn object(members: Vec<(&str, Json)>) -> Json {
    Json::Object(members.into_iter().map(|(k, v)| (k.to_string(), v)).collect())
}

fn number(value: i64) -> Json {
    Json::Number(Some(value), value.to_string())
}

fn text(value: &str) -> Json {
    Json::Str(value.to_string())
}

#[test]
fn get_finds_the_first_member_under_a_key() {
    let record = object(vec![("a", number(1)), ("b", number(2)), ("a", number(3))]);
    assert_eq!(record.get("a").and_then(|v| v.as_i64()), Some(1));
    assert_eq!(record.get("b").and_then(|v| v.as_i64()), Some(2));
    assert!(record.get("c").is_none());
}

#[test]
fn get_finds_nothing_in_what_is_no_object() {
    assert!(Json::Null.get("a").is_none());
    assert!(text("a").get("a").is_none());
    assert!(Json::Array(vec![text("a")]).get("a").is_none());
}

#[test]
fn as_str_and_as_i64_tell_strings_and_integers() {
    assert_eq!(text("x").as_str(), Some("x"));
    assert_eq!(number(5).as_str(), None);
    assert_eq!(number(-5).as_i64(), Some(-5));
    assert_eq!(Json::Number(None, "1.5".to_string()).as_i64(), None);
    assert_eq!(text("5").as_i64(), None);
    assert_eq!(Json::Bool(true).as_i64(), None);
}

#[test]
fn decode_event_reads_a_parsed_record() {
    let parsed = Some(object(vec![("type", text("channel_joined")), ("origin", number(42))]));
    assert!(matches!(decode_event("raw".to_string(), &parsed), EventType::ChannelJoined(42)));
    let parsed = Some(object(vec![("type", text("channel_left"))]));
    assert!(matches!(decode_event("raw".to_string(), &parsed), EventType::ChannelLeft));
    let parsed = Some(object(vec![
        ("type", text("tone")),
        ("hz", number(500)),
        ("length", number(100)),
        ("left", number(50)),
        ("right", number(50)),
    ]));
    assert!(matches!(decode_event("raw".to_string(), &parsed), EventType::Beep(500, 100, 50, 50)));
    let parsed = Some(object(vec![("type", text("motd")), ("motd", text("hello"))]));
    match decode_event("raw".to_string(), &parsed) {
        EventType::Motd(t) => assert_eq!(t, "hello"),
        other => panic!("expected a motd, got {:?}", other),
    }
}

#[test]
fn decode_event_falls_back_to_the_raw_text() {
    let cases = vec![
        None,
        Some(Json::Null),
        Some(object(vec![])),
        Some(object(vec![("type", number(1))])),
        Some(object(vec![("type", text("tone")), ("hz", number(1))])),
        Some(object(vec![("type", text("channel_joined")), ("origin", text("1"))])),
        Some(object(vec![("type", text("channel_message")), ("message", text("m"))])),
    ];
    for parsed in cases {
        match decode_event("the raw text".to_string(), &parsed) {
            EventType::Invalid(t) => assert_eq!(t, "the raw text"),
            other => panic!("expected an invalid record, got {:?}", other),
        }
    }
}

#[test]
fn decode_event_cuts_integers_to_32_bits() {
    let parsed = Some(object(vec![("type", text("channel_joined")), ("origin", number(1 << 32))]));
    assert!(matches!(decode_event(String::new(), &parsed), EventType::ChannelJoined(0)));
    let parsed =
        Some(object(vec![("type", text("channel_joined")), ("origin", number(i64::from(i32::MAX) + 1))]));
    assert!(matches!(decode_event(String::new(), &parsed), EventType::ChannelJoined(i32::MIN)));
}

#[test]
fn equal_texts_and_bytes_are_told() {
    assert!(str_equal("motd", "motd"));
    assert!(!str_equal("motd", "mot"));
    assert!(!str_equal("motd", "mote"));
    assert!(str_equal("", ""));
    assert!(bytes_equal(&[1, 2], &[1, 2]));
    assert!(!bytes_equal(&[1, 2], &[1, 3]));
    assert!(!bytes_equal(&[1, 2], &[1]));
}
