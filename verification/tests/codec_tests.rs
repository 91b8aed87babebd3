use dispresence::codec::{encode_config, parse_config};
use dispresence::config::PresenceConfig;

fn sample() -> PresenceConfig {
    PresenceConfig {
        app_id: String::from("123456789"),
        details: String::from("working"),
        state: String::from("on something"),
        party: (1, 4),
        image_large: (String::from("key_big"), String::from("Big image")),
        image_small: (String::new(), String::new()),
    }
}

#[test]
fn encode_writes_the_exact_record() {
    let text = encode_config(&sample());
    assert_eq!(
        text,
        "{\"app_id\":\"123456789\",\"details\":\"working\",\"state\":\"on something\",\
         \"party\":[1,4],\"image_large\":[\"key_big\",\"Big image\"],\"image_small\":[\"\",\"\"]}"
    );
}

#[test]
fn round_trip_plain() {
    let c = sample();
    let text = encode_config(&c);
    let back = parse_config(&text).expect("own output must parse");
    assert_eq!(back, c);
}

#[test]
fn round_trip_with_escapes_and_unicode() {
    let c = PresenceConfig {
        app_id: String::from("0"),
        details: String::from("line one\nline \"two\" \\ done"),
        state: String::from("tab\there\r\u{8}\u{c}"),
        party: (4294967295, 0),
        image_large: (String::from("none"), String::from("none")),
        image_small: (String::from("héllo ✓"), String::from("ünïcode")),
    };
    let text = encode_config(&c);
    let back = parse_config(&text).expect("own output must parse");
    assert_eq!(back, c);
}

#[test]
fn round_trip_empty_strings() {
    let c = PresenceConfig {
        app_id: String::new(),
        details: String::new(),
        state: String::new(),
        party: (0, 0),
        image_large: (String::new(), String::new()),
        image_small: (String::new(), String::new()),
    };
    let back = parse_config(&encode_config(&c)).expect("own output must parse");
    assert_eq!(back, c);
}

#[test]
fn parse_reads_escape_codes() {
    let text = "{\"app_id\":\"a\",\"details\":\"x\\n\\t\\r\\b\\f\\\"\\\\\\/y\",\"state\":\"\",\
                \"party\":[0,0],\"image_large\":[\"\",\"\"],\"image_small\":[\"\",\"\"]}";
    let c = parse_config(text).expect("escape codes must parse");
    assert_eq!(c.details, "x\n\t\r\u{8}\u{c}\"\\/y");
}

#[test]
fn parse_rejects_malformed_input() {
    assert!(parse_config("").is_none());
    assert!(parse_config("{}").is_none());
    assert!(parse_config("not json at all").is_none());
    // a field out of order
    assert!(parse_config(
        "{\"details\":\"\",\"app_id\":\"\",\"state\":\"\",\"party\":[0,0],\
         \"image_large\":[\"\",\"\"],\"image_small\":[\"\",\"\"]}"
    )
    .is_none());
    // unterminated string
    assert!(parse_config("{\"app_id\":\"abc").is_none());
    // unknown escape code
    assert!(parse_config(
        "{\"app_id\":\"\\x\",\"details\":\"\",\"state\":\"\",\"party\":[0,0],\
         \"image_large\":[\"\",\"\"],\"image_small\":[\"\",\"\"]}"
    )
    .is_none());
    // missing party value
    assert!(parse_config(
        "{\"app_id\":\"\",\"details\":\"\",\"state\":\"\",\"party\":[,0],\
         \"image_large\":[\"\",\"\"],\"image_small\":[\"\",\"\"]}"
    )
    .is_none());
}

#[test]
fn parse_rejects_trailing_text() {
    let mut text = encode_config(&sample());
    text.push(' ');
    assert!(parse_config(&text).is_none());
}

#[test]
fn parse_rejects_numbers_beyond_u32() {
    let text = "{\"app_id\":\"\",\"details\":\"\",\"state\":\"\",\"party\":[4294967296,0],\
                \"image_large\":[\"\",\"\"],\"image_small\":[\"\",\"\"]}";
    assert!(parse_config(text).is_none());
    let text = "{\"app_id\":\"\",\"details\":\"\",\"state\":\"\",\"party\":[4294967295,0],\
                \"image_large\":[\"\",\"\"],\"image_small\":[\"\",\"\"]}";
    let c = parse_config(text).expect("u32::MAX itself fits");
    assert_eq!(c.party.0, 4294967295);
}

#[test]
fn parse_accepts_leading_zeros() {
    let text = "{\"app_id\":\"\",\"details\":\"\",\"state\":\"\",\"party\":[007,010],\
                \"image_large\":[\"\",\"\"],\"image_small\":[\"\",\"\"]}";
    let c = parse_config(text).expect("leading zeros are read as their value");
    assert_eq!(c.party, (7, 10));
}

#[test]
fn encoded_output_is_valid_json_for_serde() {
    let c = PresenceConfig {
        app_id: String::from("987"),
        details: String::from("quote \" backslash \\ newline \n end"),
        state: String::from("plain"),
        party: (3, 9),
        image_large: (String::from("k"), String::from("t")),
        image_small: (String::from("none"), String::from("none")),
    };
    let text = encode_config(&c);
    let v: serde_json::Value = serde_json::from_str(&text).expect("encoder must emit valid JSON");
    assert_eq!(v["app_id"], serde_json::Value::String(String::from("987")));
    assert_eq!(
        v["details"],
        serde_json::Value::String(String::from("quote \" backslash \\ newline \n end"))
    );
    assert_eq!(v["party"][0], serde_json::Value::from(3u32));
    assert_eq!(v["party"][1], serde_json::Value::from(9u32));
    assert_eq!(v["image_small"][0], serde_json::Value::String(String::from("none")));
}

#[test]
fn parse_accepts_serde_compact_output() {
    // The same record shape, serialized by serde_json from a value that
    // keeps the field order of the record.
    let text = String::from("{\"app_id\":")
        + &serde_json::to_string("app").unwrap()
        + ",\"details\":"
        + &serde_json::to_string("has \"quotes\" and \\slashes\\").unwrap()
        + ",\"state\":"
        + &serde_json::to_string("fine").unwrap()
        + ",\"party\":[2,8],\"image_large\":[\"a\",\"b\"],\"image_small\":[\"\",\"\"]}";
    let c = parse_config(&text).expect("serde-escaped strings must parse");
    assert_eq!(c.app_id, "app");
    assert_eq!(c.details, "has \"quotes\" and \\slashes\\");
    assert_eq!(c.party, (2, 8));
}
