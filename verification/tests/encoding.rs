use lunch_bot::clock::Timestamp;
use lunch_bot::state::{
    update_state, Group, LunchBotState, Proposal, StateUpdateCallbacks, User,
};
use lunch_bot::text::{decimal_text, join};
use serde_json::Value;

struct Nobody;

impl StateUpdateCallbacks for Nobody {
    fn get_list_of_users(&self, _channel: &str) -> Vec<User> {
        Vec::new()
    }
}

fn sample() -> LunchBotState {
    LunchBotState::from_parts(
        vec![
            Group::new("team", vec!["alice", "bob", ""]),
            Group::new("empty", vec![]),
        ],
        vec![
            Proposal::from_parts(
                "\"the pub\"".to_string(),
                "12:30".to_string(),
                Some("team".to_string()),
                Some(("lobby".to_string(), "12:15".to_string())),
                Timestamp { secs: 1_700_000_000, nanos: 123_456_789 },
            ),
            Proposal::from_parts(
                "cafe".to_string(),
                "13:00".to_string(),
                None,
                None,
                Timestamp { secs: u64::MAX, nanos: u32::MAX },
            ),
        ],
        4_294_967_295,
        "#lunch\\\u{1}\n\u{1f}\u{7f}\u{e9}".to_string(),
    )
}

#[test]
fn backup_and_recover() {
    let state = LunchBotState::new("#ahoj");
    let backup = state.serialize();

    let mut state2 = LunchBotState::new("");
    if let Some(recovered) = LunchBotState::deserialize(&backup) {
        state2 = recovered;
    }

    assert_eq!(state, state2);
}

#[test]
fn empty_state_as_text() {
    assert_eq!(
        "{\"groups\":[],\"proposals\":[],\"store\":0,\"channel\":\"#ahoj\"}",
        LunchBotState::new("#ahoj").serialize()
    );
}

#[test]
fn full_state_as_text() {
    let expected = concat_all(&[
        "{\"groups\":[",
        "{\"name\":\"team\",\"users\":[\"alice\",\"bob\",\"\"]},",
        "{\"name\":\"empty\",\"users\":[]}",
        "],\"proposals\":[",
        "{\"place\":\"\\\"the pub\\\"\",\"time\":\"12:30\",\"group\":\"team\",",
        "\"created\":{\"secs_since_epoch\":1700000000,\"nanos_since_epoch\":123456789},",
        "\"meeting_point\":{\"place\":\"lobby\",\"time\":\"12:15\"}},",
        "{\"place\":\"cafe\",\"time\":\"13:00\",\"group\":null,",
        "\"created\":{\"secs_since_epoch\":18446744073709551615,\"nanos_since_epoch\":4294967295}}",
        "],\"store\":4294967295,",
        "\"channel\":\"#lunch\\\\\\u0001\\n\\u001f\u{7f}\u{e9}\"}",
    ]);
    assert_eq!(expected, sample().serialize());
}

#[test]
fn control_characters_as_text() {
    let state = LunchBotState::new("\u{0}\u{7}\u{8}\t\n\u{b}\u{c}\r\u{e}\u{1f} \"\\/");
    assert_eq!(
        "{\"groups\":[],\"proposals\":[],\"store\":0,\"channel\":\"\\u0000\\u0007\\b\\t\\n\\u000b\\f\\r\\u000e\\u001f \\\"\\\\/\"}",
        state.serialize()
    );
    assert_eq!(Some(state), LunchBotState::deserialize(
        "{\"groups\":[],\"proposals\":[],\"store\":0,\"channel\":\"\\u0000\\u0007\\b\\t\\n\\u000b\\f\\r\\u000e\\u001f \\\"\\\\/\"}"
    ));
}

#[test]
fn control_characters_are_read_in_both_forms() {
    let read = |channel: &str| {
        let text = format!(
            "{{\"groups\":[],\"proposals\":[],\"store\":0,\"channel\":\"{}\"}}",
            channel
        );
        LunchBotState::deserialize(&text).map(|s| s.channel().to_string())
    };
    assert_eq!(Some("\n".to_string()), read("\\n"));
    assert_eq!(Some("\n".to_string()), read("\\u000a"));
    assert_eq!(Some("\u{1b}".to_string()), read("\\u001b"));
    assert_eq!(None, read("\\u001B"));
    assert_eq!(None, read("\\u0020"));
    assert_eq!(None, read("\\u00"));
    assert_eq!(None, read("\\a"));
    assert_eq!(None, read("\\/"));
    assert_eq!(None, read("\n"));
    assert_eq!(None, read("\""));
}

#[test]
fn what_is_written_is_what_serde_json_writes() {
    let text_of = |s: &str| Value::String(s.to_string());
    let object = |fields: Vec<(&str, Value)>| {
        let mut map = serde_json::Map::new();
        for (key, value) in fields {
            map.insert(key.to_string(), value);
        }
        Value::Object(map)
    };
    let value = object(vec![
        (
            "groups",
            Value::Array(vec![
                object(vec![
                    ("name", text_of("team")),
                    (
                        "users",
                        Value::Array(vec![text_of("alice"), text_of("bob"), text_of("")]),
                    ),
                ]),
                object(vec![("name", text_of("empty")), ("users", Value::Array(vec![]))]),
            ]),
        ),
        (
            "proposals",
            Value::Array(vec![
                object(vec![
                    ("place", text_of("\"the pub\"")),
                    ("time", text_of("12:30")),
                    ("group", text_of("team")),
                    (
                        "created",
                        object(vec![
                            ("secs_since_epoch", Value::from(1_700_000_000u64)),
                            ("nanos_since_epoch", Value::from(123_456_789u32)),
                        ]),
                    ),
                    (
                        "meeting_point",
                        object(vec![("place", text_of("lobby")), ("time", text_of("12:15"))]),
                    ),
                ]),
                object(vec![
                    ("place", text_of("cafe")),
                    ("time", text_of("13:00")),
                    ("group", Value::Null),
                    (
                        "created",
                        object(vec![
                            ("secs_since_epoch", Value::from(u64::MAX)),
                            ("nanos_since_epoch", Value::from(u32::MAX)),
                        ]),
                    ),
                ]),
            ]),
        ),
        ("store", Value::from(4_294_967_295u32)),
        ("channel", text_of("#lunch\\\u{1}\n\u{1f}\u{7f}\u{e9}")),
    ]);
    let written = match serde_json::to_string(&value) {
        Ok(text) => text,
        Err(e) => panic!("serde_json: {}", e),
    };
    assert_eq!(written, sample().serialize());
    assert_eq!(Some(sample()), LunchBotState::deserialize(&written));

    for channel in ["", "#c", "\u{0}\u{8}\t\n\u{b}\u{c}\r\u{1f}\u{7f}", "a\"b\\c/d", "\u{1F600}\u{2028}"] {
        let quoted = match serde_json::to_string(&text_of(channel)) {
            Ok(text) => text,
            Err(e) => panic!("serde_json: {}", e),
        };
        assert_eq!(
            format!("{{\"groups\":[],\"proposals\":[],\"store\":0,\"channel\":{}}}", quoted),
            LunchBotState::new(channel).serialize()
        );
    }
}

#[test]
fn a_proposal_is_read_with_or_without_a_meeting_point() {
    let text = |rest: &str| {
        format!(
            "{{\"groups\":[],\"proposals\":[{{\"place\":\"p\",\"time\":\"t\",\"group\":null,\"created\":{{\"secs_since_epoch\":1,\"nanos_since_epoch\":2}}{}}}],\"store\":0,\"channel\":\"\"}}",
            rest
        )
    };
    let meeting = |rest: &str| {
        LunchBotState::deserialize(&text(rest)).map(|s| {
            s.proposals()[0]
                .meeting_point()
                .map(|(p, t)| (p.to_string(), t.to_string()))
        })
    };
    assert_eq!(Some(None), meeting(""));
    assert_eq!(
        Some(Some(("x".to_string(), "y".to_string()))),
        meeting(",\"meeting_point\":{\"place\":\"x\",\"time\":\"y\"}")
    );
    assert_eq!(None, meeting(",\"meeting_point\":null"));
    assert_eq!(None, meeting(",\"meeting_point\":{\"place\":\"x\"}"));
    assert_eq!(None, meeting(",\"meeting\":{\"place\":\"x\",\"time\":\"y\"}"));
}

fn concat_all(parts: &[&str]) -> String {
    parts.iter().map(|p| p.to_string()).collect()
}

#[test]
fn round_trip() {
    let state = sample();
    let text = state.serialize();
    let back = LunchBotState::deserialize(&text);
    assert_eq!(Some(state), back);
    assert_eq!(text, back.map(|s| s.serialize()).unwrap_or_default());
}

#[test]
fn round_trip_keeps_the_instants() {
    let back = LunchBotState::deserialize(&sample().serialize());
    match back {
        Some(state) => {
            assert_eq!(
                Timestamp { secs: 1_700_000_000, nanos: 123_456_789 },
                state.proposals()[0].created()
            );
            assert_eq!(
                Timestamp { secs: u64::MAX, nanos: u32::MAX },
                state.proposals()[1].created()
            );
            assert_eq!(Some(("lobby", "12:15")), state.proposals()[0].meeting_point());
            assert_eq!(4_294_967_295, state.store());
        }
        None => panic!("the text holds a state"),
    }
}

#[test]
fn what_is_written_is_valid_json() {
    let text = sample().serialize();
    let value: Value = match serde_json::from_str(&text) {
        Ok(v) => v,
        Err(e) => panic!("not JSON: {}", e),
    };
    assert_eq!(Some("team"), value["groups"][0]["name"].as_str());
    assert_eq!(Some(""), value["groups"][0]["users"][2].as_str());
    assert_eq!(Some(0), value["groups"][1]["users"].as_array().map(|a| a.len()));
    assert_eq!(Some("\"the pub\""), value["proposals"][0]["place"].as_str());
    assert_eq!(Some("12:30"), value["proposals"][0]["time"].as_str());
    assert_eq!(Some("team"), value["proposals"][0]["group"].as_str());
    assert!(value["proposals"][1]["group"].is_null());
    assert_eq!(
        Some(1_700_000_000),
        value["proposals"][0]["created"]["secs_since_epoch"].as_u64()
    );
    assert_eq!(
        Some(123_456_789),
        value["proposals"][0]["created"]["nanos_since_epoch"].as_u64()
    );
    assert_eq!(Some(4_294_967_295), value["store"].as_u64());
    assert_eq!(
        Some("#lunch\\\u{1}\n\u{1f}\u{7f}\u{e9}"),
        value["channel"].as_str()
    );
}

#[test]
fn reading_is_strict() {
    let good = "{\"groups\":[],\"proposals\":[],\"store\":7,\"channel\":\"#c\"}";
    assert_eq!(Some(7), LunchBotState::deserialize(good).map(|s| s.store()));
    let bad = [
        "",
        "{}",
        "null",
        "{\"groups\":[],\"proposals\":[],\"store\":7,\"channel\":\"#c\"} ",
        " {\"groups\":[],\"proposals\":[],\"store\":7,\"channel\":\"#c\"}",
        "{\"groups\": [],\"proposals\":[],\"store\":7,\"channel\":\"#c\"}",
        "{\"proposals\":[],\"groups\":[],\"store\":7,\"channel\":\"#c\"}",
        "{\"groups\":[],\"proposals\":[],\"store\":,\"channel\":\"#c\"}",
        "{\"groups\":[],\"proposals\":[],\"store\":-1,\"channel\":\"#c\"}",
        "{\"groups\":[],\"proposals\":[],\"store\":4294967296,\"channel\":\"#c\"}",
        "{\"groups\":[],\"proposals\":[],\"store\":7,\"channel\":\"#c}",
        "{\"groups\":[],\"proposals\":[],\"store\":7,\"channel\":\"#\nc\"}",
        "{\"groups\":[],\"proposals\":[],\"store\":7,\"channel\":\"\\x\"}",
        "{\"groups\":[],\"proposals\":[],\"store\":7,\"channel\":\"\\u0041\"}",
        "{\"groups\":[,],\"proposals\":[],\"store\":7,\"channel\":\"#c\"}",
        "{\"groups\":[{\"name\":\"g\",\"users\":[\"a\",]}],\"proposals\":[],\"store\":7,\"channel\":\"#c\"}",
        "{\"groups\":[],\"proposals\":[],\"store\":7,\"channel\":\"#c\"",
    ];
    for text in bad {
        assert_eq!(None, LunchBotState::deserialize(text), "{}", text);
    }
}

#[test]
fn reading_takes_numbers_up_to_their_size() {
    let text = |secs: &str, nanos: &str| {
        format!(
            "{{\"groups\":[],\"proposals\":[{{\"place\":\"p\",\"time\":\"t\",\"group\":null,\"created\":{{\"secs_since_epoch\":{},\"nanos_since_epoch\":{}}}}}],\"store\":0,\"channel\":\"\"}}",
            secs, nanos
        )
    };
    let created = |secs: &str, nanos: &str| {
        LunchBotState::deserialize(&text(secs, nanos)).map(|s| s.proposals()[0].created())
    };
    assert_eq!(Some(Timestamp { secs: 0, nanos: 0 }), created("0", "0"));
    assert_eq!(Some(Timestamp { secs: 12, nanos: 7 }), created("0012", "007"));
    assert_eq!(
        Some(Timestamp { secs: u64::MAX, nanos: u32::MAX }),
        created("18446744073709551615", "4294967295")
    );
    assert_eq!(None, created("18446744073709551616", "0"));
    assert_eq!(None, created("0", "4294967296"));
    assert_eq!(None, created("", "0"));
    assert_eq!(None, created("1e3", "0"));
}

#[test]
fn dumpstate_and_restore() {
    let mut state = sample();
    let dump = update_state("lb dumpstate", &mut state, &Nobody);
    assert_eq!(state.serialize(), dump);

    let mut other = LunchBotState::new("#elsewhere");
    let line = format!("lb restore {}", dump);
    assert_eq!("Success", update_state(&line, &mut other, &Nobody));
    assert_eq!(state, other);
    assert_eq!("#lunch\\\u{1}\n\u{1f}\u{7f}\u{e9}", other.channel());
}

#[test]
fn restore_of_what_is_no_state_changes_nothing() {
    let mut state = sample();
    let before = state.serialize();
    assert_eq!("Fail", update_state("lb restore {}", &mut state, &Nobody));
    assert_eq!("Fail", update_state("lb restore ", &mut state, &Nobody));
    let cut = format!("lb restore {}", &before[..before.len() - 1]);
    assert_eq!("Fail", update_state(&cut, &mut state, &Nobody));
    assert_eq!(before, state.serialize());
}

#[test]
fn decimal_text_writes_numbers() {
    assert_eq!("0", decimal_text(0));
    assert_eq!("7", decimal_text(7));
    assert_eq!("10", decimal_text(10));
    assert_eq!("1234567890", decimal_text(1_234_567_890));
    assert_eq!("18446744073709551615", decimal_text(u64::MAX));
}

#[test]
fn join_puts_the_separator_between() {
    let items = vec!["a".to_string(), "".to_string(), "b".to_string()];
    assert_eq!("a, , b", join(&items, ", "));
    assert_eq!("", join(&Vec::new(), ","));
    assert_eq!("x", join(&vec!["x".to_string()], ","));
}
