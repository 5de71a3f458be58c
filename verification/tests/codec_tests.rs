use workout_helper::codec::decode_exercises;
use workout_helper::codec::encode_exercises;
use workout_helper::exercise::Exercise;

fn sample() -> Vec<Exercise> {
    vec![
        Exercise {
            name: "Static Birddog Hold".to_string(),
            progression_low: 5,
            progression_high: 12,
            reps: 10,
            sets: 3,
            rest_ms: 60_000,
        },
        Exercise {
            name: "Rows".to_string(),
            progression_low: 8,
            progression_high: 15,
            reps: 12,
            sets: 2,
            rest_ms: 7_500,
        },
    ]
}

#[test]
fn encodes_the_exact_document() {
    let one = vec![Exercise::default()];
    assert_eq!(
        encode_exercises(&one),
        "[{\"name\":\"Exercise\",\"progression\":[5,12],\"reps\":5,\"sets\":3,\
         \"rest\":{\"secs\":60,\"nanos\":0}}]"
    );
}

#[test]
fn encodes_fractional_rest_as_nanoseconds() {
    let mut e = Exercise::default();
    e.rest_ms = 7_500;
    let s = encode_exercises(&vec![e]);
    assert!(s.contains("\"rest\":{\"secs\":7,\"nanos\":500000000}"));
}

#[test]
fn three_records_round_trip() {
    let mut list = sample();
    list.push(Exercise {
        name: "quote \" backslash \\ newline \n tab \t".to_string(),
        progression_low: 1,
        progression_high: 2,
        reps: 3,
        sets: 4,
        rest_ms: 5,
    });
    let encoded = encode_exercises(&list);
    let decoded = decode_exercises(&encoded).expect("the encoder's output must decode");
    assert_eq!(decoded, list);
}

#[test]
fn empty_list_round_trips() {
    let empty: Vec<Exercise> = Vec::new();
    assert_eq!(encode_exercises(&empty), "[]");
    assert_eq!(decode_exercises("[]"), Some(Vec::new()));
}

#[test]
fn malformed_documents_are_refused() {
    assert_eq!(decode_exercises(""), None);
    assert_eq!(decode_exercises("["), None);
    assert_eq!(decode_exercises("{}"), None);
    assert_eq!(decode_exercises("[{\"name\":\"x\"}]"), None);
    let good = encode_exercises(&sample());
    assert_eq!(decode_exercises(&format!("{} ", good)), None);
    assert_eq!(decode_exercises(&good[..good.len() - 1]), None);
}

#[test]
fn decodes_standard_escapes() {
    let doc = "[{\"name\":\"a\\u0041\\t\\\"b\",\"progression\":[1,2],\"reps\":3,\"sets\":4,\
               \"rest\":{\"secs\":1,\"nanos\":500000000}}]";
    let list = decode_exercises(doc).expect("escape forms must decode");
    assert_eq!(list[0].name, "aA\t\"b");
    assert_eq!(list[0].rest_ms, 1_500);
}

#[test]
fn serde_json_reads_the_encoder_output() {
    let encoded = encode_exercises(&sample());
    let value: serde_json::Value = serde_json::from_str(&encoded).expect("must be valid JSON");
    let records = value.as_array().expect("a JSON array");
    assert_eq!(records.len(), 2);
    assert_eq!(records[0]["name"].as_str(), Some("Static Birddog Hold"));
    assert_eq!(records[0]["progression"][0].as_u64(), Some(5));
    assert_eq!(records[0]["progression"][1].as_u64(), Some(12));
    assert_eq!(records[0]["reps"].as_u64(), Some(10));
    assert_eq!(records[0]["sets"].as_u64(), Some(3));
    assert_eq!(records[0]["rest"]["secs"].as_u64(), Some(60));
    assert_eq!(records[0]["rest"]["nanos"].as_u64(), Some(0));
    assert_eq!(records[1]["rest"]["secs"].as_u64(), Some(7));
    assert_eq!(records[1]["rest"]["nanos"].as_u64(), Some(500_000_000));
}

