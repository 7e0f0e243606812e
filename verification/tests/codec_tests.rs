use bullmq_rust::decode_job;
use bullmq_rust::encode_job;
use bullmq_rust::JobData;

fn job(
    id: &str,
    message: &str,
    timestamp: &str,
    priority: Option<i32>,
    delay: Option<i64>,
    retries: Option<u32>,
    expires_in: Option<i64>,
    progress: Option<u32>,
) -> JobData {
    JobData {
        id: id.to_string(),
        message: message.to_string(),
        timestamp: timestamp.to_string(),
        priority,
        delay,
        retries,
        expires_in,
        progress,
    }
}

#[test]
fn test_round_trip_plain_job() {
    let j = job(
        "job_1",
        "Hello",
        "2024-01-01T00:00:00+00:00",
        Some(1),
        Some(0),
        Some(3),
        Some(1_700_000_060),
        Some(0),
    );
    let encoded = encode_job(&j);
    let decoded = decode_job(&encoded).unwrap();
    assert_eq!(decoded, j);
}

#[test]
fn test_round_trip_all_fields_absent() {
    let j = job("", "", "", None, None, None, None, None);
    let decoded = decode_job(&encode_job(&j)).unwrap();
    assert_eq!(decoded, j);
}

#[test]
fn test_round_trip_negative_and_extreme_numbers() {
    let j = job(
        "x",
        "y",
        "z",
        Some(-5),
        Some(i64::MIN),
        Some(u32::MAX),
        Some(i64::MAX),
        Some(100),
    );
    let decoded = decode_job(&encode_job(&j)).unwrap();
    assert_eq!(decoded, j);
}

#[test]
fn test_round_trip_escaped_strings() {
    let j = job(
        "a\"b",
        "back\\slash\nand\ttabs\r",
        "ctl\u{1}\u{8}\u{c}\u{1f}end",
        None,
        None,
        None,
        None,
        None,
    );
    let decoded = decode_job(&encode_job(&j)).unwrap();
    assert_eq!(decoded, j);
}

#[test]
fn test_round_trip_unicode_payload() {
    let j = job("idé", "sürpriz ✓ payload", "2024", Some(0), None, Some(0), None, None);
    let decoded = decode_job(&encode_job(&j)).unwrap();
    assert_eq!(decoded, j);
}

#[test]
fn test_encode_exact_text() {
    let j = job("a", "b\"c", "t", None, Some(-7), Some(0), None, Some(100));
    assert_eq!(
        encode_job(&j),
        "{\"id\":\"a\",\"message\":\"b\\\"c\",\"timestamp\":\"t\",\"priority\":null,\"delay\":-7,\"retries\":0,\"expires_in\":null,\"progress\":100}"
    );
}

#[test]
fn test_encode_escapes_controls() {
    let j = job("n\nr\rt\tq\"s\\u\u{1}", "", "", None, None, None, None, None);
    let encoded = encode_job(&j);
    assert!(encoded.starts_with("{\"id\":\"n\\nr\\rt\\tq\\\"s\\\\u\\u0001\""));
}

#[test]
fn test_decode_rejects_malformed_payloads() {
    assert!(decode_job("").is_none());
    assert!(decode_job("not a job").is_none());
    assert!(decode_job("{\"id\":\"a\"}").is_none());
    // unterminated string
    assert!(decode_job("{\"id\":\"a").is_none());
    // a numeral too large for the field
    let too_big = "{\"id\":\"a\",\"message\":\"b\",\"timestamp\":\"t\",\"priority\":null,\"delay\":null,\"retries\":99999999999,\"expires_in\":null,\"progress\":null}";
    assert!(decode_job(too_big).is_none());
    // trailing text after the object
    let trailing = "{\"id\":\"a\",\"message\":\"b\",\"timestamp\":\"t\",\"priority\":null,\"delay\":null,\"retries\":null,\"expires_in\":null,\"progress\":null} ";
    assert!(decode_job(trailing).is_none());
}

#[test]
fn test_decode_accepts_canonical_payload() {
    let text = "{\"id\":\"a\",\"message\":\"b\",\"timestamp\":\"t\",\"priority\":-3,\"delay\":10,\"retries\":2,\"expires_in\":null,\"progress\":0}";
    let j = decode_job(text).unwrap();
    assert_eq!(j.id, "a");
    assert_eq!(j.message, "b");
    assert_eq!(j.timestamp, "t");
    assert_eq!(j.priority, Some(-3));
    assert_eq!(j.delay, Some(10));
    assert_eq!(j.retries, Some(2));
    assert_eq!(j.expires_in, None);
    assert_eq!(j.progress, Some(0));
}
