use base64::Engine;
use secretstash::session::{
    load_key, parse_session, read_timeout_record, session_content, timeout_record, use_session, SessionError,
};

fn now_secs() -> u64 {
    std::time::SystemTime::now()
        .duration_since(std::time::UNIX_EPOCH)
        .unwrap()
        .as_secs()
}

fn b64(bytes: &[u8]) -> String {
    base64::engine::general_purpose::STANDARD.encode(bytes)
}

fn make_session(expiry_offset_secs: i64, key: &[u8; 32]) -> String {
    let expiry = (now_secs() as i64 + expiry_offset_secs) as u64;
    format!("{}\n{}", expiry, b64(key))
}

#[test]
fn valid_session_parsed() {
    let key = [0x42u8; 32];
    let content = make_session(900, &key);
    assert_eq!(parse_session(&content, now_secs()).unwrap(), key.to_vec());
}

#[test]
fn expired_session_rejected() {
    let key = [0x42u8; 32];
    let content = make_session(-1, &key);
    let err = parse_session(&content, now_secs()).unwrap_err();
    assert_eq!(err, SessionError::Expired);
}

#[test]
fn missing_key_line_rejected() {
    let expiry = now_secs() + 900;
    let err = parse_session(&expiry.to_string(), now_secs()).unwrap_err();
    assert_eq!(err, SessionError::Corrupt);
}

#[test]
fn bad_base64_rejected() {
    let expiry = now_secs() + 900;
    let content = format!("{}\nnot!base64!!!", expiry);
    assert!(parse_session(&content, now_secs()).is_err());
}

#[test]
fn wrong_key_length_rejected() {
    let expiry = now_secs() + 900;
    let content = format!("{}\n{}", expiry, b64(&[0u8; 16]));
    let err = parse_session(&content, now_secs()).unwrap_err();
    assert_eq!(err, SessionError::Corrupt);
}

#[test]
fn non_numeric_expiry_rejected() {
    let err = parse_session("not-a-number\nYWJj", now_secs()).unwrap_err();
    assert_eq!(err, SessionError::Corrupt);
}

#[test]
fn zero_timeout_stores_max_expiry_and_never_expires() {
    let key = [0x11u8; 32];
    let content = format!("{}\n{}", u64::MAX, b64(&key));
    assert_eq!(parse_session(&content, now_secs()).unwrap(), key.to_vec());
}

#[test]
fn saved_session_reads_back_until_expiry() {
    let key = [7u8; 32];
    let started = 1_000_000;
    let content = session_content(&key, 15, started);
    assert_eq!(load_key(&content, started).unwrap(), key.to_vec());
    assert_eq!(load_key(&content, started + 15 * 60).unwrap(), key.to_vec());
    assert_eq!(load_key(&content, started + 15 * 60 + 1), Err(SessionError::Expired));
}

#[test]
fn session_file_layout() {
    let key = [0u8; 32];
    let content = session_content(&key, 2, 100);
    assert_eq!(content, format!("220\n{}", b64(&key)));
    let forever = session_content(&key, 0, 100);
    assert_eq!(forever, format!("{}\n{}", u64::MAX, b64(&key)));
}

#[test]
fn load_key_trims_the_file() {
    let key = [9u8; 32];
    let content = format!("  {}\n{}\n\n", u64::MAX, b64(&key));
    assert_eq!(load_key(&content, 5).unwrap(), key.to_vec());
}

#[test]
fn crlf_lines_are_read() {
    let key = [9u8; 32];
    let content = format!("{}\r\n{}", u64::MAX, b64(&key));
    assert_eq!(parse_session(&content, 5).unwrap(), key.to_vec());
}

#[test]
fn plus_sign_and_overflow_in_expiry() {
    let key = [9u8; 32];
    let plus = format!("+99\n{}", b64(&key));
    assert_eq!(parse_session(&plus, 99).unwrap(), key.to_vec());
    let too_big = format!("18446744073709551616\n{}", b64(&key));
    assert_eq!(parse_session(&too_big, 0), Err(SessionError::Corrupt));
}

#[test]
fn each_use_renews_the_session() {
    let key = [3u8; 32];
    let content = session_content(&key, 10, 1_000);
    // Used shortly before it would expire, the session is renewed.
    let (k, renewed) = use_session(&content, 1_500, 10).unwrap();
    assert_eq!(k, key.to_vec());
    let renewed = renewed.unwrap();
    assert_eq!(renewed, session_content(&key, 10, 1_500));
    assert_eq!(load_key(&renewed, 1_500 + 600).unwrap(), key.to_vec());
    assert_eq!(load_key(&renewed, 1_500 + 601), Err(SessionError::Expired));
    // Without the renewal it would have expired.
    assert_eq!(load_key(&content, 1_500 + 600), Err(SessionError::Expired));
}

#[test]
fn sessions_without_timeout_are_not_renewed() {
    let key = [4u8; 32];
    let forever = session_content(&key, 0, 100);
    let (k, renewed) = use_session(&forever, 5_000, 0).unwrap();
    assert_eq!(k, key.to_vec());
    assert!(renewed.is_none());
    let expired = session_content(&key, 1, 100);
    assert_eq!(use_session(&expired, 161, 1), Err(SessionError::Expired));
}

#[test]
fn timeout_record_reads_back() {
    assert_eq!(timeout_record(15), "15");
    assert_eq!(read_timeout_record(&timeout_record(15)), Some(15));
    assert_eq!(read_timeout_record(" 0\n"), Some(0));
    assert_eq!(read_timeout_record("soon"), None);
}
