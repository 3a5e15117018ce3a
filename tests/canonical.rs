use crypto_tran::decode::{parse_amount, parse_quoted, parse_signed, text_chars};
use crypto_tran::{CryptoError, Transaction};

fn sample() -> Transaction {
    Transaction::with_id_and_time(
        "tx-1".to_string(),
        "A".to_string(),
        "B".to_string(),
        10000,
        1700000000,
    )
}

#[test]
fn serialize_writes_fields_in_order() {
    assert_eq!(
        sample().serialize(),
        "{\"id\":\"tx-1\",\"sender_id\":\"A\",\"recipient_id\":\"B\",\"amount\":100.0,\"timestamp\":1700000000,\"signature\":null,\"prev_hash\":null,\"current_hash\":null}"
    );
}

#[test]
fn serialize_escapes_control_characters() {
    let t = Transaction::with_id_and_time(
        "q\"b\\c\n\t\u{1}\u{1f}\u{7f}é".to_string(),
        "A".to_string(),
        "B".to_string(),
        0,
        0,
    );
    assert!(t
        .serialize()
        .starts_with("{\"id\":\"q\\\"b\\\\c\\n\\t\\u0001\\u001f\u{7f}é\",\"sender_id\""));
}

#[test]
fn amounts_are_written_as_shortest_decimals() {
    let text = |amount: u64| {
        Transaction::with_id_and_time("i".to_string(), "s".to_string(), "r".to_string(), amount, 0)
            .serialize()
    };
    assert!(text(10000).contains("\"amount\":100.0,"));
    assert!(text(1250).contains("\"amount\":12.5,"));
    assert!(text(1234).contains("\"amount\":12.34,"));
    assert!(text(5).contains("\"amount\":0.05,"));
    assert!(text(0).contains("\"amount\":0.0,"));
    assert!(text(u64::MAX).contains("\"amount\":184467440737095516.15,"));
}

#[test]
fn timestamps_keep_their_sign() {
    let text = |ts: i64| {
        Transaction::with_id_and_time("i".to_string(), "s".to_string(), "r".to_string(), 1, ts)
            .serialize()
    };
    assert!(text(-42).contains("\"timestamp\":-42,"));
    assert!(text(i64::MIN).contains("\"timestamp\":-9223372036854775808,"));
    assert!(text(i64::MAX).contains("\"timestamp\":9223372036854775807,"));
}

#[test]
fn equal_content_gives_identical_encodings() {
    let a = sample();
    let mut b = sample();
    assert_eq!(a.serialize_without_signature(), b.serialize_without_signature());
    b.signature = Some("c2ln".to_string());
    b.prev_hash = Some("00".to_string());
    b.current_hash = Some("11".to_string());
    assert_eq!(a.serialize_without_signature(), b.serialize_without_signature());
    assert_ne!(a.serialize(), b.serialize());
}

#[test]
fn link_text_keeps_only_the_previous_hash() {
    let mut t = sample();
    t.signature = Some("c2ln".to_string());
    t.prev_hash = Some("ab".to_string());
    t.current_hash = Some("cd".to_string());
    assert_eq!(
        t.serialize_with_link(),
        "{\"id\":\"tx-1\",\"sender_id\":\"A\",\"recipient_id\":\"B\",\"amount\":100.0,\"timestamp\":1700000000,\"signature\":null,\"prev_hash\":\"ab\",\"current_hash\":null}"
    );
}

#[test]
fn deserialize_reads_back_serialize() {
    let mut t = Transaction::with_id_and_time(
        "q\"\n\u{1}é".to_string(),
        "sender \\ x".to_string(),
        "B".to_string(),
        1205,
        -7,
    );
    t.signature = Some("c2ln".to_string());
    t.prev_hash = Some("0".repeat(64));
    let text = t.serialize();
    let back = Transaction::deserialize(&text).unwrap();
    assert_eq!(back.id, t.id);
    assert_eq!(back.sender_id, t.sender_id);
    assert_eq!(back.recipient_id, t.recipient_id);
    assert_eq!(back.amount, 1205);
    assert_eq!(back.timestamp, -7);
    assert_eq!(back.signature, t.signature);
    assert_eq!(back.prev_hash, t.prev_hash);
    assert_eq!(back.current_hash, None);
    assert_eq!(back.serialize(), text);
}

#[test]
fn deserialize_rejects_non_canonical_text() {
    let text = sample().serialize();
    let spaced = text.replace(",", ", ");
    assert_eq!(Transaction::deserialize(&spaced).err(), Some(CryptoError::MalformedInput));
    let padded = text.replace("100.0", "100.00");
    assert_eq!(Transaction::deserialize(&padded).err(), Some(CryptoError::MalformedInput));
    assert_eq!(Transaction::deserialize("").err(), Some(CryptoError::MalformedInput));
    assert_eq!(Transaction::deserialize(&text[..text.len() - 1]).err(), Some(CryptoError::MalformedInput));
}

#[test]
fn parse_quoted_reads_escapes() {
    let cs = text_chars("\"a\\\"b\\u001f\\n\"rest");
    let (s, end) = parse_quoted(&cs, 0).unwrap();
    assert_eq!(s, "a\"b\u{1f}\n");
    assert_eq!(end, 14);
    assert!(parse_quoted(&text_chars("\"unterminated"), 0).is_none());
    assert!(parse_quoted(&text_chars("\"\\u0041\""), 0).is_none());
}

#[test]
fn parse_numbers_read_canonical_text() {
    assert_eq!(parse_amount(&text_chars("12.5,"), 0), Some((1250, 4)));
    assert_eq!(parse_amount(&text_chars("0.05}"), 0), Some((5, 4)));
    assert_eq!(parse_signed(&text_chars("-9223372036854775808,"), 0), Some((i64::MIN, 20)));
    assert_eq!(parse_signed(&text_chars("42"), 0), Some((42, 2)));
    assert_eq!(parse_signed(&text_chars("x"), 0), None);
}
