use base64::Engine;
use jito_client::{
    MAX_TRANSACTION_SIZE, TxError, serialize_tx, serialize_tx_checked, serialize_tx_vec,
    serialize_tx_vec_checked,
};

fn ok(b: &[u8]) -> Result<Vec<u8>, String> {
    Ok(b.to_vec())
}

#[test]
fn base64_of_known_texts() {
    assert_eq!(serialize_tx(ok(b"")).unwrap(), "");
    assert_eq!(serialize_tx(ok(b"f")).unwrap(), "Zg==");
    assert_eq!(serialize_tx(ok(b"fo")).unwrap(), "Zm8=");
    assert_eq!(serialize_tx(ok(b"foo")).unwrap(), "Zm9v");
    assert_eq!(serialize_tx(ok(b"foobar")).unwrap(), "Zm9vYmFy");
    assert_eq!(serialize_tx(ok(b"hello")).unwrap(), "aGVsbG8=");
    assert_eq!(serialize_tx(ok(&[0xfb, 0xff, 0xbf])).unwrap(), "+/+/");
}

#[test]
fn base64_length_is_four_per_three_bytes() {
    for n in 0..40usize {
        let data = vec![7u8; n];
        let text = serialize_tx(ok(&data)).unwrap();
        assert_eq!(text.len(), 4 * ((n + 2) / 3));
    }
}

#[test]
fn serializer_failure_is_passed_on() {
    let failed: Result<Vec<u8>, String> = Err("boom".to_string());
    assert_eq!(serialize_tx(failed.clone()), Err("boom".to_string()));
    assert!(matches!(serialize_tx_checked(failed), Err(TxError::Serialize(e)) if e == "boom"));
}

#[test]
fn checked_accepts_up_to_packet_size() {
    assert_eq!(MAX_TRANSACTION_SIZE, 1232);
    let at_limit = vec![1u8; 1232];
    let text = serialize_tx_checked(ok(&at_limit)).unwrap();
    assert_eq!(text, serialize_tx(ok(&at_limit)).unwrap());
    assert_eq!(text.len(), 1644);
    let over = vec![1u8; 1233];
    assert!(matches!(serialize_tx_checked(ok(&over)), Err(TxError::TooLarge(1233))));
}

#[test]
fn vec_encodes_each_in_order() {
    let items = vec![ok(b"f"), ok(b"fo"), ok(b"foo")];
    assert_eq!(serialize_tx_vec(items).unwrap(), vec!["Zg==", "Zm8=", "Zm9v"]);
    let none: Vec<Result<Vec<u8>, String>> = Vec::new();
    assert!(serialize_tx_vec(none).unwrap().is_empty());
}

#[test]
fn vec_stops_at_first_failure() {
    let items = vec![ok(b"f"), Err("first".to_string()), Err("second".to_string())];
    assert_eq!(serialize_tx_vec(items), Err("first".to_string()));
}

#[test]
fn vec_checked_reports_first_problem() {
    let big = vec![0u8; 1300];
    let items = vec![ok(b"a"), ok(&big), Err("later".to_string())];
    assert!(matches!(serialize_tx_vec_checked(items), Err(TxError::TooLarge(1300))));
    let items = vec![ok(b"a"), Err("early".to_string()), ok(&big)];
    assert!(matches!(serialize_tx_vec_checked(items), Err(TxError::Serialize(e)) if e == "early"));
    let items = vec![ok(b"f"), ok(b"foo")];
    assert_eq!(serialize_tx_vec_checked(items).unwrap(), vec!["Zg==", "Zm9v"]);
}

#[test]
fn base64_text_decodes_to_the_serialized_bytes() {
    for n in 0..20usize {
        let data: Vec<u8> = (0..n).map(|i| (i * 37 + 11) as u8).collect();
        let text = serialize_tx(ok(&data)).unwrap();
        let back = base64::engine::general_purpose::STANDARD.decode(&text).unwrap();
        assert_eq!(back, data);
    }
}
