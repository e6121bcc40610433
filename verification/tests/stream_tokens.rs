use tdswire::codec::DecodeError;
use tdswire::frame::{frame_message, unframe_message, MAX_PACKET_PAYLOAD, PT_REQUEST};
use tdswire::tokens::{decode_token, decode_tokens, encode_token, ColumnDesc, Token};
use tdswire::value::{Value, WireType};

fn sample_cols() -> Vec<ColumnDesc> {
    vec![
        ColumnDesc { name: b"SalesOrderID".to_vec(), ty: WireType::Int, nullable: false },
        ColumnDesc { name: b"Comment".to_vec(), ty: WireType::NVarChar, nullable: true },
        ColumnDesc { name: b"SubTotal".to_vec(), ty: WireType::Money, nullable: false },
    ]
}

#[test]
fn metadata_token_round_trip() {
    let tok = Token::ColMeta(sample_cols());
    let mut buf: Vec<u8> = Vec::new();
    let n = encode_token(&mut buf, &tok).unwrap();
    assert_eq!(n, buf.len());
    let (back, used) = decode_token(&buf, None).unwrap();
    assert_eq!(used, n);
    assert_eq!(back, tok);
}

#[test]
fn row_token_round_trip_needs_metadata() {
    let cols = sample_cols();
    let row = Token::Row(vec![
        Value::Int(42),
        Value::Null(WireType::NVarChar),
        Value::Money(205656206),
    ]);
    let mut buf: Vec<u8> = Vec::new();
    encode_token(&mut buf, &row).unwrap();
    // Without metadata in effect a row token is malformed.
    assert_eq!(decode_token(&buf, None), Err(DecodeError::Malformed));
    let (back, _) = decode_token(&buf, Some(&cols)).unwrap();
    assert_eq!(back, row);
}

#[test]
fn done_token_round_trip_with_and_without_code() {
    for tok in [
        Token::Done { rows_affected: 1, return_code: None },
        Token::Done { rows_affected: 0, return_code: Some(-2) },
        Token::Done { rows_affected: u64::MAX, return_code: Some(i32::MIN) },
    ] {
        let mut buf: Vec<u8> = Vec::new();
        encode_token(&mut buf, &tok).unwrap();
        let (back, used) = decode_token(&buf, None).unwrap();
        assert_eq!(used, buf.len());
        assert_eq!(back, tok);
    }
}

#[test]
fn error_token_round_trip() {
    let tok = Token::Error {
        severity: 16,
        line: 3,
        message: b"The status 16 is not valid.".to_vec(),
    };
    let mut buf: Vec<u8> = Vec::new();
    encode_token(&mut buf, &tok).unwrap();
    let (back, _) = decode_token(&buf, None).unwrap();
    assert_eq!(back, tok);
}

#[test]
fn env_and_login_ack_round_trip() {
    let mut buf: Vec<u8> = Vec::new();
    encode_token(&mut buf, &Token::EnvChange { database: b"FakeAdventureWorks".to_vec() })
        .unwrap();
    encode_token(&mut buf, &Token::LoginAck { version: 0x74000004 }).unwrap();
    encode_token(&mut buf, &Token::Done { rows_affected: 0, return_code: None }).unwrap();
    let toks = decode_tokens(&buf).unwrap();
    assert_eq!(toks.len(), 3);
    assert_eq!(toks[0], Token::EnvChange { database: b"FakeAdventureWorks".to_vec() });
    assert_eq!(toks[1], Token::LoginAck { version: 0x74000004 });
}

#[test]
fn token_decode_waits_for_full_payload() {
    let tok = Token::Error { severity: 11, line: 1, message: b"boom".to_vec() };
    let mut buf: Vec<u8> = Vec::new();
    encode_token(&mut buf, &tok).unwrap();
    for cut in 0..buf.len() {
        assert_eq!(decode_token(&buf[..cut], None), Err(DecodeError::NeedMore));
    }
}

#[test]
fn token_decode_rejects_unknown_tag() {
    // Uniform token shape: unknown tag with a complete payload.
    let buf = [0x55u8, 1, 0, 0, 0, 9];
    assert_eq!(decode_token(&buf, None), Err(DecodeError::Malformed));
}

#[test]
fn single_packet_frame_round_trip() {
    let msg = b"select 1".to_vec();
    let framed = frame_message(PT_REQUEST, &msg);
    assert_eq!(framed.len(), msg.len() + 4);
    let (pt, payload, used) = unframe_message(&framed).unwrap();
    assert_eq!(pt, PT_REQUEST);
    assert_eq!(payload, msg);
    assert_eq!(used, framed.len());
}

#[test]
fn multi_packet_frame_round_trip() {
    let msg: Vec<u8> = (0..3 * MAX_PACKET_PAYLOAD + 17).map(|i| (i % 251) as u8).collect();
    let framed = frame_message(PT_REQUEST, &msg);
    assert_eq!(framed.len(), msg.len() + 4 * 4);
    let (pt, payload, used) = unframe_message(&framed).unwrap();
    assert_eq!(pt, PT_REQUEST);
    assert_eq!(payload, msg);
    assert_eq!(used, framed.len());
}

#[test]
fn unframe_waits_for_missing_packets() {
    let msg: Vec<u8> = vec![7u8; MAX_PACKET_PAYLOAD + 5];
    let framed = frame_message(PT_REQUEST, &msg);
    for cut in [0, 3, 10, MAX_PACKET_PAYLOAD + 4, framed.len() - 1] {
        assert_eq!(unframe_message(&framed[..cut]), Err(DecodeError::NeedMore));
    }
}

#[test]
fn unframe_rejects_bad_length() {
    // A packet whose declared total length is below the header size.
    let buf = [PT_REQUEST, 1, 2, 0, 9, 9];
    assert_eq!(unframe_message(&buf), Err(DecodeError::Malformed));
}
