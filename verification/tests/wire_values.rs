use tdswire::codec::{decode_cell, encode_cell, DecodeError, EncodeError};
use tdswire::value::{AccessError, Value, WireType};

fn round_trip(v: Value) {
    let mut buf: Vec<u8> = Vec::new();
    let n = encode_cell(&mut buf, &v).expect("encodable");
    assert_eq!(n, buf.len());
    let (back, used) = decode_cell(&buf, v.wire_type()).expect("decodable");
    assert_eq!(used, buf.len());
    assert_eq!(back, v);
}

#[test]
fn tiny_int_round_trip_bounds() {
    round_trip(Value::TinyInt(0));
    round_trip(Value::TinyInt(255));
}

#[test]
fn small_int_round_trip_bounds() {
    round_trip(Value::SmallInt(i16::MIN));
    round_trip(Value::SmallInt(-1));
    round_trip(Value::SmallInt(i16::MAX));
}

#[test]
fn int_round_trip_bounds() {
    round_trip(Value::Int(i32::MIN));
    round_trip(Value::Int(0));
    round_trip(Value::Int(i32::MAX));
}

#[test]
fn big_int_round_trip_bounds() {
    round_trip(Value::BigInt(i64::MIN));
    round_trip(Value::BigInt(i64::MAX));
}

#[test]
fn float_bit_patterns_round_trip() {
    round_trip(Value::Real(1.5f32.to_bits()));
    round_trip(Value::Real(f32::NEG_INFINITY.to_bits()));
    round_trip(Value::Float(20565.6206f64.to_bits()));
    round_trip(Value::Float(f64::MIN_POSITIVE.to_bits()));
    let mut buf: Vec<u8> = Vec::new();
    encode_cell(&mut buf, &Value::Float(616.0984f64.to_bits())).unwrap();
    let (back, _) = decode_cell(&buf, WireType::Float).unwrap();
    match back {
        Value::Float(bits) => assert_eq!(f64::from_bits(bits), 616.0984f64),
        other => panic!("wrong variant: {:?}", other),
    }
}

#[test]
fn money_round_trip_bounds() {
    round_trip(Value::Money(i64::MIN));
    round_trip(Value::Money(-1));
    round_trip(Value::Money(205656206)); // 20565.6206 in 1/10000 units
    round_trip(Value::Money(i64::MAX));
}

#[test]
fn decimal_round_trip_zero_and_max_scale() {
    let max_mag: i128 = 99999999999999999999999999999999999999;
    round_trip(Value::Decimal { scale: 0, mantissa: 0 });
    round_trip(Value::Decimal { scale: 0, mantissa: max_mag });
    round_trip(Value::Decimal { scale: 38, mantissa: -max_mag });
    round_trip(Value::Decimal { scale: 4, mantissa: -205656206 });
}

#[test]
fn decimal_out_of_range_rejected() {
    let mut buf: Vec<u8> = Vec::new();
    let too_big = Value::Decimal { scale: 0, mantissa: 100000000000000000000000000000000000000 };
    assert_eq!(encode_cell(&mut buf, &too_big), Err(EncodeError::ValueOutOfRange));
    assert!(buf.is_empty());
    let bad_scale = Value::Decimal { scale: 39, mantissa: 1 };
    assert_eq!(encode_cell(&mut buf, &bad_scale), Err(EncodeError::ValueOutOfRange));
    assert!(buf.is_empty());
}

#[test]
fn date_round_trip_includes_leap_day() {
    // Day numbers count from the year-1 epoch: 0001-01-01 is day 0.
    let leap = chrono::NaiveDate::from_ymd_opt(2024, 2, 29).unwrap();
    let days = (chrono::Datelike::num_days_from_ce(&leap) - 1) as u32;
    round_trip(Value::Date(0));
    round_trip(Value::Date(days));
    round_trip(Value::Date(3652058));
}

#[test]
fn date_out_of_range_rejected() {
    let mut buf: Vec<u8> = Vec::new();
    assert_eq!(
        encode_cell(&mut buf, &Value::Date(3652059)),
        Err(EncodeError::ValueOutOfRange)
    );
    assert!(buf.is_empty());
}

#[test]
fn time_round_trip_bounds() {
    round_trip(Value::Time(0));
    round_trip(Value::Time(863999999999));
    let mut buf: Vec<u8> = Vec::new();
    assert_eq!(
        encode_cell(&mut buf, &Value::Time(864000000000)),
        Err(EncodeError::ValueOutOfRange)
    );
}

#[test]
fn date_time_round_trip() {
    round_trip(Value::DateTime { days: 0, ticks: 0 });
    round_trip(Value::DateTime { days: -53690, ticks: 25919999 });
    round_trip(Value::DateTime { days: 45000, ticks: 10800000 });
    let mut buf: Vec<u8> = Vec::new();
    assert_eq!(
        encode_cell(&mut buf, &Value::DateTime { days: 0, ticks: 25920000 }),
        Err(EncodeError::ValueOutOfRange)
    );
}

#[test]
fn guid_round_trip() {
    let u = uuid::Uuid::parse_str("79B65321-39CA-4115-9CBA-8FE0903E12E6").unwrap();
    round_trip(Value::Guid(*u.as_bytes()));
}

#[test]
fn var_char_round_trip() {
    round_trip(Value::VarChar(Vec::new()));
    round_trip(Value::VarChar(b"105041Vi84182".to_vec()));
    round_trip(Value::VarChar(vec![0u8; 65534]));
}

#[test]
fn n_var_char_round_trip() {
    let units: Vec<u16> = "I updated this row \u{1F980}".encode_utf16().collect();
    round_trip(Value::NVarChar(Vec::new()));
    round_trip(Value::NVarChar(units));
    round_trip(Value::NVarChar(vec![0xffffu16; 32767]));
}

#[test]
fn null_round_trips_for_every_type() {
    for t in [
        WireType::TinyInt,
        WireType::SmallInt,
        WireType::Int,
        WireType::BigInt,
        WireType::Real,
        WireType::Float,
        WireType::Money,
        WireType::Decimal { scale: 7 },
        WireType::Date,
        WireType::Time,
        WireType::DateTime,
        WireType::Guid,
        WireType::VarChar,
        WireType::NVarChar,
    ] {
        round_trip(Value::Null(t));
    }
}

#[test]
fn null_distinct_from_empty_string_and_zero() {
    let mut enc_null_str: Vec<u8> = Vec::new();
    encode_cell(&mut enc_null_str, &Value::Null(WireType::VarChar)).unwrap();
    let mut enc_empty_str: Vec<u8> = Vec::new();
    encode_cell(&mut enc_empty_str, &Value::VarChar(Vec::new())).unwrap();
    assert_ne!(enc_null_str, enc_empty_str);
    let (null_back, _) = decode_cell(&enc_null_str, WireType::VarChar).unwrap();
    let (empty_back, _) = decode_cell(&enc_empty_str, WireType::VarChar).unwrap();
    assert_eq!(null_back, Value::Null(WireType::VarChar));
    assert_eq!(empty_back, Value::VarChar(Vec::new()));
    assert_ne!(null_back, empty_back);

    let mut enc_null_int: Vec<u8> = Vec::new();
    encode_cell(&mut enc_null_int, &Value::Null(WireType::Int)).unwrap();
    let mut enc_zero_int: Vec<u8> = Vec::new();
    encode_cell(&mut enc_zero_int, &Value::Int(0)).unwrap();
    assert_ne!(enc_null_int, enc_zero_int);
    let (nb, _) = decode_cell(&enc_null_int, WireType::Int).unwrap();
    let (zb, _) = decode_cell(&enc_zero_int, WireType::Int).unwrap();
    assert_ne!(nb, zb);

    let mut enc_null_money: Vec<u8> = Vec::new();
    encode_cell(&mut enc_null_money, &Value::Null(WireType::Money)).unwrap();
    let mut enc_zero_money: Vec<u8> = Vec::new();
    encode_cell(&mut enc_zero_money, &Value::Money(0)).unwrap();
    assert_ne!(enc_null_money, enc_zero_money);
}

#[test]
fn decode_needs_more_on_truncated_cell() {
    let mut buf: Vec<u8> = Vec::new();
    encode_cell(&mut buf, &Value::BigInt(123456789)).unwrap();
    for cut in 0..buf.len() {
        assert_eq!(
            decode_cell(&buf[..cut], WireType::BigInt),
            Err(DecodeError::NeedMore),
            "cut at {cut}"
        );
    }
    let mut s: Vec<u8> = Vec::new();
    encode_cell(&mut s, &Value::VarChar(b"abcdef".to_vec())).unwrap();
    for cut in 0..s.len() {
        assert_eq!(decode_cell(&s[..cut], WireType::VarChar), Err(DecodeError::NeedMore));
    }
}

#[test]
fn decode_rejects_malformed_cell() {
    // Width byte that matches no Int cell.
    assert_eq!(
        decode_cell(&[7, 1, 2, 3, 4, 5, 6, 7], WireType::Int),
        Err(DecodeError::Malformed)
    );
    // Odd byte length for double-byte character data.
    assert_eq!(
        decode_cell(&[3, 0, 0x41, 0x00, 0x42], WireType::NVarChar),
        Err(DecodeError::Malformed)
    );
    // Decimal sign byte out of range.
    let mut d: Vec<u8> = vec![17, 9];
    d.extend_from_slice(&[0u8; 16]);
    assert_eq!(decode_cell(&d, WireType::Decimal { scale: 2 }), Err(DecodeError::Malformed));
    // Date beyond the last supported day.
    let mut date: Vec<u8> = vec![4];
    date.extend_from_slice(&3652059u32.to_le_bytes());
    assert_eq!(decode_cell(&date, WireType::Date), Err(DecodeError::Malformed));
}

#[test]
fn typed_accessors_check_type_and_null() {
    let v = Value::Int(7);
    assert_eq!(v.as_int(), Ok(7));
    assert_eq!(v.as_big_int(), Err(AccessError::TypeMismatch));
    let n = Value::Null(WireType::Int);
    assert_eq!(n.as_int(), Err(AccessError::Null));
    assert!(n.is_null());
    assert!(!v.is_null());
    let m = Value::Money(42);
    assert_eq!(m.as_money(), Ok(42));
    let d = Value::Decimal { scale: 2, mantissa: -12345 };
    assert_eq!(d.as_decimal(), Ok((-12345, 2)));
}
