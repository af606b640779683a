use bigdecimal::num_bigint::{BigInt, Sign};
use bigdecimal::{BigDecimal, FromPrimitive};
use chrono::{DateTime, Datelike, FixedOffset, Timelike};
use renewable_ts_axum::decimal::Decimal;
use renewable_ts_axum::file_reader::{csv_stream, decode_record, decode_row, valid_records};
use renewable_ts_axum::model::DecodeError;
use renewable_ts_axum::timestamp::Timestamp;

fn big_decimal_of(amount: &Decimal) -> BigDecimal {
    let sign = if amount.is_negative() { Sign::Minus } else { Sign::Plus };
    let unscaled = BigInt::from_radix_le(sign, amount.digits(), 10).unwrap();
    BigDecimal::new(unscaled, amount.scale())
}

fn timestamp_of(instant: DateTime<FixedOffset>) -> Timestamp {
    let utc = instant.naive_utc();
    Timestamp::new(
        utc.year(),
        utc.month(),
        utc.day(),
        utc.hour(),
        utc.minute(),
        utc.second(),
        utc.nanosecond(),
    )
    .unwrap()
}

#[test]
fn test_csv_decoding() {
    let test_data = r#"Time (UTC),Quantity kWh
1 Jan 2025 00:00,"9,000.000"
1 Jan 2025 01:00,"9,000.000"
1 Jan 2025 02:00,"9,000.000"
1 Jan 2025 03:00,"9,000.000"
1 Jan 2025 04:00,"9,000.000"
1 Jan 2025 05:00,"9,000.000"
1 Jan 2025 06:00,"9,000.000"
"#;
    let mut reader = csv_stream(test_data.as_bytes()).into_iter();
    let record = reader.next().unwrap().unwrap();

    let expected_dt = DateTime::parse_from_rfc3339("2025-01-01T00:00:00-00:00").unwrap();
    assert_eq!(record.datetime, timestamp_of(expected_dt));
    assert_eq!(big_decimal_of(&record.amount), BigDecimal::from_i32(9000).unwrap());

    assert_eq!(reader.count(), 6);
}

#[test]
fn decoding_keeps_every_digit_of_the_amount() {
    let record = decode_record("1 Jan 2025 00:00", "\"9,000.000\"").unwrap();
    assert_eq!(record.datetime, Timestamp::new(2025, 1, 1, 0, 0, 0, 0).unwrap());
    assert!(!record.amount.is_negative());
    assert_eq!(record.amount.scale(), 3);
    assert_eq!(record.amount.digits(), &vec![0u8, 0, 0, 0, 0, 0, 9]);
    assert!(record.amount.same_value(&Decimal::from_i64(9000)));
}

#[test]
fn one_malformed_row_among_valid_ones_is_skipped() {
    let source = "Time (UTC),Quantity kWh\n\
1 Jan 2025 00:00,\"1,000.5\"\n\
1 Jan 2025 01:00,2\n\
1 Jan 2025 02:00,3\n\
1 Jan 2025 03:00,\n\
1 Jan 2025 04:00,5\n\
1 Jan 2025 05:00,6\n\
1 Jan 2025 06:00,7\n\
1 Jan 2025 07:00,8\n";
    let outcomes = csv_stream(source.as_bytes());
    assert_eq!(outcomes.len(), 8);
    assert!(matches!(outcomes[3], Err(DecodeError::EmptyAmount)));
    let readings = valid_records(outcomes);
    assert_eq!(readings.len(), 7);
    assert_eq!(readings[3].datetime, Timestamp::new(2025, 1, 1, 4, 0, 0, 0).unwrap());
    assert!(readings[0].amount.same_value(&decode_record("1 Jan 2025 00:00", "1000.5").unwrap().amount));
}

#[test]
fn each_decode_error_has_its_input() {
    assert!(matches!(
        decode_record("2025-01-01 00:00", "1"),
        Err(DecodeError::InvalidTimestamp)
    ));
    assert!(matches!(decode_record("1 Jan 2025 00:00", "abc"), Err(DecodeError::InvalidAmount)));
    assert!(matches!(decode_record("1 Jan 2025 00:00", " \"\" "), Err(DecodeError::EmptyAmount)));
    assert!(matches!(decode_record("31 Feb 2025 00:00", ""), Err(DecodeError::InvalidTimestamp)));
    assert!(matches!(decode_row(&None), Err(DecodeError::MalformedRecord)));
    assert!(matches!(
        decode_row(&Some(vec!["1 Jan 2025 00:00".to_string()])),
        Err(DecodeError::MalformedRecord)
    ));
}

#[test]
fn rows_of_another_length_than_the_header_are_malformed() {
    let source = "Time (UTC),Quantity kWh\n1 Jan 2025 00:00,9,000\n1 Jan 2025 01:00,5\n";
    let outcomes = csv_stream(source.as_bytes());
    assert_eq!(outcomes.len(), 2);
    assert!(matches!(outcomes[0], Err(DecodeError::MalformedRecord)));
    assert!(outcomes[1].is_ok());
}

#[test]
fn the_header_line_is_no_reading() {
    assert_eq!(csv_stream("Time (UTC),Quantity kWh\n".as_bytes()).len(), 0);
    assert_eq!(csv_stream("".as_bytes()).len(), 0);
    assert_eq!(csv_stream("1 Jan 2025 00:00,1\n".as_bytes()).len(), 0);
}
