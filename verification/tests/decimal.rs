use bigdecimal::num_bigint::{BigInt, Sign};
use bigdecimal::BigDecimal;
use renewable_ts_axum::decimal::Decimal;
use renewable_ts_axum::model::deserialize_decimal;
use std::str::FromStr;

fn big_decimal_of(amount: &Decimal) -> BigDecimal {
    let sign = if amount.is_negative() { Sign::Minus } else { Sign::Plus };
    let unscaled = BigInt::from_radix_le(sign, amount.digits(), 10).unwrap();
    BigDecimal::new(unscaled, amount.scale())
}

fn read(text: &str) -> Decimal {
    deserialize_decimal(text).unwrap()
}

#[test]
fn sums_are_exact_at_the_larger_scale() {
    let sum = read("1.5").add(&read("2.25"));
    assert_eq!(sum.scale(), 2);
    assert_eq!(sum.digits(), &vec![5u8, 7, 3]);
    assert!(!sum.is_negative());

    let sum = read("999").add(&read("1"));
    assert_eq!(sum.digits(), &vec![0u8, 0, 0, 1]);
    assert_eq!(sum.scale(), 0);

    let sum = read("0.1").add(&read("0.2"));
    assert!(sum.same_value(&read("0.3")));
    assert!(!sum.same_value(&read("0.30000000000000004")));

    let sum = read("1e3").add(&read("1"));
    assert_eq!(sum.scale(), 0);
    assert!(sum.same_value(&Decimal::from_i64(1001)));
}

#[test]
fn sums_of_unlike_signs() {
    assert!(read("5").add(&read("-7")).same_value(&read("-2")));
    assert!(read("5").add(&read("-7")).is_negative());
    assert!(read("-5").add(&read("7")).same_value(&read("2")));
    assert!(read("-5").add(&read("-7")).same_value(&read("-12")));
    assert!(read("1000").add(&read("-0.001")).same_value(&read("999.999")));
    assert!(read("-1000").add(&read("0.001")).same_value(&read("-999.999")));
    let zero = read("12.50").add(&read("-12.5"));
    assert!(zero.same_value(&Decimal::zero()));
    assert!(zero.same_value(&read("-0.000")));
    assert_eq!(zero.scale(), 2);
}

#[test]
fn sums_agree_with_the_numbers_they_were_read_from() {
    let texts = [
        "0",
        "-0",
        "1",
        "-1",
        "9000.000",
        "0.000001",
        "-123456789.987654321",
        "99999999999999999999999999999999999999",
        "-99999999999999999999999999999999999999.5",
        "1e5",
        "25e-3",
    ];
    for first in texts {
        for second in texts {
            let ours = big_decimal_of(&read(first).add(&read(second)));
            let theirs = BigDecimal::from_str(first).unwrap() + BigDecimal::from_str(second).unwrap();
            assert_eq!(ours, theirs);
            assert_eq!(
                read(first).same_value(&read(second)),
                BigDecimal::from_str(first).unwrap() == BigDecimal::from_str(second).unwrap()
            );
        }
    }
}

#[test]
fn whole_numbers_are_written_digit_by_digit() {
    assert_eq!(Decimal::from_i64(0).digits().len(), 0);
    assert_eq!(Decimal::from_i64(907).digits(), &vec![7u8, 0, 9]);
    assert!(Decimal::from_i64(-907).is_negative());
    assert_eq!(Decimal::from_i64(-907).digits(), &vec![7u8, 0, 9]);
    assert_eq!(Decimal::from_i64(5).scale(), 0);
    assert_eq!(
        big_decimal_of(&Decimal::from_i64(i64::MIN)),
        BigDecimal::from_str("-9223372036854775808").unwrap()
    );
    assert_eq!(
        big_decimal_of(&Decimal::from_i64(i64::MAX)),
        BigDecimal::from_str("9223372036854775807").unwrap()
    );
    assert!(Decimal::from_i64(i64::MAX)
        .add(&Decimal::from_i64(1))
        .same_value(&read("9223372036854775808")));
}

#[test]
fn parts_with_a_digit_above_nine_are_no_number() {
    assert!(Decimal::from_parts(false, vec![9, 10], 0).is_none());
    let made = Decimal::from_parts(true, vec![5, 2, 1], 1).unwrap();
    assert!(made.same_value(&read("-12.5")));
    assert!(made.same_value(&read("-12.50")));
    assert!(!made.same_value(&read("12.5")));
    let copy = made.duplicate();
    assert_eq!(copy.digits(), made.digits());
    assert_eq!(copy.scale(), made.scale());
    assert_eq!(copy.is_negative(), made.is_negative());
    let padded = Decimal::from_parts(false, vec![1, 0, 0], 0).unwrap();
    assert!(padded.same_value(&Decimal::from_i64(1)));
}
