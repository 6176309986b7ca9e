use matcher::decimal::{Decimal, MAX_MANTISSA};

fn dec(text: &str) -> Decimal {
    Decimal::from_str(text).unwrap()
}

#[test]
fn decimal_reads_mantissa_and_scale() {
    let d = dec("0.0009");
    assert_eq!(d.mantissa(), 9);
    assert_eq!(d.scale(), 4);
    let e = dec("-12.50");
    assert_eq!(e.mantissa(), -1250);
    assert_eq!(e.scale(), 2);
}

#[test]
fn decimal_refuses_what_is_no_number() {
    assert!(Decimal::from_str("").is_none());
    assert!(Decimal::from_str("abc").is_none());
    assert!(Decimal::from_str("1.2.3").is_none());
}

#[test]
fn decimal_writes_text_with_its_scale() {
    assert_eq!(dec("0.0009").to_string(), "0.0009");
    assert_eq!(dec("70.00000000").to_string(), "70.00000000");
    assert_eq!(Decimal::new(-1250, 2).unwrap().to_string(), "-12.50");
    assert_eq!(Decimal::zero().to_string(), "0");
}

#[test]
fn decimal_new_checks_the_limits() {
    assert!(Decimal::new(1, 28).is_some());
    assert!(Decimal::new(1, 29).is_none());
    assert!(Decimal::new(MAX_MANTISSA, 0).is_some());
    assert!(Decimal::new(MAX_MANTISSA + 1, 0).is_none());
    assert!(Decimal::new(-MAX_MANTISSA, 0).is_some());
    assert!(Decimal::new(-MAX_MANTISSA - 1, 0).is_none());
}

#[test]
fn decimal_orders_by_value_across_scales() {
    assert!(dec("0.0008").lt(&dec("0.0009")));
    assert!(dec("0.0009").gt(&dec("0.0008")));
    assert!(dec("1.0").le(&dec("1.00")));
    assert!(dec("1.0").ge(&dec("1.00")));
    assert!(dec("1.0").same_value(&dec("1.00")));
    assert!(!dec("1.0").lt(&dec("1.00")));
    assert!(dec("-0.5").lt(&dec("-0.01")));
    assert!(dec("2").gt(&dec("1.9999999999999999999999999999")));
    assert!(Decimal::min_value().lt(&Decimal::max_value()));
    assert!(dec("79228162514264337593543950335").gt(&dec("0.0000000000000000000000000001")));
}

#[test]
fn decimal_equality_is_by_value() {
    assert_eq!(dec("75"), dec("75.00000000"));
    assert_ne!(dec("75"), dec("75.00000001"));
}

#[test]
fn decimal_sign() {
    assert!(dec("-0.00000001").is_negative());
    assert!(!dec("0").is_negative());
    assert!(!dec("0.00000001").is_negative());
}

#[test]
fn decimal_rounds_toward_zero() {
    let cut = dec("1.123456789").round_to_zero(8);
    assert_eq!(cut.mantissa(), 112345678);
    assert_eq!(cut.scale(), 8);
    let negative = dec("-1.123456789").round_to_zero(8);
    assert_eq!(negative.mantissa(), -112345678);
    assert_eq!(negative.scale(), 8);
    let tiny = dec("-0.000000001").round_to_zero(8);
    assert_eq!(tiny.mantissa(), 0);
    assert_eq!(tiny.scale(), 8);
    assert!(!tiny.is_negative());
    let long = dec("0.9999999999999999999999999999").round_to_zero(8);
    assert_eq!(long.mantissa(), 99999999);
    assert_eq!(long.scale(), 8);
}

#[test]
fn decimal_rounding_keeps_short_numbers() {
    let short = dec("2.51").round_to_zero(8);
    assert_eq!(short.mantissa(), 251);
    assert_eq!(short.scale(), 2);
    let exact = dec("70.00000000").round_to_zero(8);
    assert_eq!(exact.mantissa(), 7000000000);
    assert_eq!(exact.scale(), 8);
}

#[test]
fn decimal_subtracts() {
    assert_eq!(dec("100").checked_sub(&dec("30")).unwrap(), dec("70"));
    assert_eq!(dec("70").checked_sub(&dec("80")).unwrap(), dec("-10"));
    assert_eq!(dec("1.5").checked_sub(&dec("0.25")).unwrap(), dec("1.25"));
    assert_eq!(dec("1.5").checked_sub(&dec("0.25")).unwrap().scale(), 2);
}

#[test]
fn decimal_subtraction_reports_overflow() {
    assert!(Decimal::min_value().checked_sub(&Decimal::max_value()).is_none());
    assert!(Decimal::max_value().checked_sub(&Decimal::min_value()).is_none());
}

#[test]
fn decimal_limits() {
    assert_eq!(Decimal::max_value().mantissa(), MAX_MANTISSA);
    assert_eq!(Decimal::min_value().mantissa(), -MAX_MANTISSA);
    assert_eq!(Decimal::max_value().to_string(), "79228162514264337593543950335");
    assert_eq!(Decimal::min_value().to_string(), "-79228162514264337593543950335");
}
