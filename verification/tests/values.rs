use zaku::{DataType, Value};

fn number(s: &str) -> Value {
    Value::number_checked(s).unwrap()
}

fn date(s: &str) -> Value {
    Value::date_checked(s).unwrap()
}

#[test]
fn comparisons_with_null_are_false() {
    let five = number("5");
    let cases = [
        five.eq(&Value::Null).unwrap(),
        five.neq(&Value::Null).unwrap(),
        five.gt(&Value::Null).unwrap(),
        five.gte(&Value::Null).unwrap(),
        five.lt(&Value::Null).unwrap(),
        five.lte(&Value::Null).unwrap(),
        Value::Null.eq(&five).unwrap(),
        Value::Null.gt(&five).unwrap(),
    ];
    for c in cases.iter() {
        assert_eq!(c.render(), "false");
    }
}

#[test]
fn arithmetic_with_null_is_null() {
    let five = number("5");
    assert_eq!(five.add(&Value::Null).unwrap().render(), "");
    assert_eq!(five.sub(&Value::Null).unwrap().render(), "");
    assert_eq!(five.mul(&Value::Null).unwrap().render(), "");
    assert_eq!(five.div(&Value::Null).unwrap().render(), "");
    assert_eq!(Value::Null.add(&five).unwrap().render(), "");
    // Null propagates symmetrically, whatever stands on the other side
    let txt = Value::Text("abc".to_string());
    assert_eq!(txt.add(&Value::Null).unwrap().render(), "");
    assert_eq!(Value::Null.add(&txt).unwrap().render(), "");
    assert_eq!(txt.modulo(&Value::Null).unwrap().render(), "");
    assert_eq!(Value::Boolean(true).mul(&Value::Null).unwrap().render(), "");
}

#[test]
fn exact_decimal_arithmetic() {
    let a = number("5.00");
    let b = number("10.5");
    assert_eq!(a.add(&b).unwrap().render(), "15.50");
    assert_eq!(b.sub(&a).unwrap().render(), "5.50");
    assert_eq!(a.mul(&b).unwrap().render(), "52.500");
    assert_eq!(number("7").div(&number("2")).unwrap().render(), "3.5");
    assert_eq!(number("7").modulo(&number("2")).unwrap().render(), "1");
}

#[test]
fn division_by_zero_errors() {
    assert!(number("1").div(&number("0")).is_err());
    assert!(number("1").modulo(&number("0.00")).is_err());
}

#[test]
fn type_mismatches_error() {
    let five = number("5");
    let word = Value::Text("five".to_string());
    assert!(five.add(&word).is_err());
    assert!(five.eq(&word).is_err());
    assert!(word.gt(&Value::Boolean(true)).is_err());
    assert!(Value::Boolean(true).and(&five).is_err());
}

#[test]
fn comparisons_are_numeric_not_textual() {
    // equal values in different spellings compare equal
    let a = number("10");
    let b = number("10.00");
    assert_eq!(a.eq(&b).unwrap().render(), "true");
    assert_eq!(number("9").lt(&a).unwrap().render(), "true");
    // text compares lexicographically
    let x = Value::Text("abc".to_string());
    let y = Value::Text("abd".to_string());
    assert_eq!(x.lt(&y).unwrap().render(), "true");
}

#[test]
fn dates_compare_by_calendar() {
    let a = date("2023-01-31");
    let b = date("2023-02-01");
    assert_eq!(a.lt(&b).unwrap().render(), "true");
    assert_eq!(a.eq(&date("2023-01-31")).unwrap().render(), "true");
    assert_eq!(b.render(), "2023-02-01");
}

#[test]
fn min_max_absorb_null() {
    let five = number("5");
    let nine = number("9");
    assert_eq!(five.maximum(&Value::Null).unwrap().render(), "5");
    assert_eq!(Value::Null.minimum(&nine).unwrap().render(), "9");
    assert_eq!(five.maximum(&nine).unwrap().render(), "9");
    assert_eq!(five.minimum(&nine).unwrap().render(), "5");
}

#[test]
fn bad_dates_do_not_parse() {
    assert!(Value::date_checked("2023-02-30").is_none());
    assert!(Value::date_checked("not a date").is_none());
    assert!(Value::date_checked("2024-02-29").is_some());
}

#[test]
fn inference_prefers_dates_then_numbers_then_booleans() {
    assert_eq!(
        DataType::get_type_from_string_val("2023-06-06"),
        DataType::Date
    );
    assert_eq!(DataType::get_type_from_string_val("-3.25"), DataType::Number);
    assert_eq!(DataType::get_type_from_string_val("true"), DataType::Boolean);
    assert_eq!(DataType::get_type_from_string_val("maybe"), DataType::Text);
}

#[test]
fn negative_and_fractional_rendering() {
    assert_eq!(number("-4.20").render(), "-4.20");
    assert_eq!(number("0.005").render(), "0.005");
    assert_eq!(number("0").render(), "0");
    assert_eq!(number("12345").render(), "12345");
}
