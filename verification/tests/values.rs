use gameshopui::text::{int_text, parse_bool, parse_int};
use gameshopui::value::floats_equal;
use gameshopui::{ColumnParseError, ColumnType, ColumnValue, RawNumber, RawValue, TableColumn};

fn column(ty: ColumnType, optional: bool) -> TableColumn {
    TableColumn {
        name: "c".to_owned(),
        ty,
        optional,
        primary_key: false,
        foreign_keys: Vec::new(),
        mapper: None,
    }
}

fn float(x: f64) -> ColumnValue {
    ColumnValue::Float(x.to_bits())
}

fn text(s: &str) -> ColumnValue {
    ColumnValue::String(s.to_owned())
}

#[test]
fn null_is_no_value() {
    assert_eq!(ColumnValue::try_from_value(RawValue::Null), Ok(None));
}

#[test]
fn bool_and_text_map_to_their_variant() {
    assert_eq!(ColumnValue::try_from_value(RawValue::Bool(true)), Ok(Some(ColumnValue::Bool(true))));
    assert_eq!(ColumnValue::try_from_value(RawValue::Bool(false)), Ok(Some(ColumnValue::Bool(false))));
    assert_eq!(ColumnValue::try_from_value(RawValue::String("hi".to_owned())), Ok(Some(text("hi"))));
    assert_eq!(ColumnValue::try_from_value(RawValue::String(String::new())), Ok(Some(text(""))));
}

#[test]
fn integer_number_becomes_a_float() {
    let five = ColumnValue::try_from_value(RawValue::Number(RawNumber::PosInt(5)));
    assert_eq!(five, Ok(Some(float(5.0))));
    assert_ne!(five, Ok(Some(ColumnValue::Int(5))));
    let minus = ColumnValue::try_from_value(RawValue::Number(RawNumber::NegInt(-3)));
    assert_eq!(minus, Ok(Some(float(-3.0))));
    let zero = ColumnValue::try_from_value(RawValue::Number(RawNumber::PosInt(0)));
    assert_eq!(zero, Ok(Some(float(0.0))));
}

#[test]
fn large_integers_round_to_the_nearest_float() {
    let max = ColumnValue::try_from_value(RawValue::Number(RawNumber::PosInt(u64::MAX)));
    assert_eq!(max, Ok(Some(float(18446744073709551616.0))));
    let odd = ColumnValue::try_from_value(RawValue::Number(RawNumber::PosInt((1u64 << 53) + 1)));
    assert_eq!(odd, Ok(Some(float(9007199254740992.0))));
    let min = ColumnValue::try_from_value(RawValue::Number(RawNumber::NegInt(i64::MIN)));
    assert_eq!(min, Ok(Some(float(-9223372036854775808.0))));
}

#[test]
fn float_number_keeps_its_bits() {
    let v = ColumnValue::try_from_value(RawValue::Number(RawNumber::Float(1.5f64.to_bits())));
    assert_eq!(v, Ok(Some(float(1.5))));
    let neg_zero = ColumnValue::try_from_value(RawValue::Number(RawNumber::Float((-0.0f64).to_bits())));
    match neg_zero {
        Ok(Some(ColumnValue::Float(bits))) => assert_eq!(bits, (-0.0f64).to_bits()),
        other => panic!("unexpected {:?}", other),
    }
}

#[test]
fn array_and_object_are_rejected() {
    assert_eq!(ColumnValue::try_from_value(RawValue::Array(vec![])), Err(()));
    assert_eq!(ColumnValue::try_from_value(RawValue::Array(vec![RawValue::Null])), Err(()));
    assert_eq!(ColumnValue::try_from_value(RawValue::Object(vec![])), Err(()));
    assert_eq!(
        ColumnValue::try_from_value(RawValue::Object(vec![("k".to_owned(), RawValue::Bool(true))])),
        Err(())
    );
}

#[test]
fn number_readings_prefer_float_then_signed_then_unsigned() {
    assert_eq!(ColumnValue::from_number_readings(Some(7), Some(1), Some(1)), Some(ColumnValue::Float(7)));
    assert_eq!(ColumnValue::from_number_readings(None, Some(-4), Some(9)), Some(ColumnValue::Int(-4)));
    assert_eq!(ColumnValue::from_number_readings(None, None, Some(9)), Some(ColumnValue::Int(9)));
    assert_eq!(
        ColumnValue::from_number_readings(None, None, Some(u64::MAX)),
        Some(ColumnValue::Int(-1))
    );
    assert_eq!(
        ColumnValue::from_number_readings(None, None, Some(1u64 << 63)),
        Some(ColumnValue::Int(i64::MIN))
    );
    assert_eq!(
        ColumnValue::from_number_readings(None, None, Some(i64::MAX as u64)),
        Some(ColumnValue::Int(i64::MAX))
    );
    assert_eq!(ColumnValue::from_number_readings(None, None, None), None);
}

#[test]
fn raw_number_readings() {
    assert_eq!(RawNumber::PosInt(5).as_i64(), Some(5));
    assert_eq!(RawNumber::PosInt(5).as_u64(), Some(5));
    assert_eq!(RawNumber::PosInt(u64::MAX).as_i64(), None);
    assert_eq!(RawNumber::PosInt(i64::MAX as u64).as_i64(), Some(i64::MAX));
    assert_eq!(RawNumber::NegInt(-5).as_i64(), Some(-5));
    assert_eq!(RawNumber::NegInt(-5).as_u64(), None);
    assert_eq!(RawNumber::Float(2.5f64.to_bits()).as_i64(), None);
    assert_eq!(RawNumber::Float(2.5f64.to_bits()).as_u64(), None);
    assert_eq!(RawNumber::Float(2.5f64.to_bits()).as_float(), Some(2.5f64.to_bits()));
    assert_eq!(RawNumber::PosInt(2).as_float(), Some(2.0f64.to_bits()));
    assert_eq!(RawNumber::NegInt(-2).as_float(), Some((-2.0f64).to_bits()));
    assert_eq!(RawNumber::from_i64(-1), RawNumber::NegInt(-1));
    assert_eq!(RawNumber::from_i64(0), RawNumber::PosInt(0));
    assert_eq!(RawNumber::from_i64(i64::MAX), RawNumber::PosInt(i64::MAX as u64));
    assert_eq!(RawNumber::from_float(1.0f64.to_bits()), Some(RawNumber::Float(1.0f64.to_bits())));
    assert_eq!(RawNumber::from_float(f64::NAN.to_bits()), None);
    assert_eq!(RawNumber::from_float(f64::INFINITY.to_bits()), None);
    assert_eq!(RawNumber::from_float(f64::NEG_INFINITY.to_bits()), None);
    assert_eq!(RawNumber::from_float(f64::MAX.to_bits()), Some(RawNumber::Float(f64::MAX.to_bits())));
}

#[test]
fn bool_and_text_round_trip() {
    for v in [ColumnValue::Bool(true), ColumnValue::Bool(false), text(""), text("a b"), text("\u{e9}")] {
        assert_eq!(ColumnValue::try_from_value(v.to_value()), Ok(Some(v.clone())));
        assert_eq!(ColumnValue::try_from_value(v.clone().into_value()), Ok(Some(v)));
    }
}

#[test]
fn finite_float_round_trips() {
    for x in [0.0, -0.0, 1.5, -2.25, f64::MAX, f64::MIN_POSITIVE, 5.0] {
        let v = float(x);
        assert!(v.is_encodable());
        match ColumnValue::try_from_value(v.to_value()) {
            Ok(Some(ColumnValue::Float(bits))) => assert_eq!(bits, x.to_bits()),
            other => panic!("unexpected {:?}", other),
        }
    }
}

#[test]
fn integer_does_not_round_trip_as_integer() {
    let back = ColumnValue::try_from_value(ColumnValue::Int(5).into_value());
    assert_eq!(back, Ok(Some(float(5.0))));
    let back = ColumnValue::try_from_value(ColumnValue::Int(-7).into_value());
    assert_eq!(back, Ok(Some(float(-7.0))));
    assert_ne!(back, Ok(Some(ColumnValue::Int(-7))));
}

#[test]
fn non_finite_floats_are_not_encodable() {
    assert!(!float(f64::NAN).is_encodable());
    assert!(!float(f64::INFINITY).is_encodable());
    assert!(!float(f64::NEG_INFINITY).is_encodable());
    assert!(float(1.0).is_encodable());
    assert!(ColumnValue::Int(1).is_encodable());
    assert!(ColumnValue::Bool(true).is_encodable());
    assert!(text("x").is_encodable());
}

#[test]
fn equality_is_within_one_variant() {
    assert_eq!(ColumnValue::Int(1), ColumnValue::Int(1));
    assert_ne!(ColumnValue::Int(1), ColumnValue::Int(2));
    assert_ne!(ColumnValue::Int(1), float(1.0));
    assert_ne!(ColumnValue::Bool(true), ColumnValue::Int(1));
    assert_ne!(text("1"), ColumnValue::Int(1));
    assert_ne!(text("true"), ColumnValue::Bool(true));
    assert_eq!(text("a"), text("a"));
    assert_ne!(text("a"), text("b"));
    assert_eq!(ColumnValue::Bool(false), ColumnValue::Bool(false));
    assert_ne!(ColumnValue::Bool(false), ColumnValue::Bool(true));
}

#[test]
fn floats_compare_as_floats() {
    assert_eq!(float(1.5), float(1.5));
    assert_ne!(float(1.5), float(2.5));
    assert_eq!(float(0.0), float(-0.0));
    assert_ne!(float(f64::NAN), float(f64::NAN));
    assert_ne!(float(f64::NAN), float(1.0));
    assert_eq!(float(f64::INFINITY), float(f64::INFINITY));
    assert_ne!(float(f64::INFINITY), float(f64::NEG_INFINITY));
    for a in [0.0, -0.0, 1.0, -1.0, f64::NAN, f64::INFINITY, f64::NEG_INFINITY, f64::MIN_POSITIVE, 5e-324] {
        for b in [0.0, -0.0, 1.0, -1.0, f64::NAN, f64::INFINITY, f64::NEG_INFINITY, f64::MIN_POSITIVE, 5e-324] {
            assert_eq!(floats_equal(a.to_bits(), b.to_bits()), a == b, "{} {}", a, b);
        }
    }
}

#[test]
fn ty_matches_the_variant() {
    assert_eq!(ColumnValue::Bool(true).ty(), ColumnType::Bool);
    assert_eq!(ColumnValue::Int(0).ty(), ColumnType::Int);
    assert_eq!(float(0.5).ty(), ColumnType::Float);
    assert_eq!(text("").ty(), ColumnType::String);
}

#[test]
fn empty_text_in_optional_column_is_no_value() {
    assert_eq!(ColumnValue::try_from_str(column(ColumnType::String, true), "", None), Ok(None));
    assert_eq!(ColumnValue::try_from_str(column(ColumnType::Int, true), "", None), Ok(None));
    assert_eq!(ColumnValue::try_from_str(column(ColumnType::Bool, true), "", None), Ok(None));
    assert_eq!(ColumnValue::try_from_str(column(ColumnType::Float, true), "", None), Ok(None));
}

#[test]
fn empty_text_in_required_text_column_is_empty_text() {
    assert_eq!(ColumnValue::try_from_str(column(ColumnType::String, false), "", None), Ok(Some(text(""))));
}

#[test]
fn empty_text_in_required_column_fails_with_empty() {
    for ty in [ColumnType::Int, ColumnType::Bool, ColumnType::Float] {
        assert_eq!(
            ColumnValue::try_from_str(column(ty, false), "", Some(0)),
            Err(ColumnParseError::Empty)
        );
    }
}

#[test]
fn text_that_is_no_integer_fails_with_parse_error() {
    assert_eq!(
        ColumnValue::try_from_str(column(ColumnType::Int, false), "abc", None),
        Err(ColumnParseError::ParseError)
    );
    assert_eq!(
        ColumnValue::try_from_str(column(ColumnType::Int, true), "4 2", None),
        Err(ColumnParseError::ParseError)
    );
}

#[test]
fn integer_text_is_an_integer() {
    assert_eq!(
        ColumnValue::try_from_str(column(ColumnType::Int, false), "42", None),
        Ok(Some(ColumnValue::Int(42)))
    );
    assert_eq!(
        ColumnValue::try_from_str(column(ColumnType::Int, true), "-42", None),
        Ok(Some(ColumnValue::Int(-42)))
    );
}

#[test]
fn bool_text_is_a_bool() {
    assert_eq!(
        ColumnValue::try_from_str(column(ColumnType::Bool, false), "true", None),
        Ok(Some(ColumnValue::Bool(true)))
    );
    assert_eq!(
        ColumnValue::try_from_str(column(ColumnType::Bool, false), "false", None),
        Ok(Some(ColumnValue::Bool(false)))
    );
    for bad in ["True", "1", "yes", " true", "truee", "f"] {
        assert_eq!(
            ColumnValue::try_from_str(column(ColumnType::Bool, false), bad, None),
            Err(ColumnParseError::ParseError)
        );
    }
}

#[test]
fn float_text_is_what_the_caller_parsed() {
    let parsed = "2.5".parse::<f64>().ok().map(f64::to_bits);
    assert_eq!(
        ColumnValue::try_from_str(column(ColumnType::Float, false), "2.5", parsed),
        Ok(Some(float(2.5)))
    );
    let parsed = "x".parse::<f64>().ok().map(f64::to_bits);
    assert_eq!(
        ColumnValue::try_from_str(column(ColumnType::Float, false), "x", parsed),
        Err(ColumnParseError::ParseError)
    );
}

#[test]
fn text_column_takes_any_text() {
    assert_eq!(
        ColumnValue::try_from_str(column(ColumnType::String, false), "42", Some(0)),
        Ok(Some(text("42")))
    );
    assert_eq!(
        ColumnValue::try_from_str(column(ColumnType::String, true), " ", None),
        Ok(Some(text(" ")))
    );
}

#[test]
fn parse_int_agrees_with_std() {
    let cases = [
        "0", "7", "42", "-42", "+42", "007", "-0", "+0", "", "+", "-", "--1", "+-1", "1+", "4 2", " 42",
        "42 ", "4_2", "0x10", "1e3", "1.0", "abc", "9223372036854775807", "9223372036854775808",
        "-9223372036854775808", "-9223372036854775809", "+9223372036854775807",
        "00000000000000000000000000000123", "99999999999999999999", "-99999999999999999999",
        "18446744073709551616", "\u{661}\u{662}", "1\u{e9}", "\u{2212}5",
    ];
    for case in cases {
        assert_eq!(parse_int(case), case.parse::<i64>().ok(), "{:?}", case);
    }
}

#[test]
fn parse_bool_agrees_with_std() {
    for case in ["true", "false", "", "True", "FALSE", "t", "truefalse", "tru", " false"] {
        assert_eq!(parse_bool(case), case.parse::<bool>().ok(), "{:?}", case);
    }
}

#[test]
fn int_text_agrees_with_std() {
    for i in [0i64, 1, 9, 10, 11, 99, 100, 12345, -1, -9, -10, -12345, i64::MAX, i64::MIN, i64::MIN + 1] {
        assert_eq!(int_text(i), i.to_string());
        assert_eq!(parse_int(&int_text(i)), Some(i));
    }
}

#[test]
fn values_show_as_their_natural_text() {
    assert_eq!(ColumnValue::Bool(true).to_text(""), "true");
    assert_eq!(ColumnValue::Bool(false).to_text(""), "false");
    assert_eq!(ColumnValue::Int(-17).to_text(""), "-17");
    assert_eq!(ColumnValue::Int(5).to_text("5.0"), "5");
    assert_eq!(float(2.5).to_text(&2.5f64.to_string()), "2.5");
    assert_eq!(text("a_b").to_text("x"), "a_b");
}

#[test]
fn parse_errors_have_messages() {
    assert_eq!(ColumnParseError::ValueError.to_string(), "invalid variant");
    assert_eq!(ColumnParseError::Empty.to_string(), "empty string");
    assert_eq!(ColumnParseError::ParseError.to_string(), "invalid string");
}
