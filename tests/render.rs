use sformat_dynamic::{compile, DynPointer, FormatError, TypedValue, ValueMap};

fn ctx(pairs: Vec<(&str, TypedValue)>) -> ValueMap {
    let mut m = ValueMap::new();
    for (k, v) in pairs {
        m.insert(k, v);
    }
    m
}

fn render(template: &str, pairs: Vec<(&str, TypedValue)>) -> String {
    compile(template).unwrap().format_str(&ctx(pairs)).unwrap()
}

fn s(x: &str) -> TypedValue {
    TypedValue::Str(x.to_string())
}

#[test]
fn test_format_literal() {
    assert_eq!(render("hello this is a test", vec![]), "hello this is a test");
}

#[test]
fn test_format_single_variable() {
    assert_eq!(render("hello this is a {test}", vec![("test", s("blergh"))]), "hello this is a blergh");
}

#[test]
fn test_format_width_but_no_fill() {
    assert_eq!(render("Hello {name:10}!", vec![("name", s("Ferris"))]), format!("Hello {:10}!", "Ferris"));
}

#[test]
fn test_format_multiple_variables() {
    let out = render(
        "hello this is a {test}. my name is {name}. i am {age}.",
        vec![("test", s("SERIOUS TEST")), ("name", s("Ferris")), ("age", TypedValue::Uint(100))],
    );
    assert_eq!(out, "hello this is a SERIOUS TEST. my name is Ferris. i am 100.");
}

#[test]
fn test_format_multiple_floats() {
    let out = render(
        "{float64} {float32} {infinity} {neg_infinity} {nan}",
        vec![
            ("float64", TypedValue::Float64(1938917398.13817f64.to_string())),
            ("float32", TypedValue::Float32((-15984.12351f32).to_string())),
            ("infinity", TypedValue::Float64(f64::INFINITY.to_string())),
            ("neg_infinity", TypedValue::Float32(f32::NEG_INFINITY.to_string())),
            ("nan", TypedValue::Float64(f64::NAN.to_string())),
        ],
    );
    let expected = format!(
        "{} {} {} {} {}",
        1938917398.13817f64,
        -15984.12351f32,
        f64::INFINITY,
        f32::NEG_INFINITY,
        f64::NAN
    );
    assert_eq!(out, expected);
}

#[test]
fn test_format_extra_context() {
    let out = render(
        "hello this is a {severity} test",
        vec![("severity", s("SERIOUS")), ("level", TypedValue::Uint32(128u32))],
    );
    assert_eq!(out, "hello this is a SERIOUS test");
}

#[test]
fn test_format_debug_struct() {
    let text = "TestStruct { name: \"test\", num: 1000 }".to_string();
    let out = render("{struct}", vec![("struct", TypedValue::Dyn(DynPointer::Debug(text)))]);
    assert_eq!(out, "TestStruct { name: \"test\", num: 1000 }");
}

#[test]
fn test_format_fill_right_align() {
    let out = render("{number:*>10}", vec![("number", TypedValue::Uint32(0))]);
    assert_eq!(out, format!("{:*>10}", 0));
    assert_eq!(out, "*********0");
}

#[test]
fn test_format_fill_center_align_even() {
    let out = render("{number:0^9}", vec![("number", TypedValue::Int8(8))]);
    assert_eq!(out, format!("{:0^9}", 8));
}

#[test]
fn test_format_fill_center_align_uneven() {
    let out = render("{number:0^8}", vec![("number", TypedValue::Uint32(123))]);
    assert_eq!(out, format!("{:0^8}", 123u32));
    assert_eq!(out, "00123000");
}

#[test]
fn test_format_fill_center_align_too_long() {
    let out = render("{s:@^4}", vec![("s", s("hello world"))]);
    assert_eq!(out, format!("{:@^4}", "hello world"));
}

#[test]
fn test_format_fill_default_char() {
    let out = render("{bool:<7}", vec![("bool", TypedValue::Bool(false))]);
    assert_eq!(out, format!("{:<#7}", false));
}

#[test]
fn test_format_fill_numeric_left_align() {
    let out = render("{number:$<20}", vec![("number", TypedValue::Int32(-1000))]);
    assert_eq!(out, format!("{:$<20}", -1000i32));
    assert_eq!(out, "-1000$$$$$$$$$$$$$$$");
}

#[test]
fn test_format_fill_numeric_right_align() {
    let out = render("{number:?>30}", vec![("number", TypedValue::Int32(-1000))]);
    assert_eq!(out, format!("{:?>30}", -1000i32));
}

#[test]
fn test_format_fill_left_align_signed_number() {
    let out = render("{number:X<+12}", vec![("number", TypedValue::Float32((-12.12f32).to_string()))]);
    assert_eq!(out, format!("{:X<+12}", -12.12f32));
}

#[test]
fn test_format_fill_right_align_signed_number() {
    let out = render("{number:X>+18}", vec![("number", TypedValue::Float64((-1.125134f64).to_string()))]);
    assert_eq!(out, format!("{:X>+18}", -1.125134f64));
}

#[test]
fn test_format_fill_left_align_unsigned_number() {
    let out = render("{number:.<+15}", vec![("number", TypedValue::Uint(319))]);
    assert_eq!(out, format!("{:.<+15}", 319));
}

#[test]
fn test_format_fill_right_align_unsigned_number() {
    let out = render("{number:.>+23}", vec![("number", TypedValue::Uint(32))]);
    assert_eq!(out, format!("{:.>+23}", 32));
}

#[test]
fn test_format_fill_center_align_unsigned_number() {
    let out = render("{number:.^+9}", vec![("number", TypedValue::Uint(9))]);
    assert_eq!(out, format!("{:.^+9}", 9));
}

#[test]
fn test_format_sign_positive_number() {
    let out = render("{number:+}", vec![("number", TypedValue::Int64(128i64))]);
    assert_eq!(out, format!("{:+}", 128i64));
}

#[test]
fn test_format_sign_zero() {
    let out = render("{number:+}", vec![("number", TypedValue::Uint8(0))]);
    assert_eq!(out, format!("{:+}", 0));
}

#[test]
fn test_format_sign_negative_number() {
    let out = render("{number:+}", vec![("number", TypedValue::Int32(i32::MIN))]);
    assert_eq!(out, format!("{:+}", i32::MIN));
}

#[test]
fn test_format_sign_float_nan() {
    let out = render("{number:+}", vec![("number", TypedValue::Float32(f32::NAN.to_string()))]);
    assert_eq!(out, "NaN");
}

#[test]
fn test_format_sign_float_infinity() {
    let out = render("{number:+}", vec![("number", TypedValue::Float64(f64::NEG_INFINITY.to_string()))]);
    assert_eq!(out, "-inf");
}

#[test]
fn test_format_fill_and_zero_flag_specified_signed_number() {
    let out = render("{number:.^+012}", vec![("number", TypedValue::Int(-194))]);
    assert_eq!(out, format!("{:.^+012}", -194));
    assert_eq!(out, "-00000000194");
}

#[test]
fn test_format_fill_and_zero_flag_specified_unsigned_number() {
    let out = render("{number:.<+09}", vec![("number", TypedValue::Uint(129))]);
    assert_eq!(out, format!("{:.<+09}", 129));
    assert_eq!(out, "+00000129");
}

#[test]
fn test_format_fill_and_zero_flag_specified_non_numeric() {
    let out = render("{number:.<+021}", vec![("number", s("1000"))]);
    assert_eq!(out, format!("{:.<+021}", "1000"));
}

#[test]
fn precision_is_not_applied() {
    let f = |v: TypedValue| render("{float:.15}", vec![("float", v)]);
    assert_eq!(f(TypedValue::Float64(0.0f64.to_string())), "0");
    assert_eq!(f(TypedValue::Float64(10.1562f64.to_string())), "10.1562");
    assert_eq!(f(TypedValue::Uint(128)), "128");
    let g = render("{float:*<20.11}", vec![("float", TypedValue::Float64(283.1239f64.to_string()))]);
    assert_eq!(g, "283.1239************");
    let h = render("{float:*<4.15}", vec![("float", TypedValue::Float64(1.123456f64.to_string()))]);
    assert_eq!(h, "1.123456");
}

#[test]
fn test_format_missing_variable() {
    let fmt = compile("hello this is a {severity} test").unwrap();
    let err = fmt.format_str(&ValueMap::new()).unwrap_err();
    assert!(matches!(err, FormatError::VariableNameError(ref n) if n == "severity"));
}

#[test]
fn lookup_miss_keeps_earlier_output_only() {
    let fmt = compile("a{x}b{missing}c{x}").unwrap();
    let mut out = String::new();
    let err = fmt.format(&mut out, &ctx(vec![("x", s("X"))])).unwrap_err();
    assert!(matches!(err, FormatError::VariableNameError(ref n) if n == "missing"));
    assert_eq!(out, "aXb");
}

#[test]
fn round_trip_without_placeholders() {
    for t in ["", "plain", "a}b", "{{x}}", "{{{{", "über {{ text"] {
        assert_eq!(render(t, vec![]), t);
    }
}

#[test]
fn width_overflow_keeps_whole_value() {
    assert_eq!(render("{n:+3}", vec![("n", TypedValue::Int(12345))]), "+12345");
    assert_eq!(render("{n:+05}", vec![("n", TypedValue::Int(12345))]), "+12345");
    assert_eq!(render("{n:+03}", vec![("n", TypedValue::Int(-12345))]), "-12345");
    assert_eq!(render("{n:*^5}", vec![("n", s("abcde"))]), "abcde");
}

#[test]
fn zero_pad_without_sign_flag() {
    assert_eq!(render("{n:05}", vec![("n", TypedValue::Uint16(42))]), "00042");
    assert_eq!(render("{n:+05}", vec![("n", TypedValue::Int16(42))]), "+0042");
    assert_eq!(render("{n:+05}", vec![("n", TypedValue::Int16(0))]), "+0000");
}

#[test]
fn extreme_integers() {
    assert_eq!(render("{n}", vec![("n", TypedValue::Int64(i64::MIN))]), i64::MIN.to_string());
    assert_eq!(render("{n}", vec![("n", TypedValue::Uint64(u64::MAX))]), u64::MAX.to_string());
    assert_eq!(render("{n}", vec![("n", TypedValue::Int8(-128))]), "-128");
    assert_eq!(render("{n}", vec![("n", TypedValue::Uint(0))]), "0");
}

#[test]
fn width_counts_characters() {
    assert_eq!(render("{n:>4}", vec![("n", s("éé"))]), format!("{:>4}", "éé"));
    assert_eq!(render("{n:é<4}", vec![("n", s("ab"))]), "abéé");
}

#[test]
fn display_value_and_bool() {
    let v = TypedValue::Dyn(DynPointer::Display("shown".to_string()));
    assert_eq!(render("{d:>7}|{b}", vec![("d", v), ("b", TypedValue::Bool(true))]), "  shown|true");
}

#[test]
fn later_insert_replaces_value() {
    let out = render("{a}", vec![("a", s("one")), ("a", s("two"))]);
    assert_eq!(out, "two");
}

#[test]
fn identifier_character_classes() {
    assert!(compile("{éte}").is_ok());
    assert!(compile("{1a}").is_err());
    assert!(compile("{a-b}").is_err());
}
