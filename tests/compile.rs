use sformat_dynamic::{compile, Alignment, CompileError, Fill, Flags, Format, SignFlag, Token};

fn lit(s: &str) -> Token {
    Token::Literal(s.to_string())
}

fn var(s: &str, f: Option<Format>) -> Token {
    Token::Variable(s.to_string(), f)
}

#[test]
fn test_compile_content() {
    let ast = compile("hello {test} this is {ferris}").unwrap().into_ast();
    assert_eq!(
        ast,
        vec![lit("hello "), var("test", None), lit(" this is "), var("ferris", None)]
    );
}

#[test]
fn test_compile_empty() {
    assert_eq!(compile("").unwrap().into_ast(), vec![]);
}

#[test]
fn test_compile_literals() {
    assert_eq!(
        compile("hello only literals").unwrap().into_ast(),
        vec![lit("hello only literals")]
    );
}

#[test]
fn test_compile_escaped_left_brace() {
    assert_eq!(
        compile("{{ {{ {{").unwrap().into_ast(),
        vec![lit("{{"), lit(" "), lit("{{"), lit(" "), lit("{{")]
    );
}

#[test]
fn test_compile_unicode() {
    assert_eq!(
        compile("我的名字是{名字}").unwrap().into_ast(),
        vec![lit("我的名字是"), var("名字", None)]
    );
}

#[test]
fn test_compile_fill() {
    let f = Format::new(
        Some(Fill::new(Some('*'), Alignment::Right)),
        Flags::default(),
        Some(5u32),
        None,
    );
    assert_eq!(compile("{number:*>5}").unwrap().into_ast(), vec![var("number", Some(f))]);
}

#[test]
fn test_compile_fill_default() {
    let f = Format::new(Some(Fill::new(None, Alignment::Center)), Flags::default(), Some(200u32), None);
    assert_eq!(compile("{test:^200}").unwrap().into_ast(), vec![var("test", Some(f))]);
}

#[test]
fn test_compile_flags_default() {
    let f = Format::new(None, Flags::new(Some(SignFlag::Plus), Some(())), Some(56u32), None);
    assert_eq!(compile("{test:+056}").unwrap().into_ast(), vec![var("test", Some(f))]);
}

#[test]
fn test_compile_precision_number() {
    let f = Format::new(None, Flags::default(), None, Some(15));
    assert_eq!(compile("{test:.15}").unwrap().into_ast(), vec![var("test", Some(f))]);
}

#[test]
fn compile_minus_flag_and_fill_of_alignment_char() {
    let f = Format::new(
        Some(Fill::new(Some('<'), Alignment::Left)),
        Flags::new(Some(SignFlag::Minus), None),
        Some(3),
        Some(2),
    );
    assert_eq!(compile("{a:<<-3.2}").unwrap().into_ast(), vec![var("a", Some(f))]);
}

#[test]
fn compile_empty_spec() {
    let f = Format::new(None, Flags::default(), None, None);
    assert_eq!(compile("{a:}").unwrap().into_ast(), vec![var("a", Some(f))]);
}

#[test]
fn compile_lone_closing_brace_is_text() {
    assert_eq!(compile("a}b").unwrap().into_ast(), vec![lit("a}b")]);
}

#[test]
fn compile_underscore_and_digits_in_name() {
    assert_eq!(compile("{a_1}").unwrap().into_ast(), vec![var("a_1", None)]);
}

#[test]
fn compile_errors_give_offset() {
    assert_eq!(compile("ab{").unwrap_err(), CompileError::ParseError(2));
    assert_eq!(compile("{ x}").unwrap_err(), CompileError::ParseError(0));
    assert_eq!(compile("x{_a}").unwrap_err(), CompileError::ParseError(1));
    assert_eq!(compile("{a:x}").unwrap_err(), CompileError::ParseError(0));
    assert_eq!(compile("{a:.}").unwrap_err(), CompileError::ParseError(0));
    assert_eq!(compile("{a").unwrap_err(), CompileError::ParseError(0));
    assert_eq!(compile("{{{").unwrap_err(), CompileError::ParseError(2));
}

#[test]
fn compile_width_overflowing_u32_fails() {
    assert!(compile("{a:4294967295}").is_ok());
    assert_eq!(compile("{a:4294967296}").unwrap_err(), CompileError::ParseError(0));
}
