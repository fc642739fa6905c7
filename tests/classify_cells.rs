use csv2struct::classify::{parses_as_real, FieldKind};

fn is_integer(s: &str) -> bool {
    matches!(FieldKind::parse(s), FieldKind::Integer)
}

fn is_real(s: &str) -> bool {
    matches!(FieldKind::parse(s), FieldKind::Real)
}

fn is_empty(s: &str) -> bool {
    matches!(FieldKind::parse(s), FieldKind::Empty)
}

fn factor_text(s: &str) -> Option<String> {
    match FieldKind::parse(s) {
        FieldKind::Factor(t) => Some(t),
        _ => None,
    }
}

#[test]
fn classify_documented_examples() {
    assert!(is_empty(""));
    assert!(is_integer("007"));
    assert!(is_real("3.14"));
    assert!(is_integer("-5"));
    assert_eq!(factor_text("red"), Some("red".to_string()));
    assert_eq!(factor_text("5red"), Some("5red".to_string()));
}

#[test]
fn classify_is_deterministic() {
    for s in ["", "1", "2.5", "x", " ", "1e3", "NaN"] {
        let a = format!("{:?}", FieldKind::parse(s));
        let b = format!("{:?}", FieldKind::parse(s));
        assert_eq!(a, b);
    }
}

#[test]
fn exponent_is_real_not_integer() {
    assert!(is_real("1e3"));
    assert!(is_real("2.5E-3"));
    assert!(is_real("-1e+10"));
}

#[test]
fn whitespace_is_categorical_verbatim() {
    assert_eq!(factor_text(" "), Some(" ".to_string()));
    assert_eq!(factor_text(" 1"), Some(" 1".to_string()));
    assert_eq!(factor_text("1 "), Some("1 ".to_string()));
}

#[test]
fn integer_range_and_signs() {
    assert!(is_integer("+5"));
    assert!(is_integer("2147483647"));
    assert!(is_integer("-2147483648"));
    assert!(is_real("2147483648"));
    assert!(is_real("-2147483649"));
    assert_eq!(factor_text("-"), Some("-".to_string()));
    assert_eq!(factor_text("+"), Some("+".to_string()));
}

#[test]
fn special_float_words() {
    assert!(is_real("inf"));
    assert!(is_real("-Infinity"));
    assert!(is_real("NaN"));
    assert!(is_real("+nan"));
    assert_eq!(factor_text("infin"), Some("infin".to_string()));
    assert_eq!(factor_text("nana"), Some("nana".to_string()));
}

#[test]
fn decimal_point_forms() {
    assert!(is_real("1."));
    assert!(is_real(".5"));
    assert!(is_real("-.5e2"));
    assert_eq!(factor_text("."), Some(".".to_string()));
    assert_eq!(factor_text("e5"), Some("e5".to_string()));
    assert_eq!(factor_text("1e"), Some("1e".to_string()));
    assert_eq!(factor_text("1e+"), Some("1e+".to_string()));
    assert_eq!(factor_text("1.2.3"), Some("1.2.3".to_string()));
    assert_eq!(factor_text("0x10"), Some("0x10".to_string()));
}

#[test]
fn real_grammar_agrees_with_std() {
    let samples = [
        "", "0", "-0", "1.5", "1.", ".5", ".", "+.", "1e5", "1E5", "1e", "e1", "1e+5", "1e-5",
        "1e+-5", "inf", "INF", "infinity", "Infinity", "-inf", "nan", "NaN", "+nan", "in", "nanx",
        " 1", "1 ", "1_000", "1,5", "٣", "١.٥", "abc", "--1", "+-1", "00.00e00",
    ];
    for s in samples {
        assert_eq!(parses_as_real(s), s.parse::<f64>().is_ok(), "{:?}", s);
    }
}
