use xlstream::criteria::{CompareOp, CriteriaForm, CriteriaLiteral};
use xlstream::subtotal::resolve_subtotal_num;

fn compare(form: CriteriaForm) -> (CompareOp, String, String) {
    match form {
        CriteriaForm::Compare(op, operand, whole) => (op, operand, whole),
        other => panic!("expected a comparison, got {other:?}"),
    }
}

fn text(s: &str) -> CriteriaLiteral {
    CriteriaLiteral::Text(s.to_string())
}

#[test]
fn form_greater_than() {
    assert_eq!(compare(CriteriaForm::parse(">10")), (CompareOp::Greater, "10".into(), ">10".into()));
}

#[test]
fn form_greater_or_eq() {
    assert_eq!(compare(CriteriaForm::parse(">=5")), (CompareOp::GreaterOrEq, "5".into(), ">=5".into()));
}

#[test]
fn form_less_than() {
    assert_eq!(compare(CriteriaForm::parse("<3")), (CompareOp::Less, "3".into(), "<3".into()));
}

#[test]
fn form_less_or_eq() {
    assert_eq!(compare(CriteriaForm::parse("<=7")), (CompareOp::LessOrEq, "7".into(), "<=7".into()));
}

#[test]
fn form_operand_is_trimmed() {
    assert_eq!(
        compare(CriteriaForm::parse("  >=  12.5 ")),
        (CompareOp::GreaterOrEq, "12.5".into(), ">=  12.5".into())
    );
}

#[test]
fn form_not_equals_number() {
    assert!(matches!(CriteriaForm::parse("<>5"), CriteriaForm::NotEquals(l) if l == text("5")));
}

#[test]
fn form_not_equals_text() {
    assert!(matches!(CriteriaForm::parse("<>hello"), CriteriaForm::NotEquals(l) if l == text("hello")));
}

#[test]
fn form_equals_explicit() {
    assert!(matches!(CriteriaForm::parse("=42"), CriteriaForm::Equals(l) if l == text("42")));
}

#[test]
fn form_equals_explicit_empty() {
    assert!(matches!(CriteriaForm::parse("= "), CriteriaForm::Equals(CriteriaLiteral::Empty)));
}

#[test]
fn form_equals_implicit_number() {
    assert!(matches!(CriteriaForm::parse("100"), CriteriaForm::Equals(l) if l == text("100")));
}

#[test]
fn form_equals_implicit_text() {
    assert!(matches!(CriteriaForm::parse("hello"), CriteriaForm::Equals(l) if l == text("hello")));
}

#[test]
fn form_equals_boolean_words() {
    assert!(matches!(CriteriaForm::parse("TRUE"), CriteriaForm::Equals(CriteriaLiteral::Bool(true))));
    assert!(matches!(CriteriaForm::parse("=False"), CriteriaForm::Equals(CriteriaLiteral::Bool(false))));
    assert!(matches!(CriteriaForm::parse("<>true"), CriteriaForm::NotEquals(CriteriaLiteral::Bool(true))));
}

#[test]
fn form_empty_is_blank() {
    assert!(matches!(CriteriaForm::parse(""), CriteriaForm::Blank));
    assert!(matches!(CriteriaForm::parse("   "), CriteriaForm::Blank));
}

#[test]
fn form_not_equals_empty_is_nonblank() {
    assert!(matches!(CriteriaForm::parse("<>"), CriteriaForm::NonBlank));
    assert!(matches!(CriteriaForm::parse(" <> "), CriteriaForm::NonBlank));
}

#[test]
fn form_wildcard_star() {
    match CriteriaForm::parse("a*") {
        CriteriaForm::Wildcard(p) => {
            assert!(p.matches("abc"));
            assert!(!p.matches("ba"));
        }
        other => panic!("expected a wildcard, got {other:?}"),
    }
}

#[test]
fn form_wildcard_question_mark_is_case_insensitive() {
    match CriteriaForm::parse("H?LLO") {
        CriteriaForm::Wildcard(p) => assert!(p.matches("hello")),
        other => panic!("expected a wildcard, got {other:?}"),
    }
}

#[test]
fn form_operator_wins_over_wildcard() {
    assert_eq!(compare(CriteriaForm::parse(">a*")), (CompareOp::Greater, "a*".into(), ">a*".into()));
}

#[test]
fn subtotal_codes_resolve() {
    assert_eq!(resolve_subtotal_num(1), Some(1));
    assert_eq!(resolve_subtotal_num(9), Some(9));
    assert_eq!(resolve_subtotal_num(11), Some(11));
    assert_eq!(resolve_subtotal_num(101), Some(1));
    assert_eq!(resolve_subtotal_num(109), Some(9));
    assert_eq!(resolve_subtotal_num(111), Some(11));
    assert_eq!(resolve_subtotal_num(0), None);
    assert_eq!(resolve_subtotal_num(12), None);
    assert_eq!(resolve_subtotal_num(100), None);
    assert_eq!(resolve_subtotal_num(112), None);
    assert_eq!(resolve_subtotal_num(-1), None);
}

#[test]
fn form_ignores_surrounding_space() {
    assert!(matches!(CriteriaForm::parse("  hello \t"), CriteriaForm::Equals(l) if l == text("hello")));
    assert_eq!(compare(CriteriaForm::parse(" <3 ")), compare(CriteriaForm::parse("<3")));
}
