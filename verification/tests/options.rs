use xlstream::options::OutputMode;
use xlstream::subtotal::options_ignore_errors;

#[test]
fn output_mode_is_values_only() {
    assert!(!OutputMode::Formulas.is_values_only());
    assert!(OutputMode::ValuesOnly.is_values_only());
}

#[test]
fn default_output_mode_is_formulas() {
    assert_eq!(OutputMode::default(), OutputMode::Formulas);
}

#[test]
fn options_ignore_errors_correct() {
    assert!(!options_ignore_errors(0));
    assert!(!options_ignore_errors(1));
    assert!(options_ignore_errors(2));
    assert!(options_ignore_errors(3));
    assert!(!options_ignore_errors(4));
    assert!(!options_ignore_errors(5));
    assert!(options_ignore_errors(6));
    assert!(options_ignore_errors(7));
}

#[test]
fn options_ignore_errors_other_codes() {
    assert!(!options_ignore_errors(8));
    assert!(!options_ignore_errors(255));
}
