use xlstream::error::XlStreamError;

#[test]
fn internal_variant_formats_with_message() {
    let e = XlStreamError::Internal("oops".into());
    assert_eq!(e.to_string(), "internal invariant violation: oops");
}

#[test]
fn formula_parse_includes_position_in_message_when_present() {
    let e = XlStreamError::FormulaParse {
        address: "Sheet1!A1".into(),
        formula: "SUM(A1:".into(),
        message: "expected closing paren".into(),
        position: Some(7),
    };
    let msg = e.to_string();
    assert!(msg.contains("position 7"), "expected position in message: {msg}");
}

#[test]
fn formula_parse_omits_position_when_absent() {
    let e = XlStreamError::FormulaParse {
        address: "Sheet1!A1".into(),
        formula: "SUM(".into(),
        message: "unexpected end of input".into(),
        position: None,
    };
    let msg = e.to_string();
    assert!(!msg.contains("position"), "did not expect 'position' in: {msg}");
}

#[test]
fn unsupported_variant_mentions_address_and_formula() {
    let e = XlStreamError::Unsupported {
        address: "Sheet1!A1".into(),
        formula: "OFFSET(A1,1,0)".into(),
        reason: "OFFSET not streamable".into(),
        doc_link: "https://example.invalid/unsupported",
    };
    let msg = e.to_string();
    assert!(msg.contains("Sheet1!A1"), "address missing: {msg}");
    assert!(msg.contains("OFFSET(A1,1,0)"), "formula missing: {msg}");
    assert!(msg.contains("OFFSET not streamable"), "reason missing: {msg}");
}

#[test]
fn xlsx_error_formats_with_source_message() {
    let e = XlStreamError::Xlsx("file not found: Sheet1".into());
    let msg = e.to_string();
    assert!(msg.contains("xlsx error"), "expected xlsx error prefix: {msg}");
    assert!(msg.contains("Sheet1"), "expected source message: {msg}");
}

#[test]
fn xlsx_write_error_formats_with_source_message() {
    let e = XlStreamError::XlsxWrite("row order violated".into());
    let msg = e.to_string();
    assert!(msg.contains("xlsx write error"), "expected write prefix: {msg}");
    assert!(msg.contains("row order"), "expected source message: {msg}");
}

#[test]
fn messages_are_exact() {
    let e = XlStreamError::FormulaParse {
        address: "S!B2".into(),
        formula: "1+".into(),
        message: "bad".into(),
        position: Some(12),
    };
    assert_eq!(e.to_string(), "formula parse error at S!B2 (position 12): bad\n  formula: 1+");
    let e = XlStreamError::Unsupported {
        address: "S!A1".into(),
        formula: "F()".into(),
        reason: "no".into(),
        doc_link: "https://x.invalid",
    };
    assert_eq!(
        e.to_string(),
        "unsupported formula at S!A1: no\n  formula: F()\n  see: https://x.invalid"
    );
    let e = XlStreamError::Classification { address: "A1".into(), message: "m".into() };
    assert_eq!(e.to_string(), "classification error at A1: m");
    let e = XlStreamError::CircularReference { cells: vec!["A1".into(), "B\"2".into()] };
    assert_eq!(e.to_string(), "circular reference involving [\"A1\", \"B\\\"2\"]");
}

#[test]
fn io_error_message() {
    let e = XlStreamError::Io {
        path: std::path::PathBuf::from("in.xlsx"),
        source: std::io::Error::new(std::io::ErrorKind::NotFound, "gone"),
    };
    assert_eq!(e.to_string(), "I/O error reading in.xlsx: gone");
}
