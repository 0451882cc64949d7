use html_extract::helpers::{greeting, transform_text};

#[test]
fn greeting_line() {
    assert_eq!(greeting("Alice"), "Hello, Alice! Welcome to Extism!");
    assert_eq!(greeting("World"), "Hello, World! Welcome to Extism!");
}

#[test]
fn transform_uppercases_then_reverses() {
    assert_eq!(transform_text("abc"), "CBA");
    assert_eq!(transform_text(""), "");
    assert_eq!(transform_text("Hello, World!"), "!DLROW ,OLLEH");
}

#[test]
fn transform_multibyte_case_mapping() {
    // The sharp s uppercases to the two characters "SS".
    assert_eq!(transform_text("stra\u{df}e"), "ESSARTS");
}
