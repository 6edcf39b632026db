use fpga_arch_viewer::error_report::{error_position, format_context_line, format_parse_error, FPGAArchParseError, TextPosition};

#[test]
fn context_line_puts_caret_under_column() {
    assert_eq!(format_context_line("<tile foo>", 5), "  <tile foo>\n      ^");
    assert_eq!(format_context_line("abc", 1), "  abc\n  ^");
}

#[test]
fn context_line_caret_stays_within_line() {
    assert_eq!(format_context_line("ab", 10), "  ab\n    ^");
    assert_eq!(format_context_line("ab", 0), "  ab\n  ^");
}

#[test]
fn positional_error_with_context() {
    let e = FPGAArchParseError::MissingRequiredAttribute("name".to_string(), TextPosition { row: 2, column: 4 });
    assert_eq!(error_position(&e), Some(TextPosition { row: 2, column: 4 }));
    assert_eq!(
        format_parse_error(&e, Some("<tile foo>")),
        "Missing required attribute 'name' at line 3, column 5\n\n  <tile foo>\n      ^"
    );
    assert_eq!(format_parse_error(&e, None), "Missing required attribute 'name' at line 3, column 5");
}

#[test]
fn every_error_kind_has_its_message() {
    let p = TextPosition { row: 0, column: 0 };
    let cases = vec![
        (FPGAArchParseError::ArchFileOpenError("no such file".to_string()), "Failed to open architecture file:\nno such file"),
        (FPGAArchParseError::MissingRequiredTag("layout".to_string()), "Missing required XML tag: layout"),
        (FPGAArchParseError::InvalidTag("foo".to_string(), p), "Invalid or unexpected tag 'foo' at line 1, column 1"),
        (FPGAArchParseError::XMLParseError("bad".to_string(), p), "XML parsing error at line 1, column 1:\nbad"),
        (FPGAArchParseError::UnknownAttribute("x".to_string(), p), "Unknown attribute 'x' at line 1, column 1"),
        (FPGAArchParseError::DuplicateTag("t".to_string(), p), "Duplicate tag 't' at line 1, column 1"),
        (FPGAArchParseError::DuplicateAttribute("a".to_string(), p), "Duplicate attribute 'a' at line 1, column 1"),
        (FPGAArchParseError::UnexpectedEndTag("t".to_string(), p), "Unexpected end tag '</t>' at line 1, column 1"),
        (FPGAArchParseError::AttributeParseError("nan".to_string(), p), "Failed to parse attribute at line 1, column 1:\nnan"),
        (FPGAArchParseError::UnexpectedEndOfDocument("eof".to_string()), "Unexpected end of document:\neof"),
        (FPGAArchParseError::PinParsingError("pins".to_string()), "Pin parsing error:\npins"),
    ];
    for (e, expected) in cases {
        assert_eq!(format_parse_error(&e, None), expected);
    }
}

#[test]
fn errors_without_position_ignore_context() {
    let e = FPGAArchParseError::MissingRequiredTag("layout".to_string());
    assert_eq!(error_position(&e), None);
    assert_eq!(format_parse_error(&e, Some("line")), "Missing required XML tag: layout");
}

#[test]
fn large_line_numbers() {
    let e = FPGAArchParseError::XMLParseError("m".to_string(), TextPosition { row: 1234, column: 99 });
    assert_eq!(format_parse_error(&e, Some("xy")), "XML parsing error at line 1235, column 100:\nm\n\n  xy\n    ^");
}
