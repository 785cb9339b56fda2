use dprint_ts_parsing::diagnostics::get_column_index_of_pos;
use dprint_ts_parsing::diagnostics::get_line_start_byte_pos;
use dprint_ts_parsing::diagnostics::get_range_text_highlight;
use dprint_ts_parsing::diagnostics::get_text_and_error_range;
use dprint_ts_parsing::diagnostics::is_unsupported_syntax_error;
use dprint_ts_parsing::diagnostics::ParseDiagnostic;
use dprint_ts_parsing::diagnostics::ParseDiagnosticsError;
use dprint_ts_parsing::diagnostics::SyntaxErrorKind;
use dprint_ts_parsing::text_info::SourceRange;
use dprint_ts_parsing::text_info::TextInfo;
use dprint_ts_parsing::parse::parse_result_from;
use dprint_ts_parsing::parse::ParseError;
use dprint_ts_parsing::parse::SwcErrorInfo;
use dprint_ts_parsing::syntax::Syntax;
use dprint_ts_parsing::syntax::TsSyntax;

/// The diagnostic for a syntax error the parser reports for the text,
/// given by the raw start and end positions of its span (where the text
/// starts at 1).
fn parser_diagnostic(specifier: &str, lo: u32, hi: u32, kind: &str, message: &str, text: &str) -> ParseDiagnostic {
  let syntax = Syntax::Typescript(TsSyntax {
    tsx: false,
    decorators: false,
    dts: false,
    no_early_errors: false,
    disallow_ambiguous_jsx_like: false,
  });
  let error = SwcErrorInfo { lo, hi, kind: kind.to_string(), message: message.to_string() };
  match parse_result_from(specifier.to_string(), text.to_string(), syntax, Err(error)) {
    Err(ParseError::Diagnostic(d)) => d,
    _ => unreachable!(),
  }
}

fn text_info(text: &str) -> TextInfo {
  TextInfo::new(text.to_string())
}

#[test]
fn range_highlight_all_text() {
  let text = text_info(&[
    "Line 0 - Testing this out with a long line testing0 testing1 testing2 testing3 testing4 testing5 testing6\n",
    "Line 1\n",
    "Line 2\n",
    "Line 3\n",
    "Line 4"
  ].concat());
  assert_eq!(
    get_range_text_highlight(&text, SourceRange::new(text.line_start(0), text.line_end(4))),
    [
      "Line 0 - Testing this out with a long line testing0 testing1 testing2 testing3 t...\n",
      "~~~~~~~~~~~~~~~~~~~~~~~~~~~~~~~~~~~~~~~~~~~~~~~~~~~~~~~~~~~~~~~~~~~~~~~~~~~~~~~~\n",
      "Line 1\n",
      "~~~~~~\n",
      "...\n",
      "Line 4\n",
      "~~~~~~",
    ].concat()
  );
}

#[test]
fn range_highlight_all_text_last_line_long() {
  let text = text_info(&[
    "Line 0\n",
    "Line 1\n",
    "Line 2\n",
    "Line 3\n",
    "Line 4 - Testing this out with a long line testing0 testing1 testing2 testing3 testing4 testing5 testing6\n",
  ].concat());
  assert_eq!(
    get_range_text_highlight(&text, SourceRange::new(text.line_start(0), text.line_end(4))),
    [
      "Line 0\n",
      "~~~~~~\n",
      "Line 1\n",
      "~~~~~~\n",
      "...\n",
      "Line 4 - Testing this out with a long line testing0 testing1 testing2 testing3 t...\n",
      "~~~~~~~~~~~~~~~~~~~~~~~~~~~~~~~~~~~~~~~~~~~~~~~~~~~~~~~~~~~~~~~~~~~~~~~~~~~~~~~~",
    ].concat()
  );
}

#[test]
fn range_highlight_range_start_long_line() {
  let text = text_info("Testing this out with a long line testing0 testing1 testing2 testing3 testing4 testing5 testing6 testing7");
  assert_eq!(
    get_range_text_highlight(&text, SourceRange::new(text.line_start(0), text.line_start(0) + 1)),
    [
      "Testing this out with a long line testing0 testing1 testing2 testing3 testing4 t...\n",
      "~",
    ].concat()
  );
}

#[test]
fn range_highlight_range_end_long_line() {
  let text = text_info("Testing this out with a long line testing0 testing1 testing2 testing3 testing4 testing5 testing6 testing7");
  assert_eq!(
    get_range_text_highlight(&text, SourceRange::new(text.line_end(0) - 1, text.line_end(0))),
    [
      "...ong line testing0 testing1 testing2 testing3 testing4 testing5 testing6 testing7\n",
      "                                                                                  ~",
    ].concat()
  );
}

#[test]
fn range_highlight_whitespace_start_line() {
  let text = text_info("  testing\ntest");
  assert_eq!(
    get_range_text_highlight(&text, SourceRange::new(text.line_end(0) - 1, text.line_end(1))),
    ["  testing\n", "        ~\n", "test\n", "~~~~",].concat()
  );
}

#[test]
fn range_end_of_line() {
  let text = text_info("  testingtestingtestingtesting");
  assert_eq!(
    get_range_text_highlight(&text, SourceRange::new(text.line_end(0), text.line_end(0))),
    ["  testingtestingtestingtesting\n", "                              ~",].concat()
  );
}

#[test]
fn range_outside_of_text_is_clamped() {
  // a parser will sometimes provide a dummy span, which must not panic when rendered
  let end = "const t = 5;".len() as u32;
  let diagnostic = parser_diagnostic("file:///test.ts", end + 101, end + 201, "Eof", "Unexpected eof", "const t = 5;");
  assert!(diagnostic.is_renderable_exec());
  assert_eq!(
    diagnostic.to_string(),
    ["Unexpected eof at file:///test.ts:1:13\n\n", "  const t = 5;\n", "              ~"].concat()
  );
}

#[test]
fn highlights_a_range_over_whitespace_lines_with_the_line_before() {
  let text = text_info("abc\n   \n  ");
  let highlight = get_range_text_highlight(&text, SourceRange::new(text.line_start(1), text.line_end(2)));
  assert_eq!(highlight, ["abc\n", "~~~\n", "   \n", "~~~\n", "  \n", "~~"].concat());
}

#[test]
fn highlights_with_crlf_line_endings() {
  let text = text_info("ab\r\ncd");
  assert_eq!(text.line_end(0), 2);
  assert_eq!(text.line_start(1), 4);
  assert_eq!(text.line_index(3), 0);
  assert_eq!(text.line_index(4), 1);
  let highlight = get_range_text_highlight(&text, SourceRange::new(1, 5));
  assert_eq!(highlight, ["ab\n", " ~\n", "cd\n", "~"].concat());
}

#[test]
fn displays_columns_counting_characters_and_tabs() {
  let text = text_info("x\n\té = 1");
  // `=` is after a tab (two columns) and a two byte character
  let position = text.line_and_column_display(6);
  assert_eq!(position.line_number, 2);
  assert_eq!(position.column_number, 5);
}

#[test]
fn finds_line_starts_and_columns() {
  assert_eq!(get_line_start_byte_pos("ab\ncd", 4), 3);
  assert_eq!(get_line_start_byte_pos("ab\ncd", 2), 0);
  assert_eq!(get_line_start_byte_pos("ab\ncd", 100), 3);
  assert_eq!(get_column_index_of_pos("ab\ncéd", 6), 2);
  assert_eq!(get_column_index_of_pos("ab", 0), 0);
}

#[test]
fn classifies_unsupported_syntax_errors() {
  assert!(is_unsupported_syntax_error(&SyntaxErrorKind::Eof));
  assert!(is_unsupported_syntax_error(&SyntaxErrorKind::TS1185));
  assert!(is_unsupported_syntax_error(&SyntaxErrorKind::UnterminatedStrLit));
  assert!(!is_unsupported_syntax_error(&SyntaxErrorKind::Other));
}

#[test]
fn joins_several_diagnostics_with_blank_lines() {
  let first = parser_diagnostic("file:///a.ts", 1, 2, "TS2304", "First", "ab");
  let second = parser_diagnostic("file:///a.ts", 2, 3, "TS2304", "Second", "ab");
  let error = ParseDiagnosticsError(vec![first, second]);
  assert_eq!(
    error.to_string(),
    [
      "First at file:///a.ts:1:1\n\n",
      "  ab\n",
      "  ~\n\n",
      "Second at file:///a.ts:1:2\n\n",
      "  ab\n",
      "   ~"
    ].concat()
  );
}

#[test]
fn diagnostics_compare_without_their_text() {
  let diagnostic = |specifier: &str, start: u32, kind: &str, text: &str| {
    parser_diagnostic(specifier, start + 1, start + 2, kind, "Message", text)
  };
  let a = diagnostic("file:///a.ts", 0, "Eof", "ab");
  assert!(a.eq(&diagnostic("file:///a.ts", 0, "Eof", "other text")));
  assert!(!a.eq(&diagnostic("file:///b.ts", 0, "Eof", "ab")));
  assert!(!a.eq(&diagnostic("file:///a.ts", 1, "Eof", "ab")));
  assert!(!a.eq(&diagnostic("file:///a.ts", 0, "TS1003", "ab")));
  // two errors, neither of which loses text, still differ
  let b = diagnostic("file:///a.ts", 0, "TS2304", "ab");
  assert!(!b.eq(&diagnostic("file:///a.ts", 0, "TS1016", "ab")));
  assert_eq!(b.kind(), SyntaxErrorKind::Other);
  assert_eq!(diagnostic("file:///a.ts", 0, "Expected(Semi, \"x\")", "ab").kind(), SyntaxErrorKind::Expected);
}

#[test]
fn displays_a_position_inside_a_character() {
  let text = text_info("aé = 1");
  // byte 2 is in the middle of `é`, which is not counted
  let position = text.line_and_column_display(2);
  assert_eq!(position.line_number, 1);
  assert_eq!(position.column_number, 2);
  let position = text.line_and_column_display(3);
  assert_eq!(position.column_number, 3);
}

#[test]
fn text_and_error_range_of_a_range_ending_inside_a_line_break() {
  let text = text_info("ab\r\ncd");
  // byte 3 is the `\n` of a `\r\n`, after the end of the first line
  assert_eq!(get_text_and_error_range(&text, SourceRange::new(3, 3)), ("ab", (3, 3)));
  assert_eq!(get_text_and_error_range(&text, SourceRange::new(1, 5)), ("ab\r\ncd", (1, 5)));
}

#[test]
fn no_diagnostics_render_as_nothing() {
  assert_eq!(ParseDiagnosticsError(Vec::new()).to_string(), "");
}

#[test]
fn a_byte_order_mark_left_in_the_text_is_before_the_first_line() {
  // the text info strips one byte order mark; the first line starts after
  // the one that remains
  let text = text_info("\u{FEFF}\u{FEFF}ab");
  assert_eq!(text.line_start(0), 3);
  assert_eq!(text.line_and_column_display(0).column_number, 1);
  assert_eq!(text.line_and_column_display(3).column_number, 1);
  assert_eq!(text.line_and_column_display(5).column_number, 3);
}
