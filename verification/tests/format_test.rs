use dprint_ts_parsing::format::changed_text;
use dprint_ts_parsing::format::check_program_captured;
use dprint_ts_parsing::format::format_text_result;

#[test]
fn checks_what_a_program_captured_in_order() {
  assert_eq!(
    check_program_captured(false, false, false),
    Err("The text info must be provided in order to format a program.".to_string())
  );
  assert_eq!(
    check_program_captured(true, false, false),
    Err("The tokens must be captured in order to format a program.".to_string())
  );
  assert_eq!(
    check_program_captured(true, true, false),
    Err("The comments must be captured in order to format a program.".to_string())
  );
  assert_eq!(check_program_captured(true, true, true), Ok(()));
}

#[test]
fn unchanged_output_is_no_change() {
  assert_eq!(changed_text("const t = 5;\n".to_string(), "const t = 5;\n"), None);
  assert_eq!(changed_text("const t = 5;\n".to_string(), "const  t = 5;"), Some("const t = 5;\n".to_string()));
}

#[test]
fn removing_a_byte_order_mark_is_a_change() {
  assert_eq!(format_text_result(true, None, "const t = 5;\n"), Some("const t = 5;\n".to_string()));
  assert_eq!(format_text_result(false, None, "const t = 5;\n"), None);
  assert_eq!(format_text_result(true, Some("a".to_string()), "b"), Some("a".to_string()));
}
