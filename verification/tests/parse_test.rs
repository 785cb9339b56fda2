use std::path::Path;
use std::path::PathBuf;

use dprint_ts_parsing::parse::parse_program;
use dprint_ts_parsing::parse::parse_result_from;
use dprint_ts_parsing::parse::parse_syntax;
use dprint_ts_parsing::parse::SwcErrorInfo;
use dprint_ts_parsing::parse::ParseError;
use dprint_ts_parsing::parse::ParseOptions;
use dprint_ts_parsing::parse::ParsedSource;
use dprint_ts_parsing::syntax::ParseMode;
use dprint_ts_parsing::syntax::Syntax;
use dprint_ts_parsing::syntax::TsSyntax;

fn parse_ts(text: &str) -> Result<ParsedSource, ParseError> {
  parse_syntax(
    "file:///my_file.ts".to_string(),
    text,
    Syntax::Typescript(TsSyntax {
      tsx: false,
      decorators: false,
      dts: false,
      no_early_errors: false,
      disallow_ambiguous_jsx_like: false,
    }),
    ParseMode::Program,
  )
}

fn err_string(err: ParseError) -> String {
  err.to_string()
}

#[test]
fn parses_with_tokens_and_comments() {
  let parsed_source = parse_ts("// 1\n1 + 1\n// 2").ok().unwrap();
  assert_eq!(parsed_source.specifier(), "file:///my_file.ts");
  assert_eq!(parsed_source.text(), "// 1\n1 + 1\n// 2");
  assert_eq!(parsed_source.tokens().len(), 3);
  assert!(parsed_source.diagnostics().is_empty());
}

#[test]
fn strips_byte_order_mark() {
  let parsed_source = parse_ts("\u{FEFF}const t = 5;").ok().unwrap();
  assert_eq!(parsed_source.text(), "const t = 5;");
  // the text and the text info must agree or every position is off by three
  assert_eq!(parsed_source.text_info().text_str(), parsed_source.text());
  assert_eq!(parsed_source.text_info().range().end, parsed_source.range().end);
}

#[test]
fn keeps_recovered_diagnostics_that_are_safe_to_format() {
  // the parser recovers from this without losing any of the original text
  let parsed_source = parse_ts("using test").ok().unwrap();
  assert_eq!(parsed_source.diagnostics().len(), 1);
  assert_eq!(parsed_source.diagnostics()[0].message(), "Using declaration requires initializer");
  assert_eq!(parsed_source.text_info().text_str(), "using test");
}

#[test]
fn errors_for_recovered_diagnostics_that_lose_text() {
  let err = parse_ts("var foo = 'test").err().unwrap();
  assert_eq!(
    err_string(err),
    [
      "Unterminated string constant at file:///my_file.ts:1:11\n\n",
      "  var foo = 'test\n",
      "            ~~~~~"
    ].concat()
  );
}

#[test]
fn errors_for_fatal_diagnostic() {
  let err = parse_ts("test;\nas#;").err().unwrap();
  assert_eq!(
    err_string(err),
    ["Expected ';', '}' or <eof> at file:///my_file.ts:2:3\n\n", "  as#;\n", "    ~"].concat()
  );
}

#[test]
fn does_not_panic_rendering_diagnostics_for_odd_input() {
  for text in ["\u{FEFF}{)", "\u{FEFF}édeclare(]\"&😀", "\r\n|[", "%*/"] {
    match parse_ts(text) {
      Ok(parsed_source) => {
        for diagnostic in parsed_source.diagnostics() {
          assert!(diagnostic.is_renderable_exec());
          let _ignore = diagnostic.to_string();
        }
      }
      Err(err) => {
        let renderable = match &err {
          ParseError::Diagnostic(d) => d.is_renderable_exec(),
          ParseError::Diagnostics(ds) => ds.0.iter().all(|d| d.is_renderable_exec()),
        };
        assert!(renderable);
        let _ignore = err.to_string();
      }
    }
  }
}

fn parse_file(path: &Path, extension: Option<&str>, text: &str) -> Result<ParsedSource, ParseError> {
  parse_program(ParseOptions {
    path,
    extension,
    text: text.to_string(),
  })
}

fn run_fatal_diagnostic_test(file_path: &str, text: &str, expected: impl AsRef<str>) {
  let file_path = PathBuf::from(file_path);
  assert_eq!(err_string(parse_file(&file_path, None, text).err().unwrap()), expected.as_ref());
}

fn run_non_fatal_diagnostic_test(file_path: &str, text: &str, expected: impl AsRef<str>) {
  let file_path = PathBuf::from(file_path);
  assert_eq!(format!("{}", err_string(parse_file(&file_path, None, text).err().unwrap())), expected.as_ref());
}

#[test]
fn should_error_on_syntax_diagnostic() {
  run_fatal_diagnostic_test(
    "./test.ts",
    "test;\nas#;",
    ["Expected ';', '}' or <eof> at file:///test.ts:2:3\n", "\n", "  as#;\n", "    ~"].concat(),
  );
}

#[test]
fn should_error_on_unary_expression_dot() {
  run_fatal_diagnostic_test(
    "./test.ts",
    "+value.",
    ["Expected ident at file:///test.ts:1:2\n\n", "  +value.\n", "   ~~~~~"].concat(),
  );
}

#[test]
fn should_error_on_unary_expression_dot_semicolon() {
  run_fatal_diagnostic_test(
    "./test.ts",
    "+value.;",
    ["Expected ident at file:///test.ts:1:8\n\n", "  +value.;\n", "         ~"].concat(),
  );
}

#[test]
fn it_should_error_without_issue_when_there_exists_multi_byte_char_on_line_with_syntax_error() {
  run_fatal_diagnostic_test(
    "./test.ts",
    &[
      "test;\n",
      r#"console.log('x', `duration ${d} not in range - ${min} ≥ ${d} && ${max} ≥ ${d}`),;"#,
    ].concat(),
    [
      "Expression expected at file:///test.ts:2:81\n",
      "\n",
      "  console.log('x', `duration ${d} not in range - ${min} ≥ ${d} && ${max} ≥ ${d}`),;\n",
      "                                                                                  ~",
    ].concat(),
  );
}

#[test]
fn it_should_error_closing_paren_missing() {
  run_fatal_diagnostic_test(
    "./test.ts",
    r#"const foo = <T extends {}>() => {
    if (bar() {
        console.log(1);
    }
};"#,
    [
      "An arrow function is not allowed here at file:///test.ts:1:27\n",
      "\n",
      "  const foo = <T extends {}>() => {\n",
      "                            ~~"
    ].concat(),
  );
}

#[test]
fn it_should_error_when_var_stmts_sep_by_comma() {
  run_fatal_diagnostic_test(
    "./test.ts",
    "let a = 0, let b = 1;",
    [
      "Unexpected token `let`. Expected let is reserved in const, let, class declaration at file:///test.ts:1:12\n",
      "\n",
      "  let a = 0, let b = 1;\n",
      "             ~~~"
    ].concat(),
  );
}

#[test]
fn it_should_error_for_no_equals_sign_in_var_decl() {
  run_non_fatal_diagnostic_test(
    "./test.ts",
    "const Methods {\nf: (x, y) => x + y,\n};",
    ["Expected a semicolon at file:///test.ts:1:15\n", "\n", "  const Methods {\n", "                ~"].concat(),
  );
}

#[test]
fn it_should_error_for_exected_expr_issue_121() {
  run_non_fatal_diagnostic_test(
    "./test.ts",
    "type T =\n  | unknown\n  { } & unknown;",
    ["Expression expected at file:///test.ts:3:7\n\n", "    { } & unknown;\n", "        ~"].concat(),
  );
}

#[test]
fn file_extension_overwrite() {
  let file_path = PathBuf::from("./test.js");
  assert!(parse_file(&file_path, Some("ts"), "const foo: string = 'bar';").is_ok());
}

#[test]
fn it_should_error_for_exected_close_brace() {
  run_fatal_diagnostic_test(
    "./test.ts",
    "class Test {",
    ["Unexpected eof at file:///test.ts:1:13\n\n", "  class Test {\n", "              ~"].concat(),
  );
}

#[test]
fn it_should_error_for_exected_string_literal() {
  run_non_fatal_diagnostic_test(
    "./test.ts",
    "var foo = 'test",
    [
      "Unterminated string constant at file:///test.ts:1:11\n\n",
      "  var foo = 'test\n",
      "            ~~~~~"
    ].concat(),
  );
}

#[test]
fn it_should_error_for_merge_conflict_marker() {
  run_non_fatal_diagnostic_test(
    "./test.ts",
    r#"class Test {
<<<<<<< HEAD
    v = 1;
=======
    v = 2;
>>>>>>> Branch-a
}
"#,
    r#"Merge conflict marker encountered. at file:///test.ts:2:1

  <<<<<<< HEAD
  ~~~~~~~

Merge conflict marker encountered. at file:///test.ts:4:1

  =======
  ~~~~~~~

Merge conflict marker encountered. at file:///test.ts:6:1

  >>>>>>> Branch-a
  ~~~~~~~"#,
  );
}

#[test]
fn parses_a_file_name_that_is_only_an_extension() {
  assert!(parse_file(Path::new(".ts"), None, "const a: number = 1;").is_ok());
  assert!(parse_file(Path::new(".tsx"), None, "const a = <div />;").is_ok());
}

#[test]
fn parses_with_a_dotted_extension_overwrite() {
  assert!(parse_file(Path::new("t.md"), Some("d.ts"), "declare const a: number;").is_ok());
}

#[test]
fn retries_a_typescript_file_as_tsx() {
  let parsed = parse_file(Path::new("/a.ts"), None, "const a = <div />;").ok().unwrap();
  assert_eq!(parsed.specifier(), "file:///a.ts");
  match parsed.syntax() {
    Syntax::Typescript(ts) => assert!(ts.tsx),
    Syntax::Es(_) => panic!("expected TypeScript"),
  }
}

#[test]
fn keeps_the_comments_found_while_parsing() {
  let parsed_source = parse_ts("// 1\n1 + 1\n// 2").ok().unwrap();
  let comments = parsed_source.comments();
  let mut texts: Vec<String> = comments
    .leading_map()
    .values()
    .chain(comments.trailing_map().values())
    .flatten()
    .map(|comment| comment.text.to_string())
    .collect();
  texts.sort();
  assert_eq!(texts, vec![" 1".to_string(), " 2".to_string()]);
}

#[test]
fn a_byte_order_mark_does_not_change_the_parse() {
  let with = parse_ts("\u{FEFF}// c\nconst t = 5;").ok().unwrap();
  let without = parse_ts("// c\nconst t = 5;").ok().unwrap();
  assert_eq!(with.text(), without.text());
  assert_eq!(with.tokens().len(), without.tokens().len());
  assert_eq!(with.range().end, without.range().end);
  assert_eq!(with.text_info().text_str(), with.text());
  let with_err = parse_ts("\u{FEFF}class Test {").err().unwrap();
  let without_err = parse_ts("class Test {").err().unwrap();
  assert_eq!(err_string(with_err), err_string(without_err));
}

#[test]
fn a_fatal_syntax_error_becomes_the_error() {
  let syntax = Syntax::Typescript(TsSyntax {
    tsx: false,
    decorators: false,
    dts: false,
    no_early_errors: false,
    disallow_ambiguous_jsx_like: false,
  });
  let fatal = SwcErrorInfo { lo: 100, hi: 200, kind: "Eof".to_string(), message: "Unexpected eof".to_string() };
  let err = parse_result_from("file:///test.ts".to_string(), "const t = 5;".to_string(), syntax, Err(fatal)).err().unwrap();
  assert_eq!(
    err_string(err),
    ["Unexpected eof at file:///test.ts:1:13\n\n", "  const t = 5;\n", "              ~"].concat()
  );
}
