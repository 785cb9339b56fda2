use std::path::Path;
use std::path::PathBuf;

use dprint_ts_parsing::path::path_to_specifier;
use dprint_ts_parsing::syntax::es_syntax;
use dprint_ts_parsing::syntax::jsx_retry_extension;
use dprint_ts_parsing::syntax::normalize_extension;
use dprint_ts_parsing::syntax::resolve_syntax;
use dprint_ts_parsing::syntax::ParseMode;
use dprint_ts_parsing::syntax::Syntax;
use dprint_ts_parsing::syntax::TsSyntax;

fn ts(tsx: bool, dts: bool, disallow_ambiguous_jsx_like: bool) -> Syntax {
  Syntax::Typescript(TsSyntax {
    tsx,
    decorators: true,
    dts,
    no_early_errors: false,
    disallow_ambiguous_jsx_like,
  })
}

fn run_resolve_test(path: &str, expected: (Syntax, ParseMode)) {
  assert_eq!(resolve_syntax(&PathBuf::from(path), None), expected, "path: {}", path);
}

#[test]
fn resolves_syntax_from_the_extension() {
  run_resolve_test("t.js", (es_syntax(false), ParseMode::Program));
  run_resolve_test("t.jsx", (es_syntax(true), ParseMode::Program));
  run_resolve_test("t.mjs", (es_syntax(false), ParseMode::Module));
  run_resolve_test("t.cjs", (es_syntax(false), ParseMode::Script));
  run_resolve_test("t.json", (es_syntax(false), ParseMode::Program));
  run_resolve_test("t", (es_syntax(false), ParseMode::Program));

  run_resolve_test("t.ts", (ts(false, false, false), ParseMode::Program));
  run_resolve_test("t.TS", (ts(false, false, false), ParseMode::Program));
  run_resolve_test("t.tsx", (ts(true, false, false), ParseMode::Program));
  run_resolve_test("t.mts", (ts(false, false, true), ParseMode::Module));
  run_resolve_test("t.cts", (ts(false, false, true), ParseMode::Module));

  // jsx-like syntax is only reserved in non-declaration .mts and .cts files
  run_resolve_test("t.d.ts", (ts(false, true, false), ParseMode::Program));
  run_resolve_test("t.d.mts", (ts(false, true, false), ParseMode::Program));
  run_resolve_test("t.d.cts", (ts(false, true, false), ParseMode::Program));
  // a `.d.` anywhere in the name means a declaration file, and it's case sensitive
  run_resolve_test("t.d.css.ts", (ts(false, true, false), ParseMode::Program));
  run_resolve_test("t.D.TS", (ts(false, false, false), ParseMode::Program));
  run_resolve_test("td.ts", (ts(false, false, false), ParseMode::Program));
  // `.d.tsx` is not a declaration file
  run_resolve_test("t.d.tsx", (ts(true, false, false), ParseMode::Program));

  // a file name that is only an extension
  run_resolve_test(".ts", (ts(false, false, false), ParseMode::Program));
  run_resolve_test(".tsx", (ts(true, false, false), ParseMode::Program));
  run_resolve_test(".js", (es_syntax(false), ParseMode::Program));
}

fn run_overwrite_test(path: &str, extension: &str, expected_same_as: &str) {
  assert_eq!(
    resolve_syntax(&PathBuf::from(path), Some(extension)),
    resolve_syntax(&PathBuf::from(expected_same_as), None),
    "path: {}, extension: {}",
    path,
    extension
  );
}

#[test]
fn extension_overwrites_the_one_on_the_path() {
  run_overwrite_test("t.js", "ts", "t.ts");
  run_overwrite_test("t.d.js", "ts", "t.d.ts");
  // an extension may contain dots, the same as `Path::with_extension`
  run_overwrite_test("t.md", "d.ts", "t.d.ts");
  run_overwrite_test("t", "ts", "t.ts");
}

fn run_specifier_test(path: &str, expected: &str) {
  assert_eq!(path_to_specifier(&PathBuf::from(path)), expected, "path: {}", path);
}

#[test]
fn creates_a_specifier_for_display() {
  run_specifier_test("/file/other.ts", "file:///file/other.ts");
  // a relative path has no file url, so just the file name is used
  run_specifier_test("./test.ts", "file:///test.ts");
  run_specifier_test("../up/test.ts", "file:///test.ts");
  // the result has to stay a valid url
  run_specifier_test("/my file.ts", "file:///my%20file.ts");
  run_specifier_test("/a#b.ts", "file:///a%23b.ts");
}

#[test]
fn specifier_escapes_every_byte_of_the_set_and_non_ascii() {
  run_specifier_test("/a b\"c#d<e>f`g?h{i}j%k\\l.ts", "file:///a%20b%22c%23d%3Ce%3Ef%60g%3Fh%7Bi%7Dj%25k%5Cl.ts");
  run_specifier_test("/é.ts", "file:///%C3%A9.ts");
  run_specifier_test("/dir/sub/file.ts", "file:///dir/sub/file.ts");
  run_specifier_test("/", "file:///");
}

#[test]
fn normalizes_extensions_without_regard_to_case() {
  assert_eq!(normalize_extension("TS"), "ts");
  assert_eq!(normalize_extension("Mjs"), "mjs");
  assert_eq!(normalize_extension("cTs"), "cts");
  assert_eq!(normalize_extension("tsx"), "tsx");
  assert_eq!(normalize_extension("json"), "");
  assert_eq!(normalize_extension(""), "");
  assert_eq!(normalize_extension("t"), "");
}

#[test]
fn retries_typescript_and_javascript_with_jsx() {
  assert_eq!(jsx_retry_extension(Path::new("a.ts"), None), Some("tsx"));
  assert_eq!(jsx_retry_extension(Path::new("a.MTS"), None), Some("tsx"));
  assert_eq!(jsx_retry_extension(Path::new("a.cts"), None), Some("tsx"));
  assert_eq!(jsx_retry_extension(Path::new("a.js"), None), Some("jsx"));
  assert_eq!(jsx_retry_extension(Path::new("a.mjs"), None), Some("jsx"));
  assert_eq!(jsx_retry_extension(Path::new("a.cjs"), None), Some("jsx"));
  assert_eq!(jsx_retry_extension(Path::new("a.tsx"), None), None);
  assert_eq!(jsx_retry_extension(Path::new("a.jsx"), None), None);
  assert_eq!(jsx_retry_extension(Path::new("a.md"), None), None);
  assert_eq!(jsx_retry_extension(Path::new("noext"), None), None);
  assert_eq!(jsx_retry_extension(Path::new("a.md"), Some("ts")), Some("tsx"));
  assert_eq!(jsx_retry_extension(Path::new("a.ts"), Some("md")), None);
}
