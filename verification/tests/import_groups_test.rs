use dprint_ts_parsing::import_groups::compile;
use dprint_ts_parsing::import_groups::BuiltinCategory;
use dprint_ts_parsing::import_groups::Configuration;
use dprint_ts_parsing::import_groups::ImportGroup;
use dprint_ts_parsing::import_groups::ImportGroupMatch;
use dprint_ts_parsing::import_groups::ImportMatcher;
use dprint_ts_parsing::import_groups::TypeImportsMode;

fn category(c: BuiltinCategory) -> ImportGroup {
  ImportGroup {
    matchers: ImportGroupMatch::Single(ImportMatcher::Category(c)),
  }
}

fn pattern(p: &str) -> ImportGroup {
  ImportGroup {
    matchers: ImportGroupMatch::Single(ImportMatcher::Pattern { pattern: p.to_string() }),
  }
}

fn build(groups: Vec<ImportGroup>, mode: TypeImportsMode) -> Configuration {
  Configuration {
    module_import_groups: groups,
    module_type_imports: mode,
  }
}

#[test]
fn empty_returns_none() {
  let cfg = build(vec![], TypeImportsMode::Separate);
  assert!(compile(&cfg).0.is_none());
}

#[test]
fn appends_implicit_unknown_at_end() {
  let cfg = build(vec![category(BuiltinCategory::Builtin)], TypeImportsMode::Separate);
  let r = compile(&cfg).0.unwrap();
  assert_eq!(r.groups.len(), 2);
  assert_eq!(r.unknown_index, 1);
}

#[test]
fn duplicate_category_diagnostic() {
  let cfg = build(
    vec![category(BuiltinCategory::Builtin), category(BuiltinCategory::Builtin)],
    TypeImportsMode::Separate,
  );
  let (r, diags) = compile(&cfg);
  let r = r.unwrap();
  assert_eq!(diags.len(), 1);
  assert_eq!(r.groups[0].categories, vec![BuiltinCategory::Builtin]);
  assert!(r.groups[1].categories.is_empty());
}

#[test]
fn invalid_glob_diagnostic_leaves_the_group_empty() {
  let cfg = build(
    vec![pattern("[unclosed"), category(BuiltinCategory::External)],
    TypeImportsMode::Separate,
  );
  let (r, diags) = compile(&cfg);
  let r = r.unwrap();
  assert_eq!(diags.len(), 1);
  assert!(diags[0].contains("Invalid glob `[unclosed`"), "{:?}", diags[0]);
  assert!(r.groups[0].categories.is_empty());
  assert!(!r.groups[0].has_globs);
}

#[test]
fn type_category_under_interleave_diagnostic() {
  let cfg = build(
    vec![category(BuiltinCategory::External), category(BuiltinCategory::Type)],
    TypeImportsMode::Interleave,
  );
  let (_, diags) = compile(&cfg);
  assert!(diags.iter().any(|d| d.contains("type") && d.contains("interleave")));
}

#[test]
fn explicit_unknown_group_is_used() {
  let cfg = build(
    vec![
      category(BuiltinCategory::Unknown),
      ImportGroup {
        matchers: ImportGroupMatch::Multiple(vec![
          ImportMatcher::Category(BuiltinCategory::Sibling),
          ImportMatcher::Category(BuiltinCategory::Index),
        ]),
      },
    ],
    TypeImportsMode::Separate,
  );
  let (r, diags) = compile(&cfg);
  let r = r.unwrap();
  assert!(diags.is_empty());
  assert_eq!(r.groups.len(), 2);
  assert_eq!(r.unknown_index, 0);
  assert_eq!(r.groups[1].categories, vec![BuiltinCategory::Sibling, BuiltinCategory::Index]);
}

#[test]
fn diagnostic_texts() {
  let cfg = build(
    vec![
      category(BuiltinCategory::Parent),
      category(BuiltinCategory::Parent),
      category(BuiltinCategory::Type),
    ],
    TypeImportsMode::Interleave,
  );
  let (_, diags) = compile(&cfg);
  assert_eq!(
    diags,
    vec![
      "Category Parent listed more than once; using first occurrence.".to_string(),
      "Category \"type\" is ignored under module.typeImports=\"interleave\".".to_string(),
    ]
  );
}

#[test]
fn valid_globs_are_compiled() {
  let cfg = build(
    vec![ImportGroup {
      matchers: ImportGroupMatch::Multiple(vec![
        ImportMatcher::Pattern { pattern: "@app/**".to_string() },
        ImportMatcher::Pattern { pattern: "@lib/*".to_string() },
      ]),
    }],
    TypeImportsMode::Separate,
  );
  let (r, diags) = compile(&cfg);
  let r = r.unwrap();
  assert!(diags.is_empty());
  assert!(r.groups[0].has_globs);
  assert_eq!(r.groups[0].globs.len(), 2);
  assert!(r.groups[0].globs.is_match("@app/deep/thing"));
  assert!(r.groups[0].globs.is_match("@lib/a/b"));
  assert!(!r.groups[0].globs.is_match("react"));
  assert_eq!(r.groups[0].patterns, vec!["@app/**".to_string(), "@lib/*".to_string()]);
  assert_eq!(r.groups[0].globs.matches("@app/x"), vec![0]);
  assert_eq!(r.groups[0].globs.matches("@lib/x"), vec![1]);
  assert!(r.groups[1].globs.matches("@app/x").is_empty());
  assert_eq!(r.groups[1].categories, vec![BuiltinCategory::Unknown]);
  assert!(!r.groups[1].has_globs);
}
