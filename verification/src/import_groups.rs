//! Compiled form of `module.importGroups` ready for classification: the
//! categories and glob set of each group, the group that catches imports no
//! listed group claims, and diagnostics about the configuration.

use vstd::prelude::*;

use crate::text::decimal;
use crate::text::push_decimal;
use crate::text::push_str;
use crate::text::string_from_chars;

verus! {

#[verifier::external_type_specification]
#[verifier::external_body]
pub struct ExGlobSetBuilder(globset::GlobSetBuilder);

#[verifier::external_type_specification]
#[verifier::external_body]
pub struct ExGlobSet(globset::GlobSet);

#[verifier::external_type_specification]
#[verifier::external_body]
pub struct ExFxBuildHasher(rustc_hash::FxBuildHasher);

/// The glob patterns added to a builder, in order.
pub uninterp spec fn glob_builder_patterns(builder: globset::GlobSetBuilder) -> Seq<Seq<char>>;

/// The number of globs in a set, as `GlobSet::len` gives it.
pub uninterp spec fn glob_set_len(set: globset::GlobSet) -> nat;

/// The sequence numbers of the globs of a set that match a path, as
/// `GlobSet::matches` gives them.
pub uninterp spec fn glob_set_matches(set: globset::GlobSet, path: Seq<char>) -> Seq<nat>;

/// Whether the glob that `Glob::new` parses from the pattern matches the
/// path, as its `GlobMatcher::is_match` tells.
pub uninterp spec fn glob_matches(pattern: Seq<char>, path: Seq<char>) -> bool;

/// The message of the error `Glob::new` gives for a pattern, or `None`
/// when the pattern parses.
pub uninterp spec fn glob_parse_error(pattern: Seq<char>) -> Option<Seq<char>>;

/// The message of the error `GlobSetBuilder::build` gives for the patterns,
/// or `None` when the set builds.
pub uninterp spec fn glob_set_build_error(patterns: Seq<Seq<char>>) -> Option<Seq<char>>;

/// A new builder, by `GlobSetBuilder::new`: it holds no patterns.
#[verifier::external_body]
fn glob_set_builder_new() -> (res: globset::GlobSetBuilder)
    ensures
        glob_builder_patterns(res) == Seq::<Seq<char>>::empty(),
{
    globset::GlobSetBuilder::new()
}

/// Parses `pattern` by `Glob::new` and, when it parses, adds the glob to
/// the builder by `GlobSetBuilder::add`, which appends it to the builder's
/// patterns. When it does not parse the builder is left as it was and the
/// error's message (its `Display`) is returned.
#[verifier::external_body]
fn glob_set_builder_add(builder: &mut globset::GlobSetBuilder, pattern: &str) -> (res: Result<(), String>)
    ensures
        match glob_parse_error(pattern@) {
            None => res is Ok && glob_builder_patterns(*final(builder)) == glob_builder_patterns(
                *old(builder),
            ).push(pattern@),
            Some(message) => res matches Err(e) && e@ == message && glob_builder_patterns(
                *final(builder),
            ) == glob_builder_patterns(*old(builder)),
        },
{
    match globset::Glob::new(pattern) {
        Ok(glob) => {
            builder.add(glob);
            Ok(())
        },
        Err(err) => Err(err.to_string()),
    }
}

/// Builds the glob set by `GlobSetBuilder::build`: a set of the builder's
/// globs, or the error's message (its `Display`). A builder without
/// patterns always builds, into an empty set (`GlobSet::new` returns
/// `GlobSet::empty()` for no globs); otherwise the set counts one glob per
/// pattern. The built set matches a path with the globs it was built from:
/// `GlobSet::matches` gives, in ascending order, the sequence number of
/// every glob that matches the path.
#[verifier::external_body]
fn glob_set_builder_build(builder: &globset::GlobSetBuilder) -> (res: Result<globset::GlobSet, String>)
    ensures
        res matches Ok(set) ==> glob_set_len(set) == glob_builder_patterns(*builder).len(),
        res matches Ok(set) ==> forall|path: Seq<char>, i: nat|
            #[trigger] glob_set_matches(set, path).contains(i) <==> (i < glob_builder_patterns(*builder).len()
                && glob_matches(glob_builder_patterns(*builder)[i as int], path)),
        res matches Ok(set) ==> forall|path: Seq<char>, j: int, k: int|
            0 <= j < k < glob_set_matches(set, path).len() ==> #[trigger] glob_set_matches(set, path)[j]
                < #[trigger] glob_set_matches(set, path)[k],
        res is Ok <==> (glob_builder_patterns(*builder).len() == 0 || glob_set_build_error(
            glob_builder_patterns(*builder),
        ) is None),
        res matches Err(e) ==> glob_set_build_error(glob_builder_patterns(*builder)) == Some(e@),
{
    match builder.build() {
        Ok(set) => Ok(set),
        Err(err) => Err(err.to_string()),
    }
}

/// An empty set, by `GlobSet::empty`: it holds no globs and matches no
/// path.
#[verifier::external_body]
fn glob_set_empty() -> (res: globset::GlobSet)
    ensures
        glob_set_len(res) == 0,
        forall|path: Seq<char>| #[trigger] glob_set_matches(res, path) == Seq::<nat>::empty(),
{
    globset::GlobSet::empty()
}

/// Inserts into a hash set, by `HashSet::insert`: the value is in the set
/// afterwards, and the result tells whether it was absent before.
#[verifier::external_body]
fn seen_insert(set: &mut rustc_hash::FxHashSet<u8>, value: u8) -> (res: bool)
    ensures
        final(set)@ == old(set)@.insert(value),
        res == !old(set)@.contains(value),
{
    set.insert(value)
}

/// A new empty hash set, by `Default::default`.
#[verifier::external_body]
fn seen_new() -> (res: rustc_hash::FxHashSet<u8>)
    ensures
        res@ == Set::<u8>::empty(),
{
    rustc_hash::FxHashSet::default()
}

/// A category an import is classified into.
#[derive(Debug, Clone, Copy, PartialEq, Eq, Structural)]
pub enum BuiltinCategory {
    Builtin,
    Parent,
    Index,
    Sibling,
    Type,
    External,
    Unknown,
}

/// What a group matches: a category, or imports whose specifier matches a
/// glob pattern.
#[derive(Debug, Clone, PartialEq, Eq)]
pub enum ImportMatcher {
    Category(BuiltinCategory),
    Pattern { pattern: String },
}

/// One matcher, or several merged into one group.
#[derive(Debug, Clone, PartialEq, Eq)]
pub enum ImportGroupMatch {
    Single(ImportMatcher),
    Multiple(Vec<ImportMatcher>),
}

/// A group of `module.importGroups`.
#[derive(Debug, Clone, PartialEq, Eq)]
pub struct ImportGroup {
    pub matchers: ImportGroupMatch,
}

/// Whether `import type` declarations form a category of their own.
#[derive(Debug, Clone, Copy, PartialEq, Eq, Structural)]
pub enum TypeImportsMode {
    Separate,
    Interleave,
}

/// The configuration that the import groups are compiled from.
pub struct Configuration {
    pub module_import_groups: Vec<ImportGroup>,
    pub module_type_imports: TypeImportsMode,
}

/// One resolved group: its categories and glob set, in the order they were
/// listed.
pub struct ResolvedGroup {
    pub categories: Vec<BuiltinCategory>,
    pub globs: globset::GlobSet,
    /// The glob patterns of the set, in the order they were listed.
    pub patterns: Vec<String>,
    pub has_globs: bool,
}

/// The import groups compiled into matcher-friendly form.
pub struct ResolvedGroups {
    pub groups: Vec<ResolvedGroup>,
    /// Index into `groups` of the group that catches imports matching no
    /// listed category.
    pub unknown_index: usize,
}

/// A resolved group as plain values: its categories, the glob patterns of
/// its set, and whether it has globs. (Its set counts one glob per pattern:
/// see `group_set_matches`.)
pub open spec fn resolved_group_view(g: ResolvedGroup) -> (Seq<BuiltinCategory>, Seq<Seq<char>>, bool) {
    (g.categories@, g.patterns@.map_values(|p: String| p@), g.has_globs)
}

/// The group's glob set holds one glob per pattern of the group.
pub open spec fn group_set_matches(g: ResolvedGroup) -> bool {
    set_built_from(g.globs, g.patterns@.map_values(|p: String| p@))
}

/// The set holds one glob per pattern and matches a path with them: it
/// gives, in ascending order, the sequence number of every pattern that
/// matches the path.
pub open spec fn set_built_from(set: globset::GlobSet, patterns: Seq<Seq<char>>) -> bool {
    &&& glob_set_len(set) == patterns.len()
    &&& forall|path: Seq<char>, i: nat|
        #[trigger] glob_set_matches(set, path).contains(i) <==> (i < patterns.len() && glob_matches(
            patterns[i as int],
            path,
        ))
    &&& forall|path: Seq<char>, j: int, k: int|
        0 <= j < k < glob_set_matches(set, path).len() ==> #[trigger] glob_set_matches(set, path)[j]
            < #[trigger] glob_set_matches(set, path)[k]
}

/// The matchers of a group.
pub open spec fn matchers_of(g: ImportGroup) -> Seq<ImportMatcher> {
    match g.matchers {
        ImportGroupMatch::Single(m) => seq![m],
        ImportGroupMatch::Multiple(v) => v@,
    }
}

/// The name a category is written with in diagnostics (its `Debug`).
pub open spec fn category_name(c: BuiltinCategory) -> Seq<char> {
    match c {
        BuiltinCategory::Builtin => "Builtin"@,
        BuiltinCategory::Parent => "Parent"@,
        BuiltinCategory::Index => "Index"@,
        BuiltinCategory::Sibling => "Sibling"@,
        BuiltinCategory::Type => "Type"@,
        BuiltinCategory::External => "External"@,
        BuiltinCategory::Unknown => "Unknown"@,
    }
}

/// The number a category is kept in the set of seen categories under.
pub open spec fn category_code(c: BuiltinCategory) -> u8 {
    match c {
        BuiltinCategory::Builtin => 0,
        BuiltinCategory::Parent => 1,
        BuiltinCategory::Index => 2,
        BuiltinCategory::Sibling => 3,
        BuiltinCategory::Type => 4,
        BuiltinCategory::External => 5,
        BuiltinCategory::Unknown => 6,
    }
}

/// The diagnostic for the `type` category under interleaved type imports.
pub open spec fn type_ignored_message() -> Seq<char> {
    "Category \"type\" is ignored under module.typeImports=\"interleave\"."@
}

/// The diagnostic for a category listed more than once.
pub open spec fn duplicate_message(c: BuiltinCategory) -> Seq<char> {
    "Category "@ + category_name(c) + " listed more than once; using first occurrence."@
}

/// The diagnostic for a glob pattern that does not parse.
pub open spec fn invalid_glob_message(pattern: Seq<char>, error: Seq<char>) -> Seq<char> {
    "Invalid glob `"@ + pattern + "`: "@ + error
}

/// The diagnostic for a group whose glob set does not build.
pub open spec fn build_failed_message(i: nat, error: Seq<char>) -> Seq<char> {
    "Could not build the glob set for group "@ + decimal(i) + ": "@ + error
}

/// The state of compiling a group: its categories, its patterns that
/// parsed, the diagnostics, the categories seen, and whether the group
/// lists `unknown`.
pub type GroupState = (Seq<BuiltinCategory>, Seq<Seq<char>>, Seq<Seq<char>>, Set<u8>, bool);

/// The state after one more matcher.
///
/// A `type` category under interleaved type imports is ignored with a
/// diagnostic; a category seen before is skipped with a diagnostic; any
/// other category is kept. A pattern that parses is kept, and one that
/// does not is dropped with a diagnostic.
pub open spec fn spec_matcher_step(st: GroupState, m: ImportMatcher, interleave: bool) -> GroupState {
    let (cats, pats, diags, seen, unknown) = st;
    match m {
        ImportMatcher::Category(c) => if c == BuiltinCategory::Type && interleave {
            (cats, pats, diags.push(type_ignored_message()), seen, unknown)
        } else if seen.contains(category_code(c)) {
            (cats, pats, diags.push(duplicate_message(c)), seen, unknown)
        } else {
            (cats.push(c), pats, diags, seen.insert(category_code(c)), unknown || c == BuiltinCategory::Unknown)
        },
        ImportMatcher::Pattern { pattern } => match glob_parse_error(pattern@) {
            None => (cats, pats.push(pattern@), diags, seen, unknown),
            Some(e) => (cats, pats, diags.push(invalid_glob_message(pattern@, e)), seen, unknown),
        },
    }
}

/// The state after the first `k` matchers of a group, starting from the
/// set of categories seen in earlier groups.
pub open spec fn spec_group_matchers(ms: Seq<ImportMatcher>, k: int, interleave: bool, seen: Set<u8>) -> GroupState
    decreases k,
{
    if k <= 0 {
        (Seq::empty(), Seq::empty(), Seq::empty(), seen, false)
    } else {
        spec_matcher_step(spec_group_matchers(ms, k - 1, interleave, seen), ms[k - 1], interleave)
    }
}

/// The state after the first `n` groups: each group's categories, glob
/// patterns and whether it has globs, the diagnostics, the categories seen,
/// and the index of the group that lists `unknown`, if one does.
///
/// A group with patterns whose glob set does not build gets an empty set,
/// no globs, and a diagnostic after those of its matchers; a group without
/// patterns always builds.
pub open spec fn spec_compile_groups(groups: Seq<ImportGroup>, n: int, interleave: bool) -> (
    Seq<(Seq<BuiltinCategory>, Seq<Seq<char>>, bool)>,
    Seq<Seq<char>>,
    Set<u8>,
    Option<int>,
)
    decreases n,
{
    if n <= 0 {
        (Seq::empty(), Seq::empty(), Set::empty(), None)
    } else {
        let (resolved, diags, seen, explicit_unknown) = spec_compile_groups(groups, n - 1, interleave);
        let i = n - 1;
        let ms = matchers_of(groups[i]);
        let (cats, pats, gdiags, seen1, unknown) = spec_group_matchers(ms, ms.len() as int, interleave, seen);
        let (group, build_diags) = if pats.len() == 0 {
            ((cats, pats, false), Seq::<Seq<char>>::empty())
        } else {
            match glob_set_build_error(pats) {
                None => ((cats, pats, true), Seq::<Seq<char>>::empty()),
                Some(e) => ((cats, Seq::<Seq<char>>::empty(), false), seq![build_failed_message(i as nat, e)]),
            }
        };
        (
            resolved.push(group),
            diags + gdiags + build_diags,
            seen1,
            if unknown {
                Some(i)
            } else {
                explicit_unknown
            },
        )
    }
}

/// The compiled groups and diagnostics of a configuration. With no groups
/// configured the feature is off and there are no compiled groups.
/// Otherwise the groups are compiled in order and, when none lists
/// `unknown`, a group of just `unknown` is appended to catch what no other
/// group claims.
pub open spec fn spec_compile(config_groups: Seq<ImportGroup>, interleave: bool) -> (
    Option<(Seq<(Seq<BuiltinCategory>, Seq<Seq<char>>, bool)>, int)>,
    Seq<Seq<char>>,
) {
    if config_groups.len() == 0 {
        (None, Seq::empty())
    } else {
        let (resolved, diags, _seen, explicit_unknown) = spec_compile_groups(
            config_groups,
            config_groups.len() as int,
            interleave,
        );
        match explicit_unknown {
            Some(i) => (Some((resolved, i)), diags),
            None => (
                Some(
                    (
                        resolved.push((seq![BuiltinCategory::Unknown], Seq::empty(), false)),
                        resolved.len() as int,
                    ),
                ),
                diags,
            ),
        }
    }
}

/// The view of compiled groups.
pub open spec fn resolved_groups_view(r: ResolvedGroups) -> (Seq<(Seq<BuiltinCategory>, Seq<Seq<char>>, bool)>, int) {
    (r.groups@.map_values(|g: ResolvedGroup| resolved_group_view(g)), r.unknown_index as int)
}

fn category_name_exec(c: BuiltinCategory) -> (res: &'static str)
    ensures
        res@ == category_name(c),
{
    match c {
        BuiltinCategory::Builtin => "Builtin",
        BuiltinCategory::Parent => "Parent",
        BuiltinCategory::Index => "Index",
        BuiltinCategory::Sibling => "Sibling",
        BuiltinCategory::Type => "Type",
        BuiltinCategory::External => "External",
        BuiltinCategory::Unknown => "Unknown",
    }
}

fn category_code_exec(c: BuiltinCategory) -> (res: u8)
    ensures
        res == category_code(c),
{
    match c {
        BuiltinCategory::Builtin => 0,
        BuiltinCategory::Parent => 1,
        BuiltinCategory::Index => 2,
        BuiltinCategory::Sibling => 3,
        BuiltinCategory::Type => 4,
        BuiltinCategory::External => 5,
        BuiltinCategory::Unknown => 6,
    }
}

fn message(parts: Vec<char>) -> (res: String)
    ensures
        res@ == parts@,
{
    string_from_chars(&parts)
}

/// Compiles one matcher of a group into its categories, glob set builder
/// and diagnostics.
fn compile_matcher(
    m: &ImportMatcher,
    interleave: bool,
    categories: &mut Vec<BuiltinCategory>,
    builder: &mut globset::GlobSetBuilder,
    patterns: &mut Vec<String>,
    has_unknown: &mut bool,
    has_globs: &mut bool,
    seen: &mut rustc_hash::FxHashSet<u8>,
    diagnostics: &mut Vec<String>,
)
    requires
        *old(has_globs) == (glob_builder_patterns(*old(builder)).len() > 0),
        old(patterns)@.map_values(|p: String| p@) == glob_builder_patterns(*old(builder)),
    ensures
        *final(has_globs) == (glob_builder_patterns(*final(builder)).len() > 0),
        final(patterns)@.map_values(|p: String| p@) == glob_builder_patterns(*final(builder)),
        ({
            let (cats, pats, diags, seen1, unknown) = spec_matcher_step(
                (old(categories)@, glob_builder_patterns(*old(builder)), Seq::empty(), old(seen)@, *old(has_unknown)),
                *m,
                interleave,
            );
            &&& final(categories)@ == cats
            &&& glob_builder_patterns(*final(builder)) == pats
            &&& final(diagnostics)@.map_values(|d: String| d@) == old(diagnostics)@.map_values(|d: String| d@) + diags
            &&& final(seen)@ == seen1
            &&& *final(has_unknown) == unknown
        }),
{
    let ghost prev_diags = diagnostics@.map_values(|d: String| d@);
    match m {
        ImportMatcher::Category(c) => {
            let c = *c;
            if c == BuiltinCategory::Type && interleave {
                diagnostics.push(
                    String::from_str("Category \"type\" is ignored under module.typeImports=\"interleave\"."),
                );
                assert(diagnostics@.map_values(|d: String| d@) =~= prev_diags + seq![type_ignored_message()]);
            } else if !seen_insert(seen, category_code_exec(c)) {
                let mut parts: Vec<char> = Vec::new();
                push_str(&mut parts, "Category ");
                push_str(&mut parts, category_name_exec(c));
                push_str(&mut parts, " listed more than once; using first occurrence.");
                diagnostics.push(message(parts));
                assert(diagnostics@.map_values(|d: String| d@) =~= prev_diags + seq![duplicate_message(c)]);
            } else {
                if c == BuiltinCategory::Unknown {
                    *has_unknown = true;
                }
                categories.push(c);
                assert(diagnostics@.map_values(|d: String| d@) =~= prev_diags + Seq::<Seq<char>>::empty());
            }
        },
        ImportMatcher::Pattern { pattern } => {
            match glob_set_builder_add(builder, pattern.as_str()) {
                Ok(()) => {
                    let ghost before = patterns@;
                    patterns.push(pattern.clone());
                    assert(patterns@.map_values(|p: String| p@) =~= before.map_values(|p: String| p@).push(pattern@));
                    *has_globs = true;
                    assert(diagnostics@.map_values(|d: String| d@) =~= prev_diags + Seq::<Seq<char>>::empty());
                },
                Err(e) => {
                    assert(patterns@.map_values(|p: String| p@) == glob_builder_patterns(*builder));
                    let mut parts: Vec<char> = Vec::new();
                    push_str(&mut parts, "Invalid glob `");
                    push_str(&mut parts, pattern.as_str());
                    push_str(&mut parts, "`: ");
                    push_str(&mut parts, e.as_str());
                    diagnostics.push(message(parts));
                    assert(diagnostics@.map_values(|d: String| d@) =~= prev_diags + seq![
                        invalid_glob_message(pattern@, e@),
                    ]);
                },
            }
        },
    }
}

proof fn lemma_matcher_step_diags(st: GroupState, m: ImportMatcher, interleave: bool)
    ensures
        ({
            let empty = (st.0, st.1, Seq::<Seq<char>>::empty(), st.3, st.4);
            let a = spec_matcher_step(st, m, interleave);
            let b = spec_matcher_step(empty, m, interleave);
            &&& a.0 == b.0
            &&& a.1 == b.1
            &&& a.2 == st.2 + b.2
            &&& a.3 == b.3
            &&& a.4 == b.4
        }),
{
    let empty = (st.0, st.1, Seq::<Seq<char>>::empty(), st.3, st.4);
    let a = spec_matcher_step(st, m, interleave);
    let b = spec_matcher_step(empty, m, interleave);
    assert(a.2 =~= st.2 + b.2);
}

/// Compiles the matchers of a group, continuing from the state before.
fn compile_group(
    g: &ImportGroup,
    interleave: bool,
    seen: &mut rustc_hash::FxHashSet<u8>,
    diagnostics: &mut Vec<String>,
) -> (res: (Vec<BuiltinCategory>, globset::GlobSetBuilder, Vec<String>, bool, bool))
    ensures
        ({
            let ms = matchers_of(*g);
            let (cats, pats, diags, seen1, unknown) = spec_group_matchers(ms, ms.len() as int, interleave, old(seen)@);
            &&& res.0@ == cats
            &&& glob_builder_patterns(res.1) == pats
            &&& res.2@.map_values(|p: String| p@) == pats
            &&& res.3 == unknown
            &&& res.4 == (pats.len() > 0)
            &&& final(diagnostics)@.map_values(|d: String| d@) == old(diagnostics)@.map_values(|d: String| d@) + diags
            &&& final(seen)@ == seen1
        }),
{
    let ghost seen0 = seen@;
    let ghost diags0 = diagnostics@.map_values(|d: String| d@);
    let ghost ms = matchers_of(*g);
    let mut categories: Vec<BuiltinCategory> = Vec::new();
    let mut builder = glob_set_builder_new();
    let mut patterns: Vec<String> = Vec::new();
    assert(patterns@.map_values(|p: String| p@) =~= glob_builder_patterns(builder));
    let mut has_unknown = false;
    let mut has_globs = false;
    match &g.matchers {
        ImportGroupMatch::Single(m) => {
            let ghost st0 = spec_group_matchers(ms, 0, interleave, seen0);
            proof {
                lemma_matcher_step_diags(st0, *m, interleave);
            }
            compile_matcher(m, interleave, &mut categories, &mut builder, &mut patterns, &mut has_unknown, &mut has_globs, seen, diagnostics);
            assert(diags0 + Seq::<Seq<char>>::empty() + spec_matcher_step((st0.0, st0.1, Seq::empty(), st0.3, st0.4), *m, interleave).2 =~= diags0 + spec_group_matchers(ms, 1, interleave, seen0).2);
        },
        ImportGroupMatch::Multiple(v) => {
            let mut k: usize = 0;
            while k < v.len()
                invariant
                    ms == v@,
                    k <= v@.len(),
                    ({
                        let (cats, pats, diags, seen1, unknown) = spec_group_matchers(ms, k as int, interleave, seen0);
                        &&& categories@ == cats
                        &&& glob_builder_patterns(builder) == pats
                        &&& patterns@.map_values(|p: String| p@) == pats
                        &&& diagnostics@.map_values(|d: String| d@) == diags0 + diags
                        &&& seen@ == seen1
                        &&& has_unknown == unknown
                        &&& has_globs == (pats.len() > 0)
                    }),
                decreases v@.len() - k,
            {
                let ghost st = spec_group_matchers(ms, k as int, interleave, seen0);
                proof {
                    lemma_matcher_step_diags(st, v@[k as int], interleave);
                }
                compile_matcher(&v[k], interleave, &mut categories, &mut builder, &mut patterns, &mut has_unknown, &mut has_globs, seen, diagnostics);
                assert(diags0 + st.2 + spec_matcher_step((st.0, st.1, Seq::empty(), st.3, st.4), v@[k as int], interleave).2 =~= diags0 + spec_group_matchers(ms, k + 1, interleave, seen0).2);
                k = k + 1;
            }
        },
    }
    (categories, builder, patterns, has_unknown, has_globs)
}

/// Compiles the configuration's `module.importGroups` into resolved form,
/// along with diagnostics about categories listed more than once, ignored
/// categories, and globs that do not parse. The groups are `None` when the
/// feature is off (no groups are configured).
pub fn compile(config: &Configuration) -> (res: (Option<ResolvedGroups>, Vec<String>))
    ensures
        ({
            let (expected, diags) = spec_compile(
                config.module_import_groups@,
                config.module_type_imports == TypeImportsMode::Interleave,
            );
            &&& res.1@.map_values(|d: String| d@) == diags
            &&& match expected {
                None => res.0 is None,
                Some(view) => res.0 matches Some(r) && resolved_groups_view(r) == view,
            }
            &&& res.0 matches Some(r) ==> forall|j: int| 0 <= j < r.groups@.len() ==> group_set_matches(#[trigger] r.groups@[j])
        }),
{
    let mut diagnostics: Vec<String> = Vec::new();
    if config.module_import_groups.len() == 0 {
        assert(diagnostics@.map_values(|d: String| d@) =~= Seq::<Seq<char>>::empty());
        return (None, diagnostics);
    }
    let interleave_mode = match config.module_type_imports {
        TypeImportsMode::Interleave => true,
        TypeImportsMode::Separate => false,
    };
    let ghost gs = config.module_import_groups@;
    let mut groups: Vec<ResolvedGroup> = Vec::new();
    let mut explicit_unknown: Option<usize> = None;
    let mut seen = seen_new();
    let mut i: usize = 0;
    while i < config.module_import_groups.len()
        invariant
            gs == config.module_import_groups@,
            interleave_mode == (config.module_type_imports == TypeImportsMode::Interleave),
            i <= gs.len(),
            ({
                let (resolved, diags, seen1, unknown) = spec_compile_groups(gs, i as int, interleave_mode);
                &&& groups@.map_values(|g: ResolvedGroup| resolved_group_view(g)) == resolved
                &&& diagnostics@.map_values(|d: String| d@) == diags
                &&& seen@ == seen1
                &&& forall|j: int| 0 <= j < groups@.len() ==> group_set_matches(#[trigger] groups@[j])
                &&& match unknown {
                    Some(u) => 0 <= u < i && explicit_unknown == Some(u as usize),
                    None => explicit_unknown is None,
                }
            }),
        decreases gs.len() - i,
    {
        let ghost prev = spec_compile_groups(gs, i as int, interleave_mode);
        let ghost prev_groups = groups@;
        let (categories, builder, mut patterns, has_unknown, mut has_globs) = compile_group(
            &config.module_import_groups[i],
            interleave_mode,
            &mut seen,
            &mut diagnostics,
        );
        if has_unknown {
            explicit_unknown = Some(i);
        }
        let globs = match glob_set_builder_build(&builder) {
            Ok(globs) => globs,
            Err(err) => {
                let ghost before = diagnostics@.map_values(|d: String| d@);
                let mut parts: Vec<char> = Vec::new();
                push_str(&mut parts, "Could not build the glob set for group ");
                push_decimal(&mut parts, i);
                push_str(&mut parts, ": ");
                push_str(&mut parts, err.as_str());
                diagnostics.push(message(parts));
                assert(diagnostics@.map_values(|d: String| d@) =~= before.push(build_failed_message(i as nat, err@)));
                has_globs = false;
                patterns = Vec::new();
                assert(patterns@.map_values(|p: String| p@) =~= Seq::<Seq<char>>::empty());
                glob_set_empty()
            },
        };
        let ghost new_group = ResolvedGroup { categories, globs, patterns, has_globs };
        assert(group_set_matches(new_group));
        assert(resolved_group_view(new_group) == spec_compile_groups(gs, i + 1, interleave_mode).0.last());
        groups.push(ResolvedGroup { categories, globs, patterns, has_globs });
        proof {
            let cur = spec_compile_groups(gs, i + 1, interleave_mode);
            assert(groups@.map_values(|g: ResolvedGroup| resolved_group_view(g)) =~= cur.0);
            assert(diagnostics@.map_values(|d: String| d@) =~= cur.1);
        }
        i = i + 1;
    }
    proof {
        let (resolved, diags, seen1, unknown) = spec_compile_groups(gs, gs.len() as int, interleave_mode);
        assert(groups@.len() == resolved.len());
    }
    let ghost groups_before = groups@;
    let unknown_index = match explicit_unknown {
        Some(u) => u,
        None => {
            let mut categories: Vec<BuiltinCategory> = Vec::new();
            categories.push(BuiltinCategory::Unknown);
            let patterns: Vec<String> = Vec::new();
            assert(patterns@.map_values(|p: String| p@) =~= Seq::<Seq<char>>::empty());
            groups.push(ResolvedGroup { categories, globs: glob_set_empty(), patterns, has_globs: false });
            groups.len() - 1
        },
    };
    proof {
        let (resolved, diags, seen1, unknown) = spec_compile_groups(gs, gs.len() as int, interleave_mode);
        if unknown is None {
            assert(groups@.map_values(|g: ResolvedGroup| resolved_group_view(g)) =~= resolved.push(
                (seq![BuiltinCategory::Unknown], Seq::<Seq<char>>::empty(), false),
            ));
            assert(unknown_index == resolved.len());
        } else {
            assert(groups@ == groups_before);
            assert(unknown_index == unknown->0);
        }
    }
    (Some(ResolvedGroups { groups, unknown_index }), diagnostics)
}

proof fn lemma_category_code_injective(a: BuiltinCategory, b: BuiltinCategory)
    ensures
        category_code(a) == category_code(b) <==> a == b,
{
}

/// What holds of the state after the first `k` matchers of a group.
pub open spec fn group_state_inv(st: GroupState, seen: Set<u8>, interleave: bool) -> bool {
    let (cats, pats, diags, seen1, unknown) = st;
    &&& forall|x: u8| #[trigger] seen1.contains(x) <==> (seen.contains(x) || exists|j: int|
        0 <= j < cats.len() && category_code(#[trigger] cats[j]) == x)
    &&& forall|j: int| 0 <= j < cats.len() ==> !seen.contains(category_code(#[trigger] cats[j]))
    &&& forall|j1: int, j2: int| 0 <= j1 < j2 < cats.len() ==> #[trigger] cats[j1] != #[trigger] cats[j2]
    &&& (unknown <==> cats.contains(BuiltinCategory::Unknown))
    &&& (interleave ==> !cats.contains(BuiltinCategory::Type))
}

proof fn lemma_step_inv(st: GroupState, m: ImportMatcher, interleave: bool, seen: Set<u8>)
    requires
        group_state_inv(st, seen, interleave),
    ensures
        group_state_inv(spec_matcher_step(st, m, interleave), seen, interleave),
{
    let cur = spec_matcher_step(st, m, interleave);
    let (cats, pats, diags, seen1, unknown) = st;
    match m {
        ImportMatcher::Category(c) => {
            if !(c == BuiltinCategory::Type && interleave) && !seen1.contains(category_code(c)) {
                let cats2 = cats.push(c);
                assert(cur.0 == cats2);
                assert(cur.3 == seen1.insert(category_code(c)));
                assert(cur.4 == (unknown || c == BuiltinCategory::Unknown));
                assert forall|x: u8| #[trigger] cur.3.contains(x) <==> (seen.contains(x) || exists|j: int|
                    0 <= j < cats2.len() && category_code(#[trigger] cats2[j]) == x) by {
                    if x == category_code(c) {
                        assert(category_code(cats2[cats.len() as int]) == x);
                    }
                    if exists|j: int| 0 <= j < cats2.len() && category_code(#[trigger] cats2[j]) == x {
                        let j = choose|j: int| 0 <= j < cats2.len() && category_code(#[trigger] cats2[j]) == x;
                        if j < cats.len() {
                            assert(cats2[j] == cats[j]);
                        }
                    }
                    if seen1.contains(x) && !seen.contains(x) {
                        let j = choose|j: int| 0 <= j < cats.len() && category_code(#[trigger] cats[j]) == x;
                        assert(cats2[j] == cats[j]);
                    }
                }
                assert forall|j: int| 0 <= j < cats2.len() implies !seen.contains(category_code(#[trigger] cats2[j])) by {
                    if j < cats.len() {
                        assert(cats2[j] == cats[j]);
                    }
                }
                assert forall|j1: int, j2: int| 0 <= j1 < j2 < cats2.len() implies #[trigger] cats2[j1] != #[trigger] cats2[j2] by {
                    if j2 == cats.len() {
                        assert(cats2[j1] == cats[j1]);
                        assert(seen1.contains(category_code(cats[j1])));
                    } else {
                        assert(cats2[j1] == cats[j1] && cats2[j2] == cats[j2]);
                    }
                }
                if cats2.contains(BuiltinCategory::Unknown) {
                    let j = choose|j: int| 0 <= j < cats2.len() && cats2[j] == BuiltinCategory::Unknown;
                    if j < cats.len() {
                        assert(cats[j] == BuiltinCategory::Unknown);
                    }
                }
                if unknown {
                    let j = choose|j: int| 0 <= j < cats.len() && cats[j] == BuiltinCategory::Unknown;
                    assert(cats2[j] == BuiltinCategory::Unknown);
                }
                if c == BuiltinCategory::Unknown {
                    assert(cats2[cats.len() as int] == BuiltinCategory::Unknown);
                }
                if interleave && cats2.contains(BuiltinCategory::Type) {
                    let j = choose|j: int| 0 <= j < cats2.len() && cats2[j] == BuiltinCategory::Type;
                    if j < cats.len() {
                        assert(cats[j] == BuiltinCategory::Type);
                    }
                }
            } else {
                assert(cur.0 == cats && cur.3 == seen1 && cur.4 == unknown);
            }
        },
        ImportMatcher::Pattern { pattern } => {
            assert(cur.0 == cats && cur.3 == seen1 && cur.4 == unknown);
        },
    }
}

proof fn lemma_group_matchers(ms: Seq<ImportMatcher>, k: int, interleave: bool, seen: Set<u8>)
    requires
        0 <= k <= ms.len(),
    ensures
        group_state_inv(spec_group_matchers(ms, k, interleave, seen), seen, interleave),
    decreases k,
{
    if k > 0 {
        lemma_group_matchers(ms, k - 1, interleave, seen);
        lemma_step_inv(spec_group_matchers(ms, k - 1, interleave, seen), ms[k - 1], interleave, seen);
    } else {
        let e = Seq::<BuiltinCategory>::empty();
        assert(!e.contains(BuiltinCategory::Unknown));
        assert(!e.contains(BuiltinCategory::Type));
    }
}

/// What holds of the state after the first `n` groups.
pub open spec fn groups_inv(
    st: (Seq<(Seq<BuiltinCategory>, Seq<Seq<char>>, bool)>, Seq<Seq<char>>, Set<u8>, Option<int>),
    n: int,
    interleave: bool,
) -> bool {
    let (resolved, diags, seen, unknown) = st;
    &&& resolved.len() == n
    &&& forall|x: u8| #[trigger] seen.contains(x) <==> exists|i: int, j: int|
        0 <= i < resolved.len() && 0 <= j < resolved[i].0.len() && category_code(#[trigger] resolved[i].0[j]) == x
    &&& forall|i1: int, j1: int, i2: int, j2: int|
        0 <= i1 < resolved.len() && 0 <= j1 < resolved[i1].0.len() && 0 <= i2 < resolved.len() && 0 <= j2
            < resolved[i2].0.len() && (i1 != i2 || j1 != j2) ==> #[trigger] resolved[i1].0[j1]
            != #[trigger] resolved[i2].0[j2]
    &&& match unknown {
        Some(u) => 0 <= u < n && resolved[u].0.contains(BuiltinCategory::Unknown),
        None => forall|i: int| 0 <= i < n ==> !(#[trigger] resolved[i]).0.contains(BuiltinCategory::Unknown),
    }
    &&& interleave ==> forall|i: int| 0 <= i < n ==> !(#[trigger] resolved[i]).0.contains(BuiltinCategory::Type)
    &&& forall|i: int| 0 <= i < n ==> (#[trigger] resolved[i]).2 == (resolved[i].1.len() > 0)
}

proof fn lemma_compile_groups(gs: Seq<ImportGroup>, n: int, interleave: bool)
    requires
        0 <= n <= gs.len(),
    ensures
        groups_inv(spec_compile_groups(gs, n, interleave), n, interleave),
    decreases n,
{
    if n > 0 {
        lemma_compile_groups(gs, n - 1, interleave);
        let (resolved, diags, seen, unknown) = spec_compile_groups(gs, n - 1, interleave);
        let i = n - 1;
        let ms = matchers_of(gs[i]);
        lemma_group_matchers(ms, ms.len() as int, interleave, seen);
        let (cats, pats, gdiags, seen1, gunknown) = spec_group_matchers(ms, ms.len() as int, interleave, seen);
        let cur = spec_compile_groups(gs, n, interleave);
        let r2 = cur.0;
        assert(r2.len() == n);
        assert(forall|k: int| 0 <= k < n - 1 ==> r2[k] == resolved[k]);
        assert(r2[n - 1].0 == cats);
        assert forall|x: u8| #[trigger] seen1.contains(x) <==> exists|a: int, b: int|
            0 <= a < r2.len() && 0 <= b < r2[a].0.len() && category_code(#[trigger] r2[a].0[b]) == x by {
            if seen1.contains(x) {
                if seen.contains(x) {
                    let (a, b) = choose|a: int, b: int|
                        0 <= a < resolved.len() && 0 <= b < resolved[a].0.len() && category_code(#[trigger] resolved[a].0[b]) == x;
                    assert(r2[a] == resolved[a]);
                    assert(category_code(r2[a].0[b]) == x);
                } else {
                    let j = choose|j: int| 0 <= j < cats.len() && category_code(#[trigger] cats[j]) == x;
                    assert(category_code(r2[n - 1].0[j]) == x);
                }
            }
            if exists|a: int, b: int| 0 <= a < r2.len() && 0 <= b < r2[a].0.len() && category_code(#[trigger] r2[a].0[b]) == x {
                let (a, b) = choose|a: int, b: int|
                    0 <= a < r2.len() && 0 <= b < r2[a].0.len() && category_code(#[trigger] r2[a].0[b]) == x;
                if a < n - 1 {
                    assert(r2[a] == resolved[a]);
                    assert(category_code(resolved[a].0[b]) == x);
                    assert(seen.contains(x));
                } else {
                    assert(category_code(cats[b]) == x);
                }
            }
        }
        assert forall|i1: int, j1: int, i2: int, j2: int|
            0 <= i1 < r2.len() && 0 <= j1 < r2[i1].0.len() && 0 <= i2 < r2.len() && 0 <= j2 < r2[i2].0.len() && (i1 != i2
                || j1 != j2) implies #[trigger] r2[i1].0[j1] != #[trigger] r2[i2].0[j2] by {
            if i1 < n - 1 && i2 < n - 1 {
                assert(r2[i1] == resolved[i1] && r2[i2] == resolved[i2]);
                assert(resolved[i1].0[j1] != resolved[i2].0[j2]);
            } else if i1 == n - 1 && i2 == n - 1 {
                if j1 < j2 {
                    assert(cats[j1] != cats[j2]);
                } else {
                    assert(cats[j2] != cats[j1]);
                }
            } else if i1 == n - 1 {
                assert(r2[i2] == resolved[i2]);
                assert(seen.contains(category_code(resolved[i2].0[j2])));
                assert(!seen.contains(category_code(cats[j1])));
                lemma_category_code_injective(cats[j1], resolved[i2].0[j2]);
            } else {
                assert(r2[i1] == resolved[i1]);
                assert(seen.contains(category_code(resolved[i1].0[j1])));
                assert(!seen.contains(category_code(cats[j2])));
                lemma_category_code_injective(cats[j2], resolved[i1].0[j1]);
            }
        }
        if gunknown {
            assert(r2[n - 1].0.contains(BuiltinCategory::Unknown));
        } else {
            match unknown {
                Some(u) => {
                    assert(r2[u] == resolved[u]);
                },
                None => {
                    assert forall|k: int| 0 <= k < n implies !(#[trigger] r2[k]).0.contains(BuiltinCategory::Unknown) by {
                        if k < n - 1 {
                            assert(r2[k] == resolved[k]);
                        }
                    }
                },
            }
        }
        if interleave {
            assert forall|k: int| 0 <= k < n implies !(#[trigger] r2[k]).0.contains(BuiltinCategory::Type) by {
                if k < n - 1 {
                    assert(r2[k] == resolved[k]);
                }
            }
        }
        assert forall|k: int| 0 <= k < n implies (#[trigger] r2[k]).2 == (r2[k].1.len() > 0) by {
            if k < n - 1 {
                assert(r2[k] == resolved[k]);
            }
        }
    }
}

/// Law: the group that catches what no listed group claims holds the
/// `unknown` category, whether it was listed or appended.
pub proof fn law_unknown_index_holds_unknown(config_groups: Seq<ImportGroup>, interleave: bool)
    requires
        config_groups.len() > 0,
    ensures
        ({
            let (groups, unknown_index) = spec_compile(config_groups, interleave).0->0;
            &&& 0 <= unknown_index < groups.len()
            &&& groups[unknown_index].0.contains(BuiltinCategory::Unknown)
        }),
{
    lemma_compile_groups(config_groups, config_groups.len() as int, interleave);
    let (resolved, diags, seen, unknown) = spec_compile_groups(config_groups, config_groups.len() as int, interleave);
    if unknown is None {
        let g = resolved.push((seq![BuiltinCategory::Unknown], Seq::<Seq<char>>::empty(), false));
        assert(g[resolved.len() as int].0[0] == BuiltinCategory::Unknown);
    }
}

/// Law: a category is kept in at most one place, its first occurrence.
pub proof fn law_categories_kept_once(config_groups: Seq<ImportGroup>, interleave: bool)
    requires
        config_groups.len() > 0,
    ensures
        ({
            let compiled = spec_compile(config_groups, interleave).0->0;
            let groups = compiled.0;
            forall|i1: int, j1: int, i2: int, j2: int|
                0 <= i1 < groups.len() && 0 <= j1 < groups[i1].0.len() && 0 <= i2 < groups.len() && 0 <= j2
                    < groups[i2].0.len() && (i1 != i2 || j1 != j2) ==> #[trigger] groups[i1].0[j1]
                    != #[trigger] groups[i2].0[j2]
        }),
{
    lemma_compile_groups(config_groups, config_groups.len() as int, interleave);
    let (resolved, diags, seen, unknown) = spec_compile_groups(config_groups, config_groups.len() as int, interleave);
    if unknown is None {
        let groups = resolved.push((seq![BuiltinCategory::Unknown], Seq::<Seq<char>>::empty(), false));
        let n = resolved.len() as int;
        assert forall|i1: int, j1: int, i2: int, j2: int|
            0 <= i1 < groups.len() && 0 <= j1 < groups[i1].0.len() && 0 <= i2 < groups.len() && 0 <= j2
                < groups[i2].0.len() && (i1 != i2 || j1 != j2) implies #[trigger] groups[i1].0[j1]
                != #[trigger] groups[i2].0[j2] by {
            if i1 < n && i2 < n {
                assert(groups[i1] == resolved[i1] && groups[i2] == resolved[i2]);
            } else if i1 == n && i2 < n {
                assert(groups[i2] == resolved[i2]);
                assert(groups[i1].0[j1] == BuiltinCategory::Unknown);
                if resolved[i2].0[j2] == BuiltinCategory::Unknown {
                    assert(resolved[i2].0.contains(BuiltinCategory::Unknown));
                }
            } else if i2 == n && i1 < n {
                assert(groups[i1] == resolved[i1]);
                assert(groups[i2].0[j2] == BuiltinCategory::Unknown);
                if resolved[i1].0[j1] == BuiltinCategory::Unknown {
                    assert(resolved[i1].0.contains(BuiltinCategory::Unknown));
                }
            }
        }
    }
}

/// Law: with interleaved type imports, no group holds the `type` category.
pub proof fn law_no_type_category_when_interleaved(config_groups: Seq<ImportGroup>)
    requires
        config_groups.len() > 0,
    ensures
        ({
            let compiled = spec_compile(config_groups, true).0->0;
            let groups = compiled.0;
            forall|i: int| 0 <= i < groups.len() ==> !(#[trigger] groups[i]).0.contains(BuiltinCategory::Type)
        }),
{
    lemma_compile_groups(config_groups, config_groups.len() as int, true);
    let (resolved, diags, seen, unknown) = spec_compile_groups(config_groups, config_groups.len() as int, true);
    if unknown is None {
        let groups = resolved.push((seq![BuiltinCategory::Unknown], Seq::<Seq<char>>::empty(), false));
        assert forall|i: int| 0 <= i < groups.len() implies !(#[trigger] groups[i]).0.contains(BuiltinCategory::Type) by {
            if i < resolved.len() {
                assert(groups[i] == resolved[i]);
            } else {
                assert(groups[i].0 =~= seq![BuiltinCategory::Unknown]);
            }
        }
    }
}

/// Law: a group has globs exactly when its glob set holds patterns.
pub proof fn law_has_globs_iff_patterns(config_groups: Seq<ImportGroup>, interleave: bool)
    requires
        config_groups.len() > 0,
    ensures
        ({
            let compiled = spec_compile(config_groups, interleave).0->0;
            let groups = compiled.0;
            forall|i: int| 0 <= i < groups.len() ==> (#[trigger] groups[i]).2 == (groups[i].1.len() > 0)
        }),
{
    lemma_compile_groups(config_groups, config_groups.len() as int, interleave);
    let (resolved, diags, seen, unknown) = spec_compile_groups(config_groups, config_groups.len() as int, interleave);
    if unknown is None {
        let groups = resolved.push((seq![BuiltinCategory::Unknown], Seq::<Seq<char>>::empty(), false));
        assert forall|i: int| 0 <= i < groups.len() implies (#[trigger] groups[i]).2 == (groups[i].1.len() > 0) by {
            if i < resolved.len() {
                assert(groups[i] == resolved[i]);
            }
        }
    }
}

/// Whether one of the first `k` matchers is the `unknown` category.
pub open spec fn lists_unknown_upto(ms: Seq<ImportMatcher>, k: int) -> bool
    decreases k,
{
    k > 0 && (lists_unknown_upto(ms, k - 1) || ms[k - 1] == ImportMatcher::Category(BuiltinCategory::Unknown))
}

/// Whether a group lists the `unknown` category.
pub open spec fn lists_unknown(g: ImportGroup) -> bool {
    lists_unknown_upto(matchers_of(g), matchers_of(g).len() as int)
}

/// The index of the first of the first `n` groups that lists the `unknown`
/// category, if one does.
pub open spec fn first_unknown_group(gs: Seq<ImportGroup>, n: int) -> Option<int>
    decreases n,
{
    if n <= 0 {
        None
    } else {
        match first_unknown_group(gs, n - 1) {
            Some(i) => Some(i),
            None => if lists_unknown(gs[n - 1]) {
                Some(n - 1)
            } else {
                None
            },
        }
    }
}

proof fn lemma_group_keeps_unknown(ms: Seq<ImportMatcher>, k: int, interleave: bool, seen: Set<u8>)
    requires
        0 <= k <= ms.len(),
    ensures
        ({
            let st = spec_group_matchers(ms, k, interleave, seen);
            &&& st.4 <==> (!seen.contains(6u8) && lists_unknown_upto(ms, k))
            &&& st.3.contains(6u8) <==> (seen.contains(6u8) || st.4)
        }),
    decreases k,
{
    if k > 0 {
        lemma_group_keeps_unknown(ms, k - 1, interleave, seen);
        let m = ms[k - 1];
        match m {
            ImportMatcher::Category(c) => {
                lemma_category_code_injective(c, BuiltinCategory::Unknown);
            },
            _ => {},
        }
    }
}

proof fn lemma_first_unknown_group_bound(gs: Seq<ImportGroup>, n: int)
    ensures
        first_unknown_group(gs, n) matches Some(i) ==> 0 <= i < n,
    decreases n,
{
    if n > 0 {
        lemma_first_unknown_group_bound(gs, n - 1);
    }
}

proof fn lemma_groups_unknown(gs: Seq<ImportGroup>, n: int, interleave: bool)
    requires
        0 <= n <= gs.len(),
    ensures
        ({
            let (resolved, diags, seen, unknown) = spec_compile_groups(gs, n, interleave);
            &&& unknown == first_unknown_group(gs, n)
            &&& seen.contains(6u8) <==> unknown is Some
            &&& resolved.len() == n
        }),
    decreases n,
{
    if n > 0 {
        lemma_groups_unknown(gs, n - 1, interleave);
        let (resolved, diags, seen, unknown) = spec_compile_groups(gs, n - 1, interleave);
        let ms = matchers_of(gs[n - 1]);
        lemma_group_keeps_unknown(ms, ms.len() as int, interleave, seen);
    }
}

/// Law: with groups configured, the compiled groups are the configured ones
/// followed, when none lists `unknown`, by one more group for it; the
/// unknown index is the first group that lists `unknown`, or that last
/// group.
pub proof fn law_group_count_and_unknown_index(config_groups: Seq<ImportGroup>, interleave: bool)
    requires
        config_groups.len() > 0,
    ensures
        ({
            let n = config_groups.len() as int;
            let (groups, unknown_index) = spec_compile(config_groups, interleave).0->0;
            &&& spec_compile(config_groups, interleave).0 is Some
            &&& groups.len() == if first_unknown_group(config_groups, n) is Some { n } else { n + 1 }
            &&& unknown_index == match first_unknown_group(config_groups, n) {
                Some(i) => i,
                None => n,
            }
            &&& 0 <= unknown_index < groups.len()
        }),
{
    let n = config_groups.len() as int;
    lemma_groups_unknown(config_groups, n, interleave);
    lemma_first_unknown_group_bound(config_groups, n);
    let (resolved, diags, seen, unknown) = spec_compile_groups(config_groups, n, interleave);
    assert(resolved.len() == n);
}

/// Whether one of the first `k` matchers is the category `c`.
pub open spec fn lists_category_upto(ms: Seq<ImportMatcher>, k: int, c: BuiltinCategory) -> bool
    decreases k,
{
    k > 0 && (lists_category_upto(ms, k - 1, c) || ms[k - 1] == ImportMatcher::Category(c))
}

/// Whether a group lists the category `c`.
pub open spec fn lists_category(g: ImportGroup, c: BuiltinCategory) -> bool {
    lists_category_upto(matchers_of(g), matchers_of(g).len() as int, c)
}

/// Whether one of the first `n` groups lists the category `c`.
pub open spec fn listed_in_first(gs: Seq<ImportGroup>, n: int, c: BuiltinCategory) -> bool
    decreases n,
{
    n > 0 && (listed_in_first(gs, n - 1, c) || lists_category(gs[n - 1], c))
}

proof fn lemma_group_keeps_category(
    ms: Seq<ImportMatcher>,
    k: int,
    interleave: bool,
    seen: Set<u8>,
    c: BuiltinCategory,
)
    requires
        0 <= k <= ms.len(),
        !(c == BuiltinCategory::Type && interleave),
    ensures
        ({
            let st = spec_group_matchers(ms, k, interleave, seen);
            &&& st.0.contains(c) <==> (!seen.contains(category_code(c)) && lists_category_upto(ms, k, c))
            &&& st.3.contains(category_code(c)) <==> (seen.contains(category_code(c)) || st.0.contains(c))
        }),
    decreases k,
{
    if k > 0 {
        lemma_group_keeps_category(ms, k - 1, interleave, seen, c);
        let prev = spec_group_matchers(ms, k - 1, interleave, seen);
        let cur = spec_group_matchers(ms, k, interleave, seen);
        match ms[k - 1] {
            ImportMatcher::Category(d) => {
                lemma_category_code_injective(c, d);
                if !(d == BuiltinCategory::Type && interleave) && !prev.3.contains(category_code(d)) {
                    assert(cur.0 == prev.0.push(d));
                    if d != c {
                        assert(prev.0.push(d).contains(c) ==> prev.0.contains(c)) by {
                            if prev.0.push(d).contains(c) {
                                let j = choose|j: int| 0 <= j < prev.0.push(d).len() && prev.0.push(d)[j] == c;
                                assert(prev.0[j] == c);
                            }
                        }
                        assert(prev.0.contains(c) ==> prev.0.push(d).contains(c)) by {
                            if prev.0.contains(c) {
                                let j = choose|j: int| 0 <= j < prev.0.len() && prev.0[j] == c;
                                assert(prev.0.push(d)[j] == c);
                            }
                        }
                    } else {
                        assert(prev.0.push(d)[prev.0.len() as int] == c);
                    }
                }
            },
            _ => {},
        }
    }
}

proof fn lemma_groups_keep_category(gs: Seq<ImportGroup>, n: int, interleave: bool, c: BuiltinCategory)
    requires
        0 <= n <= gs.len(),
        !(c == BuiltinCategory::Type && interleave),
    ensures
        ({
            let (resolved, diags, seen, unknown) = spec_compile_groups(gs, n, interleave);
            &&& resolved.len() == n
            &&& seen.contains(category_code(c)) <==> listed_in_first(gs, n, c)
            &&& forall|i: int|
                0 <= i < n ==> ((#[trigger] resolved[i]).0.contains(c) <==> (lists_category(gs[i], c)
                    && !listed_in_first(gs, i, c)))
        }),
    decreases n,
{
    if n > 0 {
        lemma_groups_keep_category(gs, n - 1, interleave, c);
        let (resolved, diags, seen, unknown) = spec_compile_groups(gs, n - 1, interleave);
        let ms = matchers_of(gs[n - 1]);
        lemma_group_keeps_category(ms, ms.len() as int, interleave, seen, c);
        let cur = spec_compile_groups(gs, n, interleave);
        assert forall|i: int| 0 <= i < n implies ((#[trigger] cur.0[i]).0.contains(c) <==> (lists_category(gs[i], c)
            && !listed_in_first(gs, i, c))) by {
            if i < n - 1 {
                assert(cur.0[i] == resolved[i]);
            }
        }
    }
}

/// The diagnostic is not the one for an ignored `type` category.
proof fn lemma_other_messages_differ(c: BuiltinCategory, p: Seq<char>, e: Seq<char>, i: nat)
    ensures
        duplicate_message(c) != type_ignored_message(),
        invalid_glob_message(p, e) != type_ignored_message(),
        build_failed_message(i, e) != type_ignored_message(),
{
    reveal_strlit("Category \"type\" is ignored under module.typeImports=\"interleave\".");
    reveal_strlit("Category ");
    reveal_strlit(" listed more than once; using first occurrence.");
    reveal_strlit("Invalid glob `");
    reveal_strlit("Could not build the glob set for group ");
    reveal_strlit("Builtin");
    reveal_strlit("Parent");
    reveal_strlit("Index");
    reveal_strlit("Sibling");
    reveal_strlit("Type");
    reveal_strlit("External");
    reveal_strlit("Unknown");
    let t = type_ignored_message();
    assert(t[9] == '"');
    assert(duplicate_message(c)[9] == category_name(c)[0]);
    assert(category_name(c)[0] != '"');
    assert(t[0] == 'C');
    assert(invalid_glob_message(p, e)[0] == 'I');
    assert(t[1] == 'a');
    assert(build_failed_message(i, e)[1] == 'o');
}

proof fn lemma_group_no_type_diagnostic(ms: Seq<ImportMatcher>, k: int, seen: Set<u8>)
    requires
        0 <= k <= ms.len(),
    ensures
        !spec_group_matchers(ms, k, false, seen).2.contains(type_ignored_message()),
    decreases k,
{
    if k > 0 {
        lemma_group_no_type_diagnostic(ms, k - 1, seen);
        let prev = spec_group_matchers(ms, k - 1, false, seen);
        let cur = spec_group_matchers(ms, k, false, seen);
        match ms[k - 1] {
            ImportMatcher::Category(d) => {
                lemma_other_messages_differ(d, Seq::empty(), Seq::empty(), 0);
                if prev.3.contains(category_code(d)) {
                    assert(cur.2 == prev.2.push(duplicate_message(d)));
                    assert(!cur.2.contains(type_ignored_message())) by {
                        if cur.2.contains(type_ignored_message()) {
                            let j = choose|j: int| 0 <= j < cur.2.len() && cur.2[j] == type_ignored_message();
                            if j < prev.2.len() {
                                assert(prev.2[j] == cur.2[j]);
                            }
                        }
                    }
                }
            },
            ImportMatcher::Pattern { pattern } => {
                match glob_parse_error(pattern@) {
                    Some(e) => {
                        lemma_other_messages_differ(BuiltinCategory::Builtin, pattern@, e, 0);
                        assert(cur.2 == prev.2.push(invalid_glob_message(pattern@, e)));
                        assert(!cur.2.contains(type_ignored_message())) by {
                            if cur.2.contains(type_ignored_message()) {
                                let j = choose|j: int| 0 <= j < cur.2.len() && cur.2[j] == type_ignored_message();
                                if j < prev.2.len() {
                                    assert(prev.2[j] == cur.2[j]);
                                }
                            }
                        }
                    },
                    None => {},
                }
            },
        }
    }
}

proof fn lemma_groups_no_type_diagnostic(gs: Seq<ImportGroup>, n: int)
    requires
        0 <= n <= gs.len(),
    ensures
        !spec_compile_groups(gs, n, false).1.contains(type_ignored_message()),
    decreases n,
{
    if n > 0 {
        lemma_groups_no_type_diagnostic(gs, n - 1);
        let (resolved, diags, seen, unknown) = spec_compile_groups(gs, n - 1, false);
        let ms = matchers_of(gs[n - 1]);
        lemma_group_no_type_diagnostic(ms, ms.len() as int, seen);
        let g = spec_group_matchers(ms, ms.len() as int, false, seen);
        let cur = spec_compile_groups(gs, n, false).1;
        let build = cur.subrange((diags.len() + g.2.len()) as int, cur.len() as int);
        assert(cur == diags + g.2 + build);
        assert(forall|j: int| 0 <= j < build.len() ==> #[trigger] build[j] != type_ignored_message()) by {
            assert forall|j: int| 0 <= j < build.len() implies #[trigger] build[j] != type_ignored_message() by {
                let e = glob_set_build_error(g.1)->0;
                lemma_other_messages_differ(BuiltinCategory::Builtin, Seq::empty(), e, (n - 1) as nat);
            }
        }
        assert(!cur.contains(type_ignored_message())) by {
            if cur.contains(type_ignored_message()) {
                let j = choose|j: int| 0 <= j < cur.len() && cur[j] == type_ignored_message();
                if j < diags.len() {
                    assert(diags[j] == cur[j]);
                } else if j < diags.len() + g.2.len() {
                    assert(g.2[j - diags.len()] == cur[j]);
                } else {
                    assert(build[j - diags.len() - g.2.len()] == cur[j]);
                }
            }
        }
    }
}

/// Law: a category is kept in the group where it is first listed, and only
/// there: a compiled group holds a category exactly when that group lists
/// it and no earlier group does. The one exception is the `type` category
/// under interleaved type imports, which no group holds. With separate type
/// imports no diagnostic says that `type` is ignored.
pub proof fn law_category_kept_where_first_listed(
    config_groups: Seq<ImportGroup>,
    interleave: bool,
    i: int,
    c: BuiltinCategory,
)
    requires
        0 <= i < config_groups.len(),
    ensures
        ({
            let (compiled, diags) = spec_compile(config_groups, interleave);
            let (groups, unknown_index) = compiled->0;
            &&& !(c == BuiltinCategory::Type && interleave) ==> (groups[i].0.contains(c) <==> (lists_category(
                config_groups[i],
                c,
            ) && !listed_in_first(config_groups, i, c)))
            &&& !interleave ==> !diags.contains(type_ignored_message())
        }),
{
    let n = config_groups.len() as int;
    let (resolved, diags, seen, unknown) = spec_compile_groups(config_groups, n, interleave);
    if !(c == BuiltinCategory::Type && interleave) {
        lemma_groups_keep_category(config_groups, n, interleave, c);
        let (groups, unknown_index) = spec_compile(config_groups, interleave).0->0;
        assert(groups[i] == resolved[i]);
    }
    if !interleave {
        lemma_groups_no_type_diagnostic(config_groups, n);
    }
}

} // verus!
