//! Resolving the syntax and parse mode a file is parsed with, from its name
//! or from an extension given in place of the one on its name.

use vstd::prelude::*;

use crate::text::chars_of;
use crate::text::string_from_chars;
use crate::text::opt_str_view;
use crate::path::path_components;
use crate::path::path_components_of;
use crate::path::file_name_str;
use crate::path::spec_file_name_str;
use crate::path::PathComponent;

verus! {

/// Whether to parse the source as a module, a script, or let the parser decide.
#[derive(Debug, Clone, Copy, PartialEq, Eq, Structural)]
pub enum ParseMode {
    Program,
    Module,
    Script,
}

/// Options for parsing ECMAScript.
#[derive(Debug, Clone, Copy, PartialEq, Eq, Structural)]
pub struct EsSyntax {
    pub jsx: bool,
    pub fn_bind: bool,
    pub decorators: bool,
    pub decorators_before_export: bool,
    pub export_default_from: bool,
    pub import_attributes: bool,
    pub allow_super_outside_method: bool,
    pub allow_return_outside_function: bool,
    pub auto_accessors: bool,
    pub explicit_resource_management: bool,
}

/// Options for parsing TypeScript.
#[derive(Debug, Clone, Copy, PartialEq, Eq, Structural)]
pub struct TsSyntax {
    pub tsx: bool,
    pub decorators: bool,
    pub dts: bool,
    pub no_early_errors: bool,
    pub disallow_ambiguous_jsx_like: bool,
}

/// The syntax a source is parsed with.
#[derive(Debug, Clone, Copy, PartialEq, Eq, Structural)]
pub enum Syntax {
    Es(EsSyntax),
    Typescript(TsSyntax),
}

/// The byte value of an ASCII letter folded to lower case; any other
/// character is left as it is.
pub open spec fn ascii_lower(c: char) -> int {
    if 'A' <= c && c <= 'Z' {
        (c as u32) + 32
    } else {
        (c as u32) as int
    }
}

/// Two strings are equal when ASCII letters are compared without case.
pub open spec fn eq_ignore_ascii_case(a: Seq<char>, b: Seq<char>) -> bool {
    &&& a.len() == b.len()
    &&& forall|i: int| 0 <= i < a.len() ==> ascii_lower(#[trigger] a[i]) == ascii_lower(b[i])
}

/// The extensions that syntax resolution knows about, in the order they are
/// tried.
pub open spec fn known_extensions() -> Seq<Seq<char>> {
    seq![
        seq!['j', 's'],
        seq!['j', 's', 'x'],
        seq!['m', 'j', 's'],
        seq!['c', 'j', 's'],
        seq!['t', 's'],
        seq!['t', 's', 'x'],
        seq!['m', 't', 's'],
        seq!['c', 't', 's'],
    ]
}

/// Index of the first known extension that matches `ext` without regard to
/// ASCII case, or 8 when none does.
pub open spec fn extension_index(ext: Seq<char>) -> int
    decreases 8int,
{
    extension_index_from(ext, 0)
}

pub open spec fn extension_index_from(ext: Seq<char>, start: int) -> int
    decreases 8 - start,
{
    if start >= 8 || start < 0 {
        8
    } else if eq_ignore_ascii_case(ext, known_extensions()[start]) {
        start
    } else {
        extension_index_from(ext, start + 1)
    }
}

/// The first known extension that matches `ext` without regard to ASCII
/// case, or the empty string when none does.
pub open spec fn spec_normalize_extension(ext: Seq<char>) -> Seq<char> {
    let i = extension_index(ext);
    if i < 8 {
        known_extensions()[i]
    } else {
        Seq::empty()
    }
}

fn chars_eq_ignore_ascii_case(a: &Vec<char>, b: &str) -> (res: bool)
    ensures
        res == eq_ignore_ascii_case(a@, b@),
{
    let bc = chars_of(b);
    if a.len() != bc.len() {
        return false;
    }
    let mut i: usize = 0;
    while i < a.len()
        invariant
            a.len() == bc.len(),
            bc@ == b@,
            i <= a.len(),
            forall|j: int| 0 <= j < i ==> ascii_lower(#[trigger] a@[j]) == ascii_lower(bc@[j]),
        decreases a.len() - i,
    {
        let x = a[i];
        let y = bc[i];
        let xv: u32 = x as u32;
        let yv: u32 = y as u32;
        let lx: u32 = if 'A' <= x && x <= 'Z' { xv + 32 } else { xv };
        let ly: u32 = if 'A' <= y && y <= 'Z' { yv + 32 } else { yv };
        assert(lx as int == ascii_lower(x) && ly as int == ascii_lower(y));
        if lx != ly {
            assert(ascii_lower(a@[i as int]) != ascii_lower(b@[i as int]));
            assert(!eq_ignore_ascii_case(a@, b@));
            return false;
        }
        i = i + 1;
    }
    true
}

proof fn lemma_known_extension_literals()
    ensures
        "js"@ == known_extensions()[0],
        "jsx"@ == known_extensions()[1],
        "mjs"@ == known_extensions()[2],
        "cjs"@ == known_extensions()[3],
        "ts"@ == known_extensions()[4],
        "tsx"@ == known_extensions()[5],
        "mts"@ == known_extensions()[6],
        "cts"@ == known_extensions()[7],
        ""@ == Seq::<char>::empty(),
{
    reveal_strlit("js");
    reveal_strlit("jsx");
    reveal_strlit("mjs");
    reveal_strlit("cjs");
    reveal_strlit("ts");
    reveal_strlit("tsx");
    reveal_strlit("mts");
    reveal_strlit("cts");
    reveal_strlit("");
}

/// Index into the known extensions of the one that `ext` matches.
fn extension_index_of(ext: &Vec<char>) -> (res: usize)
    ensures
        res == extension_index(ext@),
{
    proof {
        lemma_known_extension_literals();
        reveal_with_fuel(extension_index_from, 9);
    }
    if chars_eq_ignore_ascii_case(ext, "js") {
        0
    } else if chars_eq_ignore_ascii_case(ext, "jsx") {
        1
    } else if chars_eq_ignore_ascii_case(ext, "mjs") {
        2
    } else if chars_eq_ignore_ascii_case(ext, "cjs") {
        3
    } else if chars_eq_ignore_ascii_case(ext, "ts") {
        4
    } else if chars_eq_ignore_ascii_case(ext, "tsx") {
        5
    } else if chars_eq_ignore_ascii_case(ext, "mts") {
        6
    } else if chars_eq_ignore_ascii_case(ext, "cts") {
        7
    } else {
        8
    }
}

/// Matches the extension against the ones that syntax resolution knows
/// about, without regard to ASCII case, so that the rest of the resolving
/// can compare exactly.
pub fn normalize_extension(extension: &str) -> (res: &'static str)
    ensures
        res@ == spec_normalize_extension(extension@),
{
    let ext = chars_of(extension);
    let i = extension_index_of(&ext);
    proof {
        lemma_known_extension_literals();
    }
    match i {
        0 => "js",
        1 => "jsx",
        2 => "mjs",
        3 => "cjs",
        4 => "ts",
        5 => "tsx",
        6 => "mts",
        7 => "cts",
        _ => "",
    }
}

/// Index of the last `.` in `s`, if there is one.
pub open spec fn last_dot(s: Seq<char>) -> Option<int>
    decreases s.len(),
{
    if s.len() == 0 {
        None
    } else if s.last() == '.' {
        Some(s.len() - 1)
    } else {
        last_dot(s.drop_last())
    }
}

/// Whether `s` contains `.d.`, which marks a declaration file.
pub open spec fn has_declaration_marker(s: Seq<char>) -> bool {
    exists|i: int| 0 <= i && i + 3 <= s.len() && #[trigger] s[i] == '.' && s[i + 1] == 'd' && s[i + 2] == '.'
}

/// The ECMAScript syntax, with or without JSX.
pub open spec fn spec_es_syntax(jsx: bool) -> Syntax {
    Syntax::Es(
        EsSyntax {
            jsx,
            fn_bind: false,
            decorators: true,
            decorators_before_export: false,
            export_default_from: true,
            import_attributes: true,
            allow_super_outside_method: true,
            allow_return_outside_function: true,
            auto_accessors: true,
            explicit_resource_management: true,
        },
    )
}

/// The TypeScript syntax with the given flags.
pub open spec fn spec_ts_syntax(tsx: bool, dts: bool, disallow_ambiguous_jsx_like: bool) -> Syntax {
    Syntax::Typescript(
        TsSyntax { tsx, decorators: true, dts, no_early_errors: false, disallow_ambiguous_jsx_like },
    )
}

/// The syntax and parse mode for a file name.
///
/// The extension is what follows the last `.`, matched without regard to
/// ASCII case. `.ts`, `.mts` and `.cts` are TypeScript, a declaration file
/// when the name before the extension holds `.d.`; a `.mts` or `.cts` file
/// that is not a declaration file reserves JSX-like syntax and is parsed
/// as a module. `.tsx` is TypeScript with JSX, `.jsx` is ECMAScript with
/// JSX, `.mjs` is an ECMAScript module, `.cjs` an ECMAScript script, and
/// anything else (including no extension) is ECMAScript.
pub open spec fn spec_syntax_for_file_name(name: Seq<char>) -> (Syntax, ParseMode) {
    match last_dot(name) {
        None => (spec_es_syntax(false), ParseMode::Program),
        Some(dot) => {
            let stem = name.take(dot + 1);
            let ext = extension_index(name.skip(dot + 1));
            if ext == 4 || ext == 6 || ext == 7 {
                let is_declaration = has_declaration_marker(stem);
                let is_module_only = !is_declaration && (ext == 6 || ext == 7);
                (
                    spec_ts_syntax(false, is_declaration, is_module_only),
                    if is_module_only { ParseMode::Module } else { ParseMode::Program },
                )
            } else if ext == 5 {
                (spec_ts_syntax(true, false, false), ParseMode::Program)
            } else if ext == 1 {
                (spec_es_syntax(true), ParseMode::Program)
            } else if ext == 2 {
                (spec_es_syntax(false), ParseMode::Module)
            } else if ext == 3 {
                (spec_es_syntax(false), ParseMode::Script)
            } else {
                (spec_es_syntax(false), ParseMode::Program)
            }
        },
    }
}

/// The ECMAScript syntax used for JavaScript files.
pub fn es_syntax(jsx: bool) -> (res: Syntax)
    ensures
        res == spec_es_syntax(jsx),
{
    Syntax::Es(
        EsSyntax {
            jsx,
            fn_bind: false,
            decorators: true,
            decorators_before_export: false,
            export_default_from: true,
            import_attributes: true,
            allow_super_outside_method: true,
            allow_return_outside_function: true,
            auto_accessors: true,
            explicit_resource_management: true,
        },
    )
}

fn ts_syntax(tsx: bool, dts: bool, disallow_ambiguous_jsx_like: bool) -> (res: Syntax)
    ensures
        res == spec_ts_syntax(tsx, dts, disallow_ambiguous_jsx_like),
{
    Syntax::Typescript(
        TsSyntax { tsx, decorators: true, dts, no_early_errors: false, disallow_ambiguous_jsx_like },
    )
}

/// Finds the index of the last `.` in `s`.
pub fn find_last_dot(s: &Vec<char>) -> (res: Option<usize>)
    ensures
        match res {
            Some(i) => last_dot(s@) == Some(i as int),
            None => last_dot(s@) is None,
        },
{
    let mut i: usize = s.len();
    assert(s@.take(i as int) =~= s@);
    while i > 0
        invariant
            i <= s.len(),
            last_dot(s@) == last_dot(s@.take(i as int)),
        decreases i,
    {
        assert(s@.take(i as int).drop_last() =~= s@.take(i - 1));
        if s[i - 1] == '.' {
            return Some(i - 1);
        }
        i = i - 1;
    }
    assert(s@.take(0) =~= Seq::<char>::empty());
    None
}

proof fn lemma_last_dot_bounds(s: Seq<char>)
    ensures
        last_dot(s) matches Some(i) ==> 0 <= i < s.len() && s[i] == '.',
    decreases s.len(),
{
    if s.len() > 0 && s.last() != '.' {
        lemma_last_dot_bounds(s.drop_last());
    }
}

fn chars_have_declaration_marker(s: &Vec<char>, end: usize) -> (res: bool)
    requires
        end <= s.len(),
    ensures
        res == has_declaration_marker(s@.take(end as int)),
{
    let ghost t = s@.take(end as int);
    let mut i: usize = 0;
    while i < end && end - i >= 3
        invariant
            end <= s.len(),
            t == s@.take(end as int),
            forall|j: int| 0 <= j < i && j + 3 <= t.len() ==> !(#[trigger] t[j] == '.' && t[j + 1] == 'd' && t[j + 2] == '.'),
        decreases end - i,
    {
        if s[i] == '.' && s[i + 1] == 'd' && s[i + 2] == '.' {
            assert(t[i as int] == '.' && t[i + 1] == 'd' && t[i + 2] == '.');
            return true;
        }
        i = i + 1;
    }
    false
}

/// Resolves the syntax and parse mode for a file name.
pub fn syntax_for_file_name(file_name: &str) -> (res: (Syntax, ParseMode))
    ensures
        res == spec_syntax_for_file_name(file_name@),
{
    let name = chars_of(file_name);
    syntax_for_file_name_chars(&name)
}

fn syntax_for_file_name_chars(name: &Vec<char>) -> (res: (Syntax, ParseMode))
    ensures
        res == spec_syntax_for_file_name(name@),
{
    let dot = match find_last_dot(name) {
        None => {
            return (es_syntax(false), ParseMode::Program);
        },
        Some(dot) => dot,
    };
    proof {
        lemma_last_dot_bounds(name@);
    }
    assert(dot < name.len());
    let mut ext: Vec<char> = Vec::new();
    let mut k: usize = dot + 1;
    while k < name.len()
        invariant
            dot < name.len(),
            dot + 1 <= k <= name.len(),
            ext@ == name@.subrange(dot + 1, k as int),
        decreases name.len() - k,
    {
        ext.push(name[k]);
        k = k + 1;
    }
    assert(ext@ =~= name@.skip(dot + 1));
    let ext = extension_index_of(&ext);
    if ext == 4 || ext == 6 || ext == 7 {
        let is_declaration = chars_have_declaration_marker(name, dot + 1);
        let is_module_only = !is_declaration && (ext == 6 || ext == 7);
        let mode = if is_module_only { ParseMode::Module } else { ParseMode::Program };
        (ts_syntax(false, is_declaration, is_module_only), mode)
    } else if ext == 5 {
        (ts_syntax(true, false, false), ParseMode::Program)
    } else if ext == 1 {
        (es_syntax(true), ParseMode::Program)
    } else if ext == 2 {
        (es_syntax(false), ParseMode::Module)
    } else if ext == 3 {
        (es_syntax(false), ParseMode::Script)
    } else {
        (es_syntax(false), ParseMode::Program)
    }
}

/// `file_name` with its extension replaced by `extension`, the same as
/// `Path::with_extension`: everything after the last `.` is replaced, and a
/// `.` is added when there is none.
pub open spec fn spec_with_extension(file_name: Seq<char>, extension: Seq<char>) -> Seq<char> {
    match last_dot(file_name) {
        Some(dot) => file_name.take(dot + 1) + extension,
        None => file_name.push('.') + extension,
    }
}

/// The syntax and parse mode for a file name, with the extension given in
/// place of the one on the name when there is one.
pub open spec fn spec_resolve_syntax(file_name: Seq<char>, extension: Option<Seq<char>>) -> (Syntax, ParseMode) {
    match extension {
        Some(extension) => spec_syntax_for_file_name(spec_with_extension(file_name, extension)),
        None => spec_syntax_for_file_name(file_name),
    }
}

/// The extension to retry parsing with when a parse failed, since a file may
/// hold JSX whatever its extension: `tsx` for a TypeScript extension and
/// `jsx` for a JavaScript one. The extension is the one given, or else what
/// follows the last `.` of the file name.
pub open spec fn spec_jsx_retry_extension(file_name: Option<Seq<char>>, extension: Option<Seq<char>>) -> Option<Seq<char>> {
    let ext = match extension {
        Some(extension) => Some(extension),
        None => match file_name {
            Some(name) => match last_dot(name) {
                Some(dot) => Some(name.skip(dot + 1)),
                None => None,
            },
            None => None,
        },
    };
    match ext {
        Some(ext) => {
            let i = extension_index(ext);
            if i == 4 || i == 6 || i == 7 {
                Some(known_extensions()[5])
            } else if i == 0 || i == 2 || i == 3 {
                Some(known_extensions()[1])
            } else {
                None
            }
        },
        None => None,
    }
}

fn chars_after(s: &Vec<char>, start: usize) -> (res: Vec<char>)
    requires
        start <= s.len(),
    ensures
        res@ == s@.skip(start as int),
{
    let mut res: Vec<char> = Vec::new();
    let mut k: usize = start;
    while k < s.len()
        invariant
            start <= k <= s.len(),
            res@ == s@.subrange(start as int, k as int),
        decreases s.len() - k,
    {
        res.push(s[k]);
        k = k + 1;
    }
    res
}

/// `file_name` with its extension replaced by `extension`.
pub fn with_extension(file_name: &str, extension: &str) -> (res: String)
    ensures
        res@ == spec_with_extension(file_name@, extension@),
{
    let name = chars_of(file_name);
    let ext = chars_of(extension);
    let mut out: Vec<char> = Vec::new();
    let dot = find_last_dot(&name);
    proof {
        lemma_last_dot_bounds(name@);
    }
    let stem_len: usize = match dot {
        Some(dot) => {
            assert(dot < name.len());
            dot + 1
        },
        None => name.len(),
    };
    let mut k: usize = 0;
    while k < stem_len
        invariant
            stem_len <= name.len(),
            k <= stem_len,
            out@ == name@.take(k as int),
        decreases stem_len - k,
    {
        out.push(name[k]);
        k = k + 1;
    }
    if dot.is_none() {
        out.push('.');
    }
    let ghost base = out@;
    let mut k: usize = 0;
    while k < ext.len()
        invariant
            k <= ext.len(),
            out@ == base + ext@.take(k as int),
        decreases ext.len() - k,
    {
        out.push(ext[k]);
        k = k + 1;
    }
    assert(ext@.take(ext.len() as int) =~= ext@);
    assert(name@.take(name.len() as int) =~= name@);
    string_from_chars(&out)
}

/// Resolves the syntax and parse mode for a file name, using `extension` in
/// place of the file name's own extension when one is given.
pub fn resolve_syntax_for_file_name(file_name: &str, extension: Option<&str>) -> (res: (Syntax, ParseMode))
    ensures
        res == spec_resolve_syntax(file_name@, opt_str_view(extension)),
{
    match extension {
        Some(extension) => {
            let name = with_extension(file_name, extension);
            syntax_for_file_name(name.as_str())
        },
        None => syntax_for_file_name(file_name),
    }
}

/// Gets the extension that a retry of a failed parse should use, if any.
pub fn jsx_retry_extension_for_file_name(file_name: Option<&str>, file_extension: Option<&str>) -> (res: Option<&'static str>)
    ensures
        opt_str_view(res) == spec_jsx_retry_extension(opt_str_view(file_name), opt_str_view(file_extension)),
{
    let ext: Vec<char> = match file_extension {
        Some(extension) => chars_of(extension),
        None => match file_name {
            Some(name) => {
                let name = chars_of(name);
                proof {
                    lemma_last_dot_bounds(name@);
                }
                match find_last_dot(&name) {
                    Some(dot) => {
                        assert(dot < name.len());
                        chars_after(&name, dot + 1)
                    },
                    None => {
                        return None;
                    },
                }
            },
            None => {
                return None;
            },
        },
    };
    let i = extension_index_of(&ext);
    proof {
        lemma_known_extension_literals();
    }
    if i == 4 || i == 6 || i == 7 {
        Some("tsx")
    } else if i == 0 || i == 2 || i == 3 {
        Some("jsx")
    } else {
        None
    }
}

/// The file name of a path with these components as a string, or the empty
/// string when it has none that is valid UTF-8.
pub open spec fn file_name_or_empty(components: Seq<PathComponent>) -> Seq<char> {
    match spec_file_name_str(components) {
        Some(name) => name,
        None => Seq::empty(),
    }
}

/// Resolves the syntax and parse mode for a path with these components.
pub fn resolve_syntax_for_components(components: &Vec<PathComponent>, file_extension: Option<&str>) -> (res: (Syntax, ParseMode))
    ensures
        res == spec_resolve_syntax(file_name_or_empty(components@), opt_str_view(file_extension)),
{
    let name = file_name_str(components);
    proof {
        reveal_strlit("");
    }
    match &name {
        Some(n) => resolve_syntax_for_file_name(n.as_str(), file_extension),
        None => {
            let empty = "";
            assert(empty@ == file_name_or_empty(components@));
            resolve_syntax_for_file_name(empty, file_extension)
        },
    }
}

/// Resolves the syntax and parse mode to use for a file.
///
/// The file name is the final component of the path (empty when there is
/// none); `file_extension`, when given, replaces its extension.
pub fn resolve_syntax(file_path: &std::path::Path, file_extension: Option<&str>) -> (res: (Syntax, ParseMode))
    ensures
        res == spec_resolve_syntax(file_name_or_empty(path_components_of(file_path)), opt_str_view(file_extension)),
{
    let components = path_components(file_path);
    resolve_syntax_for_components(&components, file_extension)
}

/// Gets the extension the JSX retry of a failed parse should use, if any,
/// for a path with these components.
pub fn jsx_retry_extension_for_components(components: &Vec<PathComponent>, file_extension: Option<&str>) -> (res: Option<&'static str>)
    ensures
        opt_str_view(res) == spec_jsx_retry_extension(spec_file_name_str(components@), opt_str_view(file_extension)),
{
    match file_extension {
        Some(_) => jsx_retry_extension_for_file_name(None, file_extension),
        None => {
            let name = file_name_str(components);
            match &name {
                Some(n) => jsx_retry_extension_for_file_name(Some(n.as_str()), None),
                None => jsx_retry_extension_for_file_name(None, None),
            }
        },
    }
}

/// Gets the extension the JSX retry of a failed parse should use, if any.
pub fn jsx_retry_extension(file_path: &std::path::Path, file_extension: Option<&str>) -> (res: Option<&'static str>)
    ensures
        file_extension is Some ==> opt_str_view(res) == spec_jsx_retry_extension(None, opt_str_view(file_extension)),
        opt_str_view(res) == spec_jsx_retry_extension(
            spec_file_name_str(path_components_of(file_path)),
            opt_str_view(file_extension),
        ),
{
    let components = path_components(file_path);
    jsx_retry_extension_for_components(&components, file_extension)
}

/// The last `.` of a name that ends with one, followed by an extension
/// without a `.`, is the one before the extension.
pub proof fn lemma_last_dot_of_stem_and_extension(stem: Seq<char>, extension: Seq<char>)
    requires
        stem.len() > 0,
        stem.last() == '.',
        forall|i: int| 0 <= i < extension.len() ==> extension[i] != '.',
    ensures
        last_dot(stem + extension) == Some(stem.len() - 1),
    decreases extension.len(),
{
    if extension.len() == 0 {
        assert(stem + extension =~= stem);
    } else {
        let s = stem + extension;
        assert(s.drop_last() =~= stem + extension.drop_last());
        lemma_last_dot_of_stem_and_extension(stem, extension.drop_last());
    }
}

/// Law: matching an extension does not depend on the case of its ASCII
/// letters.
pub proof fn law_normalize_extension_ignores_ascii_case(a: Seq<char>, b: Seq<char>)
    requires
        eq_ignore_ascii_case(a, b),
    ensures
        spec_normalize_extension(a) == spec_normalize_extension(b),
        extension_index(a) == extension_index(b),
{
    assert forall|k: int| 0 <= k < 8 implies eq_ignore_ascii_case(a, #[trigger] known_extensions()[k])
        == eq_ignore_ascii_case(b, known_extensions()[k]) by {
        let e = known_extensions()[k];
        if eq_ignore_ascii_case(a, e) {
            assert forall|i: int| 0 <= i < b.len() implies ascii_lower(#[trigger] b[i]) == ascii_lower(e[i]) by {
                assert(ascii_lower(a[i]) == ascii_lower(b[i]));
            }
        }
        if eq_ignore_ascii_case(b, e) {
            assert forall|i: int| 0 <= i < a.len() implies ascii_lower(#[trigger] a[i]) == ascii_lower(e[i]) by {
                assert(ascii_lower(a[i]) == ascii_lower(b[i]));
            }
        }
    }
    reveal_with_fuel(extension_index_from, 9);
}

/// The name up to and including its last `.`, or the name and a `.` when
/// it has none: what an extension given in place of the name's own is
/// appended to.
pub open spec fn stem_of(file_name: Seq<char>) -> Seq<char> {
    match last_dot(file_name) {
        Some(dot) => file_name.take(dot + 1),
        None => file_name.push('.'),
    }
}

/// Law: when an extension is given, the extension on the file name does not
/// matter: names that differ only in their extensions resolve alike.
pub proof fn law_given_extension_replaces_the_own_one(
    stem: Seq<char>,
    own_a: Seq<char>,
    own_b: Seq<char>,
    extension: Seq<char>,
)
    requires
        stem.len() > 0,
        stem.last() == '.',
        forall|i: int| 0 <= i < own_a.len() ==> own_a[i] != '.',
        forall|i: int| 0 <= i < own_b.len() ==> own_b[i] != '.',
    ensures
        spec_resolve_syntax(stem + own_a, Some(extension)) == spec_resolve_syntax(stem + own_b, Some(extension)),
{
    lemma_last_dot_of_stem_and_extension(stem, own_a);
    lemma_last_dot_of_stem_and_extension(stem, own_b);
    assert((stem + own_a).take(stem.len() as int) =~= stem);
    assert((stem + own_b).take(stem.len() as int) =~= stem);
}

proof fn lemma_with_known_extension(file_name: Seq<char>, k: int)
    requires
        0 <= k < 8,
    ensures
        ({
            let name = spec_with_extension(file_name, known_extensions()[k]);
            &&& last_dot(name) == Some(stem_of(file_name).len() - 1)
            &&& name.skip(stem_of(file_name).len() as int) == known_extensions()[k]
            &&& name.take(stem_of(file_name).len() as int) == stem_of(file_name)
        }),
{
    let stem = stem_of(file_name);
    let ext = known_extensions()[k];
    lemma_last_dot_bounds(file_name);
    assert(stem.len() > 0 && stem.last() == '.');
    assert forall|i: int| 0 <= i < ext.len() implies ext[i] != '.' by {
    }
    lemma_last_dot_of_stem_and_extension(stem, ext);
    assert(spec_with_extension(file_name, ext) =~= stem + ext);
    assert((stem + ext).skip(stem.len() as int) =~= ext);
    assert((stem + ext).take(stem.len() as int) =~= stem);
}

proof fn lemma_extension_index_of_known(k: int)
    requires
        0 <= k < 8,
    ensures
        extension_index(known_extensions()[k]) == k,
{
    reveal_with_fuel(extension_index_from, 9);
    let e = known_extensions()[k];
    assert(eq_ignore_ascii_case(e, e));
    assert forall|j: int| 0 <= j < k implies !eq_ignore_ascii_case(e, #[trigger] known_extensions()[j]) by {
        let f = known_extensions()[j];
        if e.len() == f.len() {
            assert(e[0] != f[0] || e[1] != f[1] || (e.len() == 3 && e[2] != f[2]));
            if e[0] != f[0] {
                assert(ascii_lower(e[0]) != ascii_lower(f[0]));
            } else if e[1] != f[1] {
                assert(ascii_lower(e[1]) != ascii_lower(f[1]));
            } else {
                assert(ascii_lower(e[2]) != ascii_lower(f[2]));
            }
        }
    }
}

/// Law: the retry of a failed parse enables JSX and keeps the language: a
/// TypeScript file is retried as TypeScript with JSX, and a JavaScript file
/// as JavaScript with JSX.
pub proof fn law_retry_enables_jsx(file_name: Seq<char>, extension: Option<Seq<char>>)
    requires
        spec_jsx_retry_extension(Some(file_name), extension) is Some,
    ensures
        ({
            let jsx = spec_jsx_retry_extension(Some(file_name), extension)->0;
            let first = spec_resolve_syntax(file_name, extension).0;
            let retried = spec_resolve_syntax(file_name, Some(jsx)).0;
            &&& retried matches Syntax::Typescript(ts) ==> ts.tsx
            &&& retried matches Syntax::Es(es) ==> es.jsx
            &&& (first is Typescript <==> retried is Typescript)
        }),
{
    let jsx = spec_jsx_retry_extension(Some(file_name), extension)->0;
    let ext = match extension {
        Some(e) => e,
        None => file_name.skip(last_dot(file_name)->0 + 1),
    };
    let i = extension_index(ext);
    assert(i == 4 || i == 6 || i == 7 || i == 0 || i == 2 || i == 3);
    let r: int = if i == 4 || i == 6 || i == 7 { 5 } else { 1 };
    assert(jsx == known_extensions()[r]);
    lemma_with_known_extension(file_name, r);
    lemma_extension_index_of_known(r);
    match extension {
        Some(e) => {
            // the given extension is one of the known ones, so it has no `.`
            let k = extension_index(e);
            assert(eq_ignore_ascii_case(e, known_extensions()[k])) by {
                reveal_with_fuel(extension_index_from, 9);
            }
            assert forall|j: int| 0 <= j < e.len() implies e[j] != '.' by {
                assert(ascii_lower(e[j]) == ascii_lower(known_extensions()[k][j]));
            }
            let stem = stem_of(file_name);
            lemma_last_dot_bounds(file_name);
            lemma_last_dot_of_stem_and_extension(stem, e);
            assert(spec_with_extension(file_name, e) =~= stem + e);
            assert((stem + e).skip(stem.len() as int) =~= e);
        },
        None => {},
    }
}

/// `s` with its ASCII letters in lower case.
pub open spec fn ascii_lowercase(s: Seq<char>) -> Seq<char> {
    s.map_values(|c: char| if 'A' <= c && c <= 'Z' { ((c as u32) + 32) as char } else { c })
}

proof fn lemma_ignore_case_iff_lowercase(e: Seq<char>, k: int)
    requires
        0 <= k < 8,
    ensures
        eq_ignore_ascii_case(e, known_extensions()[k]) <==> ascii_lowercase(e) == known_extensions()[k],
{
    let x = known_extensions()[k];
    let l = ascii_lowercase(e);
    assert forall|i: int| 0 <= i < x.len() implies ascii_lower(#[trigger] x[i]) == (x[i] as u32) as int
        && 'a' <= x[i] <= 'z' by {
    }
    if eq_ignore_ascii_case(e, x) {
        assert forall|i: int| 0 <= i < l.len() implies #[trigger] l[i] == x[i] by {
            assert(ascii_lower(e[i]) == ascii_lower(x[i]));
            if 'A' <= e[i] && e[i] <= 'Z' {
                assert(((e[i] as u32) + 32) as char == x[i]) by {
                    vstd::utf8::char_u32_cast(x[i], (x[i] as u32));
                }
            } else {
                assert(e[i] as u32 == x[i] as u32);
                vstd::utf8::char_u32_cast(e[i], e[i] as u32);
                vstd::utf8::char_u32_cast(x[i], x[i] as u32);
            }
        }
        assert(l =~= x);
    }
    if l == x {
        assert forall|i: int| 0 <= i < e.len() implies ascii_lower(#[trigger] e[i]) == ascii_lower(x[i]) by {
            assert(l[i] == x[i]);
        }
    }
}

/// Law: an extension normalizes to a known extension exactly when its
/// lower case form is one, and then to that lower case form; what comes out
/// is empty or a known extension, and normalizes to itself.
pub proof fn law_normalize_extension_is_lowercase_known(e: Seq<char>)
    ensures
        spec_normalize_extension(e).len() > 0 <==> exists|k: int| 0 <= k < 8 && ascii_lowercase(e) == #[trigger] known_extensions()[k],
        spec_normalize_extension(e).len() > 0 ==> spec_normalize_extension(e) == ascii_lowercase(e),
        spec_normalize_extension(e).len() == 0 || exists|k: int| 0 <= k < 8 && spec_normalize_extension(e) == #[trigger] known_extensions()[k],
        spec_normalize_extension(spec_normalize_extension(e)) == spec_normalize_extension(e),
{
    reveal_with_fuel(extension_index_from, 9);
    assert forall|k: int| 0 <= k < 8 implies (eq_ignore_ascii_case(e, #[trigger] known_extensions()[k])
        <==> ascii_lowercase(e) == known_extensions()[k]) by {
        lemma_ignore_case_iff_lowercase(e, k);
    }
    assert forall|k: int| 0 <= k < 8 implies (#[trigger] known_extensions()[k]).len() > 0 by {}
    let i = extension_index(e);
    if i < 8 {
        lemma_extension_index_of_known(i);
    }
    assert(spec_normalize_extension(Seq::<char>::empty()) == Seq::<char>::empty()) by {
        assert forall|k: int| 0 <= k < 8 implies !eq_ignore_ascii_case(Seq::<char>::empty(), #[trigger] known_extensions()[k]) by {}
    }
}

/// Law: an extension given in place of the file name's own resolves as the
/// file name with its extension replaced does.
pub proof fn law_given_extension_resolves_as_renamed(file_name: Seq<char>, extension: Seq<char>)
    ensures
        spec_resolve_syntax(file_name, Some(extension)) == spec_resolve_syntax(
            spec_with_extension(file_name, extension),
            None,
        ),
{
}

/// Law: the syntax and parse mode of a file name do not depend on the
/// ASCII case of its extension (what follows its last `.`); the name
/// before the extension is compared as it is.
pub proof fn law_syntax_ignores_extension_case(stem: Seq<char>, ext_a: Seq<char>, ext_b: Seq<char>)
    requires
        stem.len() > 0,
        stem.last() == '.',
        forall|i: int| 0 <= i < ext_a.len() ==> ext_a[i] != '.',
        forall|i: int| 0 <= i < ext_b.len() ==> ext_b[i] != '.',
        eq_ignore_ascii_case(ext_a, ext_b),
    ensures
        spec_syntax_for_file_name(stem + ext_a) == spec_syntax_for_file_name(stem + ext_b),
{
    lemma_last_dot_of_stem_and_extension(stem, ext_a);
    lemma_last_dot_of_stem_and_extension(stem, ext_b);
    assert((stem + ext_a).take(stem.len() as int) =~= stem);
    assert((stem + ext_b).take(stem.len() as int) =~= stem);
    assert((stem + ext_a).skip(stem.len() as int) =~= ext_a);
    assert((stem + ext_b).skip(stem.len() as int) =~= ext_b);
    law_normalize_extension_ignores_ascii_case(ext_a, ext_b);
}

} // verus!
