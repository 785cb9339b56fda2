//! What the crate reads of a file system path: its components, from which
//! the file name and a `file:` specifier for display are derived.

use vstd::prelude::*;

use crate::text::string_from_chars;
use crate::text::string_from_utf8;

verus! {

#[verifier::external_type_specification]
#[verifier::external_body]
pub struct ExPath(std::path::Path);

/// A component of a path, with the bytes of the prefix or name in the
/// platform's encoding of `OsStr`.
#[derive(Debug, Clone, PartialEq, Eq)]
pub enum PathComponent {
    Prefix(Vec<u8>),
    RootDir,
    CurDir,
    ParentDir,
    Normal(Vec<u8>),
}

/// The components of a path, as `Path::components` gives them.
pub uninterp spec fn path_components_of(path: &std::path::Path) -> Seq<PathComponent>;

/// The components of `path`, by `Path::components`, each converted to a
/// `PathComponent`: they are the ones `path_components_of` names.
#[verifier::external_body]
pub(crate) fn path_components(path: &std::path::Path) -> (res: Vec<PathComponent>)
    ensures
        res@ == path_components_of(path),
{
    path.components().map(|c| match c {
        std::path::Component::Prefix(p) => PathComponent::Prefix(p.as_os_str().as_encoded_bytes().to_vec()),
        std::path::Component::RootDir => PathComponent::RootDir,
        std::path::Component::CurDir => PathComponent::CurDir,
        std::path::Component::ParentDir => PathComponent::ParentDir,
        std::path::Component::Normal(n) => PathComponent::Normal(n.as_encoded_bytes().to_vec()),
    }).collect()
}

/// The file name of a path with these components, as `Path::file_name`
/// gives it: the last component when that is a normal one.
pub open spec fn spec_file_name(components: Seq<PathComponent>) -> Option<Seq<u8>> {
    if components.len() > 0 {
        match components.last() {
            PathComponent::Normal(name) => Some(name@),
            _ => None,
        }
    } else {
        None
    }
}

/// The file name of a path with these components.
pub fn file_name_of(components: &Vec<PathComponent>) -> (res: Option<&Vec<u8>>)
    ensures
        match res {
            Some(name) => spec_file_name(components@) == Some(name@),
            None => spec_file_name(components@) is None,
        },
{
    if components.len() == 0 {
        return None;
    }
    match &components[components.len() - 1] {
        PathComponent::Normal(name) => Some(name),
        _ => None,
    }
}

/// The file name of a path with these components as a string, when it has
/// one that is valid UTF-8.
pub open spec fn spec_file_name_str(components: Seq<PathComponent>) -> Option<Seq<char>> {
    match spec_file_name(components) {
        Some(name) => if vstd::utf8::valid_utf8(name) {
            Some(vstd::utf8::decode_utf8(name))
        } else {
            None
        },
        None => None,
    }
}

/// The file name of a path with these components as a string.
pub fn file_name_str(components: &Vec<PathComponent>) -> (res: Option<String>)
    ensures
        match res {
            Some(s) => spec_file_name_str(components@) == Some(s@),
            None => spec_file_name_str(components@) is None,
        },
{
    match file_name_of(components) {
        Some(name) => string_from_utf8(name.clone()),
        None => None,
    }
}

/// The bytes that a path specifier writes as `%` escapes: those of the
/// set that the `url` crate escapes in a path segment, which keeps the
/// specifier a valid URL.
pub open spec fn in_encode_set(b: u8) -> bool {
    ||| b < 0x20
    ||| b == 0x7f
    ||| b == 0x20
    ||| b == 0x22
    ||| b == 0x23
    ||| b == 0x3c
    ||| b == 0x3e
    ||| b == 0x60
    ||| b == 0x3f
    ||| b == 0x7b
    ||| b == 0x7d
    ||| b == 0x25
    ||| b == 0x2f
    ||| b == 0x5c
}

/// Percent encoding escapes every byte that is not ASCII and every byte of
/// the set.
pub open spec fn should_percent_encode(b: u8) -> bool {
    b >= 0x80 || in_encode_set(b)
}

/// An upper case hexadecimal digit.
pub open spec fn hex_digit(n: u8) -> char {
    if n < 10 {
        (('0' as u8) + n) as char
    } else {
        (('A' as u8) + n - 10) as char
    }
}

/// `%` followed by the two upper case hexadecimal digits of `b`.
pub open spec fn spec_percent_encode_byte(b: u8) -> Seq<char> {
    seq!['%', hex_digit(b / 16), hex_digit(b % 16)]
}

/// The percent encoding of the bytes.
pub open spec fn spec_percent_encode(bytes: Seq<u8>) -> Seq<char>
    decreases bytes.len(),
{
    if bytes.len() == 0 {
        Seq::empty()
    } else {
        spec_percent_encode(bytes.drop_last()) + if should_percent_encode(bytes.last()) {
            spec_percent_encode_byte(bytes.last())
        } else {
            seq![bytes.last() as char]
        }
    }
}

/// The escape of one byte, by `percent_encoding::percent_encode_byte`:
/// `%` and the byte's two upper case hexadecimal digits.
#[verifier::external_body]
fn percent_encode_byte(byte: u8) -> (res: &'static str)
    ensures
        res@ == spec_percent_encode_byte(byte),
{
    percent_encoding::percent_encode_byte(byte)
}

fn in_encode_set_exec(b: u8) -> (res: bool)
    ensures
        res == in_encode_set(b),
{
    b < 0x20 || b == 0x7f || b == 0x20 || b == 0x22 || b == 0x23 || b == 0x3c || b == 0x3e || b == 0x60
        || b == 0x3f || b == 0x7b || b == 0x7d || b == 0x25 || b == 0x2f || b == 0x5c
}

/// Appends the percent encoding of `bytes` to `out`.
fn push_encoded(out: &mut Vec<char>, bytes: &Vec<u8>)
    ensures
        final(out)@ == old(out)@ + spec_percent_encode(bytes@),
{
    let ghost start = out@;
    let mut i: usize = 0;
    while i < bytes.len()
        invariant
            i <= bytes.len(),
            out@ == start + spec_percent_encode(bytes@.take(i as int)),
        decreases bytes.len() - i,
    {
        let b = bytes[i];
        let ghost before = out@;
        if b >= 0x80 || in_encode_set_exec(b) {
            let esc = percent_encode_byte(b);
            proof {
                assert(esc@.len() == 3);
            }
            out.push(esc.get_char(0));
            out.push(esc.get_char(1));
            out.push(esc.get_char(2));
            assert(out@ =~= before + spec_percent_encode_byte(b));
        } else {
            out.push(b as char);
            assert(out@ =~= before + seq![b as char]);
        }
        assert(bytes@.take(i + 1).drop_last() =~= bytes@.take(i as int));
        i = i + 1;
    }
    assert(bytes@.take(bytes.len() as int) =~= bytes@);
}

/// The specifier body built from the first `n` components, or `None` when
/// one of them is `.` or `..`.
pub open spec fn specifier_body(components: Seq<PathComponent>, n: int) -> Option<Seq<char>>
    decreases n,
{
    if n <= 0 {
        Some(Seq::empty())
    } else {
        match specifier_body(components, n - 1) {
            None => None,
            Some(acc) => match components[n - 1] {
                PathComponent::Prefix(p) => Some(acc + spec_percent_encode(p@)),
                PathComponent::Normal(p) => Some(
                    (if acc.len() > 0 {
                        acc.push('/')
                    } else {
                        acc
                    }) + spec_percent_encode(p@),
                ),
                PathComponent::RootDir => Some(acc),
                _ => None,
            },
        }
    }
}

/// `file:///`.
pub open spec fn file_url_start() -> Seq<char> {
    seq!['f', 'i', 'l', 'e', ':', '/', '/', '/']
}

/// The `file:` specifier for a path with these components.
///
/// The prefix (if any) and the normal components are percent encoded and
/// joined by `/` after `file:///`. A relative path (one with a `.` or `..`
/// component) has no file URL, so its specifier holds just the encoded file
/// name.
pub open spec fn spec_specifier(components: Seq<PathComponent>) -> Seq<char> {
    file_url_start() + match specifier_body(components, components.len() as int) {
        Some(body) => body,
        None => match spec_file_name(components) {
            Some(name) => spec_percent_encode(name),
            None => Seq::empty(),
        },
    }
}

/// Creates a `file:` specifier for a path with these components, which is
/// only used for display purposes in diagnostics.
pub fn specifier_for_components(components: &Vec<PathComponent>) -> (res: String)
    ensures
        res@ == spec_specifier(components@),
{
    let mut out: Vec<char> = vec!['f', 'i', 'l', 'e', ':', '/', '/', '/'];
    let mut i: usize = 0;
    while i < components.len()
        invariant
            i <= components.len(),
            specifier_body(components@, i as int) matches Some(body) && out@ == file_url_start() + body,
        decreases components.len() - i,
    {
        let ghost acc = specifier_body(components@, i as int)->0;
        match &components[i] {
            PathComponent::Prefix(p) => {
                push_encoded(&mut out, p);
            },
            PathComponent::Normal(p) => {
                if out.len() > 8 {
                    out.push('/');
                }
                push_encoded(&mut out, p);
            },
            PathComponent::RootDir => {},
            _ => {
                assert(specifier_body(components@, i + 1) is None);
                assert(specifier_body(components@, components.len() as int) is None) by {
                    lemma_specifier_body_stays_none(components@, i + 1, components.len() as int);
                }
                let mut fallback: Vec<char> = vec!['f', 'i', 'l', 'e', ':', '/', '/', '/'];
                match file_name_of(components) {
                    Some(name) => push_encoded(&mut fallback, name),
                    None => {},
                }
                assert(fallback@ =~= spec_specifier(components@));
                return string_from_chars(&fallback);
            },
        }
        assert(out@ =~= file_url_start() + specifier_body(components@, i + 1)->0);
        i = i + 1;
    }
    string_from_chars(&out)
}

proof fn lemma_specifier_body_stays_none(components: Seq<PathComponent>, m: int, n: int)
    requires
        0 < m <= n,
        specifier_body(components, m) is None,
    ensures
        specifier_body(components, n) is None,
    decreases n - m,
{
    if m < n {
        lemma_specifier_body_stays_none(components, m + 1, n);
    }
}

/// Creates a `file:` specifier for the path, which is only used for display
/// purposes in diagnostics.
pub fn path_to_specifier(path: &std::path::Path) -> (res: String)
    ensures
        res@ == spec_specifier(path_components_of(path)),
{
    let components = path_components(path);
    specifier_for_components(&components)
}

/// A character that may stand unescaped in a percent encoded path part.
pub open spec fn is_unescaped_char(c: char) -> bool {
    (c as u32) < 0x80 && !in_encode_set((c as u32) as u8)
}

/// Law: percent encoding leaves no character that it escapes: every
/// character of the result is ASCII, and is either the `%` of an escape or
/// one that needs no escape.
pub proof fn law_percent_encoding_is_escaped(bytes: Seq<u8>)
    ensures
        forall|i: int|
            0 <= i < spec_percent_encode(bytes).len() ==> #[trigger] spec_percent_encode(bytes)[i] == '%'
                || is_unescaped_char(spec_percent_encode(bytes)[i]),
    decreases bytes.len(),
{
    if bytes.len() > 0 {
        let prev = spec_percent_encode(bytes.drop_last());
        law_percent_encoding_is_escaped(bytes.drop_last());
        let b = bytes.last();
        let tail = if should_percent_encode(b) {
            spec_percent_encode_byte(b)
        } else {
            seq![b as char]
        };
        let out = spec_percent_encode(bytes);
        assert(out == prev + tail);
        assert forall|i: int| 0 <= i < out.len() implies #[trigger] out[i] == '%' || is_unescaped_char(out[i]) by {
            if i < prev.len() {
                assert(out[i] == prev[i]);
            } else {
                let j = i - prev.len();
                assert(out[i] == tail[j]);
                if should_percent_encode(b) {
                    if j > 0 {
                        let d: u8 = if j == 1 { b / 16 } else { b % 16 };
                        assert(tail[j] == hex_digit(d));
                        assert(d < 16);
                    }
                } else {
                    assert(((b as char) as u32) == b as u32);
                }
            }
        }
    }
}

} // verus!
