//! Source text together with where its lines are, for turning byte
//! positions into lines and columns.

use vstd::prelude::*;
use vstd::string::StringSliceAdditionalSpecFns;
use vstd::utf8::decode_utf8;
use vstd::utf8::is_char_boundary;
use vstd::utf8::valid_utf8;

use crate::text::lemma_ascii_boundaries;
use crate::text::str_slice;
use dprint_swc_ext::common::SourceTextInfo;
use dprint_swc_ext::common::StartSourcePos;

verus! {

broadcast use vstd::utf8::group_utf8_lib;

/// A range of byte positions in a source text.
#[derive(Debug, Clone, Copy, PartialEq, Eq, Structural)]
pub struct SourceRange {
    pub start: usize,
    pub end: usize,
}

impl SourceRange {
    pub fn new(start: usize, end: usize) -> (res: SourceRange)
        ensures
            res.start == start,
            res.end == end,
    {
        SourceRange { start, end }
    }
}

/// A 1-indexed line and column for display.
#[derive(Debug, Clone, Copy, PartialEq, Eq, Structural)]
pub struct LineAndColumnDisplay {
    pub line_number: usize,
    pub column_number: usize,
}

/// The byte order mark.
pub open spec fn bom() -> char {
    '\u{FEFF}'
}

/// The characters without a leading byte order mark.
pub open spec fn strip_bom(s: Seq<char>) -> Seq<char> {
    if s.len() > 0 && s[0] == bom() {
        s.drop_first()
    } else {
        s
    }
}

/// Positions of the `\n` bytes, in increasing order.
pub open spec fn newline_positions(b: Seq<u8>) -> Seq<int>
    decreases b.len(),
{
    if b.len() == 0 {
        Seq::empty()
    } else {
        let p = newline_positions(b.drop_last());
        if b.last() == 10 {
            p.push(b.len() - 1)
        } else {
            p
        }
    }
}

/// The number of lines: one more than the number of `\n` bytes.
pub open spec fn spec_lines_count(b: Seq<u8>) -> int {
    newline_positions(b).len() as int + 1
}

/// The 0-indexed line that byte position `pos` is on: the number of `\n`
/// bytes before it.
pub open spec fn spec_line_index(b: Seq<u8>, pos: int) -> int {
    newline_positions(b.take(pos)).len() as int
}

/// Whether the bytes start with the UTF-8 encoding of a byte order mark.
pub open spec fn starts_with_bom_bytes(b: Seq<u8>) -> bool {
    b.len() >= 3 && b[0] == 0xEF && b[1] == 0xBB && b[2] == 0xBF
}

/// Byte position where line `i` starts: right after the `i`-th `\n`. The
/// first line starts after a byte order mark that the text still starts
/// with.
pub open spec fn spec_line_start(b: Seq<u8>, i: int) -> int {
    if i == 0 {
        if starts_with_bom_bytes(b) {
            3
        } else {
            0
        }
    } else {
        newline_positions(b)[i - 1] + 1
    }
}

/// Byte position where line `i` ends: at its `\n`, or at the `\r` of a
/// `\r\n`, or at the end of the text for the last line.
pub open spec fn spec_line_end(b: Seq<u8>, i: int) -> int {
    if i < newline_positions(b).len() {
        let p = newline_positions(b)[i];
        if p > 0 && b[p - 1] == 13 {
            p - 1
        } else {
            p
        }
    } else {
        b.len() as int
    }
}

/// The number of bytes equal to `x`.
pub open spec fn count_byte(s: Seq<u8>, x: u8) -> nat
    decreases s.len(),
{
    if s.len() == 0 {
        0
    } else {
        count_byte(s.drop_last(), x) + if s.last() == x {
            1nat
        } else {
            0nat
        }
    }
}

/// The last character boundary at or before byte position `pos`.
pub open spec fn char_floor(b: Seq<u8>, pos: int) -> int
    decreases pos,
{
    if pos <= 0 {
        0
    } else if is_char_boundary(b, pos) {
        pos
    } else {
        char_floor(b, pos - 1)
    }
}

/// The 1-indexed line and column of byte position `pos`. The column counts
/// the characters on its line that end at or before `pos` (a position in
/// the middle of a character counts the characters before that one), with
/// a tab counting as two; a position in a leading byte order mark is at the
/// first column.
pub open spec fn spec_line_and_column_display(b: Seq<u8>, pos: int) -> (int, int) {
    let line = spec_line_index(b, pos);
    let start = spec_line_start(b, line);
    let before = if start <= char_floor(b, pos) {
        b.subrange(start, char_floor(b, pos))
    } else {
        Seq::empty()
    };
    (line + 1, decode_utf8(before).len() as int + count_byte(before, 9) as int + 1)
}

pub proof fn lemma_newline_positions(b: Seq<u8>)
    ensures
        forall|k: int|
            0 <= k < newline_positions(b).len() ==> 0 <= #[trigger] newline_positions(b)[k] < b.len() && b[newline_positions(b)[k]] == 10,
        forall|j: int, k: int|
            0 <= j < k < newline_positions(b).len() ==> #[trigger] newline_positions(b)[j] < #[trigger] newline_positions(b)[k],
        forall|i: int| 0 <= i < b.len() && b[i] == 10 ==> #[trigger] newline_positions(b).contains(i),
    decreases b.len(),
{
    if b.len() > 0 {
        let d = b.drop_last();
        lemma_newline_positions(d);
        let p = newline_positions(d);
        assert forall|i: int| 0 <= i < b.len() && b[i] == 10 implies #[trigger] newline_positions(b).contains(i) by {
            if i < b.len() - 1 {
                assert(d[i] == b[i]);
                assert(p.contains(i));
                let k = choose|k: int| 0 <= k < p.len() && p[k] == i;
                assert(newline_positions(b)[k] == i);
            } else {
                assert(newline_positions(b).last() == i);
            }
        }
    }
}

pub proof fn lemma_newline_positions_prefix(b: Seq<u8>, m: int)
    requires
        0 <= m <= b.len(),
    ensures
        newline_positions(b.take(m)).len() <= newline_positions(b).len(),
        newline_positions(b).take(newline_positions(b.take(m)).len() as int) == newline_positions(b.take(m)),
        forall|k: int|
            newline_positions(b.take(m)).len() <= k < newline_positions(b).len() ==> #[trigger] newline_positions(b)[k] >= m,
    decreases b.len(),
{
    if m == b.len() {
        assert(b.take(m) =~= b);
        assert(newline_positions(b).take(newline_positions(b).len() as int) =~= newline_positions(b));
    } else {
        let d = b.drop_last();
        assert(b.take(m) =~= d.take(m));
        lemma_newline_positions_prefix(d, m);
        lemma_newline_positions(d);
        let c = newline_positions(b.take(m)).len() as int;
        assert(newline_positions(b).take(c) =~= newline_positions(d).take(c));
    }
}

pub proof fn lemma_decode_len(b: Seq<u8>)
    requires
        valid_utf8(b),
    ensures
        decode_utf8(b).len() <= b.len(),
    decreases b.len(),
{
    if b.len() > 0 {
        let t = vstd::utf8::pop_first_scalar(b);
        assert(t.len() < b.len());
        lemma_decode_len(t);
    }
}

/// The bytes between two character boundaries of valid UTF-8 are valid.
pub proof fn lemma_boundary_valid(b: Seq<u8>, start: int, end: int)
    requires
        valid_utf8(b),
        0 <= start <= end <= b.len(),
        is_char_boundary(b, start),
        is_char_boundary(b, end),
    ensures
        valid_utf8(b.subrange(start, end)),
{
    crate::text::lemma_boundary_in_prefix(b, start, end);
    let h = b.subrange(0, end);
    vstd::utf8::valid_utf8_split(h, start);
    assert(h.subrange(start, h.len() as int) =~= b.subrange(start, end));
}

/// After a leading byte order mark there is a character boundary.
pub proof fn lemma_bom_boundary(b: Seq<u8>)
    requires
        valid_utf8(b),
        starts_with_bom_bytes(b),
    ensures
        is_char_boundary(b, 3),
{
    assert(vstd::utf8::length_of_first_scalar(b) == 3);
    assert(valid_utf8(vstd::utf8::pop_first_scalar(b)));
    assert(is_char_boundary(vstd::utf8::pop_first_scalar(b), 0));
}

/// The bytes of a leading byte order mark are neither `\n` nor `\r`.
pub proof fn lemma_bom_bytes_no_newline(b: Seq<u8>)
    ensures
        starts_with_bom_bytes(b) ==> forall|k: int|
            0 <= k < newline_positions(b).len() ==> #[trigger] newline_positions(b)[k] >= 3,
{
    lemma_newline_positions(b);
}

/// Lines start in order, and a line starts no later than it ends.
pub proof fn lemma_line_start_mono(b: Seq<u8>, i: int, j: int)
    requires
        0 <= i <= j < spec_lines_count(b),
    ensures
        spec_line_start(b, i) <= spec_line_start(b, j),
        spec_line_start(b, j) <= spec_line_end(b, j),
        spec_line_end(b, j) <= b.len(),
{
    lemma_newline_positions(b);
    lemma_bom_bytes_no_newline(b);
    if i > 0 && i < j {
        assert(newline_positions(b)[i - 1] < newline_positions(b)[j - 1]);
    }
    if j > 0 && j < newline_positions(b).len() {
        assert(newline_positions(b)[j - 1] < newline_positions(b)[j]);
    }
}

/// Law: a line's start and end lie on that line: looking up the line of
/// either gives the line back, and a line starts no later than it ends.
pub proof fn law_line_bounds_round_trip(b: Seq<u8>, i: int)
    requires
        0 <= i < spec_lines_count(b),
    ensures
        spec_line_start(b, i) <= spec_line_end(b, i) <= b.len(),
        spec_line_index(b, spec_line_start(b, i)) == i,
        spec_line_index(b, spec_line_end(b, i)) == i,
{
    lemma_line_start_mono(b, i, i);
    lemma_newline_positions(b);
    lemma_bom_bytes_no_newline(b);
    let nl = newline_positions(b);
    let ls = spec_line_start(b, i);
    let le = spec_line_end(b, i);
    lemma_newline_positions_prefix(b, ls);
    lemma_newline_positions_prefix(b, le);
    lemma_newline_positions(b.take(ls));
    lemma_newline_positions(b.take(le));
    let c = newline_positions(b.take(ls)).len() as int;
    let d = newline_positions(b.take(le)).len() as int;
    if i > 0 {
        if c < i {
            assert(nl[i - 1] >= ls);
        }
        if d < i {
            assert(nl[i - 1] >= le);
        }
    }
    if c > i {
        assert(nl.take(c)[i] == newline_positions(b.take(ls))[i]);
        assert(nl[i] < ls);
        if i > 0 {
            assert(nl[i - 1] < nl[i]);
        }
    }
    if d > i {
        assert(nl.take(d)[i] == newline_positions(b.take(le))[i]);
        assert(nl[i] < le);
    }
}

/// Stripping a byte order mark does not lengthen the text.
pub proof fn lemma_strip_bom_bytes(s: Seq<char>)
    ensures
        vstd::utf8::encode_utf8(strip_bom(s)).len() <= vstd::utf8::encode_utf8(s).len(),
{
    if s.len() > 0 && s[0] == bom() {
        assert(vstd::utf8::encode_utf8(s) == vstd::utf8::encode_scalar(s[0] as u32) + vstd::utf8::encode_utf8(s.drop_first()));
    }
}

#[verifier::external_type_specification]
#[verifier::external_body]
pub struct ExSourceTextInfo(dprint_swc_ext::common::SourceTextInfo);

/// The text a `SourceTextInfo` holds.
pub uninterp spec fn source_text_info_text(info: SourceTextInfo) -> Seq<char>;

/// The UTF-8 bytes of the text a `SourceTextInfo` holds.
pub open spec fn source_bytes(info: SourceTextInfo) -> Seq<u8> {
    vstd::utf8::encode_utf8(source_text_info_text(info))
}

/// A text info by `SourceTextInfo::new`, which strips a byte order mark
/// the text starts with.
#[verifier::external_body]
fn source_text_info_new(text: &str) -> (res: SourceTextInfo)
    ensures
        source_text_info_text(res) == strip_bom(text@),
{
    SourceTextInfo::new(text.into())
}

/// The text, by `SourceTextInfo::text_str`.
#[verifier::external_body]
fn source_text_str(info: &SourceTextInfo) -> (res: &str)
    ensures
        res@ == source_text_info_text(*info),
{
    info.text_str()
}

/// The number of lines, by `SourceTextInfo::lines_count`: one more than
/// the number of `\n` bytes.
#[verifier::external_body]
fn source_lines_count(info: &SourceTextInfo) -> (res: usize)
    ensures
        res == spec_lines_count(source_bytes(*info)),
{
    info.lines_count()
}

/// The 0-indexed line of byte position `pos`, by
/// `SourceTextInfo::line_index` at the position `pos` bytes after the
/// text's start position: the number of `\n` bytes before it. It panics on
/// a position after the text.
#[verifier::external_body]
fn source_line_index(info: &SourceTextInfo, pos: usize) -> (res: usize)
    requires
        pos <= source_bytes(*info).len() < u32::MAX,
    ensures
        res == spec_line_index(source_bytes(*info), pos as int),
{
    info.line_index(StartSourcePos::START_SOURCE_POS + pos)
}

/// Byte position where a line starts, by `SourceTextInfo::line_start`
/// (relative to the text's start position): after the `\n` before it, or
/// for the first line after a byte order mark the text still starts with.
/// It panics on a line that is not there.
#[verifier::external_body]
fn source_line_start(info: &SourceTextInfo, line: usize) -> (res: usize)
    requires
        line < spec_lines_count(source_bytes(*info)),
        source_bytes(*info).len() < u32::MAX,
    ensures
        res == spec_line_start(source_bytes(*info), line as int),
{
    info.line_start(line).as_byte_index(StartSourcePos::START_SOURCE_POS)
}

/// Byte position where a line ends, by `SourceTextInfo::line_end`
/// (relative to the text's start position): at its `\n`, or at the `\r`
/// of a `\r\n`, or at the end of the text. It panics on a line that is not
/// there.
#[verifier::external_body]
fn source_line_end(info: &SourceTextInfo, line: usize) -> (res: usize)
    requires
        line < spec_lines_count(source_bytes(*info)),
        source_bytes(*info).len() < u32::MAX,
    ensures
        res == spec_line_end(source_bytes(*info), line as int),
{
    info.line_end(line).as_byte_index(StartSourcePos::START_SOURCE_POS)
}

/// The 1-indexed line and column of byte position `pos`, by
/// `SourceTextInfo::line_and_column_display` at the position `pos` bytes
/// after the text's start position: the column counts the characters of
/// the line that end at or before `pos`, with a tab counting as two. It
/// panics on a position after the text.
#[verifier::external_body]
fn source_line_and_column_display(info: &SourceTextInfo, pos: usize) -> (res: LineAndColumnDisplay)
    requires
        pos <= source_bytes(*info).len() < u32::MAX,
    ensures
        (res.line_number as int, res.column_number as int) == spec_line_and_column_display(
            source_bytes(*info),
            pos as int,
        ),
{
    let display = info.line_and_column_display(StartSourcePos::START_SOURCE_POS + pos);
    LineAndColumnDisplay { line_number: display.line_number, column_number: display.column_number }
}

/// Source text with where its lines are.
pub struct TextInfo {
    info: SourceTextInfo,
}

impl TextInfo {
    #[verifier::type_invariant]
    spec fn inv(self) -> bool {
        &&& source_bytes(self.info).len() <= isize::MAX
        &&& source_bytes(self.info).len() < u32::MAX
    }

    /// The characters of the text.
    pub closed spec fn chars(&self) -> Seq<char> {
        source_text_info_text(self.info)
    }

    /// The UTF-8 bytes of the text.
    pub closed spec fn bytes(&self) -> Seq<u8> {
        source_bytes(self.info)
    }

    /// The bytes are the UTF-8 encoding of the characters.
    pub proof fn lemma_bytes_of_chars(&self)
        ensures
            self.bytes() == vstd::utf8::encode_utf8(self.chars()),
    {
    }

    pub broadcast proof fn lemma_bytes_valid(&self)
        ensures
            #[trigger] valid_utf8(self.bytes()),
            decode_utf8(self.bytes()) == self.chars(),
    {
    }

    /// Creates the text info of `text`, with any byte order mark stripped.
    /// Its positions are `u32`, so the text must be shorter than `u32::MAX`
    /// bytes.
    pub fn new(text: String) -> (res: TextInfo)
        requires
            vstd::utf8::encode_utf8(text@).len() <= isize::MAX,
            vstd::utf8::encode_utf8(text@).len() < u32::MAX,
        ensures
            res.chars() == strip_bom(text@),
    {
        TextInfo::from_str(text.as_str())
    }

    /// Creates the text info of `text`, with any byte order mark stripped.
    pub fn from_str(text: &str) -> (res: TextInfo)
        requires
            text.spec_bytes().len() <= isize::MAX,
            text.spec_bytes().len() < u32::MAX,
        ensures
            res.chars() == strip_bom(text@),
    {
        let info = source_text_info_new(text);
        proof {
            lemma_strip_bom_bytes(text@);
        }
        TextInfo { info }
    }

    /// The text.
    pub fn text_str(&self) -> (res: &str)
        ensures
            res@ == self.chars(),
            res.spec_bytes() == self.bytes(),
    {
        source_text_str(&self.info)
    }

    /// The byte length of the text.
    pub fn len(&self) -> (res: usize)
        ensures
            res == self.bytes().len(),
            res <= isize::MAX,
            res < u32::MAX,
    {
        proof {
            use_type_invariant(self);
        }
        self.text_str().len()
    }

    /// The range of the whole text.
    pub fn range(&self) -> (res: SourceRange)
        ensures
            res.start == 0,
            res.end == self.bytes().len(),
    {
        SourceRange { start: 0, end: self.len() }
    }

    /// The number of lines.
    pub fn lines_count(&self) -> (res: usize)
        ensures
            res == spec_lines_count(self.bytes()),
    {
        source_lines_count(&self.info)
    }

    /// The 0-indexed line that byte position `pos` is on.
    pub fn line_index(&self, pos: usize) -> (res: usize)
        requires
            pos <= self.bytes().len(),
        ensures
            res == spec_line_index(self.bytes(), pos as int),
            res < spec_lines_count(self.bytes()),
            res > 0 ==> spec_line_start(self.bytes(), res as int) <= pos,
    {
        proof {
            use_type_invariant(self);
            let b = self.bytes();
            lemma_newline_positions(b);
            lemma_newline_positions_prefix(b, pos as int);
            lemma_newline_positions(b.take(pos as int));
            let c = newline_positions(b.take(pos as int)).len() as int;
            if c > 0 {
                assert(newline_positions(b).take(c)[c - 1] == newline_positions(b.take(pos as int))[c - 1]);
            }
        }
        source_line_index(&self.info, pos)
    }

    /// Byte position where the 0-indexed line starts.
    pub fn line_start(&self, line_index: usize) -> (res: usize)
        requires
            line_index < spec_lines_count(self.bytes()),
        ensures
            res == spec_line_start(self.bytes(), line_index as int),
            res <= self.bytes().len(),
            is_char_boundary(self.bytes(), res as int),
    {
        proof {
            use_type_invariant(self);
            let b = self.bytes();
            lemma_newline_positions(b);
            lemma_line_start_mono(b, line_index as int, line_index as int);
            vstd::utf8::is_char_boundary_start_end_of_seq(b);
            if line_index == 0 {
                if starts_with_bom_bytes(b) {
                    lemma_bom_boundary(b);
                }
            } else {
                lemma_ascii_boundaries(b, newline_positions(b)[line_index - 1]);
            }
        }
        source_line_start(&self.info, line_index)
    }

    /// Byte position where the 0-indexed line ends, before its line break.
    pub fn line_end(&self, line_index: usize) -> (res: usize)
        requires
            line_index < spec_lines_count(self.bytes()),
        ensures
            res == spec_line_end(self.bytes(), line_index as int),
            res <= self.bytes().len(),
            is_char_boundary(self.bytes(), res as int),
    {
        proof {
            use_type_invariant(self);
            let b = self.bytes();
            lemma_newline_positions(b);
            lemma_line_start_mono(b, line_index as int, line_index as int);
            vstd::utf8::is_char_boundary_start_end_of_seq(b);
            if (line_index as int) < newline_positions(b).len() {
                let p = newline_positions(b)[line_index as int];
                if p > 0 && b[p - 1] == 13 {
                    lemma_ascii_boundaries(b, p - 1);
                } else {
                    lemma_ascii_boundaries(b, p);
                }
            }
        }
        source_line_end(&self.info, line_index)
    }

    /// The text between two character boundaries.
    pub fn range_text(&self, start: usize, end: usize) -> (res: &str)
        requires
            start <= end <= self.bytes().len(),
            is_char_boundary(self.bytes(), start as int),
            is_char_boundary(self.bytes(), end as int),
        ensures
            res.spec_bytes() == self.bytes().subrange(start as int, end as int),
            res@ == decode_utf8(self.bytes().subrange(start as int, end as int)),
    {
        str_slice(self.text_str(), start, end)
    }

    /// The 1-indexed line and column of byte position `pos`, with a tab
    /// counting as two columns.
    pub fn line_and_column_display(&self, pos: usize) -> (res: LineAndColumnDisplay)
        requires
            pos <= self.bytes().len(),
        ensures
            (res.line_number as int, res.column_number as int) == spec_line_and_column_display(self.bytes(), pos as int),
    {
        proof {
            use_type_invariant(self);
        }
        source_line_and_column_display(&self.info, pos)
    }
}

} // verus!
