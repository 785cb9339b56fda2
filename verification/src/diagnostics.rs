//! Syntax diagnostics and how they are rendered: a message, the position,
//! and the lines of the source with the range underlined.

use vstd::prelude::*;
use vstd::string::StringSliceAdditionalSpecFns;
use vstd::utf8::decode_utf8;
use vstd::utf8::is_char_boundary;
use vstd::utf8::valid_utf8;

use crate::text::chars_of;
use crate::text::decimal;
use crate::text::push_decimal;
use crate::text::push_str;
use crate::text::str_eq;
use crate::text_info::LineAndColumnDisplay;
use crate::text_info::spec_line_and_column_display;
use crate::text::string_from_chars;
use crate::text_info::lemma_decode_len;
use crate::text::lemma_ascii_boundaries;
use crate::text::str_slice;
use crate::text_info::lemma_boundary_valid;
use crate::text_info::lemma_line_start_mono;
use crate::text_info::spec_line_end;
use crate::text_info::spec_line_index;
use crate::text_info::spec_line_start;
use crate::text_info::spec_lines_count;
use crate::text_info::SourceRange;
use crate::text_info::TextInfo;

verus! {

broadcast use vstd::utf8::group_utf8_lib;

/// Byte position where the line holding `pos` starts: right after the last
/// `\n` before `pos`, or 0.
pub open spec fn spec_line_start_byte_pos(b: Seq<u8>, pos: int) -> int
    decreases pos,
{
    if pos <= 0 {
        0
    } else if pos - 1 < b.len() && b[pos - 1] == 10 {
        pos
    } else {
        spec_line_start_byte_pos(b, pos - 1)
    }
}

pub proof fn lemma_line_start_byte_pos(b: Seq<u8>, pos: int)
    ensures
        0 <= spec_line_start_byte_pos(b, pos),
        pos >= 0 ==> spec_line_start_byte_pos(b, pos) <= pos,
        spec_line_start_byte_pos(b, pos) > 0 ==> b[spec_line_start_byte_pos(b, pos) - 1] == 10
            && spec_line_start_byte_pos(b, pos) - 1 < b.len(),
    decreases pos,
{
    if pos > 0 && !(pos - 1 < b.len() && b[pos - 1] == 10) {
        lemma_line_start_byte_pos(b, pos - 1);
    }
}

/// Gets the byte position where the line holding byte position `pos`
/// starts.
pub fn get_line_start_byte_pos(text: &str, pos: usize) -> (res: usize)
    ensures
        res == spec_line_start_byte_pos(text.spec_bytes(), pos as int),
{
    let bytes = text.as_bytes();
    let mut i: usize = pos;
    while i > 0
        invariant
            i <= pos,
            bytes@ == text.spec_bytes(),
            spec_line_start_byte_pos(bytes@, pos as int) == spec_line_start_byte_pos(bytes@, i as int),
        decreases i,
    {
        if i - 1 < bytes.len() && bytes[i - 1] == 10 {
            return i;
        }
        i = i - 1;
    }
    0
}

/// The number of characters from the start of the line holding `pos` up to
/// `pos`.
pub open spec fn spec_column_index_of_pos(b: Seq<u8>, pos: int) -> int {
    decode_utf8(b.subrange(spec_line_start_byte_pos(b, pos), pos)).len() as int
}

/// The line start before a character boundary is a character boundary.
pub proof fn lemma_line_start_boundary(b: Seq<u8>, pos: int)
    requires
        valid_utf8(b),
        0 <= pos <= b.len(),
    ensures
        is_char_boundary(b, spec_line_start_byte_pos(b, pos)),
        spec_line_start_byte_pos(b, pos) <= pos,
{
    lemma_line_start_byte_pos(b, pos);
    let ls = spec_line_start_byte_pos(b, pos);
    if ls > 0 {
        lemma_ascii_boundaries(b, ls - 1);
    } else {
        vstd::utf8::is_char_boundary_start_end_of_seq(b);
    }
}

/// Gets the character index of byte position `pos` on its line.
pub fn get_column_index_of_pos(text: &str, pos: usize) -> (res: usize)
    requires
        pos <= text.spec_bytes().len(),
        is_char_boundary(text.spec_bytes(), pos as int),
    ensures
        res == spec_column_index_of_pos(text.spec_bytes(), pos as int),
{
    let line_start = get_line_start_byte_pos(text, pos);
    proof {
        lemma_line_start_boundary(text.spec_bytes(), pos as int);
    }
    str_slice(text, line_start, pos).unicode_len()
}

/// Whether the character has the Unicode `White_Space` property.
pub open spec fn is_whitespace(c: char) -> bool {
    ||| ('\u{9}' <= c && c <= '\u{D}')
    ||| c == ' '
    ||| c == '\u{85}'
    ||| c == '\u{A0}'
    ||| c == '\u{1680}'
    ||| ('\u{2000}' <= c && c <= '\u{200A}')
    ||| c == '\u{2028}'
    ||| c == '\u{2029}'
    ||| c == '\u{202F}'
    ||| c == '\u{205F}'
    ||| c == '\u{3000}'
}

/// Whether trimming whitespace from both ends leaves nothing.
pub open spec fn is_blank(s: Seq<char>) -> bool {
    forall|i: int| 0 <= i < s.len() ==> is_whitespace(#[trigger] s[i])
}

fn is_whitespace_exec(c: char) -> (res: bool)
    ensures
        res == is_whitespace(c),
{
    ('\u{9}' <= c && c <= '\u{D}') || c == ' ' || c == '\u{85}' || c == '\u{A0}' || c == '\u{1680}'
        || ('\u{2000}' <= c && c <= '\u{200A}') || c == '\u{2028}' || c == '\u{2029}' || c
        == '\u{202F}' || c == '\u{205F}' || c == '\u{3000}'
}

/// Whether all the characters are whitespace.
pub fn chars_are_blank(s: &Vec<char>) -> (res: bool)
    ensures
        res == is_blank(s@),
{
    let mut i: usize = 0;
    while i < s.len()
        invariant
            i <= s@.len(),
            forall|j: int| 0 <= j < i ==> is_whitespace(#[trigger] s@[j]),
        decreases s@.len() - i,
    {
        if !is_whitespace_exec(s[i]) {
            return false;
        }
        i = i + 1;
    }
    true
}

/// Whether trimming whitespace from both ends of `s` leaves nothing.
pub fn str_is_blank(s: &str) -> (res: bool)
    ensures
        res == is_blank(s@),
{
    let chars = chars_of(s);
    chars_are_blank(&chars)
}

/// A character boundary between two others is one of the bytes between
/// them too.
pub proof fn lemma_boundary_in_subrange(b: Seq<u8>, a: int, c: int, p: int)
    requires
        valid_utf8(b),
        0 <= a <= p <= c <= b.len(),
        is_char_boundary(b, a),
        is_char_boundary(b, c),
        is_char_boundary(b, p),
    ensures
        valid_utf8(b.subrange(a, c)),
        is_char_boundary(b.subrange(a, c), p - a),
{
    lemma_boundary_valid(b, a, c);
    let sub = b.subrange(a, c);
    if p == c {
        vstd::utf8::is_char_boundary_start_end_of_seq(sub);
    } else {
        vstd::utf8::is_char_boundary_iff_not_is_continuation_byte(b, p);
        vstd::utf8::is_char_boundary_iff_not_is_continuation_byte(sub, p - a);
    }
}

/// The position is not inside a byte order mark that the text starts
/// with.
pub open spec fn starts_within_line(b: Seq<u8>, start: int) -> bool {
    spec_line_start(b, spec_line_index(b, start)) <= start
}

/// The range ends before the line break of its last line rather than
/// between the `\r` and `\n` of a `\r\n`.
pub open spec fn ends_within_line(b: Seq<u8>, end: int) -> bool {
    end <= spec_line_end(b, spec_line_index(b, end))
}

/// The first line shown for a range whose first line is `k`: while the
/// text from the start of the line to the end of the range is blank, the
/// line before is shown as well.
pub open spec fn spec_first_shown_line(b: Seq<u8>, k: int, last_end: int) -> int
    decreases k,
{
    if k > 0 && is_blank(decode_utf8(b.subrange(spec_line_start(b, k), last_end))) {
        spec_first_shown_line(b, k - 1, last_end)
    } else {
        k
    }
}

/// The bytes shown for a range, as `(start, end)` byte positions, and the
/// range relative to them: from the start of the first shown line to the
/// end of the range's last line.
pub open spec fn spec_text_and_error_range(b: Seq<u8>, start: int, end: int) -> (int, int, int, int) {
    let first = spec_first_shown_line(b, spec_line_index(b, start), spec_line_end(b, spec_line_index(b, end)));
    let sub_start = spec_line_start(b, first);
    let error_start = start - sub_start;
    (sub_start, spec_line_end(b, spec_line_index(b, end)), error_start, error_start + (end - start))
}

/// What a range of the text must be for it to be shown: ordered, within
/// the text, on character boundaries, starting after a leading byte order
/// mark, and ending within a line.
pub open spec fn range_is_showable(b: Seq<u8>, start: int, end: int) -> bool {
    &&& 0 <= start <= end <= b.len()
    &&& is_char_boundary(b, start)
    &&& is_char_boundary(b, end)
    &&& starts_within_line(b, start)
    &&& ends_within_line(b, end)
}

/// Checks whether a range of the text can be shown.
pub fn range_is_showable_exec(text_info: &TextInfo, start: usize, end: usize) -> (res: bool)
    ensures
        res == range_is_showable(text_info.bytes(), start as int, end as int),
{
    let text = text_info.text_str();
    if !(start <= end && end <= text_info.len()) {
        return false;
    }
    if !(text.is_char_boundary(start) && text.is_char_boundary(end)) {
        return false;
    }
    let first = text_info.line_index(start);
    if text_info.line_start(first) > start {
        return false;
    }
    let line = text_info.line_index(end);
    end <= text_info.line_end(line)
}

/// Gets the text shown for the range, and the range relative to it.
pub fn get_text_and_error_range(text_info: &TextInfo, byte_range: SourceRange) -> (res: (&str, (usize, usize)))
    requires
        byte_range.start <= byte_range.end <= text_info.bytes().len(),
        starts_within_line(text_info.bytes(), byte_range.start as int),
    ensures
        ({
            let (ss, se, es, ee) = spec_text_and_error_range(
                text_info.bytes(),
                byte_range.start as int,
                byte_range.end as int,
            );
            &&& 0 <= ss <= byte_range.start
            &&& ss <= se <= text_info.bytes().len()
            &&& ends_within_line(text_info.bytes(), byte_range.end as int) ==> byte_range.end <= se
            &&& is_char_boundary(text_info.bytes(), ss)
            &&& is_char_boundary(text_info.bytes(), se)
            &&& res.0.spec_bytes() == text_info.bytes().subrange(ss, se)
            &&& res.0@ == decode_utf8(text_info.bytes().subrange(ss, se))
            &&& res.1.0 == es
            &&& res.1.1 == ee
        }),
{
    let ghost b = text_info.bytes();
    proof {
        text_info.lemma_bytes_valid();
    }
    let mut first_line_index = text_info.line_index(byte_range.start);
    let mut first_line_start = text_info.line_start(first_line_index);
    let last_line_index = text_info.line_index(byte_range.end);
    let last_line_end = text_info.line_end(last_line_index);
    proof {
        crate::text_info::lemma_newline_positions(b);
        crate::text_info::lemma_newline_positions_prefix(b, byte_range.end as int);
        crate::text_info::lemma_newline_positions_prefix(b.take(byte_range.end as int), byte_range.start as int);
        assert(b.take(byte_range.end as int).take(byte_range.start as int) =~= b.take(byte_range.start as int));
        lemma_line_start_mono(b, first_line_index as int, last_line_index as int);
    }
    let mut sub_text = text_info.range_text(first_line_start, last_line_end);
    let ghost k0 = first_line_index as int;
    while first_line_index > 0 && str_is_blank(sub_text)
        invariant
            b == text_info.bytes(),
            valid_utf8(b),
            first_line_index <= k0,
            k0 < spec_lines_count(b),
            k0 == spec_line_index(b, byte_range.start as int),
            first_line_start == spec_line_start(b, first_line_index as int),
            first_line_start <= byte_range.start,
            spec_line_start(b, k0) <= byte_range.start,
            byte_range.start <= byte_range.end,
            first_line_start <= last_line_end,
            spec_line_start(b, k0) <= last_line_end,
            ends_within_line(b, byte_range.end as int) ==> byte_range.end <= last_line_end,
            last_line_end == spec_line_end(b, spec_line_index(b, byte_range.end as int)),
            last_line_end <= b.len(),
            is_char_boundary(b, first_line_start as int),
            is_char_boundary(b, last_line_end as int),
            sub_text.spec_bytes() == b.subrange(first_line_start as int, last_line_end as int),
            sub_text@ == decode_utf8(b.subrange(first_line_start as int, last_line_end as int)),
            spec_first_shown_line(b, k0, last_line_end as int) == spec_first_shown_line(
                b,
                first_line_index as int,
                last_line_end as int,
            ),
        decreases first_line_index,
    {
        first_line_index = first_line_index - 1;
        first_line_start = text_info.line_start(first_line_index);
        proof {
            lemma_line_start_mono(b, first_line_index as int, k0);
        }
        sub_text = text_info.range_text(first_line_start, last_line_end);
    }
    let error_start = byte_range.start - first_line_start;
    let error_end = error_start + (byte_range.end - byte_range.start);
    (sub_text, (error_start, error_end))
}

/// The parts of `s` between `\n` characters, including empty ones.
pub open spec fn split_lines(s: Seq<char>) -> Seq<Seq<char>>
    decreases s.len(),
{
    if s.len() == 0 {
        seq![Seq::empty()]
    } else {
        let p = split_lines(s.drop_last());
        if s.last() == '\n' {
            p.push(Seq::empty())
        } else {
            p.update(p.len() - 1, p.last().push(s.last()))
        }
    }
}

pub proof fn lemma_split_lines(s: Seq<char>)
    ensures
        split_lines(s).len() >= 1,
        split_lines(s).len() <= s.len() + 1,
        forall|i: int| 0 <= i < split_lines(s).len() ==> (#[trigger] split_lines(s)[i]).len() <= s.len(),
    decreases s.len(),
{
    if s.len() > 0 {
        lemma_split_lines(s.drop_last());
    }
}

/// The line without a trailing `\r`.
pub open spec fn trim_cr(line: Seq<char>) -> Seq<char> {
    if line.len() > 0 && line.last() == '\r' {
        line.drop_last()
    } else {
        line
    }
}

/// `n` copies of `c` (none when `n` is not positive).
pub open spec fn repeat(c: char, n: int) -> Seq<char> {
    Seq::new(if n > 0 { n as nat } else { 0 }, |_i: int| c)
}

pub open spec fn saturating_sub(a: int, b: int) -> int {
    if a >= b {
        a - b
    } else {
        0
    }
}

pub open spec fn min(a: int, b: int) -> int {
    if a <= b {
        a
    } else {
        b
    }
}

pub open spec fn max(a: int, b: int) -> int {
    if a >= b {
        a
    } else {
        b
    }
}

/// `...`
pub open spec fn ellipsis() -> Seq<char> {
    seq!['.', '.', '.']
}

/// The tildes under a line from column `s` to column `e`: at least one,
/// since an empty range marks the end of the line.
pub open spec fn underline(s: int, e: int) -> Seq<char> {
    seq!['\n'] + repeat(' ', s) + repeat('~', max(saturating_sub(e, s), 1))
}

/// A line of the highlight with the range from character `s` to character
/// `e` underlined. A line longer than 90 characters is cut to 80 of them,
/// starting 20 before the range when the range starts after the 60th, and
/// `...` marks where it was cut.
pub open spec fn render_line(line: Seq<char>, s: int, e: int) -> Seq<char> {
    let n = line.len() as int;
    if n > 90 {
        let st = if s > 60 {
            min(s - 20, n - 80)
        } else {
            0
        };
        let s1 = saturating_sub(s, st);
        let e1 = saturating_sub(e, st);
        let code = line.subrange(st, st + 80);
        let lt = if st > 0 {
            ellipsis() + code
        } else {
            code
        };
        let s2 = if st > 0 {
            s1 + 3
        } else {
            s1
        };
        let e2 = if st > 0 {
            e1 + 3
        } else {
            e1
        };
        let cut_end = n > st + 80;
        let e3 = if cut_end {
            min(e2, lt.len() as int)
        } else {
            e2
        };
        (if cut_end {
            lt + ellipsis()
        } else {
            lt
        }) + underline(s2, e3)
    } else {
        line + underline(s, e)
    }
}

/// The highlight of the first `k` lines, where the range starts at
/// character `s0` of the first line and ends at character `e0` of the last.
/// Only the first two lines and the last are shown, with `...` in place of
/// the others.
pub open spec fn highlight_upto(lines: Seq<Seq<char>>, s0: int, e0: int, k: int) -> Seq<char>
    decreases k,
{
    if k <= 0 {
        Seq::empty()
    } else {
        let prev = highlight_upto(lines, s0, e0, k - 1);
        let i = k - 1;
        let is_last = i == lines.len() - 1;
        let sep = if i > 0 {
            seq!['\n']
        } else {
            Seq::empty()
        };
        if i > 2 && !is_last {
            prev
        } else if i == 2 && !is_last {
            prev + sep + ellipsis()
        } else {
            let line = trim_cr(lines[i]);
            let s = if i == 0 {
                s0
            } else {
                0
            };
            let e = if is_last {
                e0
            } else {
                line.len() as int
            };
            prev + sep + render_line(line, s, e)
        }
    }
}

/// The highlight of the range of the text: the lines holding it, each
/// followed by a line of `~` under the part of it in the range.
pub open spec fn spec_range_text_highlight(b: Seq<u8>, start: int, end: int) -> Seq<char> {
    let (ss, se, es, ee) = spec_text_and_error_range(b, start, end);
    let sub = b.subrange(ss, se);
    let lines = split_lines(decode_utf8(sub));
    highlight_upto(
        lines,
        spec_column_index_of_pos(sub, es),
        spec_column_index_of_pos(sub, ee),
        lines.len() as int,
    )
}

fn split_lines_exec(s: &Vec<char>) -> (res: Vec<Vec<char>>)
    ensures
        res@.len() == split_lines(s@).len(),
        forall|i: int| 0 <= i < res@.len() ==> (#[trigger] res@[i])@ == split_lines(s@)[i],
{
    let mut lines: Vec<Vec<char>> = Vec::new();
    let mut cur: Vec<char> = Vec::new();
    let mut i: usize = 0;
    while i < s.len()
        invariant
            i <= s@.len(),
            lines@.len() + 1 == split_lines(s@.take(i as int)).len(),
            forall|j: int| 0 <= j < lines@.len() ==> (#[trigger] lines@[j])@ == split_lines(s@.take(i as int))[j],
            cur@ == split_lines(s@.take(i as int)).last(),
        decreases s@.len() - i,
    {
        proof {
            lemma_split_lines(s@.take(i as int));
        }
        assert(s@.take(i + 1).drop_last() =~= s@.take(i as int));
        if s[i] == '\n' {
            lines.push(cur);
            cur = Vec::new();
        } else {
            cur.push(s[i]);
        }
        i = i + 1;
    }
    assert(s@.take(i as int) =~= s@);
    lines.push(cur);
    lines
}

fn push_repeat(out: &mut Vec<char>, c: char, n: usize)
    ensures
        final(out)@ == old(out)@ + repeat(c, n as int),
{
    let ghost start = out@;
    let mut i: usize = 0;
    while i < n
        invariant
            i <= n,
            out@ == start + repeat(c, i as int),
        decreases n - i,
    {
        out.push(c);
        i = i + 1;
        assert(out@ =~= start + repeat(c, i as int));
    }
}

fn push_chars(out: &mut Vec<char>, s: &Vec<char>, from: usize, to: usize)
    requires
        from <= to <= s@.len(),
    ensures
        final(out)@ == old(out)@ + s@.subrange(from as int, to as int),
{
    let ghost start = out@;
    let mut i: usize = from;
    while i < to
        invariant
            from <= i <= to,
            to <= s@.len(),
            out@ == start + s@.subrange(from as int, i as int),
        decreases to - i,
    {
        out.push(s[i]);
        i = i + 1;
        assert(out@ =~= start + s@.subrange(from as int, i as int));
    }
}

fn push_ellipsis(out: &mut Vec<char>)
    ensures
        final(out)@ == old(out)@ + ellipsis(),
{
    out.push('.');
    out.push('.');
    out.push('.');
    assert(out@ =~= old(out)@ + ellipsis());
}

fn push_underline(out: &mut Vec<char>, s: usize, e: usize)
    ensures
        final(out)@ == old(out)@ + underline(s as int, e as int),
{
    let ghost start = out@;
    out.push('\n');
    push_repeat(out, ' ', s);
    let n: usize = if e > s && e - s > 1 { e - s } else { 1 };
    push_repeat(out, '~', n);
    assert(out@ =~= start + underline(s as int, e as int));
}

fn render_line_into(out: &mut Vec<char>, line: &Vec<char>, s: usize, e: usize)
    requires
        line@.len() <= isize::MAX,
        s <= isize::MAX,
        e <= isize::MAX,
    ensures
        final(out)@ == old(out)@ + render_line(line@, s as int, e as int),
{
    let ghost start = out@;
    let n = line.len();
    if n > 90 {
        let st: usize = if s > 60 {
            if s - 20 <= n - 80 {
                s - 20
            } else {
                n - 80
            }
        } else {
            0
        };
        let mut s1: usize = if s >= st { s - st } else { 0 };
        let mut e1: usize = if e >= st { e - st } else { 0 };
        let ghost before = out@;
        if st > 0 {
            push_ellipsis(out);
            s1 = s1 + 3;
            e1 = e1 + 3;
        }
        push_chars(out, line, st, st + 80);
        let lt_len: usize = if st > 0 { 83 } else { 80 };
        if n > st + 80 {
            if e1 > lt_len {
                e1 = lt_len;
            }
            push_ellipsis(out);
        }
        push_underline(out, s1, e1);
        assert(out@ =~= start + render_line(line@, s as int, e as int));
    } else {
        let ghost before = out@;
        push_chars(out, line, 0, n);
        assert(line@.subrange(0, n as int) =~= line@);
        push_underline(out, s, e);
    }
}

fn trim_cr_exec(line: &Vec<char>) -> (res: usize)
    ensures
        res <= line@.len(),
        line@.subrange(0, res as int) == trim_cr(line@),
{
    if line.len() > 0 && line[line.len() - 1] == '\r' {
        assert(line@.subrange(0, line.len() - 1) =~= line@.drop_last());
        line.len() - 1
    } else {
        assert(line@.subrange(0, line.len() as int) =~= line@);
        line.len()
    }
}

/// The highlight of the given lines.
fn highlight_lines(lines: &Vec<Vec<char>>, s0: usize, e0: usize) -> (res: Vec<char>)
    requires
        lines@.len() >= 1,
        forall|i: int| 0 <= i < lines@.len() ==> (#[trigger] lines@[i])@.len() <= isize::MAX,
        s0 <= isize::MAX,
        e0 <= isize::MAX,
    ensures
        res@ == highlight_upto(lines@.map_values(|l: Vec<char>| l@), s0 as int, e0 as int, lines@.len() as int),
{
    let ghost ls = lines@.map_values(|l: Vec<char>| l@);
    let mut out: Vec<char> = Vec::new();
    let line_count = lines.len();
    let mut i: usize = 0;
    while i < line_count
        invariant
            line_count == lines@.len(),
            ls == lines@.map_values(|l: Vec<char>| l@),
            i <= line_count,
            forall|j: int| 0 <= j < lines@.len() ==> (#[trigger] lines@[j])@.len() <= isize::MAX,
            s0 <= isize::MAX,
            e0 <= isize::MAX,
            out@ == highlight_upto(ls, s0 as int, e0 as int, i as int),
        decreases line_count - i,
    {
        let is_last = i == line_count - 1;
        if i > 2 && !is_last {
            i = i + 1;
            continue;
        }
        if i > 0 {
            out.push('\n');
        }
        if i == 2 && !is_last {
            push_ellipsis(&mut out);
            i = i + 1;
            continue;
        }
        let line_full = &lines[i];
        let len = trim_cr_exec(line_full);
        let mut line: Vec<char> = Vec::new();
        push_chars(&mut line, line_full, 0, len);
        assert(line@ =~= trim_cr(ls[i as int]));
        let s: usize = if i == 0 { s0 } else { 0 };
        let e: usize = if is_last { e0 } else { len };
        render_line_into(&mut out, &line, s, e);
        i = i + 1;
    }
    out
}

/// The column of a position within valid bytes is at most their length.
proof fn lemma_column_bound(sub: Seq<u8>, pos: int)
    requires
        valid_utf8(sub),
        0 <= pos <= sub.len(),
        is_char_boundary(sub, pos),
    ensures
        0 <= spec_column_index_of_pos(sub, pos) <= sub.len(),
{
    lemma_line_start_boundary(sub, pos);
    let ls = spec_line_start_byte_pos(sub, pos);
    lemma_boundary_valid(sub, ls, pos);
    lemma_decode_len(sub.subrange(ls, pos));
}

/// Renders the lines of the text holding the range, each followed by a
/// line of `~` under the part of it in the range.
pub fn get_range_text_highlight(text_info: &TextInfo, byte_range: SourceRange) -> (res: String)
    requires
        range_is_showable(text_info.bytes(), byte_range.start as int, byte_range.end as int),
    ensures
        res@ == spec_range_text_highlight(text_info.bytes(), byte_range.start as int, byte_range.end as int),
{
    let ghost b = text_info.bytes();
    let total = text_info.len();
    let (sub_text, (error_start, error_end)) = get_text_and_error_range(text_info, byte_range);
    let ghost (ss, se, es, ee) = spec_text_and_error_range(b, byte_range.start as int, byte_range.end as int);
    proof {
        text_info.lemma_bytes_valid();
        lemma_boundary_in_subrange(b, ss, se, byte_range.start as int);
        lemma_boundary_in_subrange(b, ss, se, byte_range.end as int);
        lemma_column_bound(b.subrange(ss, se), es);
        lemma_column_bound(b.subrange(ss, se), ee);
    }
    let error_start_char_index = get_column_index_of_pos(sub_text, error_start);
    let error_end_char_index = get_column_index_of_pos(sub_text, error_end);
    let chars = chars_of(sub_text);
    let lines = split_lines_exec(&chars);
    proof {
        lemma_decode_len(b.subrange(ss, se));
        lemma_split_lines(chars@);
        assert forall|i: int| 0 <= i < lines@.len() implies (#[trigger] lines@[i])@.len() <= isize::MAX by {
            assert(lines@[i]@ == split_lines(chars@)[i]);
        }
        assert(lines@.map_values(|l: Vec<char>| l@) =~= split_lines(chars@));
    }
    let out = highlight_lines(&lines, error_start_char_index, error_end_char_index);
    string_from_chars(&out)
}

/// The kind of a syntax error: those that stop the syntax tree from
/// representing the original text are told apart, the rest are `Other`.
#[derive(Debug, Clone, Copy, PartialEq, Eq, Structural)]
pub enum SyntaxErrorKind {
    /// Unexpected end of file.
    Eof,
    /// Expected an identifier (TypeScript).
    TS1003,
    /// Expected an identifier.
    ExpectedIdent,
    /// Expected a semicolon (TypeScript).
    TS1005,
    /// Expected a semicolon.
    ExpectedSemi,
    /// Expected an expression (TypeScript).
    TS1109,
    /// Expected a token.
    Expected,
    /// Expected a digit.
    ExpectedDigit,
    /// Expected `;`, `}` or the end of the file.
    ExpectedSemiForExprStmt,
    /// Expected a unicode escape.
    ExpectedUnicodeEscape,
    /// Unterminated string literal.
    UnterminatedStrLit,
    /// Unterminated block comment.
    UnterminatedBlockComment,
    /// Unterminated JSX contents.
    UnterminatedJSXContents,
    /// Unterminated regular expression.
    UnterminatedRegExp,
    /// Unterminated template.
    UnterminatedTpl,
    /// Unexpected token.
    Unexpected,
    /// Merge conflict marker.
    TS1185,
    /// Any other syntax error.
    Other,
}

/// The name of the variant in the `Debug` rendering of an enum value: what
/// comes before the first `(`, ` ` or `{`.
pub open spec fn variant_name(debug: Seq<char>) -> Seq<char>
    decreases debug.len(),
{
    if debug.len() == 0 {
        Seq::empty()
    } else if debug[0] == '(' || debug[0] == ' ' || debug[0] == '{' {
        Seq::empty()
    } else {
        seq![debug[0]] + variant_name(debug.drop_first())
    }
}

/// The kind of a syntax error from the name of its variant.
pub open spec fn kind_for_variant(name: Seq<char>) -> SyntaxErrorKind {
    if name == "Eof"@ {
        SyntaxErrorKind::Eof
    } else if name == "TS1003"@ {
        SyntaxErrorKind::TS1003
    } else if name == "ExpectedIdent"@ {
        SyntaxErrorKind::ExpectedIdent
    } else if name == "TS1005"@ {
        SyntaxErrorKind::TS1005
    } else if name == "ExpectedSemi"@ {
        SyntaxErrorKind::ExpectedSemi
    } else if name == "TS1109"@ {
        SyntaxErrorKind::TS1109
    } else if name == "Expected"@ {
        SyntaxErrorKind::Expected
    } else if name == "ExpectedDigit"@ {
        SyntaxErrorKind::ExpectedDigit
    } else if name == "ExpectedSemiForExprStmt"@ {
        SyntaxErrorKind::ExpectedSemiForExprStmt
    } else if name == "ExpectedUnicodeEscape"@ {
        SyntaxErrorKind::ExpectedUnicodeEscape
    } else if name == "UnterminatedStrLit"@ {
        SyntaxErrorKind::UnterminatedStrLit
    } else if name == "UnterminatedBlockComment"@ {
        SyntaxErrorKind::UnterminatedBlockComment
    } else if name == "UnterminatedJSXContents"@ {
        SyntaxErrorKind::UnterminatedJSXContents
    } else if name == "UnterminatedRegExp"@ {
        SyntaxErrorKind::UnterminatedRegExp
    } else if name == "UnterminatedTpl"@ {
        SyntaxErrorKind::UnterminatedTpl
    } else if name == "Unexpected"@ {
        SyntaxErrorKind::Unexpected
    } else if name == "TS1185"@ {
        SyntaxErrorKind::TS1185
    } else {
        SyntaxErrorKind::Other
    }
}

/// The kind of a syntax error from the `Debug` rendering of the parser's
/// error kind.
pub open spec fn kind_for_debug(debug: Seq<char>) -> SyntaxErrorKind {
    kind_for_variant(variant_name(debug))
}

fn chars_equal(a: &Vec<char>, b: &str) -> (res: bool)
    ensures
        res == (a@ == b@),
{
    let bc = chars_of(b);
    if a.len() != bc.len() {
        return false;
    }
    let mut i: usize = 0;
    while i < a.len()
        invariant
            a@.len() == bc@.len(),
            bc@ == b@,
            i <= a@.len(),
            forall|j: int| 0 <= j < i ==> a@[j] == bc@[j],
        decreases a@.len() - i,
    {
        if a[i] != bc[i] {
            return false;
        }
        i = i + 1;
    }
    assert(a@ =~= bc@);
    true
}

/// The kind of a syntax error from the `Debug` rendering of its kind.
pub fn kind_from_debug(debug: &str) -> (res: SyntaxErrorKind)
    ensures
        res == kind_for_debug(debug@),
{
    let chars = chars_of(debug);
    let mut name: Vec<char> = Vec::new();
    let mut i: usize = 0;
    assert(chars@.skip(0) =~= chars@);
    assert(name@ + variant_name(chars@.skip(0)) =~= variant_name(chars@));
    while i < chars.len() && chars[i] != '(' && chars[i] != ' ' && chars[i] != '{'
        invariant
            i <= chars@.len(),
            name@ + variant_name(chars@.skip(i as int)) == variant_name(chars@),
        decreases chars@.len() - i,
    {
        assert(chars@.skip(i as int).drop_first() =~= chars@.skip(i + 1));
        name.push(chars[i]);
        i = i + 1;
        assert(name@ + variant_name(chars@.skip(i as int)) =~= variant_name(chars@));
    }
    assert(variant_name(chars@.skip(i as int)) =~= Seq::<char>::empty());
    assert(name@ =~= variant_name(debug@));
    if chars_equal(&name, "Eof") {
        SyntaxErrorKind::Eof
    } else if chars_equal(&name, "TS1003") {
        SyntaxErrorKind::TS1003
    } else if chars_equal(&name, "ExpectedIdent") {
        SyntaxErrorKind::ExpectedIdent
    } else if chars_equal(&name, "TS1005") {
        SyntaxErrorKind::TS1005
    } else if chars_equal(&name, "ExpectedSemi") {
        SyntaxErrorKind::ExpectedSemi
    } else if chars_equal(&name, "TS1109") {
        SyntaxErrorKind::TS1109
    } else if chars_equal(&name, "Expected") {
        SyntaxErrorKind::Expected
    } else if chars_equal(&name, "ExpectedDigit") {
        SyntaxErrorKind::ExpectedDigit
    } else if chars_equal(&name, "ExpectedSemiForExprStmt") {
        SyntaxErrorKind::ExpectedSemiForExprStmt
    } else if chars_equal(&name, "ExpectedUnicodeEscape") {
        SyntaxErrorKind::ExpectedUnicodeEscape
    } else if chars_equal(&name, "UnterminatedStrLit") {
        SyntaxErrorKind::UnterminatedStrLit
    } else if chars_equal(&name, "UnterminatedBlockComment") {
        SyntaxErrorKind::UnterminatedBlockComment
    } else if chars_equal(&name, "UnterminatedJSXContents") {
        SyntaxErrorKind::UnterminatedJSXContents
    } else if chars_equal(&name, "UnterminatedRegExp") {
        SyntaxErrorKind::UnterminatedRegExp
    } else if chars_equal(&name, "UnterminatedTpl") {
        SyntaxErrorKind::UnterminatedTpl
    } else if chars_equal(&name, "Unexpected") {
        SyntaxErrorKind::Unexpected
    } else if chars_equal(&name, "TS1185") {
        SyntaxErrorKind::TS1185
    } else {
        SyntaxErrorKind::Other
    }
}

/// Gets whether the syntax error stops the syntax tree from representing
/// the original text, which means formatting would cause more harm than
/// good: every kind but `Other`.
pub fn is_unsupported_syntax_error(kind: &SyntaxErrorKind) -> (res: bool)
    ensures
        res == !(*kind is Other),
{
    match kind {
        SyntaxErrorKind::Other => false,
        _ => true,
    }
}

pub open spec fn clamp(x: int, lo: int, hi: int) -> int {
    if x < lo {
        lo
    } else if x > hi {
        hi
    } else {
        x
    }
}

/// ` at `
pub open spec fn at_text() -> Seq<char> {
    seq![' ', 'a', 't', ' ']
}

/// `s` with a line of it replaced by the empty line when it is blank and
/// indented by two spaces otherwise.
pub open spec fn indent_line(line: Seq<char>) -> Seq<char> {
    if is_blank(line) {
        Seq::empty()
    } else {
        seq![' ', ' '] + line
    }
}

/// The lines of `s` as `str::lines` gives them: split at `\n`, without a
/// trailing `\r`, and without a last empty line after a final `\n`.
pub open spec fn str_lines(s: Seq<char>) -> Seq<Seq<char>> {
    let parts = split_lines(s);
    let parts = if s.len() == 0 {
        Seq::empty()
    } else if s.last() == '\n' {
        parts.drop_last()
    } else {
        parts
    };
    parts.map_values(|l: Seq<char>| trim_cr(l))
}

/// The lines joined by `\n`.
pub open spec fn join_lines(lines: Seq<Seq<char>>) -> Seq<char>
    decreases lines.len(),
{
    if lines.len() == 0 {
        Seq::empty()
    } else if lines.len() == 1 {
        lines[0]
    } else {
        join_lines(lines.drop_last()) + seq!['\n'] + lines.last()
    }
}

/// The highlight with each line indented by two spaces, and blank lines
/// left empty.
pub open spec fn indent_highlight(h: Seq<char>) -> Seq<char> {
    join_lines(str_lines(h).map_values(|l: Seq<char>| indent_line(l)))
}

/// A syntax error that occurred while parsing.
pub struct ParseDiagnostic {
    specifier: String,
    range: SourceRange,
    kind_debug: String,
    message: String,
    text_info: TextInfo,
}

impl ParseDiagnostic {
    /// The range with its start clamped into the text and its end clamped
    /// between its start and the end of the text, since a parser will
    /// sometimes report a dummy or out of range position.
    pub open spec fn spec_clamped_range(range: SourceRange, len: int) -> (int, int) {
        let start = clamp(range.start as int, 0, len);
        (start, clamp(range.end as int, start, len))
    }

    /// A diagnostic can be rendered when its clamped range is showable.
    pub open spec fn is_renderable(range: SourceRange, text_info: TextInfo) -> bool {
        let (start, end) = Self::spec_clamped_range(range, text_info.bytes().len() as int);
        range_is_showable(text_info.bytes(), start, end)
    }

    /// Whether the diagnostic can be rendered.
    pub open spec fn renderable(&self) -> bool {
        Self::is_renderable(self.spec_range(), self.spec_text_info())
    }

    pub closed spec fn spec_specifier(&self) -> Seq<char> {
        self.specifier@
    }

    pub closed spec fn spec_range(&self) -> SourceRange {
        self.range
    }

    /// The `Debug` rendering of the parser's error kind.
    pub closed spec fn spec_kind_debug(&self) -> Seq<char> {
        self.kind_debug@
    }

    /// The kind of the syntax error, from the `Debug` rendering of the
    /// parser's error kind.
    pub open spec fn spec_kind(&self) -> SyntaxErrorKind {
        kind_for_debug(self.spec_kind_debug())
    }

    pub closed spec fn spec_message(&self) -> Seq<char> {
        self.message@
    }

    pub closed spec fn spec_text_info(&self) -> TextInfo {
        self.text_info
    }

    /// Creates a diagnostic.
    ///
    /// `kind_debug` is the `Debug` rendering of the parser's error kind,
    /// which the kind is read from.
    pub(crate) fn new(specifier: String, range: SourceRange, kind_debug: String, message: String, text_info: TextInfo) -> (res: ParseDiagnostic)
        ensures
            res.spec_specifier() == specifier@,
            res.spec_range() == range,
            res.spec_kind_debug() == kind_debug@,
            res.spec_message() == message@,
            res.spec_text_info() == text_info,
    {
        ParseDiagnostic { specifier, range, kind_debug, message, text_info }
    }

    /// Specifier of the source the diagnostic occurred in.
    pub fn specifier(&self) -> (res: &str)
        ensures
            res@ == self.spec_specifier(),
    {
        self.specifier.as_str()
    }

    /// Range of the diagnostic.
    pub fn range(&self) -> (res: SourceRange)
        ensures
            res == self.spec_range(),
    {
        self.range
    }

    /// Kind of the syntax error.
    pub fn kind(&self) -> (res: SyntaxErrorKind)
        ensures
            res == self.spec_kind(),
    {
        kind_from_debug(self.kind_debug.as_str())
    }

    /// The `Debug` rendering of the parser's error kind.
    pub fn kind_debug(&self) -> (res: &str)
        ensures
            res@ == self.spec_kind_debug(),
    {
        self.kind_debug.as_str()
    }

    /// Text info of the source the diagnostic occurred in.
    pub fn text_info(&self) -> (res: &TextInfo)
        ensures
            *res == self.spec_text_info(),
    {
        &self.text_info
    }

    /// Human readable message describing the error.
    pub fn message(&self) -> (res: &str)
        ensures
            res@ == self.spec_message(),
    {
        self.message.as_str()
    }

    /// The range within the text.
    pub fn clamped_range(&self) -> (res: SourceRange)
        ensures
            (res.start as int, res.end as int) == Self::spec_clamped_range(
                self.spec_range(),
                self.spec_text_info().bytes().len() as int,
            ),
            self.renderable() ==> range_is_showable(self.spec_text_info().bytes(), res.start as int, res.end as int),
    {
        let len = self.text_info.len();
        let start = if self.range.start > len { len } else { self.range.start };
        let end = if self.range.end < start {
            start
        } else if self.range.end > len {
            len
        } else {
            self.range.end
        };
        SourceRange { start, end }
    }

    /// Checks whether the diagnostic can be rendered: its clamped range must
    /// lie on character boundaries and end within a line.
    pub fn is_renderable_exec(&self) -> (res: bool)
        ensures
            res == self.renderable(),
    {
        let range = self.clamped_range();
        range_is_showable_exec(&self.text_info, range.start, range.end)
    }

    /// The 1-indexed line and column the diagnostic occurred at.
    pub open spec fn spec_display_position(&self) -> (int, int) {
        spec_line_and_column_display(
            self.spec_text_info().bytes(),
            Self::spec_clamped_range(self.spec_range(), self.spec_text_info().bytes().len() as int).0,
        )
    }

    /// 1-indexed display position the diagnostic occurred at.
    pub fn display_position(&self) -> (res: LineAndColumnDisplay)
        ensures
            (res.line_number as int, res.column_number as int) == self.spec_display_position(),
    {
        let range = self.clamped_range();
        self.text_info.line_and_column_display(range.start)
    }

    /// The rendering of the diagnostic: the message, where it occurred as
    /// `specifier:line:column`, a blank line, and the highlight of the range
    /// indented by two spaces.
    pub open spec fn spec_to_string(&self) -> Seq<char> {
        let (line, column) = self.spec_display_position();
        let (start, end) = Self::spec_clamped_range(self.spec_range(), self.spec_text_info().bytes().len() as int);
        self.spec_message() + at_text() + self.spec_specifier() + seq![':'] + decimal(line as nat) + seq![':']
            + decimal(column as nat) + seq!['\n', '\n'] + indent_highlight(
            spec_range_text_highlight(self.spec_text_info().bytes(), start, end),
        )
    }

    /// Renders the diagnostic.
    pub fn to_string(&self) -> (res: String)
        requires
            self.renderable(),
        ensures
            res@ == self.spec_to_string(),
    {
        let mut out: Vec<char> = Vec::new();
        self.push_rendering(&mut out);
        string_from_chars(&out)
    }

    #[verifier::rlimit(40)]
    fn push_rendering(&self, out: &mut Vec<char>)
        requires
            self.renderable(),
        ensures
            final(out)@ == old(out)@ + self.spec_to_string(),
    {
        let ghost start = out@;
        let position = self.display_position();
        let range = self.clamped_range();
        let highlight = get_range_text_highlight(&self.text_info, range);
        push_str(out, self.message.as_str());
        out.push(' ');
        out.push('a');
        out.push('t');
        out.push(' ');
        push_str(out, self.specifier.as_str());
        out.push(':');
        push_decimal(out, position.line_number);
        out.push(':');
        push_decimal(out, position.column_number);
        out.push('\n');
        out.push('\n');
        let ghost before = out@;
        push_indented(out, highlight.as_str());
        assert(out@ =~= start + self.spec_to_string());
    }
}

fn push_indented(out: &mut Vec<char>, h: &str)
    ensures
        final(out)@ == old(out)@ + indent_highlight(h@),
{
    let chars = chars_of(h);
    let parts = split_lines_exec(&chars);
    proof {
        lemma_split_lines(chars@);
    }
    let count: usize = if chars.len() == 0 {
        0
    } else if chars[chars.len() - 1] == '\n' {
        parts.len() - 1
    } else {
        parts.len()
    };
    let ghost lines = str_lines(h@);
    let ghost indented = lines.map_values(|l: Seq<char>| indent_line(l));
    assert(lines.len() == count);
    let ghost start = out@;
    let mut i: usize = 0;
    while i < count
        invariant
            count <= parts@.len(),
            count == lines.len(),
            indented == lines.map_values(|l: Seq<char>| indent_line(l)),
            lines == str_lines(h@),
            chars@ == h@,
            parts@.len() == split_lines(chars@).len(),
            forall|j: int| 0 <= j < parts@.len() ==> (#[trigger] parts@[j])@ == split_lines(chars@)[j],
            i <= count,
            out@ == start + join_lines(indented.take(i as int)),
        decreases count - i,
    {
        let part = &parts[i];
        let len = trim_cr_exec(part);
        let mut line: Vec<char> = Vec::new();
        push_chars(&mut line, part, 0, len);
        assert(line@ == lines[i as int]);
        if i > 0 {
            out.push('\n');
        }
        if !chars_are_blank(&line) {
            out.push(' ');
            out.push(' ');
            push_chars(out, &line, 0, line.len());
            assert(line@.subrange(0, line@.len() as int) =~= line@);
        }
        assert(indented.take(i + 1).drop_last() =~= indented.take(i as int));
        assert(out@ =~= start + join_lines(indented.take(i + 1)));
        i = i + 1;
    }
    assert(indented.take(count as int) =~= indented);
}

impl ParseDiagnostic {
    /// Two diagnostics are equal when their specifiers, ranges and error
    /// kinds (as the parser renders them) are; the text they occurred in is
    /// not compared.
    pub fn eq(&self, other: &ParseDiagnostic) -> (res: bool)
        ensures
            res == (self.spec_specifier() == other.spec_specifier() && self.spec_range() == other.spec_range()
                && self.spec_kind_debug() == other.spec_kind_debug()),
    {
        str_eq(self.specifier.as_str(), other.specifier.as_str()) && self.range == other.range && str_eq(
            self.kind_debug.as_str(),
            other.kind_debug.as_str(),
        )
    }
}

/// Multiple syntax errors that occurred while parsing.
pub struct ParseDiagnosticsError(pub Vec<ParseDiagnostic>);

/// The renderings of the diagnostics, separated by blank lines.
pub open spec fn spec_join_renderings(diagnostics: Seq<ParseDiagnostic>) -> Seq<char>
    decreases diagnostics.len(),
{
    if diagnostics.len() == 0 {
        Seq::empty()
    } else if diagnostics.len() == 1 {
        diagnostics[0].spec_to_string()
    } else {
        spec_join_renderings(diagnostics.drop_last()) + seq!['\n', '\n'] + diagnostics.last().spec_to_string()
    }
}

impl ParseDiagnosticsError {
    /// Renders the diagnostics, separated by blank lines.
    pub fn to_string(&self) -> (res: String)
        requires
            forall|i: int| 0 <= i < self.0@.len() ==> (#[trigger] self.0@[i]).renderable(),
        ensures
            res@ == spec_join_renderings(self.0@),
    {
        let mut out: Vec<char> = Vec::new();
        let mut i: usize = 0;
        while i < self.0.len()
            invariant
                i <= self.0@.len(),
                forall|j: int| 0 <= j < self.0@.len() ==> (#[trigger] self.0@[j]).renderable(),
                out@ == spec_join_renderings(self.0@.take(i as int)),
            decreases self.0@.len() - i,
        {
            if i > 0 {
                out.push('\n');
                out.push('\n');
            }
            self.0[i].push_rendering(&mut out);
            assert(self.0@.take(i + 1).drop_last() =~= self.0@.take(i as int));
            i = i + 1;
        }
        assert(self.0@.take(i as int) =~= self.0@);
        string_from_chars(&out)
    }
}

/// Law: the clamped range of a diagnostic always lies within the text and
/// is ordered, whatever range the parser reported.
pub proof fn law_clamped_range_within_text(range: SourceRange, len: int)
    requires
        0 <= len,
    ensures
        ({
            let (start, end) = ParseDiagnostic::spec_clamped_range(range, len);
            0 <= start <= end <= len
        }),
{
}

/// Law: of a range over more than three lines, only the first two lines,
/// `...`, and the last line are shown.
pub proof fn law_highlight_shows_first_two_and_last_lines(lines: Seq<Seq<char>>, s0: int, e0: int)
    requires
        lines.len() > 3,
    ensures
        highlight_upto(lines, s0, e0, lines.len() as int) == highlight_upto(lines, s0, e0, 3) + seq!['\n']
            + render_line(trim_cr(lines.last()), 0, e0),
{
    lemma_highlight_skips_middle(lines, s0, e0, lines.len() - 1);
}

proof fn lemma_highlight_skips_middle(lines: Seq<Seq<char>>, s0: int, e0: int, k: int)
    requires
        3 <= k < lines.len(),
    ensures
        highlight_upto(lines, s0, e0, k) == highlight_upto(lines, s0, e0, 3),
    decreases k,
{
    if k > 3 {
        lemma_highlight_skips_middle(lines, s0, e0, k - 1);
    }
}

/// Law: the renderings of several diagnostics are joined by blank lines:
/// none renders as the empty text, one as its own rendering, and two runs
/// of diagnostics render as their renderings joined by a blank line.
pub proof fn law_join_renderings(a: Seq<ParseDiagnostic>, b: Seq<ParseDiagnostic>)
    ensures
        spec_join_renderings(Seq::<ParseDiagnostic>::empty()) == Seq::<char>::empty(),
        a.len() == 1 ==> spec_join_renderings(a) == a[0].spec_to_string(),
        a.len() > 0 && b.len() > 0 ==> spec_join_renderings(a + b) == spec_join_renderings(a) + seq!['\n', '\n']
            + spec_join_renderings(b),
    decreases b.len(),
{
    if a.len() > 0 && b.len() > 0 {
        let sep = seq!['\n', '\n'];
        assert((a + b).drop_last() =~= a + b.drop_last());
        assert((a + b).last() == b.last());
        if b.len() == 1 {
            assert(a + b.drop_last() =~= a);
        } else {
            law_join_renderings(a, b.drop_last());
            assert(spec_join_renderings(a) + sep + spec_join_renderings(b.drop_last()) + sep + b.last().spec_to_string()
                =~= spec_join_renderings(a) + sep + (spec_join_renderings(b.drop_last()) + sep + b.last().spec_to_string()));
        }
    }
}

proof fn lemma_first_shown_line_is_last_nonblank(b: Seq<u8>, k: int, last_end: int)
    requires
        0 <= k,
    ensures
        ({
            let f = spec_first_shown_line(b, k, last_end);
            &&& 0 <= f <= k
            &&& f == 0 || !is_blank(decode_utf8(b.subrange(spec_line_start(b, f), last_end)))
            &&& forall|g: int| f < g <= k ==> is_blank(#[trigger] decode_utf8(b.subrange(spec_line_start(b, g), last_end)))
        }),
    decreases k,
{
    if k > 0 && is_blank(decode_utf8(b.subrange(spec_line_start(b, k), last_end))) {
        lemma_first_shown_line_is_last_nonblank(b, k - 1, last_end);
    }
}

/// Law: the shown text starts at the start of a line no later than the
/// range's first line, namely the last such line from which the text up to
/// the end of the range's last line is not blank: every later line up to
/// the range's first line starts only blank text, and the shown text is
/// blank only when it starts at the first line of the text.
pub proof fn law_shown_text_starts_at_last_nonblank_line(b: Seq<u8>, start: int, end: int)
    requires
        0 <= start <= end <= b.len(),
    ensures
        ({
            let (ss, se, es, ee) = spec_text_and_error_range(b, start, end);
            exists|f: int|
                {
                    &&& 0 <= f <= spec_line_index(b, start)
                    &&& ss == spec_line_start(b, f)
                    &&& f == 0 || !is_blank(decode_utf8(b.subrange(ss, se)))
                    &&& forall|g: int|
                        f < g <= spec_line_index(b, start) ==> is_blank(
                            #[trigger] decode_utf8(b.subrange(spec_line_start(b, g), se)),
                        )
                }
        }),
{
    let k = spec_line_index(b, start);
    let le = spec_line_end(b, spec_line_index(b, end));
    lemma_first_shown_line_is_last_nonblank(b, k, le);
    let f = spec_first_shown_line(b, k, le);
    assert(spec_text_and_error_range(b, start, end).0 == spec_line_start(b, f));
}

/// Law: however a line is cut to fit, the underline points at the start of
/// the range: the character above the first `~` is the line's character at
/// the range's start, so the shown part of the line holds it. The result
/// is where the shown line ends and the column of the first `~`.
pub proof fn law_underline_points_at_range_start(line: Seq<char>, s: int, e: int) -> (at: (int, int))
    requires
        forall|i: int| 0 <= i < line.len() ==> line[i] != '\n',
        0 <= s < line.len(),
    ensures
        ({
            let out = render_line(line, s, e);
            let (k, col) = at;
            &&& 0 <= col < k
            &&& k + 1 + col < out.len()
            &&& out[k] == '\n'
            &&& (forall|j: int| 0 <= j < k ==> out[j] != '\n')
            &&& out[col] == line[s]
            &&& out[k + 1 + col] == '~'
            &&& forall|j: int| k + 1 <= j < k + 1 + col ==> out[j] == ' '
        }),
{
    let n = line.len() as int;
    let out = render_line(line, s, e);
    if n > 90 {
        // the window starts 20 characters before the range, or 80 before
        // the end of the line, whichever is earlier
        let st = if s <= 60 {
            0
        } else if s - 20 <= n - 80 {
            s - 20
        } else {
            n - 80
        };
        let s1 = saturating_sub(s, st);
        let e1 = saturating_sub(e, st);
        let code = line.subrange(st, st + 80);
        let lt = if st > 0 {
            ellipsis() + code
        } else {
            code
        };
        let s2 = if st > 0 {
            s1 + 3
        } else {
            s1
        };
        let e2 = if st > 0 {
            e1 + 3
        } else {
            e1
        };
        let cut_end = n > st + 80;
        let e3 = if cut_end {
            min(e2, lt.len() as int)
        } else {
            e2
        };
        let shown = if cut_end {
            lt + ellipsis()
        } else {
            lt
        };
        let u = underline(s2, e3);
        assert(out == shown + u);
        assert(0 <= st <= s && s - st < 80);
        assert(s1 == s - st);
        assert(lt[s2] == line[s]);
        assert(shown[s2] == line[s]);
        assert(forall|j: int| 0 <= j < shown.len() ==> shown[j] != '\n');
        let k = shown.len() as int;
        assert(u[0] == '\n');
        assert(u[1 + s2] == '~');
        assert(forall|j: int| 1 <= j < 1 + s2 ==> u[j] == ' ');
        assert(out[k] == '\n');
        assert(out[s2] == line[s]);
        assert(out[k + 1 + s2] == '~');
        assert(forall|j: int| 0 <= j < k ==> out[j] != '\n');
        assert(forall|j: int| k + 1 <= j < k + 1 + s2 ==> out[j] == ' ');
        (k, s2)
    } else {
        let u = underline(s, e);
        assert(out == line + u);
        let k = n;
        assert(u[0] == '\n');
        assert(u[1 + s] == '~');
        assert(forall|j: int| 1 <= j < 1 + s ==> u[j] == ' ');
        assert(out[k] == '\n');
        assert(out[s] == line[s]);
        assert(out[k + 1 + s] == '~');
        assert(forall|j: int| 0 <= j < k ==> out[j] != '\n');
        assert(forall|j: int| k + 1 <= j < k + 1 + s ==> out[j] == ' ');
        (k, s)
    }
}

/// The parser's syntax error variants that stop the syntax tree from
/// representing the text, by the name of the variant, with their kinds.
pub open spec fn listed_unsupported_variants() -> Seq<(Seq<char>, SyntaxErrorKind)> {
    seq![
        ("Eof"@, SyntaxErrorKind::Eof),
        ("TS1003"@, SyntaxErrorKind::TS1003),
        ("ExpectedIdent"@, SyntaxErrorKind::ExpectedIdent),
        ("TS1005"@, SyntaxErrorKind::TS1005),
        ("ExpectedSemi"@, SyntaxErrorKind::ExpectedSemi),
        ("TS1109"@, SyntaxErrorKind::TS1109),
        ("Expected"@, SyntaxErrorKind::Expected),
        ("ExpectedDigit"@, SyntaxErrorKind::ExpectedDigit),
        ("ExpectedSemiForExprStmt"@, SyntaxErrorKind::ExpectedSemiForExprStmt),
        ("ExpectedUnicodeEscape"@, SyntaxErrorKind::ExpectedUnicodeEscape),
        ("UnterminatedStrLit"@, SyntaxErrorKind::UnterminatedStrLit),
        ("UnterminatedBlockComment"@, SyntaxErrorKind::UnterminatedBlockComment),
        ("UnterminatedJSXContents"@, SyntaxErrorKind::UnterminatedJSXContents),
        ("UnterminatedRegExp"@, SyntaxErrorKind::UnterminatedRegExp),
        ("UnterminatedTpl"@, SyntaxErrorKind::UnterminatedTpl),
        ("Unexpected"@, SyntaxErrorKind::Unexpected),
        ("TS1185"@, SyntaxErrorKind::TS1185),
    ]
}

/// Whether a character ends the name of a variant in a `Debug` rendering.
pub open spec fn ends_variant_name(c: char) -> bool {
    c == '(' || c == ' ' || c == '{'
}

proof fn lemma_variant_name_of(name: Seq<char>, rest: Seq<char>)
    requires
        forall|j: int| 0 <= j < name.len() ==> !ends_variant_name(#[trigger] name[j]),
        rest.len() == 0 || ends_variant_name(rest[0]),
    ensures
        variant_name(name + rest) == name,
    decreases name.len(),
{
    if name.len() == 0 {
        assert(name + rest =~= rest);
    } else {
        assert((name + rest).drop_first() =~= name.drop_first() + rest);
        lemma_variant_name_of(name.drop_first(), rest);
        assert(seq![name[0]] + name.drop_first() =~= name);
    }
}

/// Law: the `Debug` rendering of each listed parser error variant (its
/// name, alone or followed by its fields) is classified as that variant,
/// which is not `Other`; and any rendering that is not classified as
/// `Other` names one of the listed variants.
pub proof fn law_listed_variants_are_classified(i: int, rest: Seq<char>, debug: Seq<char>)
    requires
        0 <= i < listed_unsupported_variants().len(),
        rest.len() == 0 || ends_variant_name(rest[0]),
    ensures
        kind_for_debug(listed_unsupported_variants()[i].0 + rest) == listed_unsupported_variants()[i].1,
        !(listed_unsupported_variants()[i].1 is Other),
        !(kind_for_debug(debug) is Other) ==> exists|j: int|
            0 <= j < listed_unsupported_variants().len() && variant_name(debug)
                == #[trigger] listed_unsupported_variants()[j].0,
{
    reveal_strlit("Eof");
    reveal_strlit("TS1003");
    reveal_strlit("ExpectedIdent");
    reveal_strlit("TS1005");
    reveal_strlit("ExpectedSemi");
    reveal_strlit("TS1109");
    reveal_strlit("Expected");
    reveal_strlit("ExpectedDigit");
    reveal_strlit("ExpectedSemiForExprStmt");
    reveal_strlit("ExpectedUnicodeEscape");
    reveal_strlit("UnterminatedStrLit");
    reveal_strlit("UnterminatedBlockComment");
    reveal_strlit("UnterminatedJSXContents");
    reveal_strlit("UnterminatedRegExp");
    reveal_strlit("UnterminatedTpl");
    reveal_strlit("Unexpected");
    reveal_strlit("TS1185");
    let t = listed_unsupported_variants();
    let name = t[i].0;
    assert forall|j: int| 0 <= j < name.len() implies !ends_variant_name(#[trigger] name[j]) by {}
    lemma_variant_name_of(name, rest);
    assert(kind_for_variant(name) == t[i].1) by {
        if i == 0 {
            assert(kind_for_variant("Eof"@) == SyntaxErrorKind::Eof);
        } else if i == 1 {
            assert("TS1003"@.len() != "Eof"@.len());
            assert("TS1003"@ != "Eof"@);
            assert(kind_for_variant("TS1003"@) == SyntaxErrorKind::TS1003);
        } else if i == 2 {
            assert("ExpectedIdent"@.len() != "Eof"@.len());
            assert("ExpectedIdent"@ != "Eof"@);
            assert("ExpectedIdent"@.len() != "TS1003"@.len());
            assert("ExpectedIdent"@ != "TS1003"@);
            assert(kind_for_variant("ExpectedIdent"@) == SyntaxErrorKind::ExpectedIdent);
        } else if i == 3 {
            assert("TS1005"@.len() != "Eof"@.len());
            assert("TS1005"@ != "Eof"@);
            assert("TS1005"@[5] != "TS1003"@[5]);
            assert("TS1005"@ != "TS1003"@);
            assert("TS1005"@.len() != "ExpectedIdent"@.len());
            assert("TS1005"@ != "ExpectedIdent"@);
            assert(kind_for_variant("TS1005"@) == SyntaxErrorKind::TS1005);
        } else if i == 4 {
            assert("ExpectedSemi"@.len() != "Eof"@.len());
            assert("ExpectedSemi"@ != "Eof"@);
            assert("ExpectedSemi"@.len() != "TS1003"@.len());
            assert("ExpectedSemi"@ != "TS1003"@);
            assert("ExpectedSemi"@.len() != "ExpectedIdent"@.len());
            assert("ExpectedSemi"@ != "ExpectedIdent"@);
            assert("ExpectedSemi"@.len() != "TS1005"@.len());
            assert("ExpectedSemi"@ != "TS1005"@);
            assert(kind_for_variant("ExpectedSemi"@) == SyntaxErrorKind::ExpectedSemi);
        } else if i == 5 {
            assert("TS1109"@.len() != "Eof"@.len());
            assert("TS1109"@ != "Eof"@);
            assert("TS1109"@[3] != "TS1003"@[3]);
            assert("TS1109"@ != "TS1003"@);
            assert("TS1109"@.len() != "ExpectedIdent"@.len());
            assert("TS1109"@ != "ExpectedIdent"@);
            assert("TS1109"@[3] != "TS1005"@[3]);
            assert("TS1109"@ != "TS1005"@);
            assert("TS1109"@.len() != "ExpectedSemi"@.len());
            assert("TS1109"@ != "ExpectedSemi"@);
            assert(kind_for_variant("TS1109"@) == SyntaxErrorKind::TS1109);
        } else if i == 6 {
            assert("Expected"@.len() != "Eof"@.len());
            assert("Expected"@ != "Eof"@);
            assert("Expected"@.len() != "TS1003"@.len());
            assert("Expected"@ != "TS1003"@);
            assert("Expected"@.len() != "ExpectedIdent"@.len());
            assert("Expected"@ != "ExpectedIdent"@);
            assert("Expected"@.len() != "TS1005"@.len());
            assert("Expected"@ != "TS1005"@);
            assert("Expected"@.len() != "ExpectedSemi"@.len());
            assert("Expected"@ != "ExpectedSemi"@);
            assert("Expected"@.len() != "TS1109"@.len());
            assert("Expected"@ != "TS1109"@);
            assert(kind_for_variant("Expected"@) == SyntaxErrorKind::Expected);
        } else if i == 7 {
            assert("ExpectedDigit"@.len() != "Eof"@.len());
            assert("ExpectedDigit"@ != "Eof"@);
            assert("ExpectedDigit"@.len() != "TS1003"@.len());
            assert("ExpectedDigit"@ != "TS1003"@);
            assert("ExpectedDigit"@[8] != "ExpectedIdent"@[8]);
            assert("ExpectedDigit"@ != "ExpectedIdent"@);
            assert("ExpectedDigit"@.len() != "TS1005"@.len());
            assert("ExpectedDigit"@ != "TS1005"@);
            assert("ExpectedDigit"@.len() != "ExpectedSemi"@.len());
            assert("ExpectedDigit"@ != "ExpectedSemi"@);
            assert("ExpectedDigit"@.len() != "TS1109"@.len());
            assert("ExpectedDigit"@ != "TS1109"@);
            assert("ExpectedDigit"@.len() != "Expected"@.len());
            assert("ExpectedDigit"@ != "Expected"@);
            assert(kind_for_variant("ExpectedDigit"@) == SyntaxErrorKind::ExpectedDigit);
        } else if i == 8 {
            assert("ExpectedSemiForExprStmt"@.len() != "Eof"@.len());
            assert("ExpectedSemiForExprStmt"@ != "Eof"@);
            assert("ExpectedSemiForExprStmt"@.len() != "TS1003"@.len());
            assert("ExpectedSemiForExprStmt"@ != "TS1003"@);
            assert("ExpectedSemiForExprStmt"@.len() != "ExpectedIdent"@.len());
            assert("ExpectedSemiForExprStmt"@ != "ExpectedIdent"@);
            assert("ExpectedSemiForExprStmt"@.len() != "TS1005"@.len());
            assert("ExpectedSemiForExprStmt"@ != "TS1005"@);
            assert("ExpectedSemiForExprStmt"@.len() != "ExpectedSemi"@.len());
            assert("ExpectedSemiForExprStmt"@ != "ExpectedSemi"@);
            assert("ExpectedSemiForExprStmt"@.len() != "TS1109"@.len());
            assert("ExpectedSemiForExprStmt"@ != "TS1109"@);
            assert("ExpectedSemiForExprStmt"@.len() != "Expected"@.len());
            assert("ExpectedSemiForExprStmt"@ != "Expected"@);
            assert("ExpectedSemiForExprStmt"@.len() != "ExpectedDigit"@.len());
            assert("ExpectedSemiForExprStmt"@ != "ExpectedDigit"@);
            assert(kind_for_variant("ExpectedSemiForExprStmt"@) == SyntaxErrorKind::ExpectedSemiForExprStmt);
        } else if i == 9 {
            assert("ExpectedUnicodeEscape"@.len() != "Eof"@.len());
            assert("ExpectedUnicodeEscape"@ != "Eof"@);
            assert("ExpectedUnicodeEscape"@.len() != "TS1003"@.len());
            assert("ExpectedUnicodeEscape"@ != "TS1003"@);
            assert("ExpectedUnicodeEscape"@.len() != "ExpectedIdent"@.len());
            assert("ExpectedUnicodeEscape"@ != "ExpectedIdent"@);
            assert("ExpectedUnicodeEscape"@.len() != "TS1005"@.len());
            assert("ExpectedUnicodeEscape"@ != "TS1005"@);
            assert("ExpectedUnicodeEscape"@.len() != "ExpectedSemi"@.len());
            assert("ExpectedUnicodeEscape"@ != "ExpectedSemi"@);
            assert("ExpectedUnicodeEscape"@.len() != "TS1109"@.len());
            assert("ExpectedUnicodeEscape"@ != "TS1109"@);
            assert("ExpectedUnicodeEscape"@.len() != "Expected"@.len());
            assert("ExpectedUnicodeEscape"@ != "Expected"@);
            assert("ExpectedUnicodeEscape"@.len() != "ExpectedDigit"@.len());
            assert("ExpectedUnicodeEscape"@ != "ExpectedDigit"@);
            assert("ExpectedUnicodeEscape"@.len() != "ExpectedSemiForExprStmt"@.len());
            assert("ExpectedUnicodeEscape"@ != "ExpectedSemiForExprStmt"@);
            assert(kind_for_variant("ExpectedUnicodeEscape"@) == SyntaxErrorKind::ExpectedUnicodeEscape);
        } else if i == 10 {
            assert("UnterminatedStrLit"@.len() != "Eof"@.len());
            assert("UnterminatedStrLit"@ != "Eof"@);
            assert("UnterminatedStrLit"@.len() != "TS1003"@.len());
            assert("UnterminatedStrLit"@ != "TS1003"@);
            assert("UnterminatedStrLit"@.len() != "ExpectedIdent"@.len());
            assert("UnterminatedStrLit"@ != "ExpectedIdent"@);
            assert("UnterminatedStrLit"@.len() != "TS1005"@.len());
            assert("UnterminatedStrLit"@ != "TS1005"@);
            assert("UnterminatedStrLit"@.len() != "ExpectedSemi"@.len());
            assert("UnterminatedStrLit"@ != "ExpectedSemi"@);
            assert("UnterminatedStrLit"@.len() != "TS1109"@.len());
            assert("UnterminatedStrLit"@ != "TS1109"@);
            assert("UnterminatedStrLit"@.len() != "Expected"@.len());
            assert("UnterminatedStrLit"@ != "Expected"@);
            assert("UnterminatedStrLit"@.len() != "ExpectedDigit"@.len());
            assert("UnterminatedStrLit"@ != "ExpectedDigit"@);
            assert("UnterminatedStrLit"@.len() != "ExpectedSemiForExprStmt"@.len());
            assert("UnterminatedStrLit"@ != "ExpectedSemiForExprStmt"@);
            assert("UnterminatedStrLit"@.len() != "ExpectedUnicodeEscape"@.len());
            assert("UnterminatedStrLit"@ != "ExpectedUnicodeEscape"@);
            assert(kind_for_variant("UnterminatedStrLit"@) == SyntaxErrorKind::UnterminatedStrLit);
        } else if i == 11 {
            assert("UnterminatedBlockComment"@.len() != "Eof"@.len());
            assert("UnterminatedBlockComment"@ != "Eof"@);
            assert("UnterminatedBlockComment"@.len() != "TS1003"@.len());
            assert("UnterminatedBlockComment"@ != "TS1003"@);
            assert("UnterminatedBlockComment"@.len() != "ExpectedIdent"@.len());
            assert("UnterminatedBlockComment"@ != "ExpectedIdent"@);
            assert("UnterminatedBlockComment"@.len() != "TS1005"@.len());
            assert("UnterminatedBlockComment"@ != "TS1005"@);
            assert("UnterminatedBlockComment"@.len() != "ExpectedSemi"@.len());
            assert("UnterminatedBlockComment"@ != "ExpectedSemi"@);
            assert("UnterminatedBlockComment"@.len() != "TS1109"@.len());
            assert("UnterminatedBlockComment"@ != "TS1109"@);
            assert("UnterminatedBlockComment"@.len() != "Expected"@.len());
            assert("UnterminatedBlockComment"@ != "Expected"@);
            assert("UnterminatedBlockComment"@.len() != "ExpectedDigit"@.len());
            assert("UnterminatedBlockComment"@ != "ExpectedDigit"@);
            assert("UnterminatedBlockComment"@.len() != "ExpectedSemiForExprStmt"@.len());
            assert("UnterminatedBlockComment"@ != "ExpectedSemiForExprStmt"@);
            assert("UnterminatedBlockComment"@.len() != "ExpectedUnicodeEscape"@.len());
            assert("UnterminatedBlockComment"@ != "ExpectedUnicodeEscape"@);
            assert("UnterminatedBlockComment"@.len() != "UnterminatedStrLit"@.len());
            assert("UnterminatedBlockComment"@ != "UnterminatedStrLit"@);
            assert(kind_for_variant("UnterminatedBlockComment"@) == SyntaxErrorKind::UnterminatedBlockComment);
        } else if i == 12 {
            assert("UnterminatedJSXContents"@.len() != "Eof"@.len());
            assert("UnterminatedJSXContents"@ != "Eof"@);
            assert("UnterminatedJSXContents"@.len() != "TS1003"@.len());
            assert("UnterminatedJSXContents"@ != "TS1003"@);
            assert("UnterminatedJSXContents"@.len() != "ExpectedIdent"@.len());
            assert("UnterminatedJSXContents"@ != "ExpectedIdent"@);
            assert("UnterminatedJSXContents"@.len() != "TS1005"@.len());
            assert("UnterminatedJSXContents"@ != "TS1005"@);
            assert("UnterminatedJSXContents"@.len() != "ExpectedSemi"@.len());
            assert("UnterminatedJSXContents"@ != "ExpectedSemi"@);
            assert("UnterminatedJSXContents"@.len() != "TS1109"@.len());
            assert("UnterminatedJSXContents"@ != "TS1109"@);
            assert("UnterminatedJSXContents"@.len() != "Expected"@.len());
            assert("UnterminatedJSXContents"@ != "Expected"@);
            assert("UnterminatedJSXContents"@.len() != "ExpectedDigit"@.len());
            assert("UnterminatedJSXContents"@ != "ExpectedDigit"@);
            assert("UnterminatedJSXContents"@[0] != "ExpectedSemiForExprStmt"@[0]);
            assert("UnterminatedJSXContents"@ != "ExpectedSemiForExprStmt"@);
            assert("UnterminatedJSXContents"@.len() != "ExpectedUnicodeEscape"@.len());
            assert("UnterminatedJSXContents"@ != "ExpectedUnicodeEscape"@);
            assert("UnterminatedJSXContents"@.len() != "UnterminatedStrLit"@.len());
            assert("UnterminatedJSXContents"@ != "UnterminatedStrLit"@);
            assert("UnterminatedJSXContents"@.len() != "UnterminatedBlockComment"@.len());
            assert("UnterminatedJSXContents"@ != "UnterminatedBlockComment"@);
            assert(kind_for_variant("UnterminatedJSXContents"@) == SyntaxErrorKind::UnterminatedJSXContents);
        } else if i == 13 {
            assert("UnterminatedRegExp"@.len() != "Eof"@.len());
            assert("UnterminatedRegExp"@ != "Eof"@);
            assert("UnterminatedRegExp"@.len() != "TS1003"@.len());
            assert("UnterminatedRegExp"@ != "TS1003"@);
            assert("UnterminatedRegExp"@.len() != "ExpectedIdent"@.len());
            assert("UnterminatedRegExp"@ != "ExpectedIdent"@);
            assert("UnterminatedRegExp"@.len() != "TS1005"@.len());
            assert("UnterminatedRegExp"@ != "TS1005"@);
            assert("UnterminatedRegExp"@.len() != "ExpectedSemi"@.len());
            assert("UnterminatedRegExp"@ != "ExpectedSemi"@);
            assert("UnterminatedRegExp"@.len() != "TS1109"@.len());
            assert("UnterminatedRegExp"@ != "TS1109"@);
            assert("UnterminatedRegExp"@.len() != "Expected"@.len());
            assert("UnterminatedRegExp"@ != "Expected"@);
            assert("UnterminatedRegExp"@.len() != "ExpectedDigit"@.len());
            assert("UnterminatedRegExp"@ != "ExpectedDigit"@);
            assert("UnterminatedRegExp"@.len() != "ExpectedSemiForExprStmt"@.len());
            assert("UnterminatedRegExp"@ != "ExpectedSemiForExprStmt"@);
            assert("UnterminatedRegExp"@.len() != "ExpectedUnicodeEscape"@.len());
            assert("UnterminatedRegExp"@ != "ExpectedUnicodeEscape"@);
            assert("UnterminatedRegExp"@[12] != "UnterminatedStrLit"@[12]);
            assert("UnterminatedRegExp"@ != "UnterminatedStrLit"@);
            assert("UnterminatedRegExp"@.len() != "UnterminatedBlockComment"@.len());
            assert("UnterminatedRegExp"@ != "UnterminatedBlockComment"@);
            assert("UnterminatedRegExp"@.len() != "UnterminatedJSXContents"@.len());
            assert("UnterminatedRegExp"@ != "UnterminatedJSXContents"@);
            assert(kind_for_variant("UnterminatedRegExp"@) == SyntaxErrorKind::UnterminatedRegExp);
        } else if i == 14 {
            assert("UnterminatedTpl"@.len() != "Eof"@.len());
            assert("UnterminatedTpl"@ != "Eof"@);
            assert("UnterminatedTpl"@.len() != "TS1003"@.len());
            assert("UnterminatedTpl"@ != "TS1003"@);
            assert("UnterminatedTpl"@.len() != "ExpectedIdent"@.len());
            assert("UnterminatedTpl"@ != "ExpectedIdent"@);
            assert("UnterminatedTpl"@.len() != "TS1005"@.len());
            assert("UnterminatedTpl"@ != "TS1005"@);
            assert("UnterminatedTpl"@.len() != "ExpectedSemi"@.len());
            assert("UnterminatedTpl"@ != "ExpectedSemi"@);
            assert("UnterminatedTpl"@.len() != "TS1109"@.len());
            assert("UnterminatedTpl"@ != "TS1109"@);
            assert("UnterminatedTpl"@.len() != "Expected"@.len());
            assert("UnterminatedTpl"@ != "Expected"@);
            assert("UnterminatedTpl"@.len() != "ExpectedDigit"@.len());
            assert("UnterminatedTpl"@ != "ExpectedDigit"@);
            assert("UnterminatedTpl"@.len() != "ExpectedSemiForExprStmt"@.len());
            assert("UnterminatedTpl"@ != "ExpectedSemiForExprStmt"@);
            assert("UnterminatedTpl"@.len() != "ExpectedUnicodeEscape"@.len());
            assert("UnterminatedTpl"@ != "ExpectedUnicodeEscape"@);
            assert("UnterminatedTpl"@.len() != "UnterminatedStrLit"@.len());
            assert("UnterminatedTpl"@ != "UnterminatedStrLit"@);
            assert("UnterminatedTpl"@.len() != "UnterminatedBlockComment"@.len());
            assert("UnterminatedTpl"@ != "UnterminatedBlockComment"@);
            assert("UnterminatedTpl"@.len() != "UnterminatedJSXContents"@.len());
            assert("UnterminatedTpl"@ != "UnterminatedJSXContents"@);
            assert("UnterminatedTpl"@.len() != "UnterminatedRegExp"@.len());
            assert("UnterminatedTpl"@ != "UnterminatedRegExp"@);
            assert(kind_for_variant("UnterminatedTpl"@) == SyntaxErrorKind::UnterminatedTpl);
        } else if i == 15 {
            assert("Unexpected"@.len() != "Eof"@.len());
            assert("Unexpected"@ != "Eof"@);
            assert("Unexpected"@.len() != "TS1003"@.len());
            assert("Unexpected"@ != "TS1003"@);
            assert("Unexpected"@.len() != "ExpectedIdent"@.len());
            assert("Unexpected"@ != "ExpectedIdent"@);
            assert("Unexpected"@.len() != "TS1005"@.len());
            assert("Unexpected"@ != "TS1005"@);
            assert("Unexpected"@.len() != "ExpectedSemi"@.len());
            assert("Unexpected"@ != "ExpectedSemi"@);
            assert("Unexpected"@.len() != "TS1109"@.len());
            assert("Unexpected"@ != "TS1109"@);
            assert("Unexpected"@.len() != "Expected"@.len());
            assert("Unexpected"@ != "Expected"@);
            assert("Unexpected"@.len() != "ExpectedDigit"@.len());
            assert("Unexpected"@ != "ExpectedDigit"@);
            assert("Unexpected"@.len() != "ExpectedSemiForExprStmt"@.len());
            assert("Unexpected"@ != "ExpectedSemiForExprStmt"@);
            assert("Unexpected"@.len() != "ExpectedUnicodeEscape"@.len());
            assert("Unexpected"@ != "ExpectedUnicodeEscape"@);
            assert("Unexpected"@.len() != "UnterminatedStrLit"@.len());
            assert("Unexpected"@ != "UnterminatedStrLit"@);
            assert("Unexpected"@.len() != "UnterminatedBlockComment"@.len());
            assert("Unexpected"@ != "UnterminatedBlockComment"@);
            assert("Unexpected"@.len() != "UnterminatedJSXContents"@.len());
            assert("Unexpected"@ != "UnterminatedJSXContents"@);
            assert("Unexpected"@.len() != "UnterminatedRegExp"@.len());
            assert("Unexpected"@ != "UnterminatedRegExp"@);
            assert("Unexpected"@.len() != "UnterminatedTpl"@.len());
            assert("Unexpected"@ != "UnterminatedTpl"@);
            assert(kind_for_variant("Unexpected"@) == SyntaxErrorKind::Unexpected);
        } else if i == 16 {
            assert("TS1185"@.len() != "Eof"@.len());
            assert("TS1185"@ != "Eof"@);
            assert("TS1185"@[3] != "TS1003"@[3]);
            assert("TS1185"@ != "TS1003"@);
            assert("TS1185"@.len() != "ExpectedIdent"@.len());
            assert("TS1185"@ != "ExpectedIdent"@);
            assert("TS1185"@[3] != "TS1005"@[3]);
            assert("TS1185"@ != "TS1005"@);
            assert("TS1185"@.len() != "ExpectedSemi"@.len());
            assert("TS1185"@ != "ExpectedSemi"@);
            assert("TS1185"@[4] != "TS1109"@[4]);
            assert("TS1185"@ != "TS1109"@);
            assert("TS1185"@.len() != "Expected"@.len());
            assert("TS1185"@ != "Expected"@);
            assert("TS1185"@.len() != "ExpectedDigit"@.len());
            assert("TS1185"@ != "ExpectedDigit"@);
            assert("TS1185"@.len() != "ExpectedSemiForExprStmt"@.len());
            assert("TS1185"@ != "ExpectedSemiForExprStmt"@);
            assert("TS1185"@.len() != "ExpectedUnicodeEscape"@.len());
            assert("TS1185"@ != "ExpectedUnicodeEscape"@);
            assert("TS1185"@.len() != "UnterminatedStrLit"@.len());
            assert("TS1185"@ != "UnterminatedStrLit"@);
            assert("TS1185"@.len() != "UnterminatedBlockComment"@.len());
            assert("TS1185"@ != "UnterminatedBlockComment"@);
            assert("TS1185"@.len() != "UnterminatedJSXContents"@.len());
            assert("TS1185"@ != "UnterminatedJSXContents"@);
            assert("TS1185"@.len() != "UnterminatedRegExp"@.len());
            assert("TS1185"@ != "UnterminatedRegExp"@);
            assert("TS1185"@.len() != "UnterminatedTpl"@.len());
            assert("TS1185"@ != "UnterminatedTpl"@);
            assert("TS1185"@.len() != "Unexpected"@.len());
            assert("TS1185"@ != "Unexpected"@);
            assert(kind_for_variant("TS1185"@) == SyntaxErrorKind::TS1185);
        }
    }
    if !(kind_for_debug(debug) is Other) {
        let v = variant_name(debug);
        assert(exists|j: int| 0 <= j < t.len() && v == #[trigger] t[j].0) by {
            if v == "Eof"@ {
                assert(v == t[0].0);
            } else if v == "TS1003"@ {
                assert(v == t[1].0);
            } else if v == "ExpectedIdent"@ {
                assert(v == t[2].0);
            } else if v == "TS1005"@ {
                assert(v == t[3].0);
            } else if v == "ExpectedSemi"@ {
                assert(v == t[4].0);
            } else if v == "TS1109"@ {
                assert(v == t[5].0);
            } else if v == "Expected"@ {
                assert(v == t[6].0);
            } else if v == "ExpectedDigit"@ {
                assert(v == t[7].0);
            } else if v == "ExpectedSemiForExprStmt"@ {
                assert(v == t[8].0);
            } else if v == "ExpectedUnicodeEscape"@ {
                assert(v == t[9].0);
            } else if v == "UnterminatedStrLit"@ {
                assert(v == t[10].0);
            } else if v == "UnterminatedBlockComment"@ {
                assert(v == t[11].0);
            } else if v == "UnterminatedJSXContents"@ {
                assert(v == t[12].0);
            } else if v == "UnterminatedRegExp"@ {
                assert(v == t[13].0);
            } else if v == "UnterminatedTpl"@ {
                assert(v == t[14].0);
            } else if v == "Unexpected"@ {
                assert(v == t[15].0);
            } else if v == "TS1185"@ {
                assert(v == t[16].0);
            }
        }
    }
}

} // verus!
