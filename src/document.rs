//! Documents held in ropes, and the conversion between protocol positions
//! (line and column in a negotiated encoding) and character offsets.
use vstd::prelude::*;

use ropey::Rope;

use crate::utils::Encoding;

verus! {

#[verifier::external_type_specification]
#[verifier::external_body]
pub struct ExRope(Rope);

/// The characters a rope holds.
pub uninterp spec fn rope_chars(r: Rope) -> Seq<char>;

/// A line and a column, the column counted in units of the negotiated
/// encoding.
#[derive(Debug, Clone, Copy, PartialEq, Eq, Structural)]
pub struct Position {
    pub line: u32,
    pub character: u32,
}

/// LF, VT, FF, NEL, LINE SEPARATOR or PARAGRAPH SEPARATOR.
pub open spec fn is_break_char(c: char) -> bool {
    let u = c as u32;
    u == 0x0a || u == 0x0b || u == 0x0c || u == 0x85 || u == 0x2028 || u == 0x2029
}

/// A line ends with the character at `i`; a CR ends one unless an LF
/// follows it, the pair being one break.
pub open spec fn is_break_at(s: Seq<char>, i: int) -> bool {
    0 <= i < s.len() && (is_break_char(s[i]) || (s[i] as u32 == 0x0d && !(i + 1 < s.len() && s[i
        + 1] as u32 == 0x0a)))
}

/// How many lines end before index `i`: the line of the character at `i`.
pub open spec fn breaks_before(s: Seq<char>, i: int) -> nat
    decreases i,
{
    if i <= 0 {
        0
    } else {
        breaks_before(s, i - 1) + if is_break_at(s, i - 1) {
            1nat
        } else {
            0nat
        }
    }
}

pub open spec fn line_count(s: Seq<char>) -> nat {
    breaks_before(s, s.len() as int) + 1
}

pub open spec fn is_line_start(s: Seq<char>, i: int) -> bool {
    i == 0 || (0 < i <= s.len() && is_break_at(s, i - 1))
}

/// Line `l` begins at index `i`.
pub open spec fn starts_line(s: Seq<char>, l: int, i: int) -> bool {
    0 <= i <= s.len() && is_line_start(s, i) && breaks_before(s, i) == l
}

/// Where line `l` begins; the end of the text for the line past the last.
pub open spec fn line_start(s: Seq<char>, l: int) -> int {
    if l >= line_count(s) {
        s.len() as int
    } else {
        choose|i: int| starts_line(s, l, i)
    }
}

/// How many units of `enc` encode `c`.
pub open spec fn char_units(c: char, enc: Encoding) -> nat {
    let u = c as u32;
    match enc {
        Encoding::UTF8 => if u < 0x80 {
            1
        } else if u < 0x800 {
            2
        } else if u < 0x10000 {
            3
        } else {
            4
        },
        Encoding::UTF16 => if u < 0x10000 {
            1
        } else {
            2
        },
        Encoding::UTF32 => 1,
    }
}

/// How many units of `enc` encode the first `k` characters of `s`.
pub open spec fn units(s: Seq<char>, k: int, enc: Encoding) -> nat
    decreases k,
{
    if k <= 0 {
        0
    } else {
        units(s, k - 1, enc) + char_units(s[k - 1], enc)
    }
}

/// Unit `u` belongs to the character at `k`, or is the end of the text.
pub open spec fn is_char_at_unit(s: Seq<char>, u: int, enc: Encoding, k: int) -> bool {
    0 <= k <= s.len() && units(s, k, enc) <= u && (k == s.len() || u < units(s, k + 1, enc))
}

pub open spec fn char_at_unit(s: Seq<char>, u: int, enc: Encoding) -> int {
    choose|k: int| is_char_at_unit(s, u, enc, k)
}

/// The offset of position (`line`, `col`): the end of the text for column 0
/// of the line past the last; for UTF-32 the column is added to the line's
/// start; otherwise the column must lie within the line, its break included,
/// and a column inside a character gives that character.
pub open spec fn offset_of(s: Seq<char>, line: int, col: int, enc: Encoding) -> Option<int> {
    let lc = line_count(s) as int;
    if line == lc && col == 0 {
        Some(s.len() as int)
    } else if 0 <= line < lc {
        let st = line_start(s, line);
        match enc {
            Encoding::UTF32 => Some(st + col),
            _ => {
                let base = units(s, st, enc) as int;
                let lim = units(s, line_start(s, line + 1), enc) as int;
                if col > lim - base {
                    None
                } else {
                    Some(char_at_unit(s, base + col, enc))
                }
            },
        }
    } else {
        None
    }
}

/// The line and column of offset `o`.
pub open spec fn position_of(s: Seq<char>, o: int, enc: Encoding) -> Option<(int, int)> {
    if o < 0 || o > s.len() {
        None
    } else {
        let l = breaks_before(s, o) as int;
        let st = line_start(s, l);
        if st > o {
            None
        } else {
            let col = match enc {
                Encoding::UTF32 => o - st,
                _ => units(s, o, enc) - units(s, st, enc),
            };
            if col < 0 {
                None
            } else {
                Some((l, col))
            }
        }
    }
}

/// Relies on ropey's `Rope::from_str`: the rope holds the characters of `text`.
#[verifier::external_body]
pub(crate) fn rope_from_str(text: &str) -> (r: Rope)
    ensures
        rope_chars(r) == text@,
{
    Rope::from_str(text)
}

/// Relies on ropey's `Rope::len_chars`.
#[verifier::external_body]
pub(crate) fn len_chars(rope: &Rope) -> (r: usize)
    ensures
        r == rope_chars(*rope).len(),
{
    rope.len_chars()
}

/// Relies on ropey's `Rope::len_lines`: one more than the line breaks, which
/// with ropey's default `unicode_lines` feature are those `is_break_at` names.
#[verifier::external_body]
fn len_lines(rope: &Rope) -> (r: usize)
    ensures
        r == line_count(rope_chars(*rope)),
{
    rope.len_lines()
}

/// Relies on ropey's `Rope::try_line_to_char`: where a line starts, the end
/// for the line past the last, an error beyond it.
#[verifier::external_body]
fn line_to_char(rope: &Rope, line: usize) -> (r: Option<usize>)
    ensures
        r is Some <==> line <= line_count(rope_chars(*rope)),
        r matches Some(i) ==> i == line_start(rope_chars(*rope), line as int),
{
    rope.try_line_to_char(line).ok()
}

/// Relies on ropey's `Rope::try_char_to_line`: the line breaks before the
/// character; the end of the text counts.
#[verifier::external_body]
fn char_to_line(rope: &Rope, char_idx: usize) -> (r: Option<usize>)
    ensures
        r is Some <==> char_idx <= rope_chars(*rope).len(),
        r matches Some(l) ==> l == breaks_before(rope_chars(*rope), char_idx as int),
{
    rope.try_char_to_line(char_idx).ok()
}

/// Relies on ropey's `Rope::try_line_to_byte`: the UTF-8 offset of a line's
/// start.
#[verifier::external_body]
fn line_to_byte(rope: &Rope, line: usize) -> (r: Option<usize>)
    ensures
        r is Some <==> line <= line_count(rope_chars(*rope)),
        r matches Some(b) ==> b == units(
            rope_chars(*rope),
            line_start(rope_chars(*rope), line as int),
            Encoding::UTF8,
        ),
{
    rope.try_line_to_byte(line).ok()
}

/// Relies on ropey's `Rope::try_byte_to_char`: the character a byte belongs to.
#[verifier::external_body]
fn byte_to_char(rope: &Rope, byte_idx: usize) -> (r: Option<usize>)
    ensures
        r is Some <==> byte_idx <= units(
            rope_chars(*rope),
            rope_chars(*rope).len() as int,
            Encoding::UTF8,
        ),
        r matches Some(k) ==> k == char_at_unit(rope_chars(*rope), byte_idx as int, Encoding::UTF8),
{
    rope.try_byte_to_char(byte_idx).ok()
}

/// Relies on ropey's `Rope::try_char_to_byte`.
#[verifier::external_body]
fn char_to_byte(rope: &Rope, char_idx: usize) -> (r: Option<usize>)
    ensures
        r is Some <==> char_idx <= rope_chars(*rope).len(),
        r matches Some(b) ==> b == units(rope_chars(*rope), char_idx as int, Encoding::UTF8),
{
    rope.try_char_to_byte(char_idx).ok()
}

/// Relies on ropey's `Rope::try_char_to_utf16_cu`.
#[verifier::external_body]
fn char_to_utf16_cu(rope: &Rope, char_idx: usize) -> (r: Option<usize>)
    ensures
        r is Some <==> char_idx <= rope_chars(*rope).len(),
        r matches Some(u) ==> u == units(rope_chars(*rope), char_idx as int, Encoding::UTF16),
{
    rope.try_char_to_utf16_cu(char_idx).ok()
}

/// Relies on ropey's `Rope::try_utf16_cu_to_char`: the character a code
/// unit belongs to.
#[verifier::external_body]
fn utf16_cu_to_char(rope: &Rope, utf16_cu_idx: usize) -> (r: Option<usize>)
    ensures
        r is Some <==> utf16_cu_idx <= units(
            rope_chars(*rope),
            rope_chars(*rope).len() as int,
            Encoding::UTF16,
        ),
        r matches Some(k) ==> k == char_at_unit(
            rope_chars(*rope),
            utf16_cu_idx as int,
            Encoding::UTF16,
        ),
{
    rope.try_utf16_cu_to_char(utf16_cu_idx).ok()
}

/// Relies on ropey's `Rope::insert`, which panics past the end.
#[verifier::external_body]
pub(crate) fn rope_insert(rope: &mut Rope, char_idx: usize, text: &str)
    requires
        char_idx <= rope_chars(*old(rope)).len(),
    ensures
        rope_chars(*final(rope)) == rope_chars(*old(rope)).subrange(0, char_idx as int) + text@
            + rope_chars(*old(rope)).subrange(
            char_idx as int,
            rope_chars(*old(rope)).len() as int,
        ),
{
    rope.insert(char_idx, text)
}

/// Relies on ropey's `Rope::remove`, which panics on a reversed range or
/// one past the end.
#[verifier::external_body]
pub(crate) fn rope_remove(rope: &mut Rope, start: usize, end: usize)
    requires
        start <= end <= rope_chars(*old(rope)).len(),
    ensures
        rope_chars(*final(rope)) == rope_chars(*old(rope)).subrange(0, start as int) + rope_chars(
            *old(rope),
        ).subrange(end as int, rope_chars(*old(rope)).len() as int),
{
    rope.remove(start..end)
}

/// Relies on ropey's `Rope::slice`, which panics on a reversed range or one
/// past the end; the slice is copied into a `String`.
#[verifier::external_body]
pub(crate) fn rope_text(rope: &Rope, start: usize, end: usize) -> (r: String)
    requires
        start <= end <= rope_chars(*rope).len(),
    ensures
        r@ == rope_chars(*rope).subrange(start as int, end as int),
{
    String::from(rope.slice(start..end))
}

/// The text of `old` with the characters from `start` to `end` replaced by
/// `text`.
pub open spec fn replaced(old: Seq<char>, start: int, end: int, text: Seq<char>) -> Seq<char> {
    old.subrange(0, start) + text + old.subrange(end, old.len() as int)
}

/// Applies one change event: with a range, its text replaces the range
/// where both ends convert to offsets in order within the text, and the
/// document stays as it is otherwise; without one, the text replaces the
/// whole document.
pub fn apply_change(
    rope: &mut Rope,
    range: Option<(Position, Position)>,
    text: &str,
    encoding: Encoding,
)
    ensures
        match range {
            None => rope_chars(*final(rope)) == text@,
            Some((a, b)) => {
                let s = rope_chars(*old(rope));
                let start = fit_offset(offset_of(s, a.line as int, a.character as int, encoding));
                let end = fit_offset(offset_of(s, b.line as int, b.character as int, encoding));
                match (start, end) {
                    (Some(x), Some(y)) => if x <= y && y <= s.len() {
                        rope_chars(*final(rope)) == replaced(s, x as int, y as int, text@)
                    } else {
                        rope_chars(*final(rope)) == s
                    },
                    _ => rope_chars(*final(rope)) == s,
                }
            },
        },
{
    match range {
        None => {
            *rope = rope_from_str(text);
        },
        Some((a, b)) => {
            let start = position_to_offset(rope, a, encoding);
            let end = position_to_offset(rope, b, encoding);
            match (start, end) {
                (Some(x), Some(y)) => {
                    if x <= y && y <= len_chars(rope) {
                        let ghost s = rope_chars(*rope);
                        rope_remove(rope, x, y);
                        rope_insert(rope, x, text);
                        assert(rope_chars(*rope) =~= replaced(s, x as int, y as int, text@));
                    }
                },
                _ => {},
            }
        },
    }
}

/// An offset that fits in `usize`.
pub open spec fn fit_offset(o: Option<int>) -> Option<usize> {
    match o {
        Some(x) => if 0 <= x <= usize::MAX {
            Some(x as usize)
        } else {
            None
        },
        None => None,
    }
}

/// A line and column that fit the protocol's integers.
pub open spec fn fit_position(p: Option<(int, int)>) -> Option<Position> {
    match p {
        Some((l, c)) => if 0 <= l <= u32::MAX && 0 <= c <= u32::MAX {
            Some(Position { line: l as u32, character: c as u32 })
        } else {
            None
        },
        None => None,
    }
}

/// The character offset of `position`.
pub fn position_to_offset(rope: &Rope, position: Position, encoding: Encoding) -> (r: Option<
    usize,
>)
    ensures
        r == fit_offset(
            offset_of(
                rope_chars(*rope),
                position.line as int,
                position.character as int,
                encoding,
            ),
        ),
{
    let ghost s = rope_chars(*rope);
    let line = position.line as usize;
    let col = position.character as usize;
    let lc = len_lines(rope);
    if line == lc && col == 0 {
        return Some(len_chars(rope));
    }
    if line >= lc {
        return None;
    }
    let st = match line_to_char(rope, line) {
        Some(i) => i,
        None => return None,
    };
    proof {
        lemma_line_start_bounds(s, line as int);
        lemma_line_start_bounds(s, line + 1);
    }
    match encoding {
        Encoding::UTF32 => st.checked_add(col),
        Encoding::UTF8 => {
            let base = match line_to_byte(rope, line) {
                Some(b) => b,
                None => return None,
            };
            let lim = match line_to_byte(rope, line + 1) {
                Some(b) => b,
                None => return None,
            };
            if lim < base || col > lim - base {
                None
            } else {
                proof {
                    lemma_units_mono(s, line_start(s, line + 1), s.len() as int, Encoding::UTF8);
                }
                byte_to_char(rope, base + col)
            }
        },
        Encoding::UTF16 => {
            let nx = match line_to_char(rope, line + 1) {
                Some(i) => i,
                None => return None,
            };
            let base = match char_to_utf16_cu(rope, st) {
                Some(u) => u,
                None => return None,
            };
            let lim = match char_to_utf16_cu(rope, nx) {
                Some(u) => u,
                None => return None,
            };
            if lim < base || col > lim - base {
                None
            } else {
                proof {
                    lemma_units_mono(s, nx as int, s.len() as int, Encoding::UTF16);
                }
                utf16_cu_to_char(rope, base + col)
            }
        },
    }
}

/// The position of character offset `offset`.
pub fn offset_to_position(rope: &Rope, offset: usize, encoding: Encoding) -> (r: Option<Position>)
    ensures
        r == fit_position(position_of(rope_chars(*rope), offset as int, encoding)),
{
    let ghost s = rope_chars(*rope);
    let line = match char_to_line(rope, offset) {
        Some(l) => l,
        None => return None,
    };
    proof {
        lemma_breaks_mono(s, offset as int, s.len() as int);
    }
    let st = match line_to_char(rope, line) {
        Some(i) => i,
        None => return None,
    };
    if st > offset {
        return None;
    }
    let col = match encoding {
        Encoding::UTF32 => offset - st,
        Encoding::UTF8 => {
            let b = match char_to_byte(rope, offset) {
                Some(b) => b,
                None => return None,
            };
            let base = match line_to_byte(rope, line) {
                Some(b) => b,
                None => return None,
            };
            if b < base {
                return None;
            }
            b - base
        },
        Encoding::UTF16 => {
            let u = match char_to_utf16_cu(rope, offset) {
                Some(u) => u,
                None => return None,
            };
            proof {
                lemma_line_start_bounds(s, line as int);
            }
            let base = match char_to_utf16_cu(rope, st) {
                Some(u) => u,
                None => return None,
            };
            if u < base {
                return None;
            }
            u - base
        },
    };
    if line > 0xffff_ffff || col > 0xffff_ffff {
        return None;
    }
    Some(Position { line: line as u32, character: col as u32 })
}

proof fn lemma_breaks_mono(s: Seq<char>, a: int, b: int)
    requires
        a <= b,
    ensures
        breaks_before(s, a) <= breaks_before(s, b),
    decreases b - a,
{
    if a < b {
        lemma_breaks_mono(s, a, b - 1);
    }
}

proof fn lemma_units_mono(s: Seq<char>, a: int, b: int, enc: Encoding)
    requires
        a <= b,
    ensures
        units(s, a, enc) + (if a < b && a >= 0 {
            1int
        } else {
            0int
        }) <= units(s, b, enc),
    decreases b - a,
{
    if a < b {
        lemma_units_mono(s, a, b - 1, enc);
        if a >= 0 {
            assert(char_units(s[b - 1], enc) >= 1);
        }
    }
}

/// Every line up to the last one starts somewhere in the text.
proof fn lemma_line_start_exists(s: Seq<char>, n: int, l: int)
    requires
        0 <= n <= s.len(),
        0 <= l <= breaks_before(s, n),
    ensures
        exists|i: int| i <= n && #[trigger] starts_line(s, l, i),
    decreases n,
{
    if n == 0 {
        assert(starts_line(s, l, 0));
    } else if l <= breaks_before(s, n - 1) {
        lemma_line_start_exists(s, n - 1, l);
    } else {
        assert(starts_line(s, l, n));
    }
}

/// A line starts at one place only.
proof fn lemma_line_start_unique(s: Seq<char>, l: int, i: int, j: int)
    requires
        starts_line(s, l, i),
        starts_line(s, l, j),
    ensures
        i == j,
{
    if i < j {
        lemma_breaks_mono(s, i, j - 1);
    } else if j < i {
        lemma_breaks_mono(s, j, i - 1);
    }
}

proof fn lemma_line_start_bounds(s: Seq<char>, l: int)
    requires
        0 <= l,
    ensures
        0 <= line_start(s, l) <= s.len(),
        l < line_count(s) ==> starts_line(s, l, line_start(s, l)),
{
    if l < line_count(s) {
        lemma_line_start_exists(s, s.len() as int, l);
    }
}

/// The characters from the start of line `l` up to that of the next line
/// lie on line `l`.
proof fn lemma_on_line(s: Seq<char>, l: int, o: int)
    requires
        0 <= l < line_count(s),
        line_start(s, l) <= o,
        o < line_start(s, l + 1) || (l + 1 == line_count(s) && o == s.len()),
    ensures
        breaks_before(s, o) == l,
{
    lemma_line_start_bounds(s, l);
    lemma_line_start_bounds(s, l + 1);
    lemma_breaks_mono(s, line_start(s, l), o);
    lemma_breaks_mono(s, o, s.len() as int);
    if breaks_before(s, o) > l && o <= s.len() {
        lemma_line_start_exists(s, o, l + 1);
        let i = choose|i: int| i <= o && #[trigger] starts_line(s, l + 1, i);
        lemma_line_start_unique(s, l + 1, i, line_start(s, l + 1));
    }
}

/// The character at the start of a run of units is found from its unit.
proof fn lemma_char_at_own_unit(s: Seq<char>, o: int, enc: Encoding)
    requires
        0 <= o <= s.len(),
    ensures
        char_at_unit(s, units(s, o, enc) as int, enc) == o,
{
    let u = units(s, o, enc) as int;
    if o < s.len() {
        lemma_units_mono(s, o, o + 1, enc);
    }
    assert(is_char_at_unit(s, u, enc, o));
    let k = choose|k: int| is_char_at_unit(s, u, enc, k);
    if k < o {
        lemma_units_mono(s, k + 1, o, enc);
    } else if o < k {
        lemma_units_mono(s, o + 1, k, enc);
    }
}

/// Position `(line, col)` lies within its line: some offset on the line,
/// its break included (or the end of the text on the last line), sits
/// `col` units after the line's start.
pub open spec fn in_range(s: Seq<char>, line: int, col: int, enc: Encoding) -> bool {
    0 <= line < line_count(s) && exists|o: int|
        line_start(s, line) <= o && (o < line_start(s, line + 1) || (line + 1 == line_count(s)
            && o == s.len())) && #[trigger] units(s, o, enc) - units(s, line_start(s, line), enc)
            == col
}

/// For a position within its line, turning it into an offset and back gives
/// it again, under each encoding.
pub proof fn position_round_trip(s: Seq<char>, line: int, col: int, enc: Encoding)
    requires
        in_range(s, line, col, enc),
    ensures
        offset_of(s, line, col, enc) matches Some(o) && position_of(s, o, enc) == Some((line, col)),
{
    let st = line_start(s, line);
    let o = choose|o: int|
        line_start(s, line) <= o && (o < line_start(s, line + 1) || (line + 1 == line_count(s)
            && o == s.len())) && #[trigger] units(s, o, enc) - units(s, line_start(s, line), enc)
            == col;
    lemma_line_start_bounds(s, line);
    lemma_line_start_bounds(s, line + 1);
    lemma_on_line(s, line, o);
    lemma_units_mono(s, st, o, enc);
    match enc {
        Encoding::UTF32 => {
            lemma_utf32_units(s, st);
            lemma_utf32_units(s, o);
        },
        _ => {
            lemma_units_mono(s, o, line_start(s, line + 1), enc);
            lemma_char_at_own_unit(s, o, enc);
        },
    }
    assert(offset_of(s, line, col, enc) == Some(o));
}

/// For an offset within the text, turning it into a position and back gives
/// it again, under each encoding.
pub proof fn offset_round_trip(s: Seq<char>, o: int, enc: Encoding)
    requires
        0 <= o <= s.len(),
    ensures
        position_of(s, o, enc) matches Some((line, col)) && offset_of(s, line, col, enc) == Some(o),
{
    let l = breaks_before(s, o) as int;
    lemma_breaks_mono(s, o, s.len() as int);
    lemma_line_start_bounds(s, l);
    lemma_line_start_bounds(s, l + 1);
    let st = line_start(s, l);
    lemma_before_own_line(s, l, o);
    lemma_units_mono(s, st, o, enc);
    let col = match enc {
        Encoding::UTF32 => o - st,
        _ => units(s, o, enc) - units(s, st, enc),
    };
    assert(position_of(s, o, enc) == Some((l, col)));
    if l + 1 < line_count(s) {
        lemma_after_own_line(s, l, o);
    }
    match enc {
        Encoding::UTF32 => {},
        _ => {
            lemma_units_mono(s, o, line_start(s, l + 1), enc);
            lemma_char_at_own_unit(s, o, enc);
        },
    }
    if l == line_count(s) - 1 && col == 0 && o != s.len() {
        lemma_units_mono(s, st, o, enc);
    }
}

proof fn lemma_utf32_units(s: Seq<char>, k: int)
    requires
        0 <= k,
    ensures
        units(s, k, Encoding::UTF32) == k,
    decreases k,
{
    if k > 0 {
        lemma_utf32_units(s, k - 1);
    }
}

/// The line of `o` starts at or before `o`.
proof fn lemma_before_own_line(s: Seq<char>, l: int, o: int)
    requires
        0 <= o <= s.len(),
        l == breaks_before(s, o),
    ensures
        line_start(s, l) <= o,
{
    lemma_breaks_mono(s, o, s.len() as int);
    lemma_line_start_exists(s, o, l);
    let i = choose|i: int| i <= o && #[trigger] starts_line(s, l, i);
    lemma_line_start_bounds(s, l);
    lemma_line_start_unique(s, l, i, line_start(s, l));
}

/// The next line starts after `o`.
proof fn lemma_after_own_line(s: Seq<char>, l: int, o: int)
    requires
        0 <= o <= s.len(),
        l == breaks_before(s, o),
        l + 1 < line_count(s),
    ensures
        o < line_start(s, l + 1),
{
    lemma_line_start_bounds(s, l + 1);
    let nx = line_start(s, l + 1);
    if nx <= o {
        lemma_breaks_mono(s, nx, o);
    }
}

} // verus!
