use vstd::prelude::*;

use crate::grammar::{auto_triggered, is_auto_triggered};

verus! {

/// Copies the characters of `s` into a vector.
pub fn chars_of(s: &str) -> (r: Vec<char>)
    ensures
        r@ == s@,
{
    let mut v: Vec<char> = Vec::new();
    for c in it: s.chars()
        invariant
            v@ == it.history@,
    {
        v.push(c);
    }
    assert(v@ =~= s@);
    v
}

/// Relies on `String::from_iter`: collecting characters keeps them, in order.
#[verifier::external_body]
pub(crate) fn string_of_chars(v: &Vec<char>) -> (r: String)
    ensures
        r@ == v@,
{
    String::from_iter(v.iter())
}

/// Compares two character sequences.
pub fn chars_equal(a: &Vec<char>, b: &Vec<char>) -> (r: bool)
    ensures
        r == (a@ == b@),
{
    if a.len() != b.len() {
        return false;
    }
    let mut i: usize = 0;
    while i < a.len()
        invariant
            a@.len() == b@.len(),
            i <= a@.len(),
            forall|k: int| 0 <= k < i ==> a@[k] == b@[k],
        decreases a@.len() - i,
    {
        if a[i] != b[i] {
            return false;
        }
        i = i + 1;
    }
    assert(a@ =~= b@);
    true
}

/// `p` is a prefix of `s`.
pub open spec fn is_prefix(p: Seq<char>, s: Seq<char>) -> bool {
    p.len() <= s.len() && s.subrange(0, p.len() as int) == p
}

/// Tests whether `p` is a prefix of `s`.
fn has_prefix(p: &Vec<char>, s: &Vec<char>) -> (r: bool)
    ensures
        r == is_prefix(p@, s@),
{
    if p.len() > s.len() {
        return false;
    }
    let mut i: usize = 0;
    while i < p.len()
        invariant
            p@.len() <= s@.len(),
            i <= p@.len(),
            forall|k: int| 0 <= k < i ==> p@[k] == s@[k],
        decreases p@.len() - i,
    {
        if p[i] != s[i] {
            assert(s@.subrange(0, p@.len() as int)[i as int] != p@[i as int]);
            return false;
        }
        i = i + 1;
    }
    assert(s@.subrange(0, p@.len() as int) =~= p@);
    true
}

/// The position encodings a client may negotiate.
#[derive(Debug, Clone, Copy, PartialEq, Eq, Structural)]
pub enum Encoding {
    UTF8,
    UTF16,
    UTF32,
}

impl Default for Encoding {
    fn default() -> (r: Encoding)
        ensures
            r == Encoding::UTF16,
    {
        Encoding::UTF16
    }
}

impl Encoding {
    /// The name the protocol uses for an encoding.
    pub open spec fn name(self) -> Seq<char> {
        match self {
            Encoding::UTF8 => "utf-8"@,
            Encoding::UTF16 => "utf-16"@,
            Encoding::UTF32 => "utf-32"@,
        }
    }

    pub fn as_str(&self) -> (r: &'static str)
        ensures
            r@ == self.name(),
    {
        match self {
            Encoding::UTF8 => "utf-8",
            Encoding::UTF16 => "utf-16",
            Encoding::UTF32 => "utf-32",
        }
    }
}

/// Some offered encoding is named `name`.
pub open spec fn offers(options: Seq<String>, name: Seq<char>) -> bool {
    exists|i: int| 0 <= i < options.len() && #[trigger] options[i]@ == name
}

/// The encoding chosen from what a client offers: UTF-32 first, then UTF-8,
/// else the protocol's default, UTF-16.
pub open spec fn chosen_encoding(options: Option<Seq<String>>) -> Encoding {
    match options {
        Some(v) => if offers(v, "utf-32"@) {
            Encoding::UTF32
        } else if offers(v, "utf-8"@) {
            Encoding::UTF8
        } else {
            Encoding::UTF16
        },
        None => Encoding::UTF16,
    }
}

fn offers_exec(options: &Vec<String>, name: &str) -> (r: bool)
    ensures
        r == offers(options@, name@),
{
    let target = chars_of(name);
    let mut i: usize = 0;
    while i < options.len()
        invariant
            target@ == name@,
            i <= options@.len(),
            forall|k: int| 0 <= k < i ==> options@[k]@ != name@,
        decreases options@.len() - i,
    {
        let candidate = chars_of(options[i].as_str());
        if chars_equal(&candidate, &target) {
            return true;
        }
        i = i + 1;
    }
    false
}

pub fn select_encoding(options: Option<Vec<String>>) -> (r: Encoding)
    ensures
        r == chosen_encoding(
            match options {
                Some(v) => Some(v@),
                None => None,
            },
        ),
{
    match options {
        Some(v) => {
            if offers_exec(&v, "utf-32") {
                Encoding::UTF32
            } else if offers_exec(&v, "utf-8") {
                Encoding::UTF8
            } else {
                Encoding::UTF16
            }
        },
        None => Encoding::UTF16,
    }
}

/// How the text of one edit relates to the text before it.
#[derive(Debug)]
pub enum DiffResult {
    Same,
    Add(String),
    Delete(String),
    New,
}

/// `r` classifies `old` against `new`: equal texts, a pure append, a pure
/// truncation, or anything else.
pub open spec fn is_diff(old: Seq<char>, new: Seq<char>, r: DiffResult) -> bool {
    match r {
        DiffResult::Same => old == new,
        DiffResult::Add(s) => old != new && is_prefix(old, new) && s@ == new.subrange(
            old.len() as int,
            new.len() as int,
        ),
        DiffResult::Delete(s) => old != new && !is_prefix(old, new) && is_prefix(new, old) && s@
            == old.subrange(new.len() as int, old.len() as int),
        DiffResult::New => old != new && !is_prefix(old, new) && !is_prefix(new, old),
    }
}

pub fn diff(old_text: &str, new_text: &str) -> (r: DiffResult)
    ensures
        is_diff(old_text@, new_text@, r),
        r matches DiffResult::Add(s) ==> old_text@ + s@ == new_text@ && s@.len() > 0,
        r matches DiffResult::Delete(s) ==> new_text@ + s@ == old_text@ && s@.len() > 0,
{
    let a = chars_of(old_text);
    let b = chars_of(new_text);
    if chars_equal(&a, &b) {
        DiffResult::Same
    } else if has_prefix(&a, &b) {
        let s = new_text.substring_char(a.len(), b.len()).to_owned();
        assert(a@ + s@ =~= b@);
        DiffResult::Add(s)
    } else if has_prefix(&b, &a) {
        let s = old_text.substring_char(b.len(), a.len()).to_owned();
        assert(b@ + s@ =~= a@);
        DiffResult::Delete(s)
    } else {
        DiffResult::New
    }
}

/// `None` for an empty string.
pub fn option_string(s: String) -> (r: Option<String>)
    ensures
        s@.len() == 0 ==> r is None,
        s@.len() > 0 ==> r == Some(s),
{
    if s.as_str().is_empty() {
        None
    } else {
        Some(s)
    }
}

/// The engine's shared data directory on a common Linux install.
pub fn rime_default_shared_data_dir() -> (r: &'static str)
    ensures
        r@ == "/usr/share/rime-data"@,
{
    "/usr/share/rime-data"
}


/// The character of a decimal digit.
pub open spec fn digit_char(d: nat) -> char {
    seq!['0', '1', '2', '3', '4', '5', '6', '7', '8', '9'][d as int]
}

/// How many decimal digits `n` takes.
pub open spec fn num_digits(n: nat) -> nat
    decreases n,
{
    if n < 10 {
        1
    } else {
        1 + num_digits(n / 10)
    }
}

/// The lowest `w` decimal digits of `n`, most significant first.
pub open spec fn padded_digits(n: nat, w: nat) -> Seq<char>
    decreases w,
{
    if w == 0 {
        Seq::empty()
    } else {
        padded_digits(n / 10, (w - 1) as nat).push(digit_char(n % 10))
    }
}

/// The sort key of order `n` when keys are padded to `width` digits: `z`,
/// then `n` in decimal, left-padded with zeros to at least `width` digits.
pub open spec fn sort_text_of(width: nat, n: nat) -> Seq<char> {
    let w = if num_digits(n) > width {
        num_digits(n)
    } else {
        width
    };
    seq!['z'] + padded_digits(n, w)
}

/// Lexicographic order on character sequences, by code point.
pub open spec fn lex_lt(a: Seq<char>, b: Seq<char>) -> bool
    decreases a.len(),
{
    if a.len() == 0 {
        b.len() > 0
    } else if b.len() == 0 {
        false
    } else if a[0] == b[0] {
        lex_lt(a.drop_first(), b.drop_first())
    } else {
        (a[0] as u32) < (b[0] as u32)
    }
}

pub open spec fn pow10(w: nat) -> nat
    decreases w,
{
    if w == 0 {
        1
    } else {
        10 * pow10((w - 1) as nat)
    }
}

fn digit(d: usize) -> (c: char)
    requires
        d < 10,
    ensures
        c == digit_char(d as nat),
{
    match d {
        0 => '0',
        1 => '1',
        2 => '2',
        3 => '3',
        4 => '4',
        5 => '5',
        6 => '6',
        7 => '7',
        8 => '8',
        _ => '9',
    }
}

fn count_digits(n: usize) -> (r: usize)
    ensures
        r == num_digits(n as nat),
    decreases n,
{
    if n < 10 {
        1
    } else {
        let r = count_digits(n / 10);
        proof {
            lemma_num_digits_bound((n / 10) as nat);
        }
        1 + r
    }
}

proof fn lemma_num_digits_bound(n: nat)
    ensures
        num_digits(n) <= n + 1,
    decreases n,
{
    if n >= 10 {
        lemma_num_digits_bound(n / 10);
    }
}

fn padded(n: usize, w: usize) -> (r: Vec<char>)
    ensures
        r@ == padded_digits(n as nat, w as nat),
    decreases w,
{
    if w == 0 {
        Vec::new()
    } else {
        let mut v = padded(n / 10, w - 1);
        v.push(digit(n % 10));
        v
    }
}

/// Builds sort keys whose lexicographic order is the numeric order of the
/// candidates' positions.
pub struct OrderToSortText {
    pub width: usize,
}

/// The key builder for menus of at most `max_candidates` entries.
pub fn build_order_to_sort_text(max_candidates: usize) -> (r: OrderToSortText)
    ensures
        r.width == num_digits(max_candidates as nat),
{
    OrderToSortText { width: count_digits(max_candidates) }
}

impl OrderToSortText {
    pub fn sort_text(&self, n: usize) -> (r: String)
        ensures
            r@ == sort_text_of(self.width as nat, n as nat),
    {
        let d = count_digits(n);
        let w = if d > self.width {
            d
        } else {
            self.width
        };
        let mut v: Vec<char> = Vec::new();
        v.push('z');
        let mut digits = padded(n, w);
        v.append(&mut digits);
        string_of_chars(&v)
    }
}

proof fn lemma_lex_push(x: Seq<char>, y: Seq<char>, c: char, d: char)
    requires
        x.len() == y.len(),
    ensures
        lex_lt(x.push(c), y.push(d)) == (lex_lt(x, y) || (x == y && (c as u32) < (d as u32))),
    decreases x.len(),
{
    if x.len() == 0 {
        assert(x =~= y);
        assert(x.push(c).drop_first() =~= Seq::<char>::empty());
        assert(y.push(d).drop_first() =~= Seq::<char>::empty());
        assert(!lex_lt(Seq::<char>::empty(), Seq::<char>::empty()));
        assert(!lex_lt(x, y));
    } else {
        assert(x.push(c).drop_first() =~= x.drop_first().push(c));
        assert(y.push(d).drop_first() =~= y.drop_first().push(d));
        lemma_lex_push(x.drop_first(), y.drop_first(), c, d);
        if x[0] == y[0] {
            if x.drop_first() == y.drop_first() {
                assert(x =~= seq![x[0]] + x.drop_first());
                assert(y =~= seq![y[0]] + y.drop_first());
            }
            if x == y {
                assert(x.drop_first() =~= y.drop_first());
            }
        }
    }
}

proof fn lemma_digit_order(a: nat, b: nat)
    requires
        a < b < 10,
    ensures
        (digit_char(a) as u32) < (digit_char(b) as u32),
{
}

proof fn lemma_padded_len(n: nat, w: nat)
    ensures
        padded_digits(n, w).len() == w,
    decreases w,
{
    if w > 0 {
        lemma_padded_len(n / 10, (w - 1) as nat);
    }
}

proof fn lemma_padded_lt(a: nat, b: nat, w: nat)
    requires
        a < b,
        b < pow10(w),
    ensures
        lex_lt(padded_digits(a, w), padded_digits(b, w)),
    decreases w,
{
    if w == 0 {
    } else {
        let w1 = (w - 1) as nat;
        lemma_padded_len(a / 10, w1);
        lemma_padded_len(b / 10, w1);
        assert(b / 10 < pow10(w1));
        lemma_lex_push(padded_digits(a / 10, w1), padded_digits(b / 10, w1), digit_char(a % 10), digit_char(b % 10));
        if a / 10 < b / 10 {
            lemma_padded_lt(a / 10, b / 10, w1);
        } else {
            assert(a % 10 < b % 10);
            lemma_digit_order(a % 10, b % 10);
        }
    }
}

proof fn lemma_num_digits_mono(a: nat, b: nat)
    requires
        a <= b,
    ensures
        num_digits(a) <= num_digits(b),
    decreases b,
{
    if a >= 10 {
        lemma_num_digits_mono(a / 10, b / 10);
    }
}

proof fn lemma_below_pow10(n: nat)
    ensures
        n < pow10(num_digits(n)),
    decreases n,
{
    if n >= 10 {
        let p = pow10(num_digits(n / 10));
        lemma_below_pow10(n / 10);
        assert(n < 10 * p) by (nonlinear_arith)
            requires
                n / 10 < p,
        ;
        let k = num_digits(n / 10);
        assert(num_digits(n) == k + 1);
        assert(pow10(k + 1) == 10 * pow10(k));
    } else {
        assert(pow10(1) == 10 * pow10(0));
    }
}

/// Within one menu of at most `max_candidates` entries, the sort key grows
/// strictly, in lexicographic order, with the candidate's position.
pub proof fn sort_text_increasing(max_candidates: nat, a: nat, b: nat)
    requires
        a < b <= max_candidates,
    ensures
        lex_lt(
            sort_text_of(num_digits(max_candidates), a),
            sort_text_of(num_digits(max_candidates), b),
        ),
{
    let w = num_digits(max_candidates);
    lemma_num_digits_mono(a, max_candidates);
    lemma_num_digits_mono(b, max_candidates);
    lemma_below_pow10(max_candidates);
    lemma_pow10_mono(b, max_candidates, w);
    lemma_padded_lt(a, b, w);
    let x = seq!['z'] + padded_digits(a, w);
    let y = seq!['z'] + padded_digits(b, w);
    assert(x.drop_first() =~= padded_digits(a, w));
    assert(y.drop_first() =~= padded_digits(b, w));
}

proof fn lemma_pow10_mono(b: nat, m: nat, w: nat)
    requires
        b <= m,
        m < pow10(w),
    ensures
        b < pow10(w),
{
}


/// Whether the line needs a trigger character before its pinyin: trigger
/// characters are configured and the line does not already end inside a word.
pub fn need_to_check_trigger(has_trigger: bool, line: &str) -> (r: bool)
    ensures
        r == (has_trigger && !auto_triggered(line@)),
{
    if !has_trigger {
        return false;
    }
    let v = chars_of(line);
    !is_auto_triggered(&v)
}

/// Unicode's Alphabetic or Numeric property, as `char::is_alphanumeric` reads it.
pub uninterp spec fn is_alphanumeric_char(c: char) -> bool;

/// Relies on `char::is_alphanumeric`: whether `c` is alphabetic or numeric.
#[verifier::external_body]
fn alphanumeric(c: char) -> (r: bool)
    ensures
        r == is_alphanumeric_char(c),
{
    c.is_alphanumeric()
}

/// A character of a word: alphanumeric or `_`.
pub open spec fn is_word_char(c: char) -> bool {
    is_alphanumeric_char(c) || c == '_'
}

pub fn char_is_word(ch: char) -> (r: bool)
    ensures
        r == is_word_char(ch),
{
    alphanumeric(ch) || ch == '_'
}

/// `s[start..]` is the longest run of word characters at the end of `s`.
pub open spec fn word_start(s: Seq<char>, start: int) -> bool {
    &&& 0 <= start <= s.len()
    &&& forall|i: int| start <= i < s.len() ==> #[trigger] is_word_char(s[i])
    &&& (start == 0 || !is_word_char(s[start - 1]))
}

/// The word that ends where `s` ends.
pub fn surrounding_word(s: &str) -> (r: String)
    ensures
        exists|start: int| word_start(s@, start) && r@ == s@.subrange(start, s@.len() as int),
{
    let v = chars_of(s);
    let mut start = v.len();
    while start > 0 && char_is_word(v[start - 1])
        invariant
            v@ == s@,
            start <= v@.len(),
            forall|i: int| start <= i < v@.len() ==> #[trigger] is_word_char(v@[i]),
        decreases start,
    {
        start = start - 1;
    }
    let r = s.substring_char(start, v.len()).to_owned();
    assert(word_start(s@, start as int));
    r
}

} // verus!
