//! The grammar of the text at the end of a line that is sent to the engine:
//! an optional trigger character, a run of letters and ASCII punctuation
//! (the pinyin), then a run of digits and paging characters (the selection).
use vstd::prelude::*;

verus! {

/// An ASCII letter or an ASCII punctuation character.
pub open spec fn is_raw_char(c: char) -> bool {
    let u = c as u32;
    (97 <= u <= 122) || (65 <= u <= 90) || (33 <= u <= 47) || (58 <= u <= 64) || (91 <= u <= 96)
        || (123 <= u <= 126)
}

/// A decimal digit or one of `,` `.` `-` `=`.
pub open spec fn is_select_char(c: char) -> bool {
    let u = c as u32;
    (48 <= u <= 57) || u == 44 || u == 46 || u == 45 || u == 61
}

pub open spec fn raw_run(s: Seq<char>, a: int, b: int) -> bool {
    forall|i: int| a <= i < b ==> #[trigger] is_raw_char(s[i])
}

pub open spec fn select_run(s: Seq<char>, a: int, b: int) -> bool {
    forall|i: int| a <= i < b ==> #[trigger] is_select_char(s[i])
}

/// From `p` to the end, `s` is a non-empty raw run ending at `k` followed by
/// a selection run.
pub open spec fn splits(s: Seq<char>, p: int, k: int) -> bool {
    0 <= p < k <= s.len() && raw_run(s, p, k) && select_run(s, k, s.len() as int)
}

/// The pinyin pattern matches `s` from `p` to its end.
pub open spec fn starts_at(s: Seq<char>, p: int) -> bool {
    exists|k: int| splits(s, p, k)
}

/// A match of the pattern may begin at `p`: without trigger characters the
/// pinyin starts there; with them, `s[p]` is one of them and the pinyin
/// starts right after it.
pub open spec fn match_at(s: Seq<char>, triggers: Option<Seq<char>>, p: int) -> bool {
    match triggers {
        None => starts_at(s, p),
        Some(t) => 0 <= p < s.len() && t.contains(s[p]) && starts_at(s, p + 1),
    }
}

/// Where the pinyin of a match that begins at `p` starts.
pub open spec fn pinyin_start(triggers: Option<Seq<char>>, p: int) -> int {
    match triggers {
        None => p,
        Some(_) => p + 1,
    }
}

/// The leftmost match begins at `p`, and its pinyin, being greedy, ends at
/// `k`, where the selection begins.
pub open spec fn leftmost_match(s: Seq<char>, triggers: Option<Seq<char>>, p: int, k: int) -> bool {
    &&& match_at(s, triggers, p)
    &&& forall|q: int| 0 <= q < p ==> !match_at(s, triggers, q)
    &&& splits(s, pinyin_start(triggers, p), k)
    &&& forall|k2: int| k < k2 ==> !splits(s, pinyin_start(triggers, p), k2)
}

/// The pattern matches nowhere in `s`.
pub open spec fn no_match(s: Seq<char>, triggers: Option<Seq<char>>) -> bool {
    forall|q: int| !match_at(s, triggers, q)
}

pub fn raw_char(c: char) -> (r: bool)
    ensures
        r == is_raw_char(c),
{
    let u = c as u32;
    (97 <= u && u <= 122) || (65 <= u && u <= 90) || (33 <= u && u <= 47) || (58 <= u && u
        <= 64) || (91 <= u && u <= 96) || (123 <= u && u <= 126)
}

pub fn select_char(c: char) -> (r: bool)
    ensures
        r == is_select_char(c),
{
    let u = c as u32;
    (48 <= u && u <= 57) || u == 44 || u == 46 || u == 45 || u == 61
}

/// Where the longest selection run at the end of `s` begins.
fn select_suffix_start(s: &Vec<char>) -> (j: usize)
    ensures
        j <= s@.len(),
        select_run(s@, j as int, s@.len() as int),
        j == 0 || !is_select_char(s@[j - 1]),
{
    let mut j = s.len();
    while j > 0 && select_char(s[j - 1])
        invariant
            j <= s@.len(),
            select_run(s@, j as int, s@.len() as int),
        decreases j,
    {
        j = j - 1;
    }
    j
}

/// Where the longest raw run that ends at `j` begins.
fn raw_run_start(s: &Vec<char>, j: usize) -> (a: usize)
    requires
        j <= s@.len(),
    ensures
        a <= j,
        raw_run(s@, a as int, j as int),
        a == 0 || !is_raw_char(s@[a - 1]),
{
    let mut a = j;
    while a > 0 && raw_char(s[a - 1])
        invariant
            a <= j <= s@.len(),
            raw_run(s@, a as int, j as int),
        decreases a,
    {
        a = a - 1;
    }
    a
}

/// Where the raw run that begins at `p` ends.
fn raw_run_end(s: &Vec<char>, p: usize) -> (e: usize)
    requires
        p < s@.len(),
        is_raw_char(s@[p as int]),
    ensures
        p < e <= s@.len(),
        raw_run(s@, p as int, e as int),
        e == s@.len() || !is_raw_char(s@[e as int]),
{
    let n = s.len();
    let mut e = p + 1;
    while e < n && raw_char(s[e])
        invariant
            n == s@.len(),
            p < e <= s@.len(),
            raw_run(s@, p as int, e as int),
        decreases s@.len() - e,
    {
        e = e + 1;
    }
    e
}

/// With `j` and `a` as the two scans above find them, the pinyin pattern
/// starts exactly at the raw characters from `a` on.
proof fn lemma_starts_at(s: Seq<char>, j: int, a: int, q: int)
    requires
        0 <= a <= j <= s.len(),
        select_run(s, j, s.len() as int),
        j == 0 || !is_select_char(s[j - 1]),
        raw_run(s, a, j),
        a == 0 || !is_raw_char(s[a - 1]),
    ensures
        starts_at(s, q) <==> (a <= q < s.len() && is_raw_char(s[q])),
{
    if starts_at(s, q) {
        let k = choose|k: int| splits(s, q, k);
        assert(is_raw_char(s[q]));
        if k < j {
            assert(is_select_char(s[j - 1]));
        }
        if q < a {
            assert(is_raw_char(s[a - 1]));
        }
    }
    if a <= q < s.len() && is_raw_char(s[q]) {
        if q < j {
            assert(splits(s, q, j));
        } else {
            assert(splits(s, q, q + 1));
        }
    }
}

/// The greedy end of the pinyin that starts at `p`.
proof fn lemma_greedy_end(s: Seq<char>, j: int, a: int, p: int, e: int)
    requires
        0 <= a <= j <= s.len(),
        select_run(s, j, s.len() as int),
        raw_run(s, a, j),
        a <= p < e <= s.len(),
        raw_run(s, p, e),
        e == s.len() || !is_raw_char(s[e]),
    ensures
        splits(s, p, e),
        forall|k2: int| e < k2 ==> !splits(s, p, k2),
{
    if e < j {
        assert(is_raw_char(s[e]));
    }
    assert forall|k2: int| e < k2 implies !splits(s, p, k2) by {
        if splits(s, p, k2) {
            assert(is_raw_char(s[e]));
        }
    }
}

/// Finds the leftmost match of the pattern in `s`: where it begins and
/// where its pinyin ends.
pub fn find_match(s: &Vec<char>, triggers: &Option<Vec<char>>) -> (r: Option<(usize, usize)>)
    ensures
        match r {
            Some((p, k)) => leftmost_match(
                s@,
                match triggers {
                    Some(t) => Some(t@),
                    None => None,
                },
                p as int,
                k as int,
            ),
            None => no_match(
                s@,
                match triggers {
                    Some(t) => Some(t@),
                    None => None,
                },
            ),
        },
{
    let ghost tr = match triggers {
        Some(t) => Some(t@),
        None => None,
    };
    let j = select_suffix_start(s);
    let a = raw_run_start(s, j);
    proof {
        assert forall|q: int| #[trigger]
            starts_at(s@, q) <==> (a <= q < s@.len() && is_raw_char(s@[q])) by {
            lemma_starts_at(s@, j as int, a as int, q);
        }
    }
    match triggers {
        None => {
            let mut p = a;
            while p < s.len() && !raw_char(s[p])
                invariant
                    a <= p <= s@.len(),
                    forall|q: int| a <= q < p ==> !is_raw_char(#[trigger] s@[q]),
                decreases s@.len() - p,
            {
                p = p + 1;
            }
            if p == s.len() {
                assert forall|q: int| !match_at(s@, tr, q) by {
                    if 0 <= q < s@.len() && a <= q {
                        assert(!is_raw_char(s@[q]));
                    }
                }
                None
            } else {
                let e = raw_run_end(s, p);
                proof {
                    lemma_greedy_end(s@, j as int, a as int, p as int, e as int);
                }
                Some((p, e))
            }
        },
        Some(t) => {
            let mut p = if a > 0 {
                a - 1
            } else {
                0
            };
            let mut found = false;
            let n = s.len();
            while !found && p < n && p + 1 < n
                invariant
                    n == s@.len(),
                    a <= p + 1,
                    p <= s@.len(),
                    forall|q: int|
                        #[trigger] starts_at(s@, q) <==> (a <= q < s@.len() && is_raw_char(s@[q])),
                    forall|q: int| 0 <= q < p ==> !match_at(s@, tr, q),
                    found ==> p + 1 < s@.len() && match_at(s@, tr, p as int),
                    tr == Some(t@),
                decreases s@.len() - p, if found { 0int } else { 1int },
            {
                if raw_char(s[p + 1]) && contains_char(t, s[p]) {
                    found = true;
                } else {
                    p = p + 1;
                }
            }
            if !found {
                assert forall|q: int| !match_at(s@, tr, q) by {
                    if q >= p && match_at(s@, tr, q) {
                        assert(starts_at(s@, q + 1));
                    }
                }
                None
            } else {
                let e = raw_run_end(s, p + 1);
                proof {
                    lemma_greedy_end(s@, j as int, a as int, (p + 1) as int, e as int);
                }
                Some((p, e))
            }
        },
    }
}

pub fn contains_char(t: &Vec<char>, c: char) -> (r: bool)
    ensures
        r == t@.contains(c),
{
    let mut i: usize = 0;
    while i < t.len()
        invariant
            i <= t@.len(),
            forall|k: int| 0 <= k < i ==> t@[k] != c,
        decreases t@.len() - i,
    {
        if t[i] == c {
            return true;
        }
        i = i + 1;
    }
    false
}


/// Unicode's White_Space property: tab to carriage return, space, NEL,
/// no-break space, Ogham space mark, the spaces from en quad to hair space,
/// the line and paragraph separators, narrow no-break space, medium
/// mathematical space and ideographic space.
pub open spec fn is_white_space(c: char) -> bool {
    let u = c as u32;
    (0x09 <= u <= 0x0d) || u == 0x20 || u == 0x85 || u == 0xa0 || u == 0x1680 || (0x2000 <= u
        <= 0x200a) || u == 0x2028 || u == 0x2029 || u == 0x202f || u == 0x205f || u == 0x3000
}

fn white_space(c: char) -> (r: bool)
    ensures
        r == is_white_space(c),
{
    let u = c as u32;
    (0x09 <= u && u <= 0x0d) || u == 0x20 || u == 0x85 || u == 0xa0 || u == 0x1680 || (0x2000
        <= u && u <= 0x200a) || u == 0x2028 || u == 0x2029 || u == 0x202f || u == 0x205f || u
        == 0x3000
}

/// The line already ends inside a word: some character that is neither raw
/// nor white space stands right before a match of the pinyin pattern, so
/// completion needs no trigger character.
pub open spec fn auto_triggered(s: Seq<char>) -> bool {
    exists|p: int|
        0 <= p < s.len() && !is_raw_char(s[p]) && !is_white_space(s[p]) && #[trigger] starts_at(
            s,
            p + 1,
        )
}

pub fn is_auto_triggered(s: &Vec<char>) -> (r: bool)
    ensures
        r == auto_triggered(s@),
{
    let j = select_suffix_start(s);
    let a = raw_run_start(s, j);
    proof {
        assert forall|q: int| #[trigger]
            starts_at(s@, q) <==> (a <= q < s@.len() && is_raw_char(s@[q])) by {
            lemma_starts_at(s@, j as int, a as int, q);
        }
    }
    let n = s.len();
    let mut p = if a > 0 {
        a - 1
    } else {
        0
    };
    while p < n && p + 1 < n
        invariant
            n == s@.len(),
            a <= p + 1,
            p <= s@.len(),
            forall|q: int|
                #[trigger] starts_at(s@, q) <==> (a <= q < s@.len() && is_raw_char(s@[q])),
            forall|q: int|
                0 <= q < p ==> !(!is_raw_char(s@[q]) && !is_white_space(s@[q]) && #[trigger] starts_at(
                    s@,
                    q + 1,
                )),
        decreases s@.len() - p,
    {
        if !raw_char(s[p]) && !white_space(s[p]) && raw_char(s[p + 1]) {
            assert(starts_at(s@, p + 1));
            return true;
        }
        p = p + 1;
    }
    assert forall|q: int|
        0 <= q < s@.len() implies !(!is_raw_char(s@[q]) && !is_white_space(s@[q]) && #[trigger] starts_at(
            s@,
            q + 1,
        )) by {
        if q >= p && starts_at(s@, q + 1) {
            assert(q + 1 < s@.len());
        }
    }
    false
}

} // verus!
