use vstd::prelude::*;

use crate::grammar::{is_raw_char, raw_char};
use crate::utils::{chars_of, string_of_chars};

verus! {

/// One entry of the engine's menu.
#[derive(Debug)]
pub struct Candidate {
    pub text: String,
    pub comment: String,
    /// The 1-based place in the menu; 0 for text the engine committed.
    pub order: usize,
}

impl Candidate {
    pub fn new(text: String, comment: Option<String>, order: Option<usize>) -> (r: Candidate)
        ensures
            r.text@ == text@,
            r.comment@ == (match comment {
                Some(c) => c@,
                None => Seq::<char>::empty(),
            }),
            r.order == (match order {
                Some(o) => o,
                None => 0,
            }),
    {
        let comment = match comment {
            Some(c) => c,
            None => String::new(),
        };
        let order = match order {
            Some(o) => o,
            None => 0,
        };
        Candidate { text, comment, order }
    }

    /// Text the engine committed, as a candidate of its own.
    pub fn from_text(text: String) -> (r: Candidate)
        ensures
            r.text@ == text@,
            r.comment@.len() == 0,
            r.order == 0,
    {
        Self::new(text, None, None)
    }
}

/// What can go wrong when talking to the engine.
#[derive(Debug, Clone, Copy, PartialEq, Eq, Structural)]
pub enum RimeError {
    NullPointer,
    AlreadyInitialized,
    GetCandidatesFailed,
    SessionNotFound(usize),
}

/// What the engine shows for a session.
#[derive(Debug)]
pub struct RimeResponse {
    /// The engine still has candidates to offer.
    pub is_incomplete: bool,
    /// What of the input the engine already committed.
    pub submitted: String,
    pub candidates: Vec<Candidate>,
}

/// The menu entries in order, each with its 1-based place.
pub fn menu_candidates(entries: Vec<(String, Option<String>)>) -> (r: Vec<Candidate>)
    requires
        entries@.len() < usize::MAX,
    ensures
        r@.len() == entries@.len(),
        forall|i: int|
            0 <= i < r@.len() ==> {
                &&& (#[trigger] r@[i]).text@ == entries@[i].0@
                &&& r@[i].comment@ == (match entries@[i].1 {
                    Some(c) => c@,
                    None => Seq::<char>::empty(),
                })
                &&& r@[i].order == i + 1
            },
{
    let mut r: Vec<Candidate> = Vec::new();
    let mut rest = entries;
    let ghost all = rest@;
    let mut i: usize = 0;
    let n = rest.len();
    while i < n
        invariant
            n == all.len(),
            n < usize::MAX,
            i <= n,
            rest@ == all.skip(i as int),
            r@.len() == i,
            forall|k: int|
                0 <= k < i ==> {
                    &&& (#[trigger] r@[k]).text@ == all[k].0@
                    &&& r@[k].comment@ == (match all[k].1 {
                        Some(c) => c@,
                        None => Seq::<char>::empty(),
                    })
                    &&& r@[k].order == k + 1
                },
        decreases n - i,
    {
        let (text, comment) = rest.remove(0);
        assert(rest@ =~= all.skip(i + 1));
        r.push(Candidate::new(text, comment, Some(i + 1)));
        i = i + 1;
    }
    r
}

/// `s` without its spaces.
pub open spec fn without_spaces(s: Seq<char>) -> Seq<char> {
    s.filter(|c: char| c != ' ')
}

/// `s` without its raw characters: what the engine already turned into text.
pub open spec fn without_raw(s: Seq<char>) -> Seq<char> {
    s.filter(|c: char| !is_raw_char(c))
}

/// The engine's preedit with the spaces it puts between syllables taken out.
pub fn joined_preedit(preedit: &str) -> (r: String)
    ensures
        r@ == without_spaces(preedit@),
{
    let cs = chars_of(preedit);
    let mut out: Vec<char> = Vec::new();
    let mut i: usize = 0;
    while i < cs.len()
        invariant
            cs@ == preedit@,
            i <= cs@.len(),
            out@ == without_spaces(cs@.take(i as int)),
        decreases cs@.len() - i,
    {
        proof {
            assert(cs@.take(i + 1).drop_last() =~= cs@.take(i as int));
            reveal(Seq::filter);
        }
        if cs[i] != ' ' {
            out.push(cs[i]);
        }
        i = i + 1;
    }
    assert(cs@.take(cs@.len() as int) =~= cs@);
    string_of_chars(&out)
}

/// The part of a joined preedit that the engine already committed: the
/// preedit without its raw characters.
pub fn submitted_text(joined: &str) -> (r: String)
    ensures
        r@ == without_raw(joined@),
{
    let cs = chars_of(joined);
    let mut out: Vec<char> = Vec::new();
    let mut i: usize = 0;
    while i < cs.len()
        invariant
            cs@ == joined@,
            i <= cs@.len(),
            out@ == without_raw(cs@.take(i as int)),
        decreases cs@.len() - i,
    {
        proof {
            assert(cs@.take(i + 1).drop_last() =~= cs@.take(i as int));
            reveal(Seq::filter);
        }
        if !raw_char(cs[i]) {
            out.push(cs[i]);
        }
        i = i + 1;
    }
    assert(cs@.take(cs@.len() as int) =~= cs@);
    string_of_chars(&out)
}

impl RimeResponse {
    /// The response for what was read from a session: its preedit, the text
    /// it committed, and its menu. What the engine already committed is the
    /// committed text followed by the preedit without its spaces, with the
    /// raw characters taken out. A non-empty menu is the answer, and more
    /// may come; an empty menu leaves the committed text as the only
    /// candidate, at order 0, or nothing.
    pub fn assemble(
        preedit: Option<String>,
        commit_text: Option<String>,
        menu: Result<Vec<Candidate>, RimeError>,
    ) -> (r: Result<RimeResponse, RimeError>)
        ensures
            menu is Err <==> r is Err,
            menu matches Err(e) ==> r == Err::<RimeResponse, RimeError>(e),
            r matches Ok(resp) ==> {
                &&& resp.submitted@ == without_raw(
                    (match commit_text {
                        Some(t) => t@,
                        None => Seq::<char>::empty(),
                    }) + (match preedit {
                        Some(p) => without_spaces(p@),
                        None => Seq::<char>::empty(),
                    }),
                )
                &&& menu matches Ok(m) && (m@.len() > 0 ==> resp.is_incomplete && resp.candidates@
                    == m@)
                &&& menu matches Ok(m) && (m@.len() == 0 ==> !resp.is_incomplete && match commit_text {
                    Some(t) => resp.candidates@.len() == 1 && resp.candidates@[0].text@ == t@
                        && resp.candidates@[0].order == 0 && resp.candidates@[0].comment@.len()
                        == 0,
                    None => resp.candidates@.len() == 0,
                })
            },
    {
        let committed = match &commit_text {
            Some(t) => t.clone(),
            None => String::new(),
        };
        let joined = match &preedit {
            Some(p) => joined_preedit(p.as_str()),
            None => String::new(),
        };
        let both = committed.concat(joined.as_str());
        let submitted = submitted_text(both.as_str());
        match menu {
            Err(e) => Err(e),
            Ok(m) => {
                if m.len() > 0 {
                    Ok(RimeResponse { is_incomplete: true, submitted, candidates: m })
                } else {
                    let candidates = match commit_text {
                        Some(t) => {
                            let mut v: Vec<Candidate> = Vec::new();
                            v.push(Candidate::from_text(t));
                            v
                        },
                        None => Vec::new(),
                    };
                    Ok(RimeResponse { is_incomplete: false, submitted, candidates })
                }
            },
        }
    }
}

} // verus!
