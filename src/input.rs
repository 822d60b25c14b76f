use vstd::prelude::*;

use crate::grammar::{find_match, is_select_char, leftmost_match, no_match, pinyin_start, raw_run, select_run};
use crate::utils::{chars_equal, chars_of, diff, is_prefix, DiffResult};

verus! {

/// X11 keysym of the Backspace key.
pub const KEY_BACKSPACE: i32 = 0xff08;

/// X11 keysym of the Escape key.
pub const KEY_ESCAPE: i32 = 0xff1b;

/// X11 keysym of F4, the engine's shortcut to its schema menu.
pub const KEY_F4: i32 = 0xffc1;

/// One thing to do to an engine session.
#[derive(Debug, Clone, Copy, PartialEq, Eq, Structural)]
pub enum EngineOp {
    /// Send one key code.
    Key(i32),
    /// Cancel the current composition: Escape, then a clear.
    ClearComposition,
}

/// The key codes that type `s`, one per character.
pub open spec fn str_keys(s: Seq<char>) -> Seq<EngineOp> {
    Seq::new(s.len(), |i: int| EngineOp::Key(s[i] as i32))
}

/// `n` presses of Backspace.
pub open spec fn backspaces(n: nat) -> Seq<EngineOp> {
    Seq::new(n, |i: int| EngineOp::Key(KEY_BACKSPACE))
}

/// How the triggers of a pattern read as characters.
pub struct InputPattern {
    triggers: Option<Vec<char>>,
}

impl InputPattern {
    pub closed spec fn view_triggers(&self) -> Option<Seq<char>> {
        match self.triggers {
            Some(t) => Some(t@),
            None => None,
        }
    }

    /// The pattern that needs no trigger character.
    pub fn no_trigger() -> (r: InputPattern)
        ensures
            r.view_triggers() is None,
    {
        InputPattern { triggers: None }
    }

    /// The pattern that needs one of the characters of `chars` before the
    /// pinyin; with no characters, the pattern that needs none.
    pub fn with_triggers(chars: &Vec<String>) -> (r: InputPattern)
        ensures
            r.view_triggers() == (if joined(chars@).len() == 0 {
                None::<Seq<char>>
            } else {
                Some(joined(chars@))
            }),
    {
        let mut all: Vec<char> = Vec::new();
        let mut i: usize = 0;
        while i < chars.len()
            invariant
                i <= chars@.len(),
                all@ == joined(chars@.take(i as int)),
            decreases chars@.len() - i,
        {
            let mut cs = chars_of(chars[i].as_str());
            proof {
                assert(chars@.take(i + 1).drop_last() =~= chars@.take(i as int));
            }
            all.append(&mut cs);
            i = i + 1;
        }
        assert(chars@.take(chars@.len() as int) =~= chars@);
        if all.len() == 0 {
            InputPattern { triggers: None }
        } else {
            InputPattern { triggers: Some(all) }
        }
    }
}

/// The characters of all strings of `v`, in order.
pub open spec fn joined(v: Seq<String>) -> Seq<char>
    decreases v.len(),
{
    if v.len() == 0 {
        Seq::empty()
    } else {
        joined(v.drop_last()) + v.last()@
    }
}

/// What the end of the current line holds for the engine.
pub struct Input {
    raw_text: String,
    pinyin: String,
    select: String,
    is_schema: bool,
}

impl Input {
    pub closed spec fn spec_raw_text(&self) -> Seq<char> {
        self.raw_text@
    }

    pub closed spec fn spec_pinyin(&self) -> Seq<char> {
        self.pinyin@
    }

    pub closed spec fn spec_select(&self) -> Seq<char> {
        self.select@
    }

    pub closed spec fn spec_is_schema(&self) -> bool {
        self.is_schema
    }

    /// `self` is what the pattern with `triggers` reads from `text`, with
    /// `schema` as the string that opens the schema menu.
    pub open spec fn read_from(
        &self,
        text: Seq<char>,
        triggers: Option<Seq<char>>,
        schema: Seq<char>,
    ) -> bool {
        exists|p: int, k: int|
            #[trigger] leftmost_match(text, triggers, p, k) && self.spec_raw_text() == text.subrange(
                p,
                text.len() as int,
            ) && self.spec_pinyin() == text.subrange(pinyin_start(triggers, p), k)
                && self.spec_select() == text.subrange(k, text.len() as int)
                && self.spec_is_schema() == (self.spec_pinyin() == schema)
    }

    /// The pinyin is a non-empty raw run, the selection a selection run, and
    /// together they end the raw text.
    pub open spec fn wf(&self) -> bool {
        &&& self.spec_pinyin().len() > 0
        &&& raw_run(self.spec_pinyin(), 0, self.spec_pinyin().len() as int)
        &&& select_run(self.spec_select(), 0, self.spec_select().len() as int)
        &&& self.spec_raw_text().len() >= self.spec_pinyin().len() + self.spec_select().len()
        &&& self.spec_raw_text().subrange(
            self.spec_raw_text().len() - (self.spec_pinyin().len() + self.spec_select().len()),
            self.spec_raw_text().len() as int,
        ) == self.spec_pinyin() + self.spec_select()
    }

    /// Reads the input at the end of `text`; `None` where the pattern does
    /// not match.
    pub fn new(pattern: &InputPattern, text: &str, schema_trigger: &str) -> (r: Option<Input>)
        ensures
            r is None <==> no_match(text@, pattern.view_triggers()),
            r matches Some(input) ==> input.read_from(
                text@,
                pattern.view_triggers(),
                schema_trigger@,
            ) && input.wf(),
    {
        let s = chars_of(text);
        match find_match(&s, &pattern.triggers) {
            None => None,
            Some((p, k)) => {
                let ps = match &pattern.triggers {
                    Some(_) => p + 1,
                    None => p,
                };
                let raw_text = text.substring_char(p, s.len()).to_owned();
                let pinyin = text.substring_char(ps, k).to_owned();
                let select = text.substring_char(k, s.len()).to_owned();
                let schema = chars_of(schema_trigger);
                let pv = chars_of(pinyin.as_str());
                let is_schema = chars_equal(&pv, &schema);
                let input = Input { raw_text, pinyin, select, is_schema };
                proof {
                    let tr = pattern.view_triggers();
                    assert(leftmost_match(text@, tr, p as int, k as int));
                    assert(raw_run(input.pinyin@, 0, input.pinyin@.len() as int));
                    assert forall|i: int|
                        0 <= i < input.select@.len() implies #[trigger] is_select_char(
                        input.select@[i],
                    ) by {
                        assert(input.select@[i] == text@[k + i]);
                    }
                    let rv = input.raw_text@;
                    assert(rv.subrange(
                        rv.len() - (input.pinyin@.len() + input.select@.len()),
                        rv.len() as int,
                    ) =~= input.pinyin@ + input.select@);
                }
                Some(input)
            },
        }
    }

    pub fn raw_text(&self) -> (r: &str)
        ensures
            r@ == self.spec_raw_text(),
    {
        self.raw_text.as_str()
    }

    pub fn pinyin(&self) -> (r: &str)
        ensures
            r@ == self.spec_pinyin(),
    {
        self.pinyin.as_str()
    }

    pub fn select(&self) -> (r: &str)
        ensures
            r@ == self.spec_select(),
    {
        self.select.as_str()
    }

    pub fn is_schema(&self) -> (r: bool)
        ensures
            r == self.spec_is_schema(),
    {
        self.is_schema
    }

    pub fn is_selecting(&self) -> (r: bool)
        ensures
            r == (self.spec_select().len() > 0),
    {
        !self.select.as_str().is_empty()
    }

    /// The keys that type the pinyin: F4 alone for the schema menu.
    pub open spec fn pinyin_ops(&self) -> Seq<EngineOp> {
        if self.spec_is_schema() {
            seq![EngineOp::Key(KEY_F4)]
        } else {
            str_keys(self.spec_pinyin())
        }
    }

    /// The operations that bring the pinyin of `self` to that of `new`.
    pub open spec fn pinyin_diff_ops(&self, new: &Input, refresh: bool) -> Seq<EngineOp> {
        let a = self.spec_pinyin();
        let b = new.spec_pinyin();
        if a == b {
            Seq::empty()
        } else if is_prefix(a, b) {
            str_keys(b.subrange(a.len() as int, b.len() as int))
        } else if is_prefix(b, a) {
            (if refresh {
                seq![EngineOp::ClearComposition] + new.pinyin_ops() + str_keys(new.spec_select())
            } else {
                Seq::empty()
            }) + backspaces((a.len() - b.len()) as nat)
        } else {
            seq![EngineOp::ClearComposition] + new.pinyin_ops()
        }
    }

    /// The operations that bring the selection of `self` to that of `new`.
    pub open spec fn select_diff_ops(&self, new: &Input) -> Seq<EngineOp> {
        let a = self.spec_select();
        let b = new.spec_select();
        if a == b {
            Seq::empty()
        } else if is_prefix(a, b) {
            str_keys(b.subrange(a.len() as int, b.len() as int))
        } else if is_prefix(b, a) {
            backspaces((a.len() - b.len()) as nat)
        } else {
            backspaces(a.len()) + str_keys(b)
        }
    }

    fn process_pinyin(&self) -> (r: Vec<EngineOp>)
        ensures
            r@ == self.pinyin_ops(),
    {
        if self.is_schema {
            let mut v: Vec<EngineOp> = Vec::new();
            v.push(EngineOp::Key(KEY_F4));
            assert(v@ =~= seq![EngineOp::Key(KEY_F4)]);
            v
        } else {
            process_str(self.pinyin.as_str())
        }
    }

    fn process_select(&self) -> (r: Vec<EngineOp>)
        ensures
            r@ == str_keys(self.spec_select()),
    {
        process_str(self.select.as_str())
    }

    /// The operations that turn the pinyin typed so far into that of
    /// `new_input`; with `refresh`, a deletion first retypes the whole input.
    pub fn diff_pinyin(&self, new_input: &Input, refresh: bool) -> (r: Vec<EngineOp>)
        ensures
            r@ == self.pinyin_diff_ops(new_input, refresh),
    {
        match diff(self.pinyin.as_str(), new_input.pinyin.as_str()) {
            DiffResult::Same => Vec::new(),
            DiffResult::Add(suffix) => process_str(suffix.as_str()),
            DiffResult::Delete(suffix) => {
                let mut ops: Vec<EngineOp> = Vec::new();
                if refresh {
                    ops.push(EngineOp::ClearComposition);
                    let mut p = new_input.process_pinyin();
                    ops.append(&mut p);
                    let mut s = new_input.process_select();
                    ops.append(&mut s);
                }
                let mut d = delete_keys(suffix.as_str().unicode_len());
                ops.append(&mut d);
                proof {
                    let head = if refresh {
                        seq![EngineOp::ClearComposition] + new_input.pinyin_ops() + str_keys(
                            new_input.spec_select(),
                        )
                    } else {
                        Seq::empty()
                    };
                    assert(ops@ =~= head + backspaces(
                        (self.spec_pinyin().len() - new_input.spec_pinyin().len()) as nat,
                    ));
                }
                ops
            },
            DiffResult::New => {
                let mut ops: Vec<EngineOp> = Vec::new();
                ops.push(EngineOp::ClearComposition);
                let mut p = new_input.process_pinyin();
                ops.append(&mut p);
                assert(ops@ =~= seq![EngineOp::ClearComposition] + new_input.pinyin_ops());
                ops
            },
        }
    }

    /// The operations that turn the selection typed so far into that of
    /// `new_input`.
    pub fn diff_select(&self, new_input: &Input) -> (r: Vec<EngineOp>)
        ensures
            r@ == self.select_diff_ops(new_input),
    {
        match diff(self.select.as_str(), new_input.select.as_str()) {
            DiffResult::Same => Vec::new(),
            DiffResult::Add(suffix) => process_str(suffix.as_str()),
            DiffResult::Delete(suffix) => delete_keys(suffix.as_str().unicode_len()),
            DiffResult::New => {
                let mut ops = delete_keys(self.select.as_str().unicode_len());
                let mut keys = process_str(new_input.select.as_str());
                ops.append(&mut keys);
                ops
            },
        }
    }
}

/// The key codes that type `keys`.
pub fn process_str(keys: &str) -> (r: Vec<EngineOp>)
    ensures
        r@ == str_keys(keys@),
{
    let cs = chars_of(keys);
    let mut ops: Vec<EngineOp> = Vec::new();
    let mut i: usize = 0;
    while i < cs.len()
        invariant
            i <= cs@.len(),
            cs@ == keys@,
            ops@ == str_keys(cs@.take(i as int)),
        decreases cs@.len() - i,
    {
        ops.push(EngineOp::Key(cs[i] as i32));
        i = i + 1;
        assert(ops@ =~= str_keys(cs@.take(i as int)));
    }
    assert(cs@.take(cs@.len() as int) =~= cs@);
    ops
}

/// `len` presses of Backspace.
pub fn delete_keys(len: usize) -> (r: Vec<EngineOp>)
    ensures
        r@ == backspaces(len as nat),
{
    let mut ops: Vec<EngineOp> = Vec::new();
    let mut i: usize = 0;
    while i < len
        invariant
            i <= len,
            ops@ == backspaces(i as nat),
        decreases len - i,
    {
        ops.push(EngineOp::Key(KEY_BACKSPACE));
        i = i + 1;
        assert(ops@ =~= backspaces(i as nat));
    }
    ops
}

/// What is remembered of the last completion request of a document.
pub struct InputState {
    input: Input,
    session_id: usize,
    offset: usize,
    is_incomplete: bool,
}

/// The session that served a request, and how far past the anchor the text
/// the engine still composes begins.
pub struct InputResult {
    pub session_id: usize,
    pub extra_offset: usize,
}

/// What to do to the engine for one request. First destroy `destroy`, if
/// any; then use session `reuse`, or a new one where it is `None`; send it
/// `before_read`, read its raw input, then send it `after_read`.
pub struct InputPlan {
    pub destroy: Option<usize>,
    pub reuse: Option<usize>,
    pub before_read: Vec<EngineOp>,
    pub after_read: Vec<EngineOp>,
}

/// The session decision of a plan: which session goes, which one stays.
pub ghost enum SessionStep {
    /// Keep typing into this session.
    Reuse(usize),
    /// Destroy this session, if any, and start a new one.
    Replace(Option<usize>),
    /// Destroy the first session, then keep typing into the second.
    DestroyThenReuse(usize, usize),
}

impl InputPlan {
    pub open spec fn step(&self) -> SessionStep {
        match (self.destroy, self.reuse) {
            (None, Some(id)) => SessionStep::Reuse(id),
            (Some(d), Some(id)) => SessionStep::DestroyThenReuse(d, id),
            (d, None) => SessionStep::Replace(d),
        }
    }
}

/// The live sessions of a document once `step` is done, `created` being the
/// id the engine gives a new session.
pub open spec fn sessions_after(live: Set<usize>, step: SessionStep, created: usize) -> Set<usize> {
    match step {
        SessionStep::Reuse(_) => live,
        SessionStep::DestroyThenReuse(d, _) => live.remove(d),
        SessionStep::Replace(d) => match d {
            Some(id) => live.remove(id),
            None => live,
        }.insert(created),
    }
}

/// The session that serves the request once `step` is done.
pub open spec fn serving_session(step: SessionStep, created: usize) -> usize {
    match step {
        SessionStep::Reuse(id) => id,
        SessionStep::DestroyThenReuse(_, id) => id,
        SessionStep::Replace(_) => created,
    }
}

/// The operations that type the whole input into a new session: the
/// pinyin, then the selection.
pub open spec fn fresh_ops(input: &Input) -> Seq<EngineOp> {
    input.pinyin_ops() + str_keys(input.spec_select())
}

/// `i` is where `r` occurs in `p`.
pub open spec fn occurs_at(p: Seq<char>, r: Seq<char>, i: int) -> bool {
    0 <= i && i + r.len() <= p.len() && p.subrange(i, i + r.len()) == r
}

/// The offset in `pinyin` of the last occurrence of the engine's raw input;
/// zero where there is none or it is empty.
pub open spec fn is_extra_offset(pinyin: Seq<char>, raw: Option<Seq<char>>, e: int) -> bool {
    match raw {
        Some(r) => if r.len() > 0 && exists|i: int| occurs_at(pinyin, r, i) {
            occurs_at(pinyin, r, e) && forall|j: int| e < j ==> !occurs_at(pinyin, r, j)
        } else {
            e == 0
        },
        None => e == 0,
    }
}

impl InputState {
    pub closed spec fn spec_input(&self) -> &Input {
        &self.input
    }

    pub closed spec fn spec_session_id(&self) -> usize {
        self.session_id
    }

    pub closed spec fn spec_offset(&self) -> usize {
        self.offset
    }

    pub closed spec fn spec_is_incomplete(&self) -> bool {
        self.is_incomplete
    }

    pub fn new(input: Input, session_id: usize, offset: usize, is_incomplete: bool) -> (r:
        InputState)
        ensures
            *r.spec_input() == input,
            r.spec_session_id() == session_id,
            r.spec_offset() == offset,
            r.spec_is_incomplete() == is_incomplete,
    {
        InputState { input, session_id, offset, is_incomplete }
    }

    pub fn session_id(&self) -> (r: usize)
        ensures
            r == self.spec_session_id(),
    {
        self.session_id
    }

    /// Where the last session stands: `alive` is what the engine says of it.
    pub open spec fn next_step(&self, alive: bool, new_offset: usize) -> SessionStep {
        if !alive {
            SessionStep::Replace(None)
        } else if self.spec_offset() != new_offset || !self.spec_is_incomplete() {
            SessionStep::Replace(Some(self.spec_session_id()))
        } else {
            SessionStep::Reuse(self.spec_session_id())
        }
    }

    /// The extra offset of the engine's raw input `raw_input` within `pinyin`.
    pub fn assemble_result(session_id: usize, pinyin: &str, raw_input: Option<String>) -> (r:
        InputResult)
        ensures
            r.session_id == session_id,
            is_extra_offset(
                pinyin@,
                match raw_input {
                    Some(s) => Some(s@),
                    None => None,
                },
                r.extra_offset as int,
            ),
    {
        let extra_offset = match raw_input {
            None => 0,
            Some(raw) => match last_occurrence(pinyin, raw.as_str()) {
                Some(i) => i,
                None => 0,
            },
        };
        InputResult { session_id, extra_offset }
    }

    /// The operations that type `new_input` into a new session.
    pub fn first_input(new_input: &Input) -> (r: Vec<EngineOp>)
        ensures
            r@ == fresh_ops(new_input),
    {
        let mut ops = new_input.process_pinyin();
        let mut sel = new_input.process_select();
        ops.append(&mut sel);
        ops
    }

    fn continue_input(&self, new_input: &Input, refresh: bool) -> (r: InputPlan)
        ensures
            r.destroy is None,
            r.reuse == Some(self.spec_session_id()),
            r.before_read@ == self.spec_input().pinyin_diff_ops(new_input, refresh),
            r.after_read@ == self.spec_input().select_diff_ops(new_input),
    {
        let before_read = self.input.diff_pinyin(new_input, refresh);
        let after_read = self.input.diff_select(new_input);
        InputPlan { destroy: None, reuse: Some(self.session_id), before_read, after_read }
    }

    /// Plans the request whose input `input` begins at `new_offset`, `alive`
    /// telling whether the engine still has the last session. A moved anchor
    /// or a finished composition starts a new session; otherwise the session
    /// goes on, and where the new pinyin is `max_tokens` long (and
    /// `max_tokens` is not zero) a deletion retypes the whole input first.
    pub fn apply_input(&self, alive: bool, new_offset: usize, input: &Input, max_tokens: usize) -> (r:
        InputPlan)
        ensures
            r.step() == self.next_step(alive, new_offset),
            r.reuse is Some ==> r.destroy is None,
            r.step() is Replace ==> r.before_read@ == fresh_ops(input) && r.after_read@.len() == 0,
            r.step() is Reuse ==> {
                let refresh = max_tokens > 0 && max_tokens == input.spec_pinyin().len();
                &&& r.before_read@ == self.spec_input().pinyin_diff_ops(input, refresh)
                &&& r.after_read@ == self.spec_input().select_diff_ops(input)
            },
    {
        if !alive {
            return InputPlan {
                destroy: None,
                reuse: None,
                before_read: Self::first_input(input),
                after_read: Vec::new(),
            };
        }
        if self.offset != new_offset || !self.is_incomplete {
            return InputPlan {
                destroy: Some(self.session_id),
                reuse: None,
                before_read: Self::first_input(input),
                after_read: Vec::new(),
            };
        }
        let refresh = max_tokens > 0 && max_tokens == input.pinyin.as_str().unicode_len();
        self.continue_input(input, refresh)
    }
}

/// Where the last occurrence of a non-empty `needle` in `haystack` begins.
fn last_occurrence(haystack: &str, needle: &str) -> (r: Option<usize>)
    ensures
        match r {
            Some(i) => needle@.len() > 0 && occurs_at(haystack@, needle@, i as int) && forall|j: int|
                i < j ==> !occurs_at(haystack@, needle@, j),
            None => needle@.len() == 0 || forall|j: int| !occurs_at(haystack@, needle@, j),
        },
{
    let h = chars_of(haystack);
    let n = chars_of(needle);
    if n.len() == 0 || n.len() > h.len() {
        return None;
    }
    let hl = h.len();
    let mut i = h.len() - n.len() + 1;
    while i > 0
        invariant
            hl == h@.len(),
            h@ == haystack@,
            n@ == needle@,
            0 < n@.len() <= h@.len(),
            i <= h@.len() - n@.len() + 1,
            forall|j: int| i <= j ==> !occurs_at(h@, n@, j),
        decreases i,
    {
        let start = i - 1;
        let mut k: usize = 0;
        while k < n.len() && h[start + k] == n[k]
            invariant
                hl == h@.len(),
                0 < n@.len() <= h@.len(),
                start + n@.len() <= h@.len(),
                k <= n@.len(),
                forall|m: int| 0 <= m < k ==> h@[start + m] == n@[m],
            decreases n@.len() - k,
        {
            k = k + 1;
        }
        if k == n.len() {
            assert(h@.subrange(start as int, start + n@.len()) =~= n@);
            return Some(start);
        }
        assert(h@.subrange(start as int, start + n@.len())[k as int] != n@[k as int]);
        i = start;
    }
    None
}

/// A document has at most one live session after any request: where it had
/// at most the session of its last state, it ends with exactly the session
/// that serves the request, which the engine knows right away.
pub proof fn one_session_per_document(
    state: Option<InputState>,
    live: Set<usize>,
    alive: bool,
    new_offset: usize,
    created: usize,
)
    requires
        match state {
            Some(st) => live.subset_of(set![st.spec_session_id()]) && alive == live.contains(
                st.spec_session_id(),
            ),
            None => live.is_empty(),
        },
    ensures
        ({
            let step = match state {
                Some(st) => st.next_step(alive, new_offset),
                None => SessionStep::Replace(None),
            };
            let after = sessions_after(live, step, created);
            &&& after =~= set![serving_session(step, created)]
            &&& after.len() == 1
        }),
{
    let step = match state {
        Some(st) => st.next_step(alive, new_offset),
        None => SessionStep::Replace(None),
    };
    let after = sessions_after(live, step, created);
    assert(after =~= set![serving_session(step, created)]);
    assert(set![serving_session(step, created)].len() == 1) by {
        assert(set![serving_session(step, created)] =~= Set::<usize>::empty().insert(
            serving_session(step, created),
        ));
    }
}

/// A request that starts a new session is served by that session, and the
/// engine knows it right after: whatever else was live, and whichever
/// session was destroyed first, the new one is among the live sessions.
pub proof fn fresh_session_is_live(live: Set<usize>, destroyed: Option<usize>, created: usize)
    ensures
        sessions_after(live, SessionStep::Replace(destroyed), created).contains(
            serving_session(SessionStep::Replace(destroyed), created),
        ),
{
}

/// Asking again for the same input at the same place, while the session
/// lives and its composition goes on, keeps the session and sends it no
/// key at all, so the engine answers as before.
pub proof fn repeated_request_sends_nothing(
    state: InputState,
    input: Input,
    new_offset: usize,
    refresh: bool,
)
    requires
        input.spec_pinyin() == state.spec_input().spec_pinyin(),
        input.spec_select() == state.spec_input().spec_select(),
        new_offset == state.spec_offset(),
        state.spec_is_incomplete(),
    ensures
        state.next_step(true, new_offset) == SessionStep::Reuse(state.spec_session_id()),
        state.spec_input().pinyin_diff_ops(&input, refresh).len() == 0,
        state.spec_input().select_diff_ops(&input).len() == 0,
{
}

} // verus!
