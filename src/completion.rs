use vstd::prelude::*;

use crate::config::Config;
use crate::grammar::{auto_triggered, no_match};
use ropey::Rope;

use crate::document::{
    fit_offset, fit_position, len_chars, offset_of, offset_to_position, position_of,
    position_to_offset, rope_chars, rope_text, Position,
};
use crate::input::{fresh_ops, Input, InputPattern, InputPlan, InputState, SessionStep};
use crate::utils::Encoding;
use crate::rime::Candidate;
use crate::utils::{
    build_order_to_sort_text, chars_of, need_to_check_trigger, num_digits, padded_digits,
    sort_text_of, string_of_chars, surrounding_word, word_start, OrderToSortText,
};

verus! {

/// One completion item, before it is put in the protocol's shape.
#[derive(Debug)]
pub struct CompletionEntry {
    pub label: String,
    /// The candidate's comment, where it has one.
    pub detail: Option<String>,
    pub filter_text: String,
    pub sort_text: String,
    pub preselect: Option<bool>,
    /// What replaces the input in the document.
    pub new_text: String,
}

/// `n` in decimal.
pub open spec fn decimal(n: nat) -> Seq<char> {
    padded_digits(n, num_digits(n))
}

/// The text a candidate puts in the document: after what the engine
/// already committed where the user is selecting by number.
pub open spec fn item_text(c: Candidate, submitted: Seq<char>, is_selecting: bool) -> Seq<char> {
    if is_selecting {
        submitted + c.text@
    } else {
        c.text@
    }
}

/// The label of a candidate: its order and a dot in front where asked for
/// and the order is not 0, and the filter text in parentheses after it
/// where asked for.
pub open spec fn label_of(
    c: Candidate,
    text: Seq<char>,
    filter_text: Seq<char>,
    show_order: bool,
    show_filter_text: bool,
) -> Seq<char> {
    let head = if c.order == 0 || !show_order {
        text
    } else {
        decimal(c.order as nat) + ". "@ + text
    };
    if show_filter_text {
        head + " ("@ + filter_text + ")"@
    } else {
        head
    }
}

/// `e` is the item for candidate `c` at index `i` of the menu.
pub open spec fn is_entry(
    e: CompletionEntry,
    c: Candidate,
    i: int,
    submitted: Seq<char>,
    is_selecting: bool,
    filter_text: Seq<char>,
    config: Config,
) -> bool {
    let text = item_text(c, submitted, is_selecting);
    &&& e.new_text@ == text
    &&& e.label@ == label_of(
        c,
        text,
        filter_text,
        config.show_order_in_label,
        config.show_filter_text_in_label,
    )
    &&& e.filter_text@ == filter_text
    &&& e.sort_text@ == sort_text_of(num_digits(config.max_candidates as nat), c.order as nat)
    &&& e.preselect == (if config.preselect_first && i == 0 {
        Some(true)
    } else {
        None
    })
    &&& match e.detail {
        Some(d) => c.comment@.len() > 0 && d@ == c.comment@,
        None => c.comment@.len() == 0,
    }
}

fn literal(s: &str) -> (r: Vec<char>)
    ensures
        r@ == s@,
{
    chars_of(s)
}

fn decimal_chars(n: usize) -> (r: Vec<char>)
    ensures
        r@ == decimal(n as nat),
{
    let sorter = OrderToSortText { width: 0 };
    let s = sorter.sort_text(n);
    let cs = chars_of(s.as_str());
    let mut out: Vec<char> = Vec::new();
    let mut i: usize = 1;
    while i < cs.len()
        invariant
            cs@ == sort_text_of(0, n as nat),
            1 <= i <= cs@.len(),
            out@ == cs@.subrange(1, i as int),
        decreases cs@.len() - i,
    {
        out.push(cs[i]);
        i = i + 1;
        assert(out@ =~= cs@.subrange(1, i as int));
    }
    assert(out@ =~= decimal(n as nat));
    out
}

fn entry(
    c: &Candidate,
    i: usize,
    submitted: &str,
    is_selecting: bool,
    filter_text: &str,
    config: &Config,
    sorter: &OrderToSortText,
) -> (r: CompletionEntry)
    requires
        sorter.width == num_digits(config.max_candidates as nat),
    ensures
        is_entry(r, *c, i as int, submitted@, is_selecting, filter_text@, *config),
{
    let mut text: Vec<char> = Vec::new();
    if is_selecting {
        let mut s = chars_of(submitted);
        text.append(&mut s);
    }
    let mut t = chars_of(c.text.as_str());
    text.append(&mut t);
    let mut label: Vec<char> = Vec::new();
    if c.order != 0 && config.show_order_in_label {
        let mut d = decimal_chars(c.order);
        label.append(&mut d);
        let mut dot = literal(". ");
        label.append(&mut dot);
    }
    let mut body = text.clone();
    label.append(&mut body);
    if config.show_filter_text_in_label {
        let mut open = literal(" (");
        label.append(&mut open);
        let mut f = chars_of(filter_text);
        label.append(&mut f);
        let mut close = literal(")");
        label.append(&mut close);
    }
    let detail = if c.comment.as_str().is_empty() {
        None
    } else {
        Some(c.comment.clone())
    };
    let preselect = if config.preselect_first && i == 0 {
        Some(true)
    } else {
        None
    };
    let r = CompletionEntry {
        label: string_of_chars(&label),
        detail,
        filter_text: filter_text.to_owned(),
        sort_text: sorter.sort_text(c.order),
        preselect,
        new_text: string_of_chars(&text),
    };
    proof {
        let tv = item_text(*c, submitted@, is_selecting);
        assert(text@ =~= tv);
        let head = if c.order == 0 || !config.show_order_in_label {
            tv
        } else {
            decimal(c.order as nat) + ". "@ + tv
        };
        if config.show_filter_text_in_label {
            assert(label@ =~= head + " ("@ + filter_text@ + ")"@);
        } else {
            assert(label@ =~= head);
        }
    }
    r
}

/// The completion items for the candidates of one response, in menu order.
pub fn completion_items(
    candidates: &Vec<Candidate>,
    submitted: &str,
    is_selecting: bool,
    filter_text: &str,
    config: &Config,
) -> (r: Vec<CompletionEntry>)
    ensures
        r@.len() == candidates@.len(),
        forall|i: int|
            0 <= i < r@.len() ==> is_entry(
                #[trigger] r@[i],
                candidates@[i],
                i,
                submitted@,
                is_selecting,
                filter_text@,
                *config,
            ),
{
    let sorter = build_order_to_sort_text(config.max_candidates);
    let mut items: Vec<CompletionEntry> = Vec::new();
    let mut i: usize = 0;
    while i < candidates.len()
        invariant
            sorter.width == num_digits(config.max_candidates as nat),
            i <= candidates@.len(),
            items@.len() == i,
            forall|k: int|
                0 <= k < i ==> is_entry(
                    #[trigger] items@[k],
                    candidates@[k],
                    k,
                    submitted@,
                    is_selecting,
                    filter_text@,
                    *config,
                ),
        decreases candidates@.len() - i,
    {
        let e = entry(&candidates[i], i, submitted, is_selecting, filter_text, config, &sorter);
        items.push(e);
        i = i + 1;
    }
    items
}

/// The order a selection picks: its last character, where that is a digit
/// from 1 to 9.
pub open spec fn picked_order(select: Seq<char>) -> Option<nat> {
    if select.len() > 0 && 49 <= (select.last() as u32) <= 57 {
        Some(((select.last() as u32) - 48) as nat)
    } else {
        None
    }
}

/// The candidates to show: where the user picks a candidate by its number
/// and the menu has it, that candidate alone; otherwise all of them.
pub fn numeric_pick(candidates: Vec<Candidate>, select: &str) -> (r: Vec<Candidate>)
    ensures
        match picked_order(select@) {
            Some(k) => if exists|i: int| 0 <= i < candidates@.len() && #[trigger] candidates@[i].order == k {
                r@.len() == 1 && r@[0].order == k && exists|i: int|
                    0 <= i < candidates@.len() && r@[0] == #[trigger] candidates@[i]
            } else {
                r@ == candidates@
            },
            None => r@ == candidates@,
        },
{
    let cs = chars_of(select);
    if cs.len() == 0 {
        return candidates;
    }
    let last = cs[cs.len() - 1] as u32;
    if last < 49 || last > 57 {
        return candidates;
    }
    let k = (last - 48) as usize;
    assert(picked_order(select@) == Some(k as nat));
    let mut i: usize = 0;
    while i < candidates.len()
        invariant
            i <= candidates@.len(),
            picked_order(select@) == Some(k as nat),
            forall|j: int| 0 <= j < i ==> (#[trigger] candidates@[j]).order != k,
        decreases candidates@.len() - i,
    {
        if candidates[i].order == k {
            let mut all = candidates;
            let ghost before = all@;
            let picked = all.remove(i);
            let mut r: Vec<Candidate> = Vec::new();
            r.push(picked);
            assert(r@[0] == before[i as int]);
            assert(before[i as int].order == k);
            assert(before == candidates@);
            assert(exists|j: int| 0 <= j < candidates@.len() && #[trigger] candidates@[j].order == k);
            assert(exists|j: int| 0 <= j < candidates@.len() && r@[0] == #[trigger] candidates@[j]);
            return r;
        }
        i = i + 1;
    }
    candidates
}

/// The pattern a request uses: the trigger pattern where trigger characters
/// are configured and the line does not already end inside a word.
pub open spec fn uses_trigger(line: Seq<char>, config: Config) -> bool {
    config.trigger_characters@.len() > 0 && !auto_triggered(line)
}

/// Reads the input at the end of `line`, the text of the current line up to
/// the cursor; `pattern` is the pattern built from the trigger characters.
pub fn read_input(line: &str, config: &Config, pattern: &InputPattern) -> (r: Option<Input>)
    ensures
        uses_trigger(line@, *config) ==> {
            &&& r is None <==> no_match(line@, pattern.view_triggers())
            &&& r matches Some(input) ==> input.read_from(
                line@,
                pattern.view_triggers(),
                config.schema_trigger_character@,
            ) && input.wf()
        },
        !uses_trigger(line@, *config) ==> {
            &&& r is None <==> no_match(line@, None)
            &&& r matches Some(input) ==> input.read_from(
                line@,
                None,
                config.schema_trigger_character@,
            ) && input.wf()
        },
{
    let has_trigger = config.trigger_characters.len() > 0;
    if need_to_check_trigger(has_trigger, line) {
        Input::new(pattern, line, config.schema_trigger_character.as_str())
    } else {
        let plain = InputPattern::no_trigger();
        Input::new(&plain, line, config.schema_trigger_character.as_str())
    }
}

/// The filter text of a request: the input's raw text, after the word that
/// ends the line before the replaced range where `long_filter_text` is set.
pub fn filter_text_for(before: &str, raw_text: &str, long_filter_text: bool) -> (r: String)
    ensures
        !long_filter_text ==> r@ == raw_text@,
        long_filter_text ==> exists|start: int|
            word_start(before@, start) && r@ == before@.subrange(start, before@.len() as int)
                + raw_text@,
{
    if long_filter_text {
        let w = surrounding_word(before);
        w.concat(raw_text)
    } else {
        raw_text.to_owned()
    }
}

/// Whether the completion list is marked incomplete.
pub fn list_is_incomplete(config: &Config, engine_incomplete: bool) -> (r: bool)
    ensures
        r == (config.always_incomplete || engine_incomplete),
{
    config.always_incomplete || engine_incomplete
}

/// The pattern a request on `line` uses.
pub open spec fn request_triggers(line: Seq<char>, config: Config, pattern: InputPattern) -> Option<
    Seq<char>,
> {
    if uses_trigger(line, config) {
        pattern.view_triggers()
    } else {
        None
    }
}

/// What a completion request reads from its document.
pub struct CompletionRequest {
    pub input: Input,
    /// The offset where the cursor's line begins.
    pub line_begin: usize,
    /// The cursor's offset.
    pub cursor: usize,
    /// The offset where the input's raw text begins.
    pub new_offset: usize,
}

/// Reads the input that ends at `position`: from the start of its line to
/// the cursor. `None` where a position does not convert, or the pattern does
/// not match.
pub fn prepare_completion(
    rope: &Rope,
    position: Position,
    encoding: Encoding,
    config: &Config,
    pattern: &InputPattern,
) -> (r: Option<CompletionRequest>)
    ensures
        ({
            let s = rope_chars(*rope);
            let lb = fit_offset(offset_of(s, position.line as int, 0, encoding));
            let cur = fit_offset(offset_of(s, position.line as int, position.character as int, encoding));
            match (lb, cur) {
                (Some(b), Some(c)) => if b <= c && c <= s.len() {
                    let line = s.subrange(b as int, c as int);
                    let tr = request_triggers(line, *config, *pattern);
                    &&& r is None <==> no_match(line, tr)
                    &&& r matches Some(req) ==> {
                        &&& req.line_begin == b
                        &&& req.cursor == c
                        &&& req.input.read_from(line, tr, config.schema_trigger_character@)
                        &&& req.input.wf()
                        &&& req.new_offset + req.input.spec_raw_text().len() == c
                    }
                } else {
                    r is None
                },
                _ => r is None,
            }
        }),
{
    let line_begin = match position_to_offset(rope, Position { line: position.line, character: 0 }, encoding) {
        Some(o) => o,
        None => return None,
    };
    let cursor = match position_to_offset(rope, position, encoding) {
        Some(o) => o,
        None => return None,
    };
    if line_begin > cursor || cursor > len_chars(rope) {
        return None;
    }
    let line = rope_text(rope, line_begin, cursor);
    let input = match read_input(line.as_str(), config, pattern) {
        Some(i) => i,
        None => return None,
    };
    let raw_len = input.raw_text().unicode_len();
    proof {
        let tr = request_triggers(line@, *config, *pattern);
        let (p, k) = choose|p: int, k: int|
            #[trigger] crate::grammar::leftmost_match(line@, tr, p, k) && input.spec_raw_text()
                == line@.subrange(p, line@.len() as int) && input.spec_pinyin() == line@.subrange(
                crate::grammar::pinyin_start(tr, p),
                k,
            ) && input.spec_select() == line@.subrange(k, line@.len() as int)
                && input.spec_is_schema() == (input.spec_pinyin()
                == config.schema_trigger_character@);
        assert(0 <= p <= line@.len());
    }
    let new_offset = cursor - raw_len;
    Some(CompletionRequest { input, line_begin, cursor, new_offset })
}

/// The session decision of a request, from the document's last state.
pub open spec fn request_step(state: Option<InputState>, alive: bool, new_offset: usize) -> SessionStep {
    match state {
        Some(st) => st.next_step(alive, new_offset),
        None => SessionStep::Replace(None),
    }
}

/// Plans the engine work of a request; `alive` is what the engine says of
/// the last state's session.
pub fn plan_request(
    state: &Option<InputState>,
    alive: bool,
    request: &CompletionRequest,
    max_tokens: usize,
) -> (r: InputPlan)
    ensures
        r.step() == request_step(*state, alive, request.new_offset),
        r.reuse is Some ==> r.destroy is None,
        r.step() is Replace ==> r.before_read@ == fresh_ops(&request.input) && r.after_read@.len()
            == 0,
        r.step() is Reuse ==> match state {
            Some(st) => {
                let refresh = max_tokens > 0 && max_tokens == request.input.spec_pinyin().len();
                &&& r.before_read@ == st.spec_input().pinyin_diff_ops(&request.input, refresh)
                &&& r.after_read@ == st.spec_input().select_diff_ops(&request.input)
            },
            None => false,
        },
{
    match state {
        Some(st) => st.apply_input(alive, request.new_offset, &request.input, max_tokens),
        None => InputPlan {
            destroy: None,
            reuse: None,
            before_read: InputState::first_input(&request.input),
            after_read: Vec::new(),
        },
    }
}

/// Where the replaced range of a request begins, and its filter text: the
/// range starts `extra_offset` past the input's raw text, and the filter
/// text is the raw text, after the word before the range where
/// `long_filter_text` is set.
pub fn completion_anchor(
    rope: &Rope,
    request: &CompletionRequest,
    extra_offset: usize,
    encoding: Encoding,
    long_filter_text: bool,
) -> (r: Option<(Position, String)>)
    ensures
        ({
            let s = rope_chars(*rope);
            let anchor = request.new_offset + extra_offset;
            if anchor <= usize::MAX && request.line_begin <= anchor {
                match fit_position(position_of(s, anchor, encoding)) {
                    Some(p) => r matches Some((q, f)) && q == p && (!long_filter_text ==> f@
                        == request.input.spec_raw_text()) && (long_filter_text ==> exists|start: int|
                        crate::utils::word_start(s.subrange(request.line_begin as int, anchor), start)
                            && f@ == s.subrange(request.line_begin as int, anchor).subrange(
                            start,
                            anchor - request.line_begin,
                        ) + request.input.spec_raw_text()),
                    None => r is None,
                }
            } else {
                r is None
            }
        }),
{
    let anchor = match request.new_offset.checked_add(extra_offset) {
        Some(x) => x,
        None => return None,
    };
    if request.line_begin > anchor {
        return None;
    }
    let start = match offset_to_position(rope, anchor, encoding) {
        Some(p) => p,
        None => return None,
    };
    let before = rope_text(rope, request.line_begin, anchor);
    let filter_text = filter_text_for(before.as_str(), request.input.raw_text(), long_filter_text);
    Some((start, filter_text))
}

} // verus!
