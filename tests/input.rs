use rime_ls::completion::{
    completion_anchor, completion_items, list_is_incomplete, numeric_pick, plan_request,
    prepare_completion, read_input, CompletionRequest,
};
use rime_ls::config::Config;
use rime_ls::document::{apply_change, Position};
use ropey::Rope;

fn rope_from_str(s: &str) -> Rope {
    Rope::from_str(s)
}
use rime_ls::input::{
    delete_keys, process_str, EngineOp, Input, InputPattern, InputState, KEY_BACKSPACE, KEY_F4,
};
use rime_ls::rime::{menu_candidates, RimeResponse};
use rime_ls::utils::Encoding;

fn keys(s: &str) -> Vec<EngineOp> {
    s.chars().map(|c| EngineOp::Key(c as i32)).collect()
}

fn pos(line: u32, character: u32) -> Position {
    Position { line, character }
}

fn config() -> Config {
    Config::with_dirs(String::new(), String::new())
}

fn request(text: &str, cfg: &Config) -> CompletionRequest {
    let rope = rope_from_str(text);
    let pattern = InputPattern::with_triggers(&cfg.trigger_characters);
    let col = text.encode_utf16().count() as u32;
    prepare_completion(&rope, pos(0, col), Encoding::UTF16, cfg, &pattern).unwrap()
}

fn plain(text: &str) -> Option<Input> {
    Input::new(&InputPattern::no_trigger(), text, "")
}

#[test]
fn input_splits_pinyin_and_select() {
    let i = plain("汉字nihao").unwrap();
    assert_eq!(i.raw_text(), "nihao");
    assert_eq!(i.pinyin(), "nihao");
    assert_eq!(i.select(), "");
    assert!(!i.is_selecting());
    let i = plain("hello nihao2").unwrap();
    assert_eq!(i.raw_text(), "nihao2");
    assert_eq!(i.pinyin(), "nihao");
    assert_eq!(i.select(), "2");
    assert!(i.is_selecting());
    let i = plain("nihao,").unwrap();
    assert_eq!(i.pinyin(), "nihao,");
    assert_eq!(i.select(), "");
    let i = plain("ni,2.").unwrap();
    assert_eq!(i.pinyin(), "ni,");
    assert_eq!(i.select(), "2.");
    assert!(plain("").is_none());
    assert!(plain("123").is_none());
    assert!(plain("nihao ").is_none());
    let i = plain("1,").unwrap();
    assert_eq!(i.raw_text(), ",");
    assert_eq!(i.pinyin(), ",");
}

#[test]
fn trigger_pattern_needs_a_trigger() {
    let triggers = vec![">".to_string()];
    let p = InputPattern::with_triggers(&triggers);
    let i = Input::new(&p, "say >nihao1", "").unwrap();
    assert_eq!(i.raw_text(), ">nihao1");
    assert_eq!(i.pinyin(), "nihao");
    assert_eq!(i.select(), "1");
    assert!(Input::new(&p, "say nihao", "").is_none());
    let i = Input::new(&p, ">>ni", "").unwrap();
    assert_eq!(i.raw_text(), ">>ni");
    assert_eq!(i.pinyin(), ">ni");
}

#[test]
fn request_uses_trigger_pattern_only_outside_words() {
    let mut cfg = config();
    cfg.trigger_characters = vec![">".to_string()];
    let pattern = InputPattern::with_triggers(&cfg.trigger_characters);
    assert!(read_input(" nihao", &cfg, &pattern).is_none());
    assert_eq!(read_input(" >nihao", &cfg, &pattern).unwrap().raw_text(), ">nihao");
    assert_eq!(read_input("汉nihao", &cfg, &pattern).unwrap().raw_text(), "nihao");
}

#[test]
fn keys_for_text_and_deletions() {
    assert_eq!(process_str("ab1"), keys("ab1"));
    assert_eq!(delete_keys(2), vec![EngineOp::Key(KEY_BACKSPACE); 2]);
    assert_eq!(KEY_BACKSPACE, 0xff08);
    assert_eq!(KEY_F4, 0xffc1);
}

#[test]
fn extra_offset_is_last_occurrence_of_raw_input() {
    assert_eq!(InputState::assemble_result(3, "ni", None).extra_offset, 0);
    assert_eq!(InputState::assemble_result(3, "ni", Some(String::new())).extra_offset, 0);
    assert_eq!(InputState::assemble_result(3, ",.nihao", Some("nihao".into())).extra_offset, 2);
    assert_eq!(InputState::assemble_result(3, "aXaX", Some("aX".into())).extra_offset, 2);
    assert_eq!(InputState::assemble_result(3, "ni", Some("hao".into())).extra_offset, 0);
    assert_eq!(InputState::assemble_result(3, "ni", Some("hao".into())).session_id, 3);
}

/// Fresh typing: returns the state after the request.
fn fresh_typing(cfg: &Config) -> InputState {
    let mut rope = rope_from_str("");
    apply_change(&mut rope, Some((pos(0, 0), pos(0, 0))), "ni", Encoding::UTF16);
    let pattern = InputPattern::with_triggers(&cfg.trigger_characters);
    let req = prepare_completion(&rope, pos(0, 2), Encoding::UTF16, cfg, &pattern).unwrap();
    assert_eq!(req.input.pinyin(), "ni");
    assert_eq!(req.input.select(), "");
    assert_eq!((req.new_offset, req.cursor), (0, 2));
    let plan = plan_request(&None, false, &req, cfg.max_tokens);
    assert_eq!(plan.reuse, None);
    assert_eq!(plan.destroy, None);
    assert_eq!(plan.before_read, keys("ni"));
    assert!(plan.after_read.is_empty());
    let result = InputState::assemble_result(7, req.input.pinyin(), Some("ni".into()));
    assert_eq!(result.extra_offset, 0);
    let (start, filter) =
        completion_anchor(&rope, &req, result.extra_offset, Encoding::UTF16, false).unwrap();
    assert_eq!(start, pos(0, 0));
    assert_eq!(filter, "ni");
    let menu = menu_candidates(vec![("你".into(), None), ("尼".into(), Some("ní".into()))]);
    let resp = RimeResponse::assemble(Some("ni".into()), None, Ok(menu)).unwrap();
    let items = completion_items(
        &resp.candidates,
        &resp.submitted,
        req.input.is_selecting(),
        &filter,
        cfg,
    );
    assert!(list_is_incomplete(cfg, resp.is_incomplete));
    assert!(items[0].label.starts_with("1. 你"));
    assert_eq!(items[0].new_text, "你");
    assert_eq!(items[1].detail.as_deref(), Some("ní"));
    InputState::new(req.input, result.session_id, req.new_offset, resp.is_incomplete)
}

#[test]
fn scenario_fresh_typing() {
    let cfg = config();
    let state = fresh_typing(&cfg);
    assert_eq!(state.session_id(), 7);
}

#[test]
fn scenario_continued_typing() {
    let cfg = config();
    let state = fresh_typing(&cfg);
    let req = request("nihao", &cfg);
    let plan = plan_request(&Some(state), true, &req, cfg.max_tokens);
    assert_eq!(plan.reuse, Some(7));
    assert_eq!(plan.destroy, None);
    assert_eq!(plan.before_read, keys("hao"));
    assert!(plan.after_read.is_empty());
}

fn state_after(text: &str, cfg: &Config, session: usize) -> InputState {
    let req = request(text, cfg);
    InputState::new(req.input, session, req.new_offset, true)
}

#[test]
fn scenario_backspace() {
    let cfg = config();
    let state = state_after("nihao", &cfg, 7);
    let req = request("niha", &cfg);
    let plan = plan_request(&Some(state), true, &req, cfg.max_tokens);
    assert_eq!(plan.reuse, Some(7));
    assert_eq!(plan.before_read, vec![EngineOp::Key(KEY_BACKSPACE)]);
    assert!(plan.after_read.is_empty());
}

#[test]
fn scenario_numeric_pick() {
    let cfg = config();
    let state = state_after("nihao", &cfg, 7);
    let rope = rope_from_str("nihao2");
    let pattern = InputPattern::with_triggers(&cfg.trigger_characters);
    let req = prepare_completion(&rope, pos(0, 6), Encoding::UTF16, &cfg, &pattern).unwrap();
    assert_eq!(req.input.pinyin(), "nihao");
    assert_eq!(req.input.select(), "2");
    assert!(req.input.is_selecting());
    let plan = plan_request(&Some(state), true, &req, cfg.max_tokens);
    assert_eq!(plan.reuse, Some(7));
    assert!(plan.before_read.is_empty());
    assert_eq!(plan.after_read, keys("2"));
    let (start, filter) = completion_anchor(&rope, &req, 0, Encoding::UTF16, false).unwrap();
    assert_eq!(start, pos(0, 0));
    assert_eq!(req.cursor, 6);
    let menu = menu_candidates(vec![("你好".into(), None), ("拟好".into(), None)]);
    let resp = RimeResponse::assemble(Some("nihao".into()), None, Ok(menu)).unwrap();
    assert_eq!(resp.submitted, "");
    let picked = numeric_pick(resp.candidates, req.input.select());
    let items = completion_items(&picked, &resp.submitted, true, &filter, &cfg);
    assert_eq!(items.len(), 1);
    assert_eq!(items[0].new_text, "拟好");
    assert_eq!(items[0].label, "2. 拟好");
    assert_eq!(items[0].sort_text, "z02");
}

#[test]
fn numeric_pick_keeps_menu_without_a_match() {
    let menu = menu_candidates(vec![("你".into(), None), ("尼".into(), None)]);
    assert_eq!(numeric_pick(menu, "5").len(), 2);
    let menu = menu_candidates(vec![("你".into(), None), ("尼".into(), None)]);
    assert_eq!(numeric_pick(menu, "").len(), 2);
    let menu = menu_candidates(vec![("你".into(), None), ("尼".into(), None)]);
    assert_eq!(numeric_pick(menu, ",").len(), 2);
    let menu = menu_candidates(vec![("你".into(), None), ("尼".into(), None)]);
    let one = numeric_pick(menu, "1");
    assert_eq!((one.len(), one[0].text.as_str()), (1, "你"));
}

#[test]
fn scenario_force_refresh_on_max_tokens() {
    let mut cfg = config();
    cfg.max_tokens = 4;
    let first = request("abcd", &cfg);
    let plan = plan_request(&None, false, &first, cfg.max_tokens);
    assert_eq!(plan.before_read, keys("abcd"));
    let state = InputState::new(first.input, 9, first.new_offset, true);
    let req = request("abc", &cfg);
    let plan = plan_request(&Some(state), true, &req, cfg.max_tokens);
    assert_eq!(plan.before_read, vec![EngineOp::Key(KEY_BACKSPACE)]);
    let state = InputState::new(req.input, 9, req.new_offset, true);
    let req = request("abcd", &cfg);
    let plan = plan_request(&Some(state), true, &req, cfg.max_tokens);
    assert_eq!(plan.before_read, keys("d"));
    let state = state_after("abcde", &cfg, 9);
    let req = request("abcd", &cfg);
    let plan = plan_request(&Some(state), true, &req, cfg.max_tokens);
    let mut expected = vec![EngineOp::ClearComposition];
    expected.extend(keys("abcd"));
    expected.push(EngineOp::Key(KEY_BACKSPACE));
    assert_eq!(plan.before_read, expected);
    assert_eq!(plan.reuse, Some(9));
    assert_eq!(plan.destroy, None);
}

#[test]
fn scenario_schema_menu() {
    let mut cfg = config();
    cfg.schema_trigger_character = "/help".to_string();
    let req = request("/help", &cfg);
    assert!(req.input.is_schema());
    let plan = plan_request(&None, false, &req, cfg.max_tokens);
    assert_eq!(plan.before_read, vec![EngineOp::Key(KEY_F4)]);
    assert_eq!(InputState::first_input(&req.input), vec![EngineOp::Key(KEY_F4)]);
}

#[test]
fn moved_anchor_or_finished_composition_replaces_session() {
    let cfg = config();
    let state = state_after("nihao", &cfg, 7);
    let req = request("x nihao", &cfg);
    let plan = plan_request(&Some(state), true, &req, 0);
    assert_eq!(plan.destroy, Some(7));
    assert_eq!(plan.reuse, None);
    assert_eq!(plan.before_read, keys("nihao"));
    let req = request("nihao", &cfg);
    let done = InputState::new(req.input, 7, 0, false);
    let plan = plan_request(&Some(done), true, &request("nihaoa", &cfg), 0);
    assert_eq!(plan.destroy, Some(7));
    let state = state_after("nihao", &cfg, 7);
    let plan = plan_request(&Some(state), false, &request("nihaoa", &cfg), 0);
    assert_eq!(plan.destroy, None);
    assert_eq!(plan.reuse, None);
}

#[test]
fn unrelated_pinyin_retypes_and_select_diffs() {
    let cfg = config();
    let old = request("nihao12", &cfg).input;
    let new = request("nihei3", &cfg).input;
    let mut expected = vec![EngineOp::ClearComposition];
    expected.extend(keys("nihei"));
    assert_eq!(old.diff_pinyin(&new, false), expected);
    let mut sel = vec![EngineOp::Key(KEY_BACKSPACE); 2];
    sel.extend(keys("3"));
    assert_eq!(old.diff_select(&new), sel);
    let shorter = request("nihao1", &cfg).input;
    assert_eq!(old.diff_select(&shorter), vec![EngineOp::Key(KEY_BACKSPACE)]);
}

#[test]
fn repeated_request_keeps_session_quiet() {
    let cfg = config();
    let state = state_after("nihao", &cfg, 5);
    let plan = plan_request(&Some(state), true, &request("nihao", &cfg), 0);
    assert_eq!(plan.reuse, Some(5));
    assert!(plan.before_read.is_empty() && plan.after_read.is_empty());
}

#[test]
fn labels_follow_options() {
    let mut cfg = config();
    cfg.show_filter_text_in_label = true;
    cfg.preselect_first = true;
    let menu = menu_candidates(vec![("你".into(), None), ("呢".into(), None)]);
    let items = completion_items(&menu, "，", true, "ni", &cfg);
    assert_eq!(items[0].label, "1. ，你 (ni)");
    assert_eq!(items[0].new_text, "，你");
    assert_eq!(items[0].preselect, Some(true));
    assert_eq!(items[1].preselect, None);
    assert_eq!(items[1].sort_text, "z02");
    cfg.show_order_in_label = false;
    cfg.show_filter_text_in_label = false;
    let items = completion_items(&menu, "，", false, "ni", &cfg);
    assert_eq!(items[1].label, "呢");
    assert_eq!(items[1].new_text, "呢");
    assert_eq!(items[1].detail, None);
    cfg.always_incomplete = true;
    assert!(list_is_incomplete(&cfg, false));
}

#[test]
fn long_filter_text_takes_word_before() {
    let cfg = config();
    let rope = rope_from_str("汉字nihao");
    let pattern = InputPattern::no_trigger();
    let req = prepare_completion(&rope, pos(0, 7), Encoding::UTF16, &cfg, &pattern).unwrap();
    assert_eq!(req.new_offset, 2);
    let (start, filter) = completion_anchor(&rope, &req, 0, Encoding::UTF16, true).unwrap();
    assert_eq!(start, pos(0, 2));
    assert_eq!(filter, "汉字nihao");
    let (start, _) = completion_anchor(&rope, &req, 2, Encoding::UTF16, false).unwrap();
    assert_eq!(start, pos(0, 4));
}
