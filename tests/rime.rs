use rime_ls::rime::{
    joined_preedit, menu_candidates, submitted_text, Candidate, RimeError, RimeResponse,
};

#[test]
fn preedit_and_submitted() {
    assert_eq!(joined_preedit("ni hao"), "nihao");
    assert_eq!(submitted_text("，你hao"), "，你");
    assert_eq!(submitted_text("abc"), "");
}

#[test]
fn menu_orders_from_one() {
    let menu = menu_candidates(vec![("a".into(), None), ("b".into(), Some("c".into()))]);
    assert_eq!(menu.len(), 2);
    assert_eq!((menu[0].order, menu[1].order), (1, 2));
    assert_eq!(menu[1].comment, "c");
    assert_eq!(menu[0].comment, "");
    let c = Candidate::from_text("你".into());
    assert_eq!((c.order, c.comment.as_str()), (0, ""));
    let c = Candidate::new("t".into(), Some("m".into()), Some(3));
    assert_eq!((c.text.as_str(), c.comment.as_str(), c.order), ("t", "m", 3));
}

#[test]
fn response_assembly() {
    let r = RimeResponse::assemble(Some("， ni hao".into()), Some("x".into()), Ok(menu_candidates(vec![("你好".into(), None)]))).unwrap();
    assert!(r.is_incomplete);
    assert_eq!(r.submitted, "，");
    assert_eq!(r.candidates.len(), 1);
    assert_eq!(r.candidates[0].order, 1);
    let r = RimeResponse::assemble(None, Some("你".into()), Ok(Vec::new())).unwrap();
    assert_eq!(r.submitted, "你");
    assert_eq!(r.candidates.len(), 1);
    assert_eq!(r.candidates[0].order, 0);
    let r = RimeResponse::assemble(Some("好 a".into()), Some("你".into()), Ok(Vec::new())).unwrap();
    assert_eq!(r.submitted, "你好");
    let r = RimeResponse::assemble(None, None, Ok(Vec::new())).unwrap();
    assert!(!r.is_incomplete);
    assert!(r.candidates.is_empty());
    assert_eq!(r.submitted, "");
    let e = RimeResponse::assemble(None, None, Err(RimeError::GetCandidatesFailed));
    assert!(matches!(e, Err(RimeError::GetCandidatesFailed)));
    let e = RimeResponse::assemble(None, None, Err(RimeError::SessionNotFound(4)));
    assert!(matches!(e, Err(RimeError::SessionNotFound(4))));
}
