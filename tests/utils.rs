use rime_ls::utils::{
    build_order_to_sort_text, diff, need_to_check_trigger, option_string,
    rime_default_shared_data_dir, select_encoding, surrounding_word, DiffResult, Encoding,
};

#[test]
fn test_surrounding_word() {
    assert_eq!(surrounding_word(""), "".to_string());
    assert_eq!(surrounding_word(" "), "".to_string());
    assert_eq!(surrounding_word("hello_world"), "hello_world".to_string());
    assert_eq!(surrounding_word("hello world"), "world".to_string());
    assert_eq!(surrounding_word("汉字nihao"), "汉字nihao".to_string());
    assert_eq!(surrounding_word("汉，字nihao"), "字nihao".to_string());
    assert_eq!(surrounding_word("汉。字nihao"), "字nihao".to_string());
}

#[test]
fn diff_classifies_edits() {
    assert!(matches!(diff("ni", "ni"), DiffResult::Same));
    match diff("ni", "nihao") {
        DiffResult::Add(s) => assert_eq!(s, "hao"),
        other => panic!("unexpected {:?}", other),
    }
    match diff("nihao", "niha") {
        DiffResult::Delete(s) => assert_eq!(s, "o"),
        other => panic!("unexpected {:?}", other),
    }
    assert!(matches!(diff("nihao", "nihei"), DiffResult::New));
    match diff("", "a") {
        DiffResult::Add(s) => assert_eq!(s, "a"),
        other => panic!("unexpected {:?}", other),
    }
}

#[test]
fn diff_suffix_rebuilds_the_other_text() {
    let pairs = [("ab", "abcd"), ("abcd", "ab"), ("汉", "汉字"), ("x", "")];
    for (a, b) in pairs {
        match diff(a, b) {
            DiffResult::Add(s) => assert_eq!(format!("{}{}", a, s), b),
            DiffResult::Delete(s) => assert_eq!(format!("{}{}", b, s), a),
            other => panic!("unexpected {:?}", other),
        }
    }
}

#[test]
fn sort_text_pads_to_width_of_max_candidates() {
    let ten = build_order_to_sort_text(10);
    assert_eq!(ten.sort_text(1), "z01");
    assert_eq!(ten.sort_text(10), "z10");
    assert_eq!(ten.sort_text(0), "z00");
    let nine = build_order_to_sort_text(9);
    assert_eq!(nine.sort_text(3), "z3");
    assert_eq!(nine.sort_text(12), "z12");
    let big = build_order_to_sort_text(1000);
    assert_eq!(big.sort_text(7), "z0007");
}

#[test]
fn sort_text_increases_with_order() {
    for max in [1usize, 9, 10, 99, 100, 250] {
        let b = build_order_to_sort_text(max);
        for o in 0..max {
            assert!(b.sort_text(o) < b.sort_text(o + 1), "max {} order {}", max, o);
        }
    }
}

#[test]
fn trigger_check_relaxed_inside_a_word() {
    assert!(!need_to_check_trigger(false, "hello"));
    assert!(need_to_check_trigger(true, "hello"));
    assert!(need_to_check_trigger(true, " nihao"));
    assert!(!need_to_check_trigger(true, "汉nihao"));
    assert!(!need_to_check_trigger(true, "汉nihao12"));
    assert!(need_to_check_trigger(true, ""));
}

#[test]
fn option_string_drops_empty() {
    assert_eq!(option_string(String::new()), None);
    assert_eq!(option_string("a".to_string()), Some("a".to_string()));
}

#[test]
fn encoding_negotiation_prefers_utf32_then_utf8() {
    let s = |v: &[&str]| Some(v.iter().map(|x| x.to_string()).collect::<Vec<_>>());
    assert_eq!(select_encoding(s(&["utf-16", "utf-8", "utf-32"])), Encoding::UTF32);
    assert_eq!(select_encoding(s(&["utf-16", "utf-8"])), Encoding::UTF8);
    assert_eq!(select_encoding(s(&["utf-16"])), Encoding::UTF16);
    assert_eq!(select_encoding(None), Encoding::UTF16);
    assert_eq!(Encoding::UTF8.as_str(), "utf-8");
    assert_eq!(Encoding::UTF16.as_str(), "utf-16");
    assert_eq!(Encoding::UTF32.as_str(), "utf-32");
    assert_eq!(Encoding::default(), Encoding::UTF16);
}

#[test]
fn default_shared_data_dir() {
    assert_eq!(rime_default_shared_data_dir(), "/usr/share/rime-data");
}
