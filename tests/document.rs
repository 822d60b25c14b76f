use rime_ls::document::{apply_change, offset_to_position, position_to_offset, Position};
use ropey::Rope;

fn rope_from_str(s: &str) -> Rope {
    Rope::from_str(s)
}

fn len_chars(r: &Rope) -> usize {
    r.len_chars()
}

fn rope_text(r: &Rope, a: usize, b: usize) -> String {
    r.slice(a..b).to_string()
}
use rime_ls::utils::Encoding;

fn pos(line: u32, character: u32) -> Position {
    Position { line, character }
}

#[test]
fn positions_in_each_encoding() {
    let rope = rope_from_str("a😀b\n汉x");
    assert_eq!(position_to_offset(&rope, pos(0, 3), Encoding::UTF16), Some(2));
    assert_eq!(position_to_offset(&rope, pos(0, 5), Encoding::UTF8), Some(2));
    assert_eq!(position_to_offset(&rope, pos(0, 2), Encoding::UTF32), Some(2));
    assert_eq!(position_to_offset(&rope, pos(1, 1), Encoding::UTF16), Some(5));
    assert_eq!(position_to_offset(&rope, pos(1, 3), Encoding::UTF8), Some(5));
    assert_eq!(position_to_offset(&rope, pos(0, 2), Encoding::UTF8), Some(1));
    assert_eq!(offset_to_position(&rope, 2, Encoding::UTF16), Some(pos(0, 3)));
    assert_eq!(offset_to_position(&rope, 2, Encoding::UTF8), Some(pos(0, 5)));
    assert_eq!(offset_to_position(&rope, 5, Encoding::UTF32), Some(pos(1, 1)));
    assert_eq!(offset_to_position(&rope, 6, Encoding::UTF8), Some(pos(1, 4)));
    assert_eq!(offset_to_position(&rope, 7, Encoding::UTF8), None);
}

#[test]
fn positions_out_of_range() {
    let rope = rope_from_str("ab\ncd");
    assert_eq!(position_to_offset(&rope, pos(2, 0), Encoding::UTF16), Some(5));
    assert_eq!(position_to_offset(&rope, pos(2, 1), Encoding::UTF16), None);
    assert_eq!(position_to_offset(&rope, pos(5, 0), Encoding::UTF16), None);
    assert_eq!(position_to_offset(&rope, pos(0, 4), Encoding::UTF16), None);
    assert_eq!(position_to_offset(&rope, pos(0, 3), Encoding::UTF16), Some(3));
    assert_eq!(position_to_offset(&rope, pos(0, 9), Encoding::UTF32), Some(9));
}

#[test]
fn round_trips_every_offset() {
    let rope = rope_from_str("x😀\r\n汉\ry\u{2028}z\n");
    for enc in [Encoding::UTF8, Encoding::UTF16, Encoding::UTF32] {
        for o in 0..=len_chars(&rope) {
            let p = offset_to_position(&rope, o, enc).unwrap();
            assert_eq!(position_to_offset(&rope, p, enc), Some(o), "{:?} {}", enc, o);
        }
    }
    assert_eq!(offset_to_position(&rope, 3, Encoding::UTF32), Some(pos(0, 3)));
    assert_eq!(offset_to_position(&rope, 4, Encoding::UTF32), Some(pos(1, 0)));
    assert_eq!(offset_to_position(&rope, 6, Encoding::UTF32), Some(pos(2, 0)));
    assert_eq!(offset_to_position(&rope, 8, Encoding::UTF32), Some(pos(3, 0)));
}

#[test]
fn changes_edit_or_replace() {
    let mut rope = rope_from_str("ni");
    apply_change(&mut rope, Some((pos(0, 2), pos(0, 2))), "hao", Encoding::UTF16);
    assert_eq!(rope_text(&rope, 0, len_chars(&rope)), "nihao");
    apply_change(&mut rope, Some((pos(0, 4), pos(0, 5))), "", Encoding::UTF16);
    assert_eq!(rope_text(&rope, 0, len_chars(&rope)), "niha");
    apply_change(&mut rope, Some((pos(0, 3), pos(0, 1))), "x", Encoding::UTF16);
    assert_eq!(rope_text(&rope, 0, len_chars(&rope)), "niha");
    apply_change(&mut rope, Some((pos(0, 0), pos(0, 9))), "x", Encoding::UTF32);
    assert_eq!(rope_text(&rope, 0, len_chars(&rope)), "niha");
    apply_change(&mut rope, None, "汉字", Encoding::UTF16);
    assert_eq!(rope_text(&rope, 0, len_chars(&rope)), "汉字");
}
