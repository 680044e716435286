use notepad_minus_minus::caret::Caret;
use notepad_minus_minus::document::Direction;
use notepad_minus_minus::event::HistoryEvent;
use notepad_minus_minus::text::{SaveError, TextFile};

fn open(content: &str) -> TextFile {
    TextFile::new(String::from("notes.txt"), Some(String::from(content)))
}

#[test]
fn new_keeps_text_that_ends_with_a_line_feed() {
    let file = open("ab\ncd\n");
    assert_eq!(file.to_string(), "ab\ncd\n");
    assert_eq!(file.path, "notes.txt");
    assert_eq!(file.char_idx, 0);
    assert_eq!(file.selection, None);
    assert_eq!(file.dirty_changes, None);
    assert_eq!(file.history_idx, 0);
    assert!(file.event_history.is_empty());
}

#[test]
fn new_appends_the_missing_line_feed() {
    assert_eq!(open("ab\ncd").to_string(), "ab\ncd\n");
    assert_eq!(open("").to_string(), "\n");
}

#[test]
fn new_turns_crlf_into_lf() {
    assert_eq!(open("a\r\nb\r\n").to_string(), "a\nb\n");
    assert_eq!(open("a\r\r\nb").to_string(), "a\r\nb\n");
    assert_eq!(open("a\rb\r").to_string(), "a\rb\r\n");
    assert_eq!(open("\r\n").to_string(), "\n");
}

#[test]
fn new_takes_an_unreadable_file_as_empty() {
    let file = TextFile::new(String::from("missing.txt"), None);
    assert_eq!(file.to_string(), "\n");
    assert_eq!(file.char_idx, 0);
}

#[test]
fn new_keeps_characters_beyond_ascii() {
    let file = open("héllo\nwörld");
    assert_eq!(file.to_string(), "héllo\nwörld\n");
    assert_eq!(file.rope.len_chars(), 12);
}

#[test]
fn clone_is_an_equal_buffer() {
    let mut file = open("ab\ncd\n");
    file.insert_char('X');
    file.insert_string(String::from("yz"));
    file.undo_event();
    let copy = file.clone();
    assert_eq!(copy, file);
    assert_eq!(copy.to_string(), "Xab\ncd\n");
    assert_eq!(copy.event_history.len(), 2);
    assert_eq!(copy.history_idx, 1);
}

#[test]
fn chars_gives_the_lines_with_their_breaks() {
    let file = open("ab\n\ncd\n");
    assert_eq!(file.chars(), vec!["ab\n", "\n", "cd\n", ""]);
    assert_eq!(open("").chars(), vec!["\n", ""]);
}

#[test]
fn caret_of_each_offset() {
    let file = open("ab\ncd\n");
    let expected = [(0, 0), (0, 1), (0, 2), (1, 0), (1, 1), (1, 2)];
    for (offset, (ln, col)) in expected.iter().enumerate() {
        assert_eq!(file.get_caret_from_idx(offset), Caret::from(*ln, *col));
    }
}

#[test]
fn caret_beyond_the_content_is_the_end_of_the_last_line() {
    let file = open("ab\ncd\n");
    assert_eq!(file.get_caret_from_idx(6), Caret { ln: 2, col: 0 });
    assert_eq!(file.get_caret_from_idx(100), Caret { ln: 2, col: 0 });
    assert_eq!(file.get_caret_from_idx(usize::MAX), Caret { ln: 2, col: 0 });
}

#[test]
fn caret_of_the_cursor() {
    let mut file = open("ab\ncd\n");
    assert_eq!(file.get_caret(), Caret::new());
    file.char_idx = 4;
    assert_eq!(file.get_caret(), Caret::from(1, 1));
}

#[test]
fn offset_of_a_caret() {
    let file = open("ab\ncd\n");
    assert_eq!(file.get_char_idx(Caret::from(0, 0)), 0);
    assert_eq!(file.get_char_idx(Caret::from(1, 0)), 3);
    assert_eq!(file.get_char_idx(Caret::from(1, 2)), 5);
    assert_eq!(file.get_char_idx(Caret::from(2, 0)), 6);
}

#[test]
fn offset_of_a_caret_does_not_check_the_column() {
    let file = open("ab\ncd\n");
    assert_eq!(file.get_char_idx(Caret::from(0, 4)), 4);
    assert_eq!(file.get_char_idx(Caret::from(1, 40)), 43);
}

#[test]
fn offset_of_a_caret_on_a_missing_line_is_the_last_character() {
    let file = open("ab\ncd\n");
    assert_eq!(file.get_char_idx(Caret::from(3, 0)), 5);
    assert_eq!(file.get_char_idx(Caret::from(usize::MAX, 7)), 5);
}

#[test]
fn offset_of_a_caret_that_does_not_fit_is_the_last_character() {
    let file = open("ab\ncd\n");
    assert_eq!(file.get_char_idx(Caret::from(1, usize::MAX)), 5);
}

#[test]
fn offset_and_caret_round_trip() {
    for content in ["ab\ncd\n", "\n", "one\n\n\nfour\n", "a\rb\u{2028}c\r\nd\u{0B}e\u{0C}f\u{85}g\u{2029}h\n"] {
        let mut file = open(content);
        file.insert_string(String::from(content));
        let len = file.rope.len_chars();
        for offset in 0..len {
            let caret = file.get_caret_from_idx(offset);
            assert_eq!(file.get_char_idx(caret), offset);
        }
    }
}

#[test]
fn lines_break_at_every_kind_of_break() {
    let mut file = open("");
    file.insert_string(String::from("a\rb\u{2028}c\r\nd\u{0B}e\u{0C}f\u{85}g\u{2029}h"));
    assert_eq!(
        file.chars(),
        vec!["a\r", "b\u{2028}", "c\r\n", "d\u{0B}", "e\u{0C}", "f\u{85}", "g\u{2029}", "h\n", ""]
    );
    assert_eq!(file.get_caret_from_idx(6), Caret::from(2, 2));
    assert_eq!(file.get_caret_from_idx(7), Caret::from(3, 0));
    assert_eq!(file.get_char_idx(Caret::from(7, 1)), 16);
}

#[test]
fn move_left_stops_at_the_start() {
    let mut file = open("ab\n");
    file.char_idx = 1;
    file.caret_move_left();
    assert_eq!(file.char_idx, 0);
    file.caret_move_left();
    assert_eq!(file.char_idx, 0);
}

#[test]
fn move_right_stops_on_the_last_character() {
    let mut file = open("ab\n");
    file.caret_move_right();
    assert_eq!(file.char_idx, 1);
    file.caret_move_right();
    assert_eq!(file.char_idx, 2);
    file.caret_move_right();
    assert_eq!(file.char_idx, 2);
}

#[test]
fn move_down_keeps_the_column() {
    let mut file = open("abcd\nefgh\n");
    file.char_idx = 2;
    file.caret_move_down();
    assert_eq!(file.char_idx, 7);
}

#[test]
fn move_down_onto_a_shorter_line_goes_to_its_end() {
    let mut file = open("abcdef\ngh\nij\n");
    file.char_idx = 5;
    file.caret_move_down();
    assert_eq!(file.char_idx, 9);
}

#[test]
fn move_down_from_the_last_line_goes_to_the_end() {
    let mut file = open("ab\ncd\n");
    file.char_idx = 3;
    file.caret_move_down();
    assert_eq!(file.char_idx, 5);
    file.caret_move_down();
    assert_eq!(file.char_idx, 5);
}

#[test]
fn move_down_onto_a_line_that_holds_only_its_break() {
    let mut file = open("ab\n\ncd\n");
    file.char_idx = 1;
    file.caret_move_down();
    assert_eq!(file.char_idx, 3);
    file.caret_move_down();
    assert_eq!(file.char_idx, 4);
}

#[test]
fn move_up_keeps_the_column() {
    let mut file = open("abcd\nefgh\n");
    file.char_idx = 7;
    file.caret_move_up();
    assert_eq!(file.char_idx, 2);
}

#[test]
fn move_up_onto_a_shorter_line_goes_to_its_end() {
    let mut file = open("ab\ncdefgh\n");
    file.char_idx = 8;
    file.caret_move_up();
    assert_eq!(file.char_idx, 2);
}

#[test]
fn move_up_from_the_first_line_goes_to_the_start() {
    let mut file = open("abcd\nef\n");
    file.char_idx = 3;
    file.caret_move_up();
    assert_eq!(file.char_idx, 0);
}

#[test]
fn move_caret_extends_the_selection() {
    let mut file = open("abcd\nefgh\n");
    file.char_idx = 1;
    file.move_caret(Direction::Right, true);
    assert_eq!(file.char_idx, 2);
    assert_eq!(file.selection, Some((1, 2)));
    file.move_caret(Direction::Down, true);
    assert_eq!(file.char_idx, 7);
    assert_eq!(file.selection, Some((1, 7)));
    file.move_caret(Direction::Up, true);
    assert_eq!(file.selection, Some((1, 2)));
    file.move_caret(Direction::Left, false);
    assert_eq!(file.char_idx, 1);
    assert_eq!(file.selection, None);
}

#[test]
fn set_caret_position_moves_and_drops_the_selection() {
    let mut file = open("ab\ncd\n");
    file.selection = Some((0, 1));
    file.set_caret_position(1, 1, false);
    assert_eq!(file.char_idx, 4);
    assert_eq!(file.selection, None);
}

#[test]
fn set_caret_position_extends_from_the_old_offset() {
    let mut file = open("ab\ncd\n");
    file.char_idx = 1;
    file.set_caret_position(1, 2, true);
    assert_eq!(file.char_idx, 5);
    assert_eq!(file.selection, Some((1, 5)));
}

#[test]
fn set_caret_position_stays_on_the_content() {
    let mut file = open("ab\ncd\n");
    file.set_caret_position(1, 40, false);
    assert_eq!(file.char_idx, 5);
    file.set_caret_position(9, 0, false);
    assert_eq!(file.char_idx, 5);
    file.set_caret_position(2, 0, false);
    assert_eq!(file.char_idx, 5);
}

#[test]
fn selection_is_dropped_without_extend() {
    let mut file = open("abcd\n");
    file.selection = Some((0, 2));
    file.char_idx = 3;
    file.set_selection(false, 2);
    assert_eq!(file.selection, None);
}

#[test]
fn selection_starts_at_the_old_offset() {
    let mut file = open("abcd\n");
    file.char_idx = 3;
    file.set_selection(true, 1);
    assert_eq!(file.selection, Some((1, 3)));
}

#[test]
fn selection_keeps_its_anchor() {
    let mut file = open("abcd\n");
    file.selection = Some((1, 2));
    file.char_idx = 4;
    file.set_selection(true, 2);
    assert_eq!(file.selection, Some((1, 4)));
}

#[test]
fn selection_collapses_on_the_same_head() {
    let mut file = open("abcd\n");
    file.char_idx = 3;
    file.set_selection(true, 1);
    assert_eq!(file.selection, Some((1, 3)));
    file.set_selection(true, 1);
    assert_eq!(file.selection, None);
}

#[test]
fn selection_collapses_after_an_extension() {
    let mut file = open("abcd\n");
    file.selection = Some((0, 1));
    file.char_idx = 2;
    file.set_selection(true, 1);
    assert_eq!(file.selection, Some((0, 2)));
    file.set_selection(true, 1);
    assert_eq!(file.selection, None);
}

#[test]
fn clear_selection_drops_it() {
    let mut file = open("abcd\n");
    file.selection = Some((1, 2));
    file.clear_selection();
    assert_eq!(file.selection, None);
}

#[test]
fn selected_text_includes_both_ends() {
    let mut file = open("abcdef\n");
    assert_eq!(file.get_selection(), None);
    file.selection = Some((1, 3));
    assert_eq!(file.get_selection(), Some(String::from("bcd")));
    file.selection = Some((3, 1));
    assert_eq!(file.get_selection(), Some(String::from("bcd")));
    file.selection = Some((2, 2));
    assert_eq!(file.get_selection(), Some(String::from("c")));
}

#[test]
fn selected_text_stops_at_the_end_of_the_content() {
    let mut file = open("abc\n");
    file.selection = Some((2, 3));
    assert_eq!(file.get_selection(), Some(String::from("c\n")));
    file.selection = Some((2, 9));
    assert_eq!(file.get_selection(), Some(String::from("c\n")));
    file.selection = Some((7, 9));
    assert_eq!(file.get_selection(), Some(String::new()));
    file.selection = Some((0, usize::MAX));
    assert_eq!(file.get_selection(), Some(String::from("abc\n")));
}

#[test]
fn selection_span_is_ordered() {
    let mut file = open("abcdef\n");
    assert_eq!(file.get_selection_span(), None);
    file.selection = Some((4, 1));
    assert_eq!(file.get_selection_span(), Some((1, 4)));
    file.selection = Some((1, 4));
    assert_eq!(file.get_selection_span(), Some((1, 4)));
}

#[test]
fn insert_char_at_the_cursor() {
    let mut file = open("ab\ncd\n");
    file.char_idx = 4;
    file.insert_char('X');
    assert_eq!(file.to_string(), "ab\ncXd\n");
    assert_eq!(file.char_idx, 5);
    assert_eq!(file.event_history, vec![HistoryEvent::AddChar('X', 4)]);
    assert_eq!(file.history_idx, 1);
    assert_eq!(file.dirty_changes, Some(1));
}

#[test]
fn insert_char_replaces_the_selection() {
    let mut file = open("abcdef\n");
    file.selection = Some((4, 1));
    file.char_idx = 1;
    file.insert_char('X');
    assert_eq!(file.to_string(), "aXef\n");
    assert_eq!(file.char_idx, 2);
    assert_eq!(file.selection, None);
    assert_eq!(
        file.event_history,
        vec![HistoryEvent::RemoveString(String::from("bcd"), 1), HistoryEvent::AddChar('X', 1)]
    );
    assert_eq!(file.dirty_changes, Some(2));
}

#[test]
fn insert_newline_makes_a_line() {
    let mut file = open("abcd\n");
    file.char_idx = 2;
    file.insert_newline();
    assert_eq!(file.to_string(), "ab\ncd\n");
    assert_eq!(file.get_caret(), Caret::from(1, 0));
    assert_eq!(file.event_history, vec![HistoryEvent::AddChar('\n', 2)]);
}

#[test]
fn insert_string_puts_the_cursor_behind_the_text() {
    let mut file = open("ab\n");
    file.char_idx = 1;
    file.insert_string(String::from("xyz"));
    assert_eq!(file.to_string(), "axyzb\n");
    assert_eq!(file.char_idx, 4);
    assert_eq!(file.event_history, vec![HistoryEvent::AddString(String::from("xyz"), 1)]);
}

#[test]
fn insert_string_counts_characters_not_bytes() {
    let mut file = open("ab\n");
    file.char_idx = 1;
    file.insert_string(String::from("héé"));
    assert_eq!(file.to_string(), "ahééb\n");
    assert_eq!(file.char_idx, 4);
    file.undo_event();
    assert_eq!(file.to_string(), "ab\n");
    assert_eq!(file.char_idx, 1);
}

#[test]
fn insert_empty_string_is_an_event() {
    let mut file = open("ab\n");
    file.insert_string(String::new());
    assert_eq!(file.to_string(), "ab\n");
    assert_eq!(file.history_idx, 1);
    assert_eq!(file.dirty_changes, Some(1));
}

#[test]
fn backspace_removes_the_character_before_the_cursor() {
    let mut file = open("abc\n");
    file.char_idx = 2;
    assert!(file.backspace());
    assert_eq!(file.to_string(), "ac\n");
    assert_eq!(file.char_idx, 1);
    assert_eq!(file.event_history, vec![HistoryEvent::RemoveChar('b', 1)]);
}

#[test]
fn backspace_at_the_start_does_nothing() {
    let mut file = open("abc\n");
    assert!(!file.backspace());
    assert_eq!(file.to_string(), "abc\n");
    assert_eq!(file.history_idx, 0);
    assert_eq!(file.dirty_changes, None);
}

#[test]
fn backspace_removes_the_selection_first() {
    let mut file = open("abcdef\n");
    file.selection = Some((2, 4));
    file.char_idx = 4;
    file.backspace();
    assert_eq!(file.to_string(), "abef\n");
    assert_eq!(file.char_idx, 2);
    assert_eq!(file.selection, None);
    assert_eq!(file.event_history, vec![HistoryEvent::RemoveString(String::from("cd"), 2)]);
}

#[test]
fn delete_removes_the_character_at_the_cursor() {
    let mut file = open("abc\n");
    file.char_idx = 1;
    assert!(file.delete());
    assert_eq!(file.to_string(), "ac\n");
    assert_eq!(file.char_idx, 1);
    assert_eq!(file.event_history, vec![HistoryEvent::RemoveChar('b', 1)]);
}

#[test]
fn delete_on_the_last_character_does_nothing() {
    let mut file = open("abc\n");
    file.char_idx = 3;
    assert!(!file.delete());
    assert_eq!(file.to_string(), "abc\n");
    assert_eq!(file.history_idx, 0);
    let mut empty = open("");
    assert!(!empty.delete());
    assert_eq!(empty.to_string(), "\n");
    assert_eq!(empty.history_idx, 0);
}

#[test]
fn delete_removes_the_selection_first() {
    let mut file = open("abcdef\n");
    file.selection = Some((5, 3));
    file.char_idx = 0;
    file.delete();
    assert_eq!(file.to_string(), "abcf\n");
    assert_eq!(file.char_idx, 3);
    assert_eq!(file.selection, None);
}

#[test]
fn delete_selection_without_one_does_nothing() {
    let mut file = open("abc\n");
    assert!(!file.delete_selection());
    assert_eq!(file.to_string(), "abc\n");
    assert_eq!(file.history_idx, 0);
}

#[test]
fn delete_selection_leaves_the_last_line_feed() {
    let mut file = open("abc\n");
    file.selection = Some((1, 4));
    file.delete_selection();
    assert_eq!(file.to_string(), "a\n");
    assert_eq!(file.char_idx, 1);
    assert_eq!(file.event_history, vec![HistoryEvent::RemoveString(String::from("bc"), 1)]);
    let mut far = open("abc\n");
    far.selection = Some((70, 90));
    far.delete_selection();
    assert_eq!(far.to_string(), "abc\n");
    assert_eq!(far.char_idx, 3);
    assert_eq!(far.event_history, vec![HistoryEvent::RemoveString(String::new(), 3)]);
}

#[test]
fn delete_of_an_empty_selection_is_an_event() {
    let mut file = open("abc\n");
    file.selection = Some((2, 2));
    assert!(file.delete_selection());
    assert_eq!(file.to_string(), "abc\n");
    assert_eq!(file.char_idx, 2);
    assert_eq!(file.selection, None);
    assert_eq!(file.history_idx, 1);
    assert_eq!(file.dirty_changes, Some(1));
}

#[test]
fn save_that_succeeds_clears_the_dirty_count() {
    let mut file = open("abc\n");
    file.insert_char('x');
    assert_eq!(file.dirty_changes, Some(1));
    assert_eq!(file.save_to_file(true), Ok(()));
    assert_eq!(file.dirty_changes, None);
    assert_eq!(file.to_string(), "xabc\n");
    assert_eq!(file.history_idx, 1);
}

#[test]
fn save_that_fails_changes_nothing() {
    let mut file = open("abc\n");
    file.insert_char('x');
    let before = file.clone();
    assert_eq!(file.save_to_file(false), Err(SaveError::NotWritten));
    assert_eq!(file, before);
    assert_eq!(file.dirty_changes, Some(1));
}

fn lines_by_the_rule(text: &str) -> Vec<String> {
    let chars: Vec<char> = text.chars().collect();
    let mut lines = Vec::new();
    let mut line = String::new();
    for (i, c) in chars.iter().enumerate() {
        line.push(*c);
        let ends = matches!(*c, '\n' | '\u{0B}' | '\u{0C}' | '\u{85}' | '\u{2028}' | '\u{2029}')
            || (*c == '\r' && chars.get(i + 1) != Some(&'\n'));
        if ends {
            lines.push(line);
            line = String::new();
        }
    }
    lines.push(line);
    lines
}

#[test]
fn lines_follow_the_rule_for_every_short_text() {
    let alphabet = ['a', '\n', '\r', '\u{0B}', '\u{0C}', '\u{85}', '\u{2028}', '\u{2029}'];
    let mut texts = vec![String::new()];
    let mut round = 0;
    while round < 4 {
        let mut longer = Vec::new();
        for text in &texts {
            for c in alphabet {
                let mut next = text.clone();
                next.push(c);
                longer.push(next);
            }
        }
        texts.extend(longer);
        texts.sort();
        texts.dedup();
        round += 1;
    }
    assert_eq!(texts.len(), 1 + 8 + 64 + 512 + 4096);
    for text in texts {
        let mut file = open("");
        file.insert_string(text.clone());
        let content = file.to_string();
        let expected = lines_by_the_rule(&content);
        assert_eq!(file.chars(), expected);
        let mut offset = 0;
        for (ln, line) in expected.iter().enumerate() {
            for col in 0..line.chars().count() {
                assert_eq!(file.get_caret_from_idx(offset), Caret::from(ln, col));
                assert_eq!(file.get_char_idx(Caret::from(ln, col)), offset);
                offset += 1;
            }
        }
        assert_eq!(offset, file.rope.len_chars());
    }
}

#[test]
fn lines_follow_the_rule_in_a_long_text() {
    let mut file = open("");
    let mut seed: usize = 12345;
    let pieces = ["ab\r\n", "\r", "\ncd", "e\u{2028}f", "\r\n\r\n", "ghijklmnop", "\u{85}q\r"];
    let mut round = 0;
    while round < 3000 {
        seed = seed.wrapping_mul(6364136223846793005).wrapping_add(1442695040888963407);
        let len = file.rope.len_chars();
        file.char_idx = (seed >> 33) % len;
        file.insert_string(String::from(pieces[(seed >> 20) % pieces.len()]));
        if round % 7 == 3 {
            file.backspace();
        }
        if round % 11 == 5 {
            file.undo_event();
        }
        round += 1;
    }
    let content = file.to_string();
    assert!(content.len() > 8000);
    let expected = lines_by_the_rule(&content);
    assert_eq!(file.chars(), expected);
    assert_eq!(file.rope.len_lines(), expected.len());
    let last = file.rope.len_chars() - 1;
    let caret = file.get_caret_from_idx(last);
    assert_eq!(caret.ln, expected.len() - 2);
    assert_eq!(file.get_char_idx(caret), last);
    while file.undo_event() {}
    assert_eq!(file.to_string(), "\n");
}

#[test]
fn selection_carets_are_ordered() {
    let mut file = open("ab\ncd\n");
    assert_eq!(file.get_selection_carets(), None);
    file.selection = Some((4, 1));
    assert_eq!(file.get_selection_carets(), Some((Caret::from(0, 1), Caret::from(1, 1))));
    file.selection = Some((2, 60));
    assert_eq!(file.get_selection_carets(), Some((Caret::from(0, 2), Caret::from(2, 0))));
}

#[test]
fn caret_between_two_carets() {
    let first = Caret::from(1, 2);
    let last = Caret::from(3, 1);
    assert!(Caret::from(1, 2).is_between(first, last));
    assert!(Caret::from(1, 9).is_between(first, last));
    assert!(Caret::from(2, 0).is_between(first, last));
    assert!(Caret::from(3, 0).is_between(first, last));
    assert!(Caret::from(3, 1).is_between(first, last));
    assert!(!Caret::from(1, 1).is_between(first, last));
    assert!(!Caret::from(0, 5).is_between(first, last));
    assert!(!Caret::from(3, 2).is_between(first, last));
    assert!(!Caret::from(4, 0).is_between(first, last));
    assert!(Caret::from(1, 2).is_between(first, first));
    assert!(!Caret::from(2, 0).is_between(last, first));
}
