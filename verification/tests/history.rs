use notepad_minus_minus::event::HistoryEvent;
use notepad_minus_minus::text::TextFile;

fn open(content: &str) -> TextFile {
    TextFile::new(String::from("notes.txt"), Some(String::from(content)))
}

#[test]
fn insert_then_undo_restores_content_and_cursor() {
    let mut file = open("ab\ncd\n");
    file.insert_char('X');
    assert_eq!(file.to_string(), "Xab\ncd\n");
    assert_eq!(file.char_idx, 1);
    file.undo_event();
    assert_eq!(file.to_string(), "ab\ncd\n");
    assert_eq!(file.char_idx, 0);
}

#[test]
fn undo_after_each_edit_restores_the_state_before_it() {
    let mut file = open("ab\ncd\n");
    file.char_idx = 2;
    let mut step = 0;
    while step < 4 {
        let content = file.to_string();
        let cursor = file.char_idx;
        match step {
            0 => file.insert_char('x'),
            1 => file.insert_string(String::from("long\ntext")),
            2 => assert!(file.backspace()),
            _ => file.insert_newline(),
        }
        let after = file.clone();
        assert_ne!(file.to_string(), content);
        file.undo_event();
        assert_eq!(file.to_string(), content);
        assert_eq!(file.char_idx, cursor);
        file.redo_event();
        assert_eq!(file, after);
        step += 1;
    }
    assert_eq!(file.to_string(), "abxlong\ntex\n\ncd\n");
}

#[test]
fn undo_of_a_forward_delete_puts_the_cursor_behind_the_character() {
    let mut file = open("abc\n");
    file.char_idx = 1;
    file.delete();
    assert_eq!(file.to_string(), "ac\n");
    file.undo_event();
    assert_eq!(file.to_string(), "abc\n");
    assert_eq!(file.char_idx, 2);
    file.redo_event();
    assert_eq!(file.to_string(), "ac\n");
    assert_eq!(file.char_idx, 1);
}

#[test]
fn undo_of_a_removed_selection_brings_it_back() {
    let mut file = open("abcdef\n");
    file.selection = Some((1, 4));
    file.char_idx = 4;
    file.backspace();
    assert_eq!(file.to_string(), "aef\n");
    file.undo_event();
    assert_eq!(file.to_string(), "abcdef\n");
    assert_eq!(file.char_idx, 4);
    assert_eq!(file.selection, None);
}

#[test]
fn undo_with_nothing_applied_does_nothing() {
    let mut file = open("abc\n");
    file.char_idx = 2;
    let before = file.clone();
    assert!(!file.undo_event());
    assert_eq!(file, before);
}

#[test]
fn redo_with_everything_applied_does_nothing() {
    let mut file = open("abc\n");
    assert!(!file.redo_event());
    file.insert_char('x');
    let before = file.clone();
    assert!(!file.redo_event());
    assert_eq!(file, before);
    assert!(file.undo_event());
    assert!(file.redo_event());
    assert_eq!(file, before);
}

#[test]
fn undo_keeps_the_event_for_redo() {
    let mut file = open("abc\n");
    file.insert_char('x');
    file.insert_char('y');
    file.undo_event();
    assert_eq!(file.history_idx, 1);
    assert_eq!(file.event_history.len(), 2);
    assert_eq!(file.to_string(), "xabc\n");
    file.undo_event();
    assert_eq!(file.history_idx, 0);
    assert_eq!(file.to_string(), "abc\n");
    file.redo_event();
    file.redo_event();
    assert_eq!(file.history_idx, 2);
    assert_eq!(file.to_string(), "xyabc\n");
    assert_eq!(file.char_idx, 2);
}

#[test]
fn edit_after_undo_discards_what_could_be_redone() {
    let mut file = open("abc\n");
    file.insert_char('x');
    file.insert_char('y');
    file.insert_char('z');
    file.undo_event();
    file.undo_event();
    assert_eq!(file.to_string(), "xabc\n");
    file.insert_char('q');
    assert_eq!(
        file.event_history,
        vec![HistoryEvent::AddChar('x', 0), HistoryEvent::AddChar('q', 1)]
    );
    assert_eq!(file.history_idx, 2);
    let before = file.clone();
    file.redo_event();
    assert_eq!(file, before);
    assert_eq!(file.to_string(), "xqabc\n");
    file.undo_event();
    file.redo_event();
    assert_eq!(file, before);
}

#[test]
fn dirty_count_follows_the_edits() {
    let mut file = open("abc\n");
    assert_eq!(file.dirty_changes, None);
    file.insert_char('x');
    assert_eq!(file.dirty_changes, Some(1));
    file.insert_char('y');
    assert_eq!(file.dirty_changes, Some(2));
    file.undo_event();
    assert_eq!(file.dirty_changes, Some(1));
    file.redo_event();
    assert_eq!(file.dirty_changes, Some(2));
    file.undo_event();
    file.undo_event();
    assert_eq!(file.dirty_changes, Some(0));
}

#[test]
fn dirty_count_does_not_go_below_zero() {
    let mut file = open("abc\n");
    file.insert_char('x');
    file.insert_char('y');
    assert_eq!(file.save_to_file(true), Ok(()));
    assert_eq!(file.dirty_changes, None);
    file.undo_event();
    assert_eq!(file.dirty_changes, None);
    file.redo_event();
    assert_eq!(file.dirty_changes, Some(1));
    file.undo_event();
    assert_eq!(file.dirty_changes, Some(0));
    file.undo_event();
    assert_eq!(file.dirty_changes, None);
}

#[test]
fn accepts_tells_which_events_fit() {
    let file = open("abc\n");
    assert!(file.accepts(&HistoryEvent::AddChar('x', 0)));
    assert!(file.accepts(&HistoryEvent::AddChar('x', 3)));
    assert!(!file.accepts(&HistoryEvent::AddChar('x', 4)));
    assert!(file.accepts(&HistoryEvent::AddString(String::from("xy"), 3)));
    assert!(!file.accepts(&HistoryEvent::AddString(String::from("xy"), 4)));
    assert!(file.accepts(&HistoryEvent::RemoveChar('c', 2)));
    assert!(!file.accepts(&HistoryEvent::RemoveChar('x', 2)));
    assert!(!file.accepts(&HistoryEvent::RemoveChar('\n', 3)));
    assert!(!file.accepts(&HistoryEvent::RemoveChar('c', usize::MAX)));
    assert!(file.accepts(&HistoryEvent::RemoveString(String::from("abc"), 0)));
    assert!(file.accepts(&HistoryEvent::RemoveString(String::new(), 3)));
    assert!(!file.accepts(&HistoryEvent::RemoveString(String::new(), 4)));
    assert!(!file.accepts(&HistoryEvent::RemoveString(String::from("abd"), 0)));
    assert!(!file.accepts(&HistoryEvent::RemoveString(String::from("bc\n"), 1)));
    assert!(!file.accepts(&HistoryEvent::RemoveString(String::from("abc\nd"), 0)));
}

#[test]
fn apply_event_leaves_the_history_alone() {
    let mut file = open("abc\n");
    file.apply_event(HistoryEvent::AddString(String::from("xy"), 1));
    assert_eq!(file.to_string(), "axybc\n");
    assert_eq!(file.char_idx, 3);
    file.apply_event(HistoryEvent::RemoveChar('a', 0));
    assert_eq!(file.to_string(), "xybc\n");
    assert_eq!(file.char_idx, 0);
    file.apply_event(HistoryEvent::AddChar('q', 3));
    assert_eq!(file.to_string(), "xybqc\n");
    assert_eq!(file.char_idx, 4);
    file.apply_event(HistoryEvent::RemoveString(String::from("ybq"), 1));
    assert_eq!(file.to_string(), "xc\n");
    assert_eq!(file.char_idx, 1);
    assert!(file.event_history.is_empty());
    assert_eq!(file.history_idx, 0);
    assert_eq!(file.dirty_changes, None);
}

#[test]
fn apply_new_event_commits() {
    let mut file = open("abc\n");
    let event = HistoryEvent::RemoveString(String::from("bc"), 1);
    assert!(file.accepts(&event));
    file.apply_new_event(event.clone());
    assert_eq!(file.to_string(), "a\n");
    assert_eq!(file.char_idx, 1);
    assert_eq!(file.event_history, vec![event]);
    assert_eq!(file.history_idx, 1);
    assert_eq!(file.dirty_changes, Some(1));
}

#[test]
fn inverse_swaps_putting_in_and_taking_out() {
    assert_eq!(HistoryEvent::AddChar('a', 3).inverse(), HistoryEvent::RemoveChar('a', 3));
    assert_eq!(HistoryEvent::RemoveChar('a', 3).inverse(), HistoryEvent::AddChar('a', 3));
    assert_eq!(
        HistoryEvent::AddString(String::from("ab"), 1).inverse(),
        HistoryEvent::RemoveString(String::from("ab"), 1)
    );
    assert_eq!(
        HistoryEvent::RemoveString(String::from("ab"), 1).inverse(),
        HistoryEvent::AddString(String::from("ab"), 1)
    );
}

#[test]
fn labels_name_the_edit_and_its_text() {
    assert_eq!(HistoryEvent::AddChar('a', 0).label(), "Add `a`");
    assert_eq!(HistoryEvent::RemoveChar('a', 7).label(), "Del `a`");
    assert_eq!(HistoryEvent::AddString(String::from("two words"), 0).label(), "Add \"two words\"");
    assert_eq!(HistoryEvent::RemoveString(String::from("x\ny"), 0).label(), "Del \"x\ny\"");
    assert_eq!(HistoryEvent::AddString(String::new(), 0).label(), "Add \"\"");
}

#[test]
fn labels_show_a_lone_blank_and_a_lone_line_feed() {
    assert_eq!(HistoryEvent::AddChar(' ', 0).label(), "Add `_`");
    assert_eq!(HistoryEvent::RemoveChar('\n', 0).label(), "Del `\u{23ce}`");
    assert_eq!(HistoryEvent::AddString(String::from(" "), 0).label(), "Add \"_\"");
    assert_eq!(HistoryEvent::RemoveString(String::from("\n"), 0).label(), "Del \"\u{23ce}\"");
    assert_eq!(HistoryEvent::AddString(String::from("  "), 0).label(), "Add \"  \"");
    assert_eq!(HistoryEvent::AddString(String::from("é"), 0).label(), "Add \"é\"");
}
