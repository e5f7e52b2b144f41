use callnotes::editor::TextEditor;

fn lines_of(editor: &TextEditor) -> Vec<String> {
    editor.lines().to_vec()
}

#[test]
fn new_splits_at_newlines() {
    let editor = TextEditor::new("ab\ncd");
    assert_eq!(lines_of(&editor), vec!["ab".to_string(), "cd".to_string()]);
    assert_eq!(editor.cursor(), (0, 0));
}

#[test]
fn new_on_empty_text_has_one_empty_line() {
    let editor = TextEditor::new("");
    assert_eq!(lines_of(&editor), vec![String::new()]);
    assert_eq!(editor.text(), "");
}

#[test]
fn trailing_newline_gives_final_empty_line() {
    let editor = TextEditor::new("a\n");
    assert_eq!(lines_of(&editor), vec!["a".to_string(), String::new()]);
}

#[test]
fn open_then_read_gives_same_text() {
    for text in ["", "a", "\n", "a\nb", "a\n\nb\n", "héllo\nwörld ✓", "x\r\ny"] {
        assert_eq!(TextEditor::new(text).text(), text);
    }
}

#[test]
fn insert_at_cursor_advances_by_byte_width() {
    let mut editor = TextEditor::new("ac");
    editor.move_right();
    editor.insert('b');
    assert_eq!(editor.text(), "abc");
    assert_eq!(editor.cursor(), (0, 2));
    editor.insert('é');
    assert_eq!(editor.text(), "abéc");
    assert_eq!(editor.cursor(), (0, 4));
    editor.insert('✓');
    assert_eq!(editor.cursor(), (0, 7));
    editor.insert('😀');
    assert_eq!(editor.cursor(), (0, 11));
    assert_eq!(editor.text(), "abé✓😀c");
}

#[test]
fn newline_splits_line_at_cursor() {
    let mut editor = TextEditor::new("abcd");
    editor.move_right();
    editor.move_right();
    editor.newline();
    assert_eq!(lines_of(&editor), vec!["ab".to_string(), "cd".to_string()]);
    assert_eq!(editor.cursor(), (1, 0));
}

#[test]
fn backspace_deletes_previous_character() {
    let mut editor = TextEditor::new("aé");
    editor.end();
    assert_eq!(editor.cursor(), (0, 3));
    editor.backspace();
    assert_eq!(editor.text(), "a");
    assert_eq!(editor.cursor(), (0, 1));
}

#[test]
fn backspace_at_line_start_joins_lines() {
    let mut editor = TextEditor::new("ab\ncd");
    editor.move_down();
    editor.backspace();
    assert_eq!(lines_of(&editor), vec!["abcd".to_string()]);
    assert_eq!(editor.cursor(), (0, 2));
}

#[test]
fn backspace_at_text_start_does_nothing() {
    let mut editor = TextEditor::new("ab");
    editor.backspace();
    assert_eq!(editor.text(), "ab");
    assert_eq!(editor.cursor(), (0, 0));
}

#[test]
fn move_left_wraps_to_end_of_previous_line() {
    let mut editor = TextEditor::new("ab\ncd");
    editor.move_down();
    editor.move_left();
    assert_eq!(editor.cursor(), (0, 2));
    editor.move_left();
    assert_eq!(editor.cursor(), (0, 1));
}

#[test]
fn move_left_at_start_stays() {
    let mut editor = TextEditor::new("ab");
    editor.move_left();
    assert_eq!(editor.cursor(), (0, 0));
}

#[test]
fn move_right_wraps_to_start_of_next_line() {
    let mut editor = TextEditor::new("é\nx");
    editor.move_right();
    assert_eq!(editor.cursor(), (0, 2));
    editor.move_right();
    assert_eq!(editor.cursor(), (1, 0));
    editor.move_right();
    assert_eq!(editor.cursor(), (1, 1));
    editor.move_right();
    assert_eq!(editor.cursor(), (1, 1));
}

#[test]
fn move_up_and_down_clamp_column() {
    let mut editor = TextEditor::new("abcdef\nab");
    editor.end();
    editor.move_down();
    assert_eq!(editor.cursor(), (1, 2));
    editor.move_up();
    assert_eq!(editor.cursor(), (0, 2));
    editor.move_up();
    assert_eq!(editor.cursor(), (0, 2));
    editor.move_down();
    editor.move_down();
    assert_eq!(editor.cursor(), (1, 2));
}

#[test]
fn move_up_can_land_inside_a_character() {
    let mut editor = TextEditor::new("é\nab");
    editor.move_down();
    editor.move_right();
    assert!(editor.cursor_on_boundary());
    editor.move_up();
    assert_eq!(editor.cursor(), (0, 1));
    assert!(!editor.cursor_on_boundary());
    editor.end();
    assert!(editor.cursor_on_boundary());
}

#[test]
fn home_and_end() {
    let mut editor = TextEditor::new("héllo");
    editor.end();
    assert_eq!(editor.cursor(), (0, 6));
    editor.home();
    assert_eq!(editor.cursor(), (0, 0));
}

#[test]
fn insert_then_backspace_restores() {
    let mut editor = TextEditor::new("añb\nc");
    editor.move_right();
    editor.move_right();
    let before_text = editor.text();
    let before_cursor = editor.cursor();
    editor.insert('✓');
    editor.backspace();
    assert_eq!(editor.text(), before_text);
    assert_eq!(editor.cursor(), before_cursor);
}

#[test]
fn newline_then_backspace_restores() {
    let mut editor = TextEditor::new("añb\nc");
    editor.move_right();
    editor.move_right();
    let before_lines = lines_of(&editor);
    let before_cursor = editor.cursor();
    editor.newline();
    editor.backspace();
    assert_eq!(lines_of(&editor), before_lines);
    assert_eq!(editor.cursor(), before_cursor);
}

#[test]
fn right_then_left_restores_cursor() {
    let mut editor = TextEditor::new("añ\nb");
    for _ in 0..3 {
        let before = editor.cursor();
        editor.move_right();
        editor.move_left();
        assert_eq!(editor.cursor(), before);
        editor.move_right();
    }
}

#[test]
fn read_then_open_gives_same_lines() {
    let mut editor = TextEditor::new("ab");
    editor.end();
    editor.newline();
    editor.insert('ü');
    let reopened = TextEditor::new(&editor.text());
    assert_eq!(lines_of(&reopened), lines_of(&editor));
}
