use callnotes::app::{App, Key, KeyPress};
use callnotes::calls::Call;
use callnotes::editor::TextEditor;
use callnotes::layout::{line_count_of, CardSlot};

fn call_with_notes(notes: &str) -> Call {
    let mut call = Call::starting(String::new());
    call.notes = notes.to_string();
    call
}

#[test]
fn line_count_matches_str_lines() {
    for s in ["", "a", "a\n", "a\nb", "\n", "\n\n", "a\r\nb\r\n", "x\n\ny"] {
        assert_eq!(line_count_of(s), s.lines().count(), "{:?}", s);
    }
}

#[test]
fn cards_stack_with_one_row_gap() {
    let app = App::new(Some(vec![
        call_with_notes(""),
        call_with_notes("a\nb\nc"),
        call_with_notes("x"),
    ]));
    let slots = app.card_slots(2, 40);
    assert_eq!(
        slots,
        vec![
            CardSlot { index: 0, y: 2, height: 7, skip: 0 },
            CardSlot { index: 1, y: 10, height: 9, skip: 0 },
            CardSlot { index: 2, y: 20, height: 7, skip: 0 },
        ]
    );
}

#[test]
fn cards_are_clipped_to_the_viewport() {
    let app = App::new(Some(vec![
        call_with_notes("a"),
        call_with_notes("b"),
        call_with_notes("c"),
    ]));
    assert_eq!(
        app.card_slots(0, 10),
        vec![CardSlot { index: 0, y: 0, height: 7, skip: 0 }, CardSlot { index: 1, y: 8, height: 2, skip: 0 }]
    );
}

#[test]
fn scrolling_moves_cards_up_and_hides_them_above() {
    let mut app = App::new(Some(vec![
        call_with_notes("a"),
        call_with_notes("b"),
        call_with_notes("c"),
    ]));
    app.scroll = 8;
    assert_eq!(
        app.card_slots(2, 10),
        vec![CardSlot { index: 1, y: 2, height: 7, skip: 0 }, CardSlot { index: 2, y: 10, height: 2, skip: 0 }]
    );
    app.scroll = 11;
    assert_eq!(
        app.card_slots(2, 10),
        vec![CardSlot { index: 1, y: 2, height: 4, skip: 3 }, CardSlot { index: 2, y: 7, height: 5, skip: 0 }]
    );
    app.scroll = 30;
    assert_eq!(app.card_slots(2, 10), vec![]);
}

#[test]
fn page_down_scrolls_the_history() {
    let mut app = App::new(Some(vec![call_with_notes("a"), call_with_notes("b")]));
    let before = app.card_slots(2, 20);
    assert_eq!(before[1], CardSlot { index: 1, y: 10, height: 7, skip: 0 });
    app.handle_key(KeyPress { key: Key::PageDown, control: false });
    let after = app.card_slots(2, 20);
    assert_eq!(after, vec![CardSlot { index: 1, y: 2, height: 7, skip: 0 }]);
    app.handle_key(KeyPress { key: Key::PageUp, control: false });
    assert_eq!(app.card_slots(2, 20), before);
}

#[test]
fn line_count_agrees_with_editor_lines() {
    for s in ["a", "a\nb", "\n", "a\n", "x\n\ny\n", "ü"] {
        let lines = TextEditor::new(s).lines().len();
        let counted = line_count_of(s);
        if s.ends_with('\n') {
            assert_eq!(counted + 1, lines, "{:?}", s);
        } else {
            assert_eq!(counted, lines, "{:?}", s);
        }
    }
    assert_eq!(line_count_of(""), 0);
}

#[test]
fn card_height_is_capped_by_one_line_minimum() {
    let app = App::new(Some(vec![call_with_notes("\n")]));
    assert_eq!(app.card_slots(0, 100), vec![CardSlot { index: 0, y: 0, height: 7, skip: 0 }]);
}
