use callnotes::app::{App, Effect, Field, Key, KeyPress};
use callnotes::calls::Call;
use callnotes::theme::Theme;

fn is_stamp(s: &str) -> bool {
    let b = s.as_bytes();
    b.len() == 19
        && b.iter().enumerate().all(|(i, c)| match i {
            4 | 7 => *c == b'-',
            10 => *c == b' ',
            13 | 16 => *c == b':',
            _ => c.is_ascii_digit(),
        })
}

fn plain(key: Key) -> KeyPress {
    KeyPress { key, control: false }
}

fn ctrl(key: Key) -> KeyPress {
    KeyPress { key, control: true }
}

fn call_with(inc: &str, notes: &str) -> Call {
    let mut call = Call::starting("2024-01-01 00:00:00".to_string());
    call.inc = inc.to_string();
    call.notes = notes.to_string();
    call
}

fn press(app: &mut App, key: KeyPress) -> Effect {
    assert!(app.has_room());
    app.handle_key(key)
}

fn type_text(app: &mut App, text: &str) {
    for c in text.chars() {
        press(app, plain(Key::Char(c)));
    }
}

#[test]
fn opens_with_a_new_call_when_nothing_loaded() {
    for loaded in [None, Some(Vec::new())] {
        let app = App::new(loaded);
        assert_eq!(app.calls.len(), 1);
        assert_eq!(app.selected, 0);
        assert_eq!(app.field, Field::Notes);
        assert_eq!(app.status, "Ready");
        assert!(!app.should_quit);
        assert_eq!(app.scroll, 0);
        assert!(is_stamp(&app.calls[0].started_at));
        assert_eq!(app.editor.text(), "");
        assert_eq!(app.theme, Theme::default());
    }
}

#[test]
fn opens_loaded_calls_with_first_selected() {
    let app = App::new(Some(vec![call_with("INC-2", "second\nnotes"), call_with("INC-1", "first")]));
    assert_eq!(app.calls.len(), 2);
    assert_eq!(app.selected, 0);
    assert_eq!(app.editor.text(), "second\nnotes");
    assert_eq!(app.editor.cursor(), (0, 0));
}

#[test]
fn typing_goes_to_notes_and_is_synced() {
    let mut app = App::new(Some(vec![call_with("", "")]));
    type_text(&mut app, "hé");
    assert_eq!(press(&mut app, plain(Key::Enter)), Effect::Nothing);
    type_text(&mut app, "x");
    assert_eq!(app.calls[0].notes, "hé\nx");
    press(&mut app, plain(Key::Backspace));
    press(&mut app, plain(Key::Backspace));
    assert_eq!(app.calls[0].notes, "hé");
}

#[test]
fn tab_cycles_fields_and_typing_follows() {
    let mut app = App::new(Some(vec![call_with("", "n")]));
    press(&mut app, plain(Key::Tab));
    assert_eq!(app.field, Field::Phone);
    type_text(&mut app, "555");
    press(&mut app, plain(Key::Tab));
    assert_eq!(app.field, Field::Inc);
    type_text(&mut app, "INC-7");
    press(&mut app, plain(Key::Tab));
    assert_eq!(app.field, Field::CallType);
    type_text(&mut app, "VPN");
    press(&mut app, plain(Key::Backspace));
    press(&mut app, plain(Key::Tab));
    assert_eq!(app.field, Field::Notes);
    let call = &app.calls[0];
    assert_eq!(call.phone, "555");
    assert_eq!(call.inc, "INC-7");
    assert_eq!(call.call_type, "VP");
    assert_eq!(call.notes, "n");
    press(&mut app, plain(Key::BackTab));
    assert_eq!(app.field, Field::CallType);
    press(&mut app, plain(Key::Tab));
    assert_eq!(app.field, Field::Notes);
}

#[test]
fn backspace_in_empty_field_does_nothing() {
    let mut app = App::new(Some(vec![call_with("", "")]));
    press(&mut app, plain(Key::Tab));
    press(&mut app, plain(Key::Backspace));
    assert_eq!(app.calls[0].phone, "");
}

#[test]
fn type_then_backspace_in_field_restores() {
    let mut app = App::new(Some(vec![call_with("INC-", "")]));
    press(&mut app, plain(Key::Tab));
    press(&mut app, plain(Key::Tab));
    press(&mut app, plain(Key::Char('ß')));
    press(&mut app, plain(Key::Backspace));
    assert_eq!(app.calls[0].inc, "INC-");
}

#[test]
fn snippets_insert_text() {
    let mut app = App::new(Some(vec![call_with("", "")]));
    press(&mut app, ctrl(Key::Char('1')));
    press(&mut app, plain(Key::Char(' ')));
    press(&mut app, ctrl(Key::Char('2')));
    assert_eq!(app.calls[0].notes, "BMC Engineer Coforge");
    press(&mut app, plain(Key::Tab));
    press(&mut app, plain(Key::Tab));
    press(&mut app, ctrl(Key::Char('3')));
    type_text(&mut app, "12");
    assert_eq!(app.calls[0].inc, "INC-12");
}

#[test]
fn ctrl_n_starts_new_call_in_front() {
    let mut app = App::new(Some(vec![call_with("INC-1", "old")]));
    type_text(&mut app, "!");
    assert_eq!(press(&mut app, ctrl(Key::Char('n'))), Effect::Nothing);
    assert_eq!(app.calls.len(), 2);
    assert_eq!(app.selected, 0);
    assert_eq!(app.field, Field::Notes);
    assert_eq!(app.status, "New call started");
    assert_eq!(app.calls[0].inc, "");
    assert!(is_stamp(&app.calls[0].started_at));
    assert_eq!(app.calls[1].notes, "!old");
    assert_eq!(app.editor.text(), "");
}

#[test]
fn ctrl_up_down_select_calls_within_range() {
    let mut app = App::new(Some(vec![call_with("A", "a"), call_with("B", "b"), call_with("C", "c")]));
    press(&mut app, ctrl(Key::Up));
    assert_eq!(app.selected, 0);
    press(&mut app, ctrl(Key::Down));
    assert_eq!(app.selected, 1);
    assert_eq!(app.editor.text(), "b");
    press(&mut app, ctrl(Key::Down));
    press(&mut app, ctrl(Key::Down));
    assert_eq!(app.selected, 2);
    press(&mut app, ctrl(Key::Up));
    assert_eq!(app.selected, 1);
}

#[test]
fn selecting_keeps_edits_of_previous_call() {
    let mut app = App::new(Some(vec![call_with("A", "a"), call_with("B", "b")]));
    press(&mut app, plain(Key::End));
    type_text(&mut app, "1");
    press(&mut app, ctrl(Key::Down));
    type_text(&mut app, "2");
    press(&mut app, ctrl(Key::Up));
    assert_eq!(app.calls[0].notes, "a1");
    assert_eq!(app.calls[1].notes, "2b");
    assert_eq!(app.editor.text(), "a1");
}

#[test]
fn ctrl_s_asks_to_save_and_reports() {
    let mut app = App::new(Some(vec![call_with("", "")]));
    let effect = press(&mut app, ctrl(Key::Char('s')));
    assert_eq!(effect, Effect::Save { report: true });
    app.record_save(effect, Ok(()));
    assert_eq!(app.status, "Saved");
    app.record_save(effect, Err("disk full".to_string()));
    assert_eq!(app.status, "Save failed: disk full");
}

#[test]
fn ctrl_q_saves_and_quits() {
    let mut app = App::new(Some(vec![call_with("", "")]));
    let effect = press(&mut app, ctrl(Key::Char('q')));
    assert_eq!(effect, Effect::Save { report: true });
    assert!(app.should_quit);
}

#[test]
fn f2_finishes_and_saves_quietly() {
    let mut app = App::new(Some(vec![call_with("INC-9", "")]));
    let effect = press(&mut app, plain(Key::F(2)));
    assert_eq!(effect, Effect::Save { report: false });
    assert_eq!(app.status, "Call finished and saved");
    let stamp = app.calls[0].finished_at.clone().expect("finished");
    assert!(is_stamp(&stamp));
    app.record_save(effect, Err("ignored".to_string()));
    assert_eq!(app.status, "Call finished and saved");
    press(&mut app, plain(Key::F(2)));
    assert_eq!(app.calls[0].finished_at, Some(stamp));
}

#[test]
fn handle_key_at_uses_given_stamp() {
    let mut app = App::new(Some(vec![call_with("", "")]));
    app.handle_key_at(ctrl(Key::Char('n')), "2030-01-01 12:00:00".to_string());
    assert_eq!(app.calls[0].started_at, "2030-01-01 12:00:00");
    app.handle_key_at(plain(Key::F(2)), "2030-01-01 12:30:00".to_string());
    assert_eq!(app.calls[0].finished_at.as_deref(), Some("2030-01-01 12:30:00"));
}

#[test]
fn other_keys_ask_for_nothing() {
    let mut app = App::new(Some(vec![call_with("", "")]));
    for key in [plain(Key::F(1)), plain(Key::Home), plain(Key::Other), ctrl(Key::Left)] {
        assert_eq!(press(&mut app, key), Effect::Nothing);
    }
    assert!(!app.should_quit);
}

#[test]
fn page_keys_scroll_with_saturation() {
    let mut app = App::new(Some(vec![call_with("", "")]));
    press(&mut app, plain(Key::PageUp));
    assert_eq!(app.scroll, 0);
    press(&mut app, plain(Key::PageDown));
    press(&mut app, plain(Key::PageDown));
    assert_eq!(app.scroll, 16);
    press(&mut app, plain(Key::PageUp));
    assert_eq!(app.scroll, 8);
    app.scroll = u16::MAX - 3;
    press(&mut app, plain(Key::PageDown));
    assert_eq!(app.scroll, u16::MAX);
}

#[test]
fn plain_up_down_move_through_calls_in_any_field() {
    let mut app = App::new(Some(vec![call_with("A", "a\nb"), call_with("B", "b"), call_with("C", "c")]));
    press(&mut app, plain(Key::End));
    type_text(&mut app, "1");
    press(&mut app, plain(Key::Down));
    assert_eq!(app.selected, 1);
    assert_eq!(app.calls[0].notes, "a1\nb");
    assert_eq!(app.editor.text(), "b");
    assert_eq!(app.editor.cursor(), (0, 0));
    press(&mut app, plain(Key::Tab));
    assert_eq!(app.field, Field::Phone);
    press(&mut app, plain(Key::Down));
    assert_eq!(app.selected, 2);
    assert_eq!(app.field, Field::Notes);
    press(&mut app, plain(Key::Down));
    assert_eq!(app.selected, 2);
    press(&mut app, plain(Key::Up));
    press(&mut app, plain(Key::Up));
    press(&mut app, plain(Key::Up));
    assert_eq!(app.selected, 0);
    assert_eq!(app.editor.text(), "a1\nb");
}

#[test]
fn has_room_for_ordinary_texts() {
    let app = App::new(Some(vec![call_with("INC-1", "some notes")]));
    assert!(app.has_room());
}

#[test]
fn keys_leave_other_calls_untouched() {
    let mut app = App::new(Some(vec![call_with("A", "a"), call_with("B", "b")]));
    let before = app.calls[1].clone();
    for key in [plain(Key::Char('x')), plain(Key::Enter), plain(Key::Tab), plain(Key::Char('5')), plain(Key::F(2))] {
        press(&mut app, key);
    }
    assert_eq!(app.calls.len(), 2);
    assert_eq!(app.calls[1].notes, before.notes);
    assert_eq!(app.calls[1].phone, before.phone);
    assert_eq!(app.calls[1].finished_at, before.finished_at);
    assert_eq!(app.calls[0].notes, "x\na");
    assert_eq!(app.calls[0].phone, "5");
}

#[test]
fn four_tabs_come_back_to_notes() {
    let mut app = App::new(Some(vec![call_with("", "")]));
    let mut seen = Vec::new();
    for _ in 0..4 {
        press(&mut app, plain(Key::Tab));
        seen.push(app.field);
    }
    assert_eq!(seen, vec![Field::Phone, Field::Inc, Field::CallType, Field::Notes]);
}
