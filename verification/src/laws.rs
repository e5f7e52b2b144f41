//! Properties that relate the operations of the editor, the call records and
//! the App to one another.
use vstd::prelude::*;
use crate::app::{AppState, Effect, Field, Key, KeyPress};
use crate::calls::CallState;
use crate::editor::EditorState;
use crate::text::{
    byte_len, char_index, is_boundary, lemma_byte_len_take_step, lemma_char_index_unique, lemma_join_split, lemma_split_join,
    no_newlines, split_lines, width,
};
use crate::layout::{line_count, newline_count};

verus! {

/// Opening a text in the editor and reading it back gives the same text.
pub proof fn law_open_then_read(text: Seq<char>)
    ensures
        EditorState::fresh(text).text() == text,
{
    lemma_join_split(text);
}

/// Reading an editor's text and opening it again gives back the same lines,
/// provided no line holds a `'\n'` (a typed `'\n'` would split its line).
pub proof fn law_read_then_open(st: EditorState)
    requires
        st.wf(),
        no_newlines(st.lines),
    ensures
        EditorState::fresh(st.text()).lines == st.lines,
{
    lemma_split_join(st.lines);
}

/// A text has one line more than it has `'\n'` characters; `str::lines`
/// counts the same lines, except for the empty last line after a final
/// `'\n'` (and for an empty text, where it counts none).
pub proof fn law_lines_counted(text: Seq<char>)
    ensures
        split_lines(text).len() == newline_count(text) + 1,
        text.len() > 0 && text.last() != '\n' ==> line_count(text) == split_lines(text).len(),
        text.len() > 0 && text.last() == '\n' ==> line_count(text) + 1 == split_lines(text).len(),
        text.len() == 0 ==> line_count(text) == 0,
    decreases text.len(),
{
    if text.len() > 0 {
        law_lines_counted(text.drop_last());
        crate::text::lemma_split_lines_shape(text.drop_last());
    }
}

/// The cursor's character index and the bytes before it agree.
proof fn lemma_index_bytes(st: EditorState)
    requires
        st.wf(),
        st.on_boundary(),
    ensures
        0 <= st.index() <= st.line().len(),
        byte_len(st.line().take(st.index())) == st.column,
{
}

/// Typing a character and then deleting it with backspace restores the
/// editor exactly, cursor included.
pub proof fn law_insert_then_backspace(st: EditorState, c: char)
    requires
        st.wf(),
        st.on_boundary(),
    ensures
        st.inserted(c).backspaced() == st,
{
    lemma_index_bytes(st);
    let line = st.line();
    let k = st.index();
    let t = st.inserted(c);
    let nl = line.insert(k, c);
    assert(t.line() == nl);
    assert(nl.take(k + 1) =~= line.take(k).push(c));
    assert(nl.take(k + 1).drop_last() =~= line.take(k));
    assert(byte_len(nl.take(k + 1)) == st.column + width(c));
    lemma_char_index_unique(nl, k + 1);
    assert(t.index() == k + 1);
    assert(nl.remove(k) =~= line);
    assert(t.backspaced().lines =~= st.lines);
}

/// Breaking a line at the cursor and then pressing backspace joins it again
/// and puts the cursor back where it was.
pub proof fn law_newline_then_backspace(st: EditorState)
    requires
        st.wf(),
        st.on_boundary(),
    ensures
        st.broken().backspaced() == st,
{
    lemma_index_bytes(st);
    let line = st.line();
    let k = st.index();
    let b = st.broken();
    assert(b.lines[st.row as int] == line.take(k));
    assert(line.take(k) + line.skip(k) =~= line);
    assert(b.backspaced().lines =~= st.lines);
}

/// Moving right and then left returns the cursor to where it was, unless it
/// was at the very end of the text (where moving right does nothing).
pub proof fn law_right_then_left(st: EditorState)
    requires
        st.wf(),
        st.on_boundary(),
        !(st.row + 1 == st.lines.len() && st.column == byte_len(st.line())),
    ensures
        st.moved_right().moved_left() == st,
{
    lemma_index_bytes(st);
    let line = st.line();
    let k = st.index();
    if st.column < byte_len(line) {
        if k == line.len() {
            assert(line.take(k) =~= line);
        }
        lemma_byte_len_take_step(line, k);
        lemma_char_index_unique(line, k + 1);
    }
}

/// Moving left and then right returns the cursor to where it was, unless it
/// was at the very start of the text (where moving left does nothing).
pub proof fn law_left_then_right(st: EditorState)
    requires
        st.wf(),
        st.on_boundary(),
        !(st.row == 0 && st.column == 0),
    ensures
        st.moved_left().moved_right() == st,
{
    lemma_index_bytes(st);
    let line = st.line();
    let k = st.index();
    if st.column > 0 {
        if k == 0 {
            assert(line.take(0) =~= Seq::<char>::empty());
        }
        lemma_byte_len_take_step(line, k - 1);
        lemma_char_index_unique(line, k - 1);
    } else {
        let above = st.lines[st.row - 1];
        crate::text::lemma_end_boundary(above);
    }
}

/// Moving to the next field and then to the previous one (or the other way
/// round) comes back to the same field, and four moves in one direction
/// visit every field once and come back.
pub proof fn law_field_cycle(f: Field, reverse: bool)
    ensures
        f.after(reverse).after(!reverse) == f,
        f.after(reverse).after(reverse).after(reverse).after(reverse) == f,
        f.after(reverse) != f,
{
}

/// Finishing a call that is already finished keeps its first finish time.
pub proof fn law_finish_once(c: CallState, first: Seq<char>, second: Seq<char>)
    ensures
        c.finished(first).finished(second) == c.finished(first),
        c.finished(first).finished_at is Some,
{
}

/// Typing a character into the phone, incident or call-type field and then
/// pressing backspace restores the App.
pub proof fn law_field_type_then_backspace(st: AppState, c: char)
    requires
        st.inv(),
        st.field != Field::Notes,
    ensures
        st.char_typed(c).char_removed() == st,
{
    let cur = st.current();
    assert(cur.phone.push(c).drop_last() =~= cur.phone);
    assert(cur.inc.push(c).drop_last() =~= cur.inc);
    assert(cur.call_type.push(c).drop_last() =~= cur.call_type);
    assert(st.char_typed(c).char_removed().calls =~= st.calls);
}

/// A key press asks the caller to store the selected call exactly for
/// Ctrl+S and Ctrl+Q (reporting the outcome) and for F2 (not reporting it).
pub proof fn law_save_keys(st: AppState, press: KeyPress, now: Seq<char>)
    ensures
        st.after_key(press, now).1 == (Effect::Save { report: true }) <==> press.control && (
        press.key == Key::Char('q') || press.key == Key::Char('s')),
        st.after_key(press, now).1 == (Effect::Save { report: false }) <==> press.key == Key::F(2),
        st.after_key(press, now).1 == Effect::Nothing <==> !(press.key == Key::F(2) || (
        press.control && (press.key == Key::Char('q') || press.key == Key::Char('s')))),
{
}

/// Typing text changes neither the quit flag, the scroll offset nor the
/// status line.
proof fn lemma_typed_all_keeps(st: AppState, text: Seq<char>)
    ensures
        st.typed_all(text).should_quit == st.should_quit,
        st.typed_all(text).scroll == st.scroll,
        st.typed_all(text).status == st.status,
    decreases text.len(),
{
    if text.len() > 0 {
        lemma_typed_all_keeps(st, text.drop_last());
    }
}

/// Typing text touches no call but the selected one.
proof fn lemma_typed_all_calls(st: AppState, text: Seq<char>)
    requires
        st.selected < st.calls.len(),
    ensures
        st.typed_all(text).calls.len() == st.calls.len(),
        st.typed_all(text).selected == st.selected,
        st.typed_all(text).field == st.field,
        forall|i: int|
            0 <= i < st.calls.len() && i != st.selected ==> #[trigger] st.typed_all(text).calls[i]
                == st.calls[i],
    decreases text.len(),
{
    if text.len() > 0 {
        lemma_typed_all_calls(st, text.drop_last());
        let p = st.typed_all(text.drop_last());
        let q = p.char_typed(text.last());
        assert(q == st.typed_all(text));
        assert(q.calls.len() == p.calls.len());
        assert forall|i: int|
            0 <= i < st.calls.len() && i != st.selected implies #[trigger] q.calls[i]
                == st.calls[i] by {
            assert(p.calls[i] == st.calls[i]);
        }
    }
}

/// Only Ctrl+N changes the number of calls (it adds one); every other key
/// leaves every call but the selected one exactly as it was.
pub proof fn law_other_calls_untouched(st: AppState, press: KeyPress, now: Seq<char>)
    requires
        st.inv(),
        !(press.control && press.key == Key::Char('n')),
    ensures
        st.after_key(press, now).0.calls.len() == st.calls.len(),
        forall|i: int|
            0 <= i < st.calls.len() && i != st.selected ==> #[trigger] st.after_key(
                press,
                now,
            ).0.calls[i] == st.calls[i],
{
    lemma_typed_all_calls(st, "BMC Engineer"@);
    lemma_typed_all_calls(st, "Coforge"@);
    lemma_typed_all_calls(st, "INC-"@);
}

/// Up and Down (with or without Control) move through the call history:
/// Down selects the next call and Up the previous one (staying put at either
/// end), after the notes being edited are saved into their call; the newly
/// selected call's notes open in the editor, typing going to the notes.
pub proof fn law_up_down_select(st: AppState, control: bool, now: Seq<char>)
    requires
        st.inv(),
    ensures
        ({
            let down = st.after_key(KeyPress { key: Key::Down, control }, now).0;
            &&& down.selected == if st.selected + 1 < st.calls.len() {
                st.selected + 1
            } else {
                st.selected
            }
            &&& down.calls == st.calls
            &&& down.field == Field::Notes
            &&& down.editor == EditorState::fresh(down.current().notes)
            &&& down.editor.text() == down.current().notes
        }),
        ({
            let up = st.after_key(KeyPress { key: Key::Up, control }, now).0;
            &&& up.selected == if st.selected > 0 {
                st.selected - 1
            } else {
                0
            }
            &&& up.calls == st.calls
            &&& up.field == Field::Notes
            &&& up.editor == EditorState::fresh(up.current().notes)
            &&& up.editor.text() == up.current().notes
        }),
{
    assert(st.synced().calls =~= st.calls);
    let down = st.after_key(KeyPress { key: Key::Down, control }, now).0;
    let up = st.after_key(KeyPress { key: Key::Up, control }, now).0;
    lemma_join_split(down.current().notes);
    lemma_join_split(up.current().notes);
}

/// Down then Up comes back to the same call when it was not the last one.
pub proof fn law_select_down_then_up(st: AppState, c1: bool, c2: bool, now: Seq<char>)
    requires
        st.inv(),
        st.selected + 1 < st.calls.len(),
    ensures
        st.after_key(KeyPress { key: Key::Down, control: c1 }, now).0.after_key(
            KeyPress { key: Key::Up, control: c2 },
            now,
        ).0.selected == st.selected,
{
}

/// No key drops a call: only Ctrl+N changes the number of calls, adding one.
pub proof fn law_calls_never_dropped(st: AppState, press: KeyPress, now: Seq<char>)
    requires
        st.inv(),
    ensures
        st.after_key(press, now).0.calls.len() == st.calls.len() + if press.control && press.key
            == Key::Char('n') {
            1int
        } else {
            0int
        },
{
    if press.control && press.key == Key::Char('n') {
        law_new_call(st, now);
    } else {
        law_other_calls_untouched(st, press, now);
    }
}

/// Page Down moves every card up by eight rows, Page Up moves them down by
/// eight, as long as the scroll offset does not hit either end of its range.
pub proof fn law_page_keys_scroll_cards(st: AppState, area_y: u16, i: nat, now: Seq<char>)
    requires
        st.inv(),
    ensures
        st.scroll <= u16::MAX - 8 ==> st.after_key(
            KeyPress { key: Key::PageDown, control: false },
            now,
        ).0.card_top(area_y, i) == st.card_top(area_y, i) - 8,
        st.scroll >= 8 ==> st.after_key(
            KeyPress { key: Key::PageUp, control: false },
            now,
        ).0.card_top(area_y, i) == st.card_top(area_y, i) + 8,
{
    assert(st.synced().calls =~= st.calls);
}

/// Editing keeps every line free of `'\n'` (typing any character but
/// `'\n'`, breaking a line, deleting, and moving the cursor).
pub proof fn law_no_newlines_kept(st: EditorState, c: char)
    requires
        st.wf(),
        st.on_boundary(),
        no_newlines(st.lines),
    ensures
        c != '\n' ==> no_newlines(st.inserted(c).lines),
        no_newlines(st.broken().lines),
        no_newlines(st.backspaced().lines),
        no_newlines(st.moved_left().lines),
        no_newlines(st.moved_right().lines),
        no_newlines(st.moved_up().lines),
        no_newlines(st.moved_down().lines),
        no_newlines(st.at_home().lines),
        no_newlines(st.at_end().lines),
{
    lemma_index_bytes(st);
    let line = st.line();
    let k = st.index();
    let r = st.row as int;
    assert(!line.contains('\n'));
    if c != '\n' {
        let ls = st.inserted(c).lines;
        assert forall|i: int| 0 <= i < ls.len() implies !#[trigger] ls[i].contains('\n') by {
            if i == r {
                if ls[i].contains('\n') {
                    let j = choose|j: int| 0 <= j < ls[i].len() && ls[i][j] == '\n';
                    if j < k {
                        assert(line[j] == '\n');
                    } else if j > k {
                        assert(line[j - 1] == '\n');
                    }
                }
            } else {
                assert(ls[i] == st.lines[i]);
            }
        }
    }
    let bl = st.broken().lines;
    assert forall|i: int| 0 <= i < bl.len() implies !#[trigger] bl[i].contains('\n') by {
        if i == r {
            if bl[i].contains('\n') {
                let j = choose|j: int| 0 <= j < bl[i].len() && bl[i][j] == '\n';
                assert(line[j] == '\n');
            }
        } else if i == r + 1 {
            if bl[i].contains('\n') {
                let j = choose|j: int| 0 <= j < bl[i].len() && bl[i][j] == '\n';
                assert(line[k + j] == '\n');
            }
        } else if i < r {
            assert(bl[i] == st.lines[i]);
        } else {
            assert(bl[i] == st.lines[i - 1]);
        }
    }
    let dl = st.backspaced().lines;
    if st.column > 0 {
        if k == 0 {
            assert(line.take(0) =~= Seq::<char>::empty());
        }
        assert forall|i: int| 0 <= i < dl.len() implies !#[trigger] dl[i].contains('\n') by {
            if i == r {
                if dl[i].contains('\n') {
                    let j = choose|j: int| 0 <= j < dl[i].len() && dl[i][j] == '\n';
                    if j < k - 1 {
                        assert(line[j] == '\n');
                    } else {
                        assert(line[j + 1] == '\n');
                    }
                }
            } else {
                assert(dl[i] == st.lines[i]);
            }
        }
    } else if st.row > 0 {
        let above = st.lines[r - 1];
        assert(!above.contains('\n'));
        assert forall|i: int| 0 <= i < dl.len() implies !#[trigger] dl[i].contains('\n') by {
            if i == r - 1 {
                if dl[i].contains('\n') {
                    let j = choose|j: int| 0 <= j < dl[i].len() && dl[i][j] == '\n';
                    if j < above.len() {
                        assert(above[j] == '\n');
                    } else {
                        assert(line[j - above.len()] == '\n');
                    }
                }
            } else if i < r - 1 {
                assert(dl[i] == st.lines[i]);
            } else {
                assert(dl[i] == st.lines[i + 1]);
            }
        }
    }
}

/// Only Ctrl+Q asks the App to quit; no other key changes that flag.
pub proof fn law_quit_key(st: AppState, press: KeyPress, now: Seq<char>)
    requires
        st.inv(),
    ensures
        st.after_key(press, now).0.should_quit == (st.should_quit || (press.control && press.key
            == Key::Char('q'))),
{
    lemma_typed_all_keeps(st, "BMC Engineer"@);
    lemma_typed_all_keeps(st, "Coforge"@);
    lemma_typed_all_keeps(st, "INC-"@);
}

/// Ctrl+N puts a new call, started at `now`, in front of the others, whose
/// order and contents stay as they were (the selected one synced), and
/// selects it with an empty editor on its notes.
pub proof fn law_new_call(st: AppState, now: Seq<char>)
    requires
        st.inv(),
    ensures
        ({
            let after = st.after_key(KeyPress { key: Key::Char('n'), control: true }, now).0;
            &&& after.calls.len() == st.calls.len() + 1
            &&& after.calls[0] == CallState::started(now)
            &&& after.calls.skip(1) == st.calls
            &&& after.selected == 0
            &&& after.field == Field::Notes
            &&& after.editor.text().len() == 0
            &&& after.status == "New call started"@
        }),
{
    let s = st.synced();
    assert(s.calls =~= st.calls);
    let after = st.after_key(KeyPress { key: Key::Char('n'), control: true }, now).0;
    assert(after.calls.skip(1) =~= st.calls);
    lemma_join_split(Seq::<char>::empty());
}

/// Tab followed by Shift+Tab returns typing to the same field and leaves the
/// calls as they were.
pub proof fn law_tab_then_backtab(st: AppState, now: Seq<char>)
    requires
        st.inv(),
    ensures
        ({
            let once = st.after_key(KeyPress { key: Key::Tab, control: false }, now).0;
            let back = once.after_key(KeyPress { key: Key::BackTab, control: false }, now).0;
            &&& back.field == st.field
            &&& back.calls == st.calls
            &&& back.selected == st.selected
            &&& back.editor == EditorState::fresh(st.current().notes)
        }),
{
    assert(st.synced().calls =~= st.calls);
    let once = st.after_key(KeyPress { key: Key::Tab, control: false }, now).0;
    lemma_join_split(st.current().notes);
    assert(once.synced().calls =~= once.calls);
    let back = once.after_key(KeyPress { key: Key::BackTab, control: false }, now).0;
    assert(back.synced().calls =~= back.calls);
    lemma_join_split(once.current().notes);
}

/// Page Down followed by Page Up restores the scroll offset, as long as Page
/// Down did not hit the top of the range.
pub proof fn law_page_down_then_up(st: AppState, now: Seq<char>)
    requires
        st.inv(),
        st.scroll <= u16::MAX - 8,
    ensures
        st.after_key(KeyPress { key: Key::PageDown, control: false }, now).0.after_key(
            KeyPress { key: Key::PageUp, control: false },
            now,
        ).0.scroll == st.scroll,
{
}

/// Moving right, explicitly: inside a line the cursor passes exactly one
/// character (it lands on the next boundary, one character further, on the
/// same line); at the end of a line it goes to the start of the next line;
/// at the end of the text it stays. The text never changes.
pub proof fn law_move_right_steps(st: EditorState)
    requires
        st.wf(),
        st.on_boundary(),
    ensures
        st.moved_right().lines == st.lines,
        st.column < byte_len(st.line()) ==> {
            let m = st.moved_right();
            &&& m.row == st.row
            &&& st.column < m.column <= byte_len(st.line())
            &&& is_boundary(st.line(), m.column as int)
            &&& char_index(st.line(), m.column as int) == char_index(st.line(), st.column as int) + 1
        },
        st.column == byte_len(st.line()) && st.row + 1 < st.lines.len() ==> st.moved_right().row
            == st.row + 1 && st.moved_right().column == 0,
        st.column == byte_len(st.line()) && st.row + 1 == st.lines.len() ==> st.moved_right()
            == st,
{
    lemma_index_bytes(st);
    let line = st.line();
    let k = st.index();
    if st.column < byte_len(line) {
        if k == line.len() {
            assert(line.take(k) =~= line);
        }
        lemma_byte_len_take_step(line, k);
        crate::text::lemma_byte_len_take_le(line, k + 1);
        lemma_char_index_unique(line, k + 1);
        crate::text::lemma_width_range(line[k]);
    }
}

/// Moving left, explicitly: inside a line the cursor passes back exactly one
/// character on the same line; at the start of a line it goes to the end of
/// the line above; at the start of the text it stays. The text never changes.
pub proof fn law_move_left_steps(st: EditorState)
    requires
        st.wf(),
        st.on_boundary(),
    ensures
        st.moved_left().lines == st.lines,
        st.column > 0 ==> {
            let m = st.moved_left();
            &&& m.row == st.row
            &&& m.column < st.column
            &&& is_boundary(st.line(), m.column as int)
            &&& char_index(st.line(), m.column as int) + 1 == char_index(st.line(), st.column as int)
        },
        st.column == 0 && st.row > 0 ==> st.moved_left().row + 1 == st.row
            && st.moved_left().column == byte_len(st.lines[st.row - 1]),
        st.column == 0 && st.row == 0 ==> st.moved_left() == st,
{
    lemma_index_bytes(st);
    let line = st.line();
    let k = st.index();
    if st.column > 0 {
        if k == 0 {
            assert(line.take(0) =~= Seq::<char>::empty());
        }
        lemma_byte_len_take_step(line, k - 1);
        lemma_char_index_unique(line, k - 1);
        crate::text::lemma_width_range(line[k - 1]);
    }
}

/// Moving down goes to the very next line (moving up to the line just
/// above), keeping the byte column where that line is long enough and
/// clamping it to the line's end otherwise; on the last (first) line the
/// cursor stays. The text never changes.
pub proof fn law_move_up_down_steps(st: EditorState)
    requires
        st.wf(),
    ensures
        st.moved_down().lines == st.lines,
        st.moved_up().lines == st.lines,
        st.row + 1 < st.lines.len() ==> {
            let m = st.moved_down();
            let len = byte_len(st.lines[st.row + 1 as int]);
            &&& m.row == st.row + 1
            &&& m.column <= st.column
            &&& m.column <= len
            &&& (m.column == st.column || m.column == len)
        },
        st.row + 1 == st.lines.len() ==> st.moved_down() == st,
        st.row > 0 ==> {
            let m = st.moved_up();
            let len = byte_len(st.lines[st.row - 1]);
            &&& m.row + 1 == st.row
            &&& m.column <= st.column
            &&& m.column <= len
            &&& (m.column == st.column || m.column == len)
        },
        st.row == 0 ==> st.moved_up() == st,
        st.moved_down().wf(),
        st.moved_up().wf(),
{
}

/// Home and End keep the cursor on its line and the text as it is: Home puts
/// the cursor before the line's first character, End after its last one.
pub proof fn law_home_end_stay_on_line(st: EditorState)
    requires
        st.wf(),
    ensures
        st.at_home().row == st.row,
        st.at_home().lines == st.lines,
        st.at_home().column == 0,
        char_index(st.line(), st.at_home().column as int) == 0,
        st.at_end().row == st.row,
        st.at_end().lines == st.lines,
        st.at_end().column == byte_len(st.line()),
        char_index(st.line(), st.at_end().column as int) == st.line().len(),
{
    crate::text::lemma_zero_boundary(st.line());
    crate::text::lemma_end_boundary(st.line());
}

/// Typing `c` puts it right after the characters before the cursor and right
/// before the ones after it, on the cursor's line only, and the cursor ends
/// up just after `c`.
pub proof fn law_typing_inserts_at_cursor(st: EditorState, c: char)
    requires
        st.wf(),
        st.on_boundary(),
    ensures
        ({
            let t = st.inserted(c);
            let k = char_index(st.line(), st.column as int);
            &&& t.row == st.row
            &&& t.lines.len() == st.lines.len()
            &&& forall|i: int| 0 <= i < st.lines.len() && i != st.row ==> #[trigger] t.lines[i] == st.lines[i]
            &&& t.line().len() == st.line().len() + 1
            &&& t.line().take(k) == st.line().take(k)
            &&& t.line()[k] == c
            &&& t.line().skip(k + 1) == st.line().skip(k)
            &&& t.column == st.column + width(c)
            &&& char_index(t.line(), t.column as int) == k + 1
        }),
{
    lemma_index_bytes(st);
    let line = st.line();
    let k = st.index();
    let t = st.inserted(c);
    let nl = line.insert(k, c);
    assert(t.line() == nl);
    assert(nl.take(k) =~= line.take(k));
    assert(nl.skip(k + 1) =~= line.skip(k));
    assert(nl.take(k + 1) =~= line.take(k).push(c));
    assert(nl.take(k + 1).drop_last() =~= line.take(k));
    lemma_char_index_unique(nl, k + 1);
}

/// In the notes field, each editing key does to the editor exactly what the
/// editor operation of that name does: Left and Right move one character
/// left and right, Home and End go to the line's ends, Enter breaks the line,
/// Backspace deletes, and a character key types that character.
pub proof fn law_notes_keys_edit(st: AppState, c: char, control: bool, now: Seq<char>)
    requires
        st.inv(),
        st.field == Field::Notes,
    ensures
        st.after_key(KeyPress { key: Key::Right, control }, now).0.editor == st.editor.moved_right(),
        st.after_key(KeyPress { key: Key::Left, control }, now).0.editor == st.editor.moved_left(),
        st.after_key(KeyPress { key: Key::Home, control }, now).0.editor == st.editor.at_home(),
        st.after_key(KeyPress { key: Key::End, control }, now).0.editor == st.editor.at_end(),
        st.after_key(KeyPress { key: Key::Enter, control }, now).0.editor == st.editor.broken(),
        st.after_key(KeyPress { key: Key::Backspace, control }, now).0.editor
            == st.editor.backspaced(),
        st.after_key(KeyPress { key: Key::Char(c), control: false }, now).0.editor
            == st.editor.inserted(c),
        st.after_key(KeyPress { key: Key::Right, control }, now).0.calls[st.selected as int].notes
            == st.editor.text(),
        st.after_key(KeyPress { key: Key::Char(c), control: false }, now).0.calls[st.selected as int].notes
            == st.editor.inserted(c).text(),
{
}

/// Outside the notes field the cursor keys leave the editor alone, and a
/// character key appends that character to the field being typed in.
pub proof fn law_field_keys_type(st: AppState, c: char, control: bool, now: Seq<char>)
    requires
        st.inv(),
        st.field != Field::Notes,
    ensures
        st.after_key(KeyPress { key: Key::Right, control }, now).0.editor == st.editor,
        st.after_key(KeyPress { key: Key::Left, control }, now).0.editor == st.editor,
        st.after_key(KeyPress { key: Key::Home, control }, now).0.editor == st.editor,
        st.after_key(KeyPress { key: Key::End, control }, now).0.editor == st.editor,
        st.after_key(KeyPress { key: Key::Enter, control }, now).0 == st,
        ({
            let after = st.after_key(KeyPress { key: Key::Char(c), control: false }, now).0;
            let cur = st.current();
            let new = after.calls[st.selected as int];
            &&& after.editor == st.editor
            &&& after.selected == st.selected
            &&& st.field == Field::Phone ==> new == CallState { phone: cur.phone.push(c), ..cur }
            &&& st.field == Field::Inc ==> new == CallState { inc: cur.inc.push(c), ..cur }
            &&& st.field == Field::CallType ==> new == CallState {
                call_type: cur.call_type.push(c),
                ..cur
            }
        }),
{
    assert(st.synced().calls =~= st.calls);
    assert(st.synced() == st);
}

/// Tab visits the fields in the order Phone, Inc, CallType, Notes and back
/// to Phone; Shift+Tab goes the other way.
pub proof fn law_tab_order(st: AppState, now: Seq<char>)
    requires
        st.inv(),
    ensures
        ({
            let f = st.after_key(KeyPress { key: Key::Tab, control: false }, now).0.field;
            &&& st.field == Field::Phone ==> f == Field::Inc
            &&& st.field == Field::Inc ==> f == Field::CallType
            &&& st.field == Field::CallType ==> f == Field::Notes
            &&& st.field == Field::Notes ==> f == Field::Phone
        }),
        ({
            let f = st.after_key(KeyPress { key: Key::BackTab, control: false }, now).0.field;
            &&& st.field == Field::Phone ==> f == Field::Notes
            &&& st.field == Field::Inc ==> f == Field::Phone
            &&& st.field == Field::CallType ==> f == Field::Inc
            &&& st.field == Field::Notes ==> f == Field::CallType
        }),
{
}

/// Typing keeps every call's id and stamps.
proof fn lemma_typed_all_keeps_stamps(st: AppState, text: Seq<char>)
    requires
        st.selected < st.calls.len(),
    ensures
        st.typed_all(text).calls.len() == st.calls.len(),
        forall|i: int|
            0 <= i < st.calls.len() ==> {
                &&& (#[trigger] st.typed_all(text).calls[i]).finished_at == st.calls[i].finished_at
                &&& st.typed_all(text).calls[i].started_at == st.calls[i].started_at
                &&& st.typed_all(text).calls[i].id == st.calls[i].id
            },
    decreases text.len(),
{
    if text.len() > 0 {
        lemma_typed_all_keeps_stamps(st, text.drop_last());
        lemma_typed_all_calls(st, text.drop_last());
        let p = st.typed_all(text.drop_last());
        let q = p.char_typed(text.last());
        assert(q == st.typed_all(text));
        assert forall|i: int| 0 <= i < st.calls.len() implies {
            &&& (#[trigger] q.calls[i]).finished_at == st.calls[i].finished_at
            &&& q.calls[i].started_at == st.calls[i].started_at
            &&& q.calls[i].id == st.calls[i].id
        } by {
            assert(p.calls[i].finished_at == st.calls[i].finished_at);
        }
    }
}

/// Only F2 finishes a call, and only Ctrl+N starts one: every other key
/// leaves every call's id, start stamp and finish stamp as they were (Ctrl+S
/// and Ctrl+Q store the call without finishing it).
pub proof fn law_stamps_only_by_f2_and_ctrl_n(st: AppState, press: KeyPress, now: Seq<char>)
    requires
        st.inv(),
        press.key != Key::F(2),
        !(press.control && press.key == Key::Char('n')),
    ensures
        st.after_key(press, now).0.calls.len() == st.calls.len(),
        forall|i: int|
            0 <= i < st.calls.len() ==> {
                &&& (#[trigger] st.after_key(press, now).0.calls[i]).finished_at
                    == st.calls[i].finished_at
                &&& st.after_key(press, now).0.calls[i].started_at == st.calls[i].started_at
                &&& st.after_key(press, now).0.calls[i].id == st.calls[i].id
            },
{
    law_other_calls_untouched(st, press, now);
    let s = st.synced();
    assert(s.calls =~= st.calls);
    lemma_typed_all_keeps_stamps(st, "BMC Engineer"@);
    lemma_typed_all_keeps_stamps(st, "Coforge"@);
    lemma_typed_all_keeps_stamps(st, "INC-"@);
    lemma_typed_all_calls(st, "BMC Engineer"@);
    lemma_typed_all_calls(st, "Coforge"@);
    lemma_typed_all_calls(st, "INC-"@);
    let after = st.after_key(press, now).0;
    assert forall|i: int| 0 <= i < st.calls.len() implies {
        &&& (#[trigger] after.calls[i]).finished_at == st.calls[i].finished_at
        &&& after.calls[i].started_at == st.calls[i].started_at
        &&& after.calls[i].id == st.calls[i].id
    } by {
        let _ = st.typed_all("BMC Engineer"@).calls[i];
        let _ = st.typed_all("Coforge"@).calls[i];
        let _ = st.typed_all("INC-"@).calls[i];
        if i != st.selected {
        } else {
            if let Key::Char(c) = press.key {
                let _ = st.char_typed(c).calls[i];
            }
            let _ = st.char_removed().calls[i];
        }
    }
}

/// Ctrl+S and Ctrl+Q store the selected call as it stands: the calls, the
/// selection, the field and the editor stay exactly as they were.
pub proof fn law_save_keeps_calls(st: AppState, now: Seq<char>)
    requires
        st.inv(),
    ensures
        ({
            let saved = st.after_key(KeyPress { key: Key::Char('s'), control: true }, now).0;
            &&& saved.calls == st.calls
            &&& saved.selected == st.selected
            &&& saved.field == st.field
            &&& saved.editor == st.editor
            &&& saved.status == st.status
            &&& !saved.should_quit || st.should_quit
        }),
        ({
            let quit = st.after_key(KeyPress { key: Key::Char('q'), control: true }, now).0;
            &&& quit.calls == st.calls
            &&& quit.selected == st.selected
            &&& quit.editor == st.editor
            &&& quit.should_quit
        }),
{
    assert(st.synced().calls =~= st.calls);
}

/// F2 finishes the selected call at `now` when it was active, and leaves a
/// finished call's stamp alone; nothing else of the call changes.
pub proof fn law_f2_finishes(st: AppState, control: bool, now: Seq<char>)
    requires
        st.inv(),
    ensures
        ({
            let after = st.after_key(KeyPress { key: Key::F(2), control }, now).0;
            let old = st.current();
            let new = after.calls[st.selected as int];
            &&& after.selected == st.selected
            &&& after.calls.len() == st.calls.len()
            &&& new.finished_at == if old.finished_at is None {
                Some(now)
            } else {
                old.finished_at
            }
            &&& new.started_at == old.started_at
            &&& new.id == old.id
            &&& new.phone == old.phone
            &&& new.inc == old.inc
            &&& new.call_type == old.call_type
            &&& new.notes == old.notes
            &&& after.status == "Call finished and saved"@
        }),
{
    assert(st.synced().calls =~= st.calls);
}

/// A card title reads: a space, the incident (or "New call" while there is
/// none), " | ", "finished" or "active" by whether the call has a finish
/// stamp (whatever its incident), and a closing space.
pub proof fn law_title_parts(c: CallState)
    ensures
        c.title()[0] == ' ',
        c.title().last() == ' ',
        c.inc.len() > 0 ==> c.title().subrange(1, 1 + c.inc.len() as int) == c.inc,
        c.inc.len() == 0 ==> c.title().subrange(1, 9) == "New call"@,
        c.finished_at is Some ==> c.title().skip(c.title().len() - 12) == " | finished "@,
        c.finished_at is None ==> c.title().skip(c.title().len() - 10) == " | active "@,
{
    reveal_strlit(" ");
    reveal_strlit(" | ");
    reveal_strlit("finished");
    reveal_strlit("active");
    reveal_strlit("New call");
    reveal_strlit(" | finished ");
    reveal_strlit(" | active ");
    let t = c.title();
    let label = if c.inc.len() == 0 { "New call"@ } else { c.inc };
    let state = if c.finished_at is Some { "finished"@ } else { "active"@ };
    assert(t == " "@ + label + " | "@ + state + " "@);
    assert(t.subrange(1, 1 + label.len() as int) =~= label);
    assert(t.skip(t.len() - (state.len() + 4)) =~= " | "@ + state + " "@);
    if c.finished_at is Some {
        assert(" | "@ + state + " "@ =~= " | finished "@);
    } else {
        assert(" | "@ + state + " "@ =~= " | active "@);
    }
}

/// Enter, explicitly: the cursor's line is cut at the cursor into the
/// characters before it and the ones after it, the second part becomes a new
/// line just below, the other lines keep their places (those below move down
/// by one), and the cursor goes to the start of the new line.
pub proof fn law_enter_breaks_line(st: EditorState)
    requires
        st.wf(),
        st.on_boundary(),
    ensures
        ({
            let b = st.broken();
            let k = char_index(st.line(), st.column as int);
            let r = st.row as int;
            &&& b.lines.len() == st.lines.len() + 1
            &&& b.lines[r] == st.line().take(k)
            &&& b.lines[r + 1] == st.line().skip(k)
            &&& b.lines[r] + b.lines[r + 1] == st.line()
            &&& forall|i: int| 0 <= i < r ==> #[trigger] b.lines[i] == st.lines[i]
            &&& forall|i: int| r + 1 < i < b.lines.len() ==> #[trigger] b.lines[i] == st.lines[i - 1]
            &&& b.row == st.row + 1
            &&& b.column == 0
        }),
{
    lemma_index_bytes(st);
    let line = st.line();
    let k = st.index();
    assert(line.take(k) + line.skip(k) =~= line);
}

/// Backspace, explicitly: inside a line it removes just the character before
/// the cursor and the cursor moves back over it; at the start of a line the
/// line is appended to the one above and removed, the cursor at the seam; at
/// the start of the text nothing changes.
pub proof fn law_backspace_deletes(st: EditorState)
    requires
        st.wf(),
        st.on_boundary(),
    ensures
        st.column > 0 ==> {
            let d = st.backspaced();
            let k = char_index(st.line(), st.column as int);
            &&& d.row == st.row
            &&& d.lines.len() == st.lines.len()
            &&& forall|i: int| 0 <= i < st.lines.len() && i != st.row ==> #[trigger] d.lines[i] == st.lines[i]
            &&& k >= 1
            &&& d.line() == st.line().take(k - 1) + st.line().skip(k)
            &&& d.column == byte_len(st.line().take(k - 1))
        },
        st.column == 0 && st.row > 0 ==> {
            let d = st.backspaced();
            let r = st.row as int;
            &&& d.lines.len() + 1 == st.lines.len()
            &&& d.row + 1 == st.row
            &&& d.line() == st.lines[r - 1] + st.lines[r]
            &&& d.column == byte_len(st.lines[r - 1])
            &&& forall|i: int| 0 <= i < r - 1 ==> #[trigger] d.lines[i] == st.lines[i]
            &&& forall|i: int| r <= i < d.lines.len() ==> #[trigger] d.lines[i] == st.lines[i + 1]
        },
        st.column == 0 && st.row == 0 ==> st.backspaced() == st,
{
    lemma_index_bytes(st);
    let line = st.line();
    let k = st.index();
    if st.column > 0 {
        if k == 0 {
            assert(line.take(0) =~= Seq::<char>::empty());
        }
        lemma_byte_len_take_step(line, k - 1);
        assert(line.remove(k - 1) =~= line.take(k - 1) + line.skip(k));
    }
}

/// Backspace in the phone, incident or call-type field removes that field's
/// last character (nothing when it is empty) and touches nothing else.
pub proof fn law_field_backspace(st: AppState, control: bool, now: Seq<char>)
    requires
        st.inv(),
        st.field != Field::Notes,
    ensures
        ({
            let after = st.after_key(KeyPress { key: Key::Backspace, control }, now).0;
            let cur = st.current();
            let new = after.calls[st.selected as int];
            &&& after.editor == st.editor
            &&& after.selected == st.selected
            &&& after.calls.len() == st.calls.len()
            &&& st.field == Field::Phone ==> new == CallState {
                phone: if cur.phone.len() > 0 { cur.phone.take(cur.phone.len() - 1) } else { cur.phone },
                ..cur
            }
            &&& st.field == Field::Inc ==> new == CallState {
                inc: if cur.inc.len() > 0 { cur.inc.take(cur.inc.len() - 1) } else { cur.inc },
                ..cur
            }
            &&& st.field == Field::CallType ==> new == CallState {
                call_type: if cur.call_type.len() > 0 {
                    cur.call_type.take(cur.call_type.len() - 1)
                } else {
                    cur.call_type
                },
                ..cur
            }
        }),
{
    assert(st.synced() == st) by {
        assert(st.synced().calls =~= st.calls);
    }
    let cur = st.current();
    assert(cur.phone.drop_last() =~= cur.phone.take(cur.phone.len() - 1));
    assert(cur.inc.drop_last() =~= cur.inc.take(cur.inc.len() - 1));
    assert(cur.call_type.drop_last() =~= cur.call_type.take(cur.call_type.len() - 1));
}

/// Page Down adds eight to the scroll offset and Page Up takes eight off,
/// stopping at the ends of the `u16` range; nothing else changes.
pub proof fn law_page_keys_scroll(st: AppState, now: Seq<char>)
    requires
        st.inv(),
    ensures
        ({
            let down = st.after_key(KeyPress { key: Key::PageDown, control: false }, now).0;
            &&& down.scroll == if st.scroll + 8 <= u16::MAX { st.scroll + 8 } else { u16::MAX as int }
            &&& down == AppState { scroll: down.scroll, ..st }
        }),
        ({
            let up = st.after_key(KeyPress { key: Key::PageUp, control: false }, now).0;
            &&& up.scroll == if st.scroll >= 8 { st.scroll - 8 } else { 0 }
            &&& up == AppState { scroll: up.scroll, ..st }
        }),
{
    assert(st.synced().calls =~= st.calls);
}

/// The status line after a store: "Saved" on success, "Save failed: "
/// followed by the error otherwise, when the key asked for a report; a quiet
/// store (F2) leaves the status alone. Nothing but the status changes.
pub proof fn law_save_report(st: AppState, report: bool, outcome: Result<(), Seq<char>>)
    ensures
        ({
            let after = st.save_recorded(Effect::Save { report }, outcome);
            &&& after == AppState { status: after.status, ..st }
            &&& !report ==> after.status == st.status
            &&& report && outcome is Ok ==> after.status == "Saved"@
            &&& report && outcome is Err ==> after.status.take(13) == "Save failed: "@
                && after.status.skip(13) == outcome->Err_0
        }),
        st.save_recorded(Effect::Nothing, outcome) == st,
{
    reveal_strlit("Save failed: ");
    if let Err(e) = outcome {
        assert(("Save failed: "@ + e).take(13) =~= "Save failed: "@);
        assert(("Save failed: "@ + e).skip(13) =~= e);
    }
}

/// A call started at `stamp` has no id, no finish stamp, `stamp` as its
/// start, and nothing typed in any field.
pub proof fn law_started_is_blank(stamp: Seq<char>)
    ensures
        CallState::started(stamp).id is None,
        CallState::started(stamp).finished_at is None,
        CallState::started(stamp).started_at == stamp,
        CallState::started(stamp).phone.len() == 0,
        CallState::started(stamp).inc.len() == 0,
        CallState::started(stamp).call_type.len() == 0,
        CallState::started(stamp).notes.len() == 0,
{
}

/// The cards are stacked top to bottom with one blank row between each card
/// and the next, and a card is drawn exactly when some of its rows lie in
/// the viewport.
pub proof fn law_cards_stack(st: AppState, area_y: u16, area_height: u16, i: nat)
    requires
        i + 1 < st.calls.len(),
        area_height > 0,
    ensures
        st.card_top(area_y, i + 1) == st.card_top(area_y, i) + crate::layout::card_height(
            st.calls[i as int],
        ) + 1,
        st.card_top(area_y, 0) == area_y - st.scroll,
        crate::layout::card_height(st.calls[i as int]) >= 7,
        ({
            let top = st.card_top(area_y, i);
            let bottom = top + crate::layout::card_height(st.calls[i as int]);
            let first = if top >= area_y { top } else { area_y as int };
            let last = if bottom <= area_y + area_height { bottom } else { area_y + area_height };
            st.card_visible(area_y, area_height, i) <==> first < last
        }),
{
}

/// Typing a snippet outside the notes appends it to the field being typed in.
proof fn lemma_typed_all_field(st: AppState, text: Seq<char>)
    requires
        st.selected < st.calls.len(),
        st.field != Field::Notes,
    ensures
        st.typed_all(text).selected == st.selected,
        st.typed_all(text).field == st.field,
        st.typed_all(text).editor == st.editor,
        st.field == Field::Phone ==> st.typed_all(text).current() == (CallState {
            phone: st.current().phone + text,
            ..st.current()
        }),
        st.field == Field::Inc ==> st.typed_all(text).current() == (CallState {
            inc: st.current().inc + text,
            ..st.current()
        }),
        st.field == Field::CallType ==> st.typed_all(text).current() == (CallState {
            call_type: st.current().call_type + text,
            ..st.current()
        }),
    decreases text.len(),
{
    lemma_typed_all_calls(st, text);
    if text.len() == 0 {
        assert(st.current().phone + text =~= st.current().phone);
        assert(st.current().inc + text =~= st.current().inc);
        assert(st.current().call_type + text =~= st.current().call_type);
    } else {
        lemma_typed_all_field(st, text.drop_last());
        lemma_typed_all_calls(st, text.drop_last());
        assert(st.current().phone + text =~= (st.current().phone + text.drop_last()).push(text.last()));
        assert(st.current().inc + text =~= (st.current().inc + text.drop_last()).push(text.last()));
        assert(st.current().call_type + text =~= (st.current().call_type + text.drop_last()).push(
            text.last(),
        ));
    }
}

/// Ctrl+1, Ctrl+2 and Ctrl+3 type "BMC Engineer", "Coforge" and "INC-": in
/// the phone, incident or call-type field the snippet is appended to it.
pub proof fn law_snippets(st: AppState, now: Seq<char>)
    requires
        st.inv(),
        st.field == Field::Inc,
    ensures
        st.after_key(KeyPress { key: Key::Char('1'), control: true }, now).0.current().inc
            == st.current().inc + "BMC Engineer"@,
        st.after_key(KeyPress { key: Key::Char('2'), control: true }, now).0.current().inc
            == st.current().inc + "Coforge"@,
        st.after_key(KeyPress { key: Key::Char('3'), control: true }, now).0.current().inc
            == st.current().inc + "INC-"@,
{
    lemma_typed_all_field(st, "BMC Engineer"@);
    lemma_typed_all_field(st, "Coforge"@);
    lemma_typed_all_field(st, "INC-"@);
    lemma_typed_all_calls(st, "BMC Engineer"@);
    lemma_typed_all_calls(st, "Coforge"@);
    lemma_typed_all_calls(st, "INC-"@);
}

} // verus!
