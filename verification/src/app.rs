//! The call log's state machine: which call is selected, which of its fields
//! takes typing, and what each key press does.
use vstd::prelude::*;
use crate::calls::{is_stamp, Call, CallState};
use crate::editor::{
    lemma_backspaced_text_len, lemma_broken_text_len, lemma_inserted_text_len, EditorState,
    TextEditor,
};
use crate::text::{
    byte_len, lemma_byte_len_take_step, lemma_join_bounds, lemma_join_split, lemma_zero_boundary,
    max_bytes, pop_char, push_char, width,
};
use crate::theme::Theme;

verus! {

/// The field of the selected call that typing goes to.
#[derive(Debug, Clone, Copy, PartialEq, Eq, Structural)]
pub enum Field {
    Phone,
    Inc,
    CallType,
    Notes,
}

impl Field {
    /// The next field in the order Phone, Inc, CallType, Notes (cyclically),
    /// or the previous one when `reverse`.
    pub open spec fn after(self, reverse: bool) -> Field {
        match (self, reverse) {
            (Field::Phone, false) => Field::Inc,
            (Field::Inc, false) => Field::CallType,
            (Field::CallType, false) => Field::Notes,
            (Field::Notes, false) => Field::Phone,
            (Field::Phone, true) => Field::Notes,
            (Field::Inc, true) => Field::Phone,
            (Field::CallType, true) => Field::Inc,
            (Field::Notes, true) => Field::CallType,
        }
    }
}

/// A key, as far as the call log tells keys apart.
#[derive(Debug, Clone, Copy, PartialEq, Eq, Structural)]
pub enum Key {
    Char(char),
    F(u8),
    Tab,
    BackTab,
    PageUp,
    PageDown,
    Up,
    Down,
    Left,
    Right,
    Home,
    End,
    Enter,
    Backspace,
    Other,
}

/// A key press: the key, and whether Control was held.
#[derive(Debug, Clone, Copy, PartialEq, Eq, Structural)]
pub struct KeyPress {
    pub key: Key,
    pub control: bool,
}

/// What the caller has to do after a key press.
#[derive(Debug, Clone, Copy, PartialEq, Eq, Structural)]
pub enum Effect {
    /// Nothing more.
    Nothing,
    /// Store the selected call, then hand the outcome to `App::record_save`;
    /// `report` tells whether the outcome shows in the status line.
    Save { report: bool },
}

/// What the App holds, as plain values (the theme aside).
pub struct AppState {
    pub calls: Seq<CallState>,
    pub selected: nat,
    pub field: Field,
    pub editor: EditorState,
    pub scroll: u16,
    pub status: Seq<char>,
    pub should_quit: bool,
}

/// The last character of `s` removed, if it has one.
pub open spec fn without_last(s: Seq<char>) -> Seq<char> {
    if s.len() > 0 {
        s.drop_last()
    } else {
        s
    }
}

impl AppState {
    /// The selected call.
    pub open spec fn current(self) -> CallState {
        self.calls[self.selected as int]
    }

    /// The selected call replaced by `c`.
    pub open spec fn with_current(self, c: CallState) -> AppState {
        AppState { calls: self.calls.update(self.selected as int, c), ..self }
    }

    /// The selected call's notes set to the editor's text.
    pub open spec fn synced(self) -> AppState {
        self.with_current(CallState { notes: self.editor.text(), ..self.current() })
    }

    /// The shape that holds while a key is being handled: there is a call,
    /// one is selected, the editor is well formed with its cursor at a
    /// character boundary, and every text fits in a `String`.
    pub open spec fn editing(self) -> bool {
        &&& self.calls.len() >= 1
        &&& self.selected < self.calls.len()
        &&& self.editor.wf()
        &&& self.editor.on_boundary()
        &&& byte_len(self.editor.text()) <= max_bytes()
        &&& forall|i: int|
            0 <= i < self.calls.len() && i != self.selected ==> byte_len(
                #[trigger] self.calls[i].notes,
            ) <= max_bytes()
        &&& forall|i: int| 0 <= i < self.calls.len() ==> (#[trigger] self.calls[i]).fields_fit()
    }

    /// The App's invariant: the editing shape, with the editor holding
    /// exactly the selected call's notes.
    pub open spec fn inv(self) -> bool {
        &&& self.editing()
        &&& self.current().notes == self.editor.text()
    }

    /// The text of the field that typing goes to.
    pub open spec fn field_text(self) -> Seq<char> {
        match self.field {
            Field::Notes => self.editor.text(),
            Field::Phone => self.current().phone,
            Field::Inc => self.current().inc,
            Field::CallType => self.current().call_type,
        }
    }

    /// Room for one key's worth of typing (at most a 12-character snippet of
    /// 4-byte characters) in the editor and in the selected call's fields.
    pub open spec fn has_room(self) -> bool {
        &&& byte_len(self.editor.text()) + 64 <= max_bytes()
        &&& byte_len(self.current().phone) + 64 <= max_bytes()
        &&& byte_len(self.current().inc) + 64 <= max_bytes()
        &&& byte_len(self.current().call_type) + 64 <= max_bytes()
    }

    /// Call `index` selected (clamped to the last call) after syncing, its
    /// notes opened in a fresh editor, typing going to the notes.
    pub open spec fn selecting(self, index: int) -> AppState {
        let s = self.synced();
        let last = s.calls.len() - 1;
        let sel = if index <= last {
            index
        } else {
            last
        };
        AppState {
            selected: sel as nat,
            editor: EditorState::fresh(s.calls[sel].notes),
            field: Field::Notes,
            ..s
        }
    }

    /// Typing moved to the next (or, when `reverse`, previous) field after
    /// syncing; the editor reopens the selected call's notes.
    pub open spec fn field_moved(self, reverse: bool) -> AppState {
        let s = self.synced();
        AppState {
            field: s.field.after(reverse),
            editor: EditorState::fresh(s.current().notes),
            ..s
        }
    }

    /// `c` typed into the field that typing goes to.
    pub open spec fn char_typed(self, c: char) -> AppState {
        let cur = self.current();
        match self.field {
            Field::Notes => AppState { editor: self.editor.inserted(c), ..self },
            Field::Phone => self.with_current(CallState { phone: cur.phone.push(c), ..cur }),
            Field::Inc => self.with_current(CallState { inc: cur.inc.push(c), ..cur }),
            Field::CallType => self.with_current(
                CallState { call_type: cur.call_type.push(c), ..cur },
            ),
        }
    }

    /// The characters of `text` typed one after another.
    pub open spec fn typed_all(self, text: Seq<char>) -> AppState
        decreases text.len(),
    {
        if text.len() == 0 {
            self
        } else {
            self.typed_all(text.drop_last()).char_typed(text.last())
        }
    }

    /// The editor replaced by `edited` when typing goes to the notes; the App
    /// unchanged otherwise.
    pub open spec fn in_notes(self, edited: EditorState) -> AppState {
        if self.field == Field::Notes {
            AppState { editor: edited, ..self }
        } else {
            self
        }
    }

    /// A key press without Control (or one with Control that has no binding
    /// of its own), before the closing sync, and what the caller has to do.
    pub open spec fn after_plain_key(self, key: Key, now: Seq<char>) -> (AppState, Effect) {
        let notes = self.field == Field::Notes;
        match key {
            Key::F(n) => if n == 2 {
                let s = self.synced();
                (
                    AppState {
                        status: "Call finished and saved"@,
                        ..s.with_current(s.current().finished(now))
                    },
                    Effect::Save { report: false },
                )
            } else {
                (self, Effect::Nothing)
            },
            Key::Tab => (self.field_moved(false), Effect::Nothing),
            Key::BackTab => (self.field_moved(true), Effect::Nothing),
            Key::PageUp => (
                AppState { scroll: self.scroll.saturating_sub(8), ..self },
                Effect::Nothing,
            ),
            Key::PageDown => (
                AppState { scroll: self.scroll.saturating_add(8), ..self },
                Effect::Nothing,
            ),
            Key::Left => (self.in_notes(self.editor.moved_left()), Effect::Nothing),
            Key::Right => (self.in_notes(self.editor.moved_right()), Effect::Nothing),
            Key::Home => (self.in_notes(self.editor.at_home()), Effect::Nothing),
            Key::End => (self.in_notes(self.editor.at_end()), Effect::Nothing),
            Key::Enter => (self.in_notes(self.editor.broken()), Effect::Nothing),
            Key::Backspace => (
                if notes {
                    self.in_notes(self.editor.backspaced())
                } else {
                    self.char_removed()
                },
                Effect::Nothing,
            ),
            Key::Char(c) => (self.char_typed(c), Effect::Nothing),
            Key::Up | Key::Down | Key::Other => (self, Effect::Nothing),
        }
    }

    /// The App after a key press, and what the caller has to do; `now` is
    /// the local time stamp that a new or finished call gets.
    pub open spec fn after_key(self, press: KeyPress, now: Seq<char>) -> (AppState, Effect) {
        let k = press.key;
        if press.control && k == Key::Char('q') {
            (AppState { should_quit: true, ..self.synced() }, Effect::Save { report: true })
        } else if press.control && k == Key::Char('s') {
            (self.synced(), Effect::Save { report: true })
        } else if press.control && k == Key::Char('n') {
            let s = self.synced();
            (
                AppState {
                    calls: s.calls.insert(0, CallState::started(now)),
                    selected: 0,
                    field: Field::Notes,
                    editor: EditorState::fresh(Seq::empty()),
                    status: "New call started"@,
                    ..s
                },
                Effect::Nothing,
            )
        } else if press.control && k == Key::Char('1') {
            (self.typed_all("BMC Engineer"@).synced(), Effect::Nothing)
        } else if press.control && k == Key::Char('2') {
            (self.typed_all("Coforge"@).synced(), Effect::Nothing)
        } else if press.control && k == Key::Char('3') {
            (self.typed_all("INC-"@).synced(), Effect::Nothing)
        } else if k == Key::Up {
            let above = if self.selected > 0 {
                self.selected - 1
            } else {
                0int
            };
            (self.selecting(above), Effect::Nothing)
        } else if k == Key::Down {
            (self.selecting(self.selected + 1 as int), Effect::Nothing)
        } else {
            let (s, e) = self.after_plain_key(k, now);
            (s.synced(), e)
        }
    }

    /// The App as it opens over `calls`: the first call selected, its notes
    /// in a fresh editor, typing going to the notes, status "Ready".
    pub open spec fn opened(calls: Seq<CallState>) -> AppState {
        AppState {
            calls,
            selected: 0,
            field: Field::Notes,
            editor: EditorState::fresh(calls[0].notes),
            scroll: 0,
            status: "Ready"@,
            should_quit: false,
        }
    }

    /// The status line after a save, when `effect` asks for it to be reported.
    pub open spec fn save_recorded(
        self,
        effect: Effect,
        outcome: Result<(), Seq<char>>,
    ) -> AppState {
        if effect == (Effect::Save { report: true }) {
            AppState {
                status: match outcome {
                    Ok(_) => "Saved"@,
                    Err(e) => "Save failed: "@ + e,
                },
                ..self
            }
        } else {
            self
        }
    }

    /// The last character of the phone, incident or call-type field removed;
    /// nothing happens in the notes field.
    pub open spec fn char_removed(self) -> AppState {
        let cur = self.current();
        match self.field {
            Field::Notes => self,
            Field::Phone => self.with_current(CallState { phone: without_last(cur.phone), ..cur }),
            Field::Inc => self.with_current(CallState { inc: without_last(cur.inc), ..cur }),
            Field::CallType => self.with_current(
                CallState { call_type: without_last(cur.call_type), ..cur },
            ),
        }
    }
}

/// The call log with its editor and status line.
pub struct App {
    pub calls: Vec<Call>,
    pub selected: usize,
    pub field: Field,
    pub editor: TextEditor,
    pub scroll: u16,
    pub status: String,
    pub should_quit: bool,
    pub theme: Theme,
}

/// The views of a sequence of calls.
pub open spec fn call_views(calls: Seq<Call>) -> Seq<CallState> {
    calls.map_values(|c: Call| c@)
}

impl View for App {
    type V = AppState;

    open spec fn view(&self) -> AppState {
        AppState {
            calls: call_views(self.calls@),
            selected: self.selected as nat,
            field: self.field,
            editor: self.editor@,
            scroll: self.scroll,
            status: self.status@,
            should_quit: self.should_quit,
        }
    }
}

/// The view of a save outcome.
pub open spec fn outcome_view(outcome: Result<(), String>) -> Result<(), Seq<char>> {
    match outcome {
        Ok(_) => Ok(()),
        Err(e) => Err(e@),
    }
}

impl App {
    /// The App over the calls loaded from storage (`None` when loading
    /// failed): with no call at all, it starts a new one at the local time.
    pub fn new(loaded: Option<Vec<Call>>) -> (app: App)
        requires
            loaded matches Some(v) ==> forall|i: int|
                0 <= i < v@.len() ==> byte_len((#[trigger] v@[i])@.notes) <= max_bytes()
                    && v@[i]@.fields_fit(),
        ensures
            loaded matches Some(v) ==> (v@.len() > 0 ==> app@ == AppState::opened(call_views(v@))),
            (loaded is None || loaded->0@.len() == 0) ==> app@ == AppState::opened(
                seq![CallState::started(app@.calls[0].started_at)],
            ),
            (loaded is None || loaded->0@.len() == 0) ==> is_stamp(app@.calls[0].started_at),
            app@.inv(),
            app.theme == Theme::dark(),
    {
        let mut calls = match loaded {
            Some(v) => v,
            None => Vec::new(),
        };
        if calls.len() == 0 {
            calls.push(Call::new());
            assert(call_views(calls@) =~= seq![CallState::started(calls@[0]@.started_at)]);
        }
        assert(byte_len(calls@[0]@.notes) <= max_bytes()) by {
            if calls@[0]@.notes.len() == 0 {
                assert(calls@[0]@.notes =~= Seq::<char>::empty());
            }
        }
        let editor = TextEditor::new(calls[0].notes.as_str());
        proof {
            lemma_join_split(calls@[0]@.notes);
            lemma_zero_boundary(editor@.line());
        }
        let app = App {
            calls,
            selected: 0,
            field: Field::Notes,
            editor,
            scroll: 0,
            status: "Ready".to_owned(),
            should_quit: false,
            theme: Theme::default(),
        };
        assert(app@.calls =~= call_views(app.calls@));
        app
    }

    /// Handles a key press and returns what the caller has to do next. A
    /// call that the press starts (Ctrl+N) or finishes (F2) gets the local
    /// time, read only then.
    pub fn handle_key(&mut self, press: KeyPress) -> (effect: Effect)
        requires
            old(self)@.inv(),
            old(self)@.has_room(),
        ensures
            exists|now: Seq<char>| (final(self)@, effect) == old(self)@.after_key(press, now),
            press.control && press.key == Key::Char('n') ==> is_stamp(
                final(self)@.calls[0].started_at,
            ),
            press.key == Key::F(2) && old(self)@.current().finished_at is None ==> is_stamp(
                final(self)@.current().finished_at->0,
            ),
            press.key == Key::F(2) ==> final(self)@.current().finished_at is Some,
            final(self)@.inv(),
            final(self).theme == old(self).theme,
    {
        let starts = press.control && press.key == Key::Char('n');
        let finishes = press.key == Key::F(2) && self.calls[self.selected].finished_at.is_none();
        let now = if starts || finishes {
            crate::calls::local_now(crate::calls::STAMP_FORMAT)
        } else {
            String::new()
        };
        let ghost stamp = now@;
        let ghost before = self@;
        let effect = self.handle_key_at(press, now);
        assert((self@, effect) == before.after_key(press, stamp));
        effect
    }

    /// Shows the outcome of a save in the status line when `effect` asks for
    /// it: "Saved", or "Save failed: " and the error.
    pub fn record_save(&mut self, effect: Effect, outcome: Result<(), String>)
        ensures
            final(self)@ == old(self)@.save_recorded(effect, outcome_view(outcome)),
            final(self).theme == old(self).theme,
    {
        match effect {
            Effect::Save { report } => {
                if report {
                    match outcome {
                        Ok(()) => {
                            self.status = "Saved".to_owned();
                        },
                        Err(e) => {
                            let mut status = "Save failed: ".to_owned();
                            status.append(e.as_str());
                            self.status = status;
                        },
                    }
                }
            },
            Effect::Nothing => {},
        }
    }

    /// Whether `handle_key` can take a key press: there is room for the
    /// typing that one key press may do.
    pub fn has_room(&self) -> (ok: bool)
        requires
            self@.inv(),
        ensures
            ok == self@.has_room(),
    {
        let ghost st = self@;
        let call = &self.calls[self.selected];
        proof {
            assert(st.current().fields_fit());
            crate::text::lemma_byte_len_is_utf8_len(st.current().notes);
            crate::text::lemma_byte_len_is_utf8_len(st.current().phone);
            crate::text::lemma_byte_len_is_utf8_len(st.current().inc);
            crate::text::lemma_byte_len_is_utf8_len(st.current().call_type);
        }
        let limit: usize = (isize::MAX as usize) / 2 - 64;
        call.notes.as_str().len() <= limit && call.phone.as_str().len() <= limit
            && call.inc.as_str().len() <= limit && call.call_type.as_str().len() <= limit
    }

    /// Replaces call `i` with `c` and returns the call that was there.
    fn swap_call(&mut self, i: usize, c: Call) -> (old_call: Call)
        requires
            i < old(self).calls@.len(),
        ensures
            old_call == old(self).calls@[i as int],
            final(self).calls@ == old(self).calls@.update(i as int, c),
            final(self).selected == old(self).selected,
            final(self).field == old(self).field,
            final(self).editor == old(self).editor,
            final(self).scroll == old(self).scroll,
            final(self).status == old(self).status,
            final(self).should_quit == old(self).should_quit,
            final(self).theme == old(self).theme,
    {
        let mut slot = c;
        self.calls.set_and_swap(i, &mut slot);
        slot
    }

    /// Writes the editor's text into the selected call's notes.
    fn sync_editor(&mut self)
        requires
            old(self)@.editing(),
        ensures
            final(self)@ == old(self)@.synced(),
            final(self)@.inv(),
            final(self).theme == old(self).theme,
    {
        let text = self.editor.text();
        let i = self.selected;
        let mut call = self.swap_call(i, Call::starting(String::new()));
        call.notes = text;
        let _ = self.swap_call(i, call);
        assert(self@.calls =~= old(self)@.synced().calls);
    }

    /// Opens call `self.selected`'s notes in a fresh editor.
    fn reopen_editor(&mut self)
        requires
            old(self)@.calls.len() >= 1,
            old(self)@.selected < old(self)@.calls.len(),
            forall|i: int|
                0 <= i < old(self)@.calls.len() ==> byte_len(#[trigger] old(self)@.calls[i].notes)
                    <= max_bytes(),
            forall|i: int|
                0 <= i < old(self)@.calls.len() ==> (#[trigger] old(self)@.calls[i]).fields_fit(),
        ensures
            final(self)@ == (AppState {
                editor: EditorState::fresh(old(self)@.current().notes),
                ..old(self)@
            }),
            final(self)@.inv(),
            final(self).theme == old(self).theme,
    {
        let ghost notes = self@.current().notes;
        assert(byte_len(notes) <= max_bytes());
        self.editor = TextEditor::new(self.calls[self.selected].notes.as_str());
        proof {
            lemma_join_split(notes);
            lemma_zero_boundary(self@.editor.line());
        }
    }

    /// Selects call `index`, or the last call when there is no such call,
    /// after saving the editor's text into the selected call.
    fn select(&mut self, index: usize)
        requires
            old(self)@.editing(),
        ensures
            final(self)@ == old(self)@.selecting(index as int),
            final(self)@.inv(),
            final(self).theme == old(self).theme,
    {
        self.sync_editor();
        let last = self.calls.len() - 1;
        self.selected = if index <= last {
            index
        } else {
            last
        };
        self.field = Field::Notes;
        self.reopen_editor();
    }

    /// Moves typing to the next field, or the previous one when `reverse`.
    fn next_field(&mut self, reverse: bool)
        requires
            old(self)@.editing(),
        ensures
            final(self)@ == old(self)@.field_moved(reverse),
            final(self)@.inv(),
            final(self).theme == old(self).theme,
    {
        self.sync_editor();
        self.field = match (self.field, reverse) {
            (Field::Phone, false) => Field::Inc,
            (Field::Inc, false) => Field::CallType,
            (Field::CallType, false) => Field::Notes,
            (Field::Notes, false) => Field::Phone,
            (Field::Phone, true) => Field::Notes,
            (Field::Inc, true) => Field::Phone,
            (Field::CallType, true) => Field::Inc,
            (Field::Notes, true) => Field::CallType,
        };
        self.reopen_editor();
    }

    /// Types `character` into the field that typing goes to.
    fn insert_char(&mut self, character: char)
        requires
            old(self)@.editing(),
            old(self)@.field == Field::Notes ==> old(self)@.editor.on_boundary(),
            byte_len(old(self)@.field_text()) + width(character) <= max_bytes(),
        ensures
            final(self)@ == old(self)@.char_typed(character),
            final(self)@.editing(),
            final(self)@.field == old(self)@.field,
            final(self)@.field == Field::Notes ==> final(self)@.editor.on_boundary(),
            byte_len(final(self)@.field_text()) == byte_len(old(self)@.field_text()) + width(
                character,
            ),
            final(self).theme == old(self).theme,
    {
        let ghost st = self@;
        let i = self.selected;
        match self.field {
            Field::Notes => {
                proof {
                    lemma_join_bounds(st.editor.lines, st.editor.row as int);
                    lemma_inserted_text_len(st.editor, character);
                }
                self.editor.insert(character);
            },
            Field::Phone => {
                let mut call = self.swap_call(i, Call::starting(String::new()));
                push_char(&mut call.phone, character);
                let _ = self.swap_call(i, call);
                proof {
                    assert(st.current().phone.push(character).drop_last() =~= st.current().phone);
                }
                assert(self@.calls =~= st.char_typed(character).calls);
            },
            Field::Inc => {
                let mut call = self.swap_call(i, Call::starting(String::new()));
                push_char(&mut call.inc, character);
                let _ = self.swap_call(i, call);
                proof {
                    assert(st.current().inc.push(character).drop_last() =~= st.current().inc);
                }
                assert(self@.calls =~= st.char_typed(character).calls);
            },
            Field::CallType => {
                let mut call = self.swap_call(i, Call::starting(String::new()));
                push_char(&mut call.call_type, character);
                let _ = self.swap_call(i, call);
                proof {
                    assert(st.current().call_type.push(character).drop_last()
                        =~= st.current().call_type);
                }
                assert(self@.calls =~= st.char_typed(character).calls);
            },
        }
    }

    /// Removes the last character of the phone, incident or call-type field;
    /// does nothing in the notes field.
    fn remove_last_char(&mut self)
        requires
            old(self)@.editing(),
        ensures
            final(self)@ == old(self)@.char_removed(),
            final(self)@.editing(),
            final(self).theme == old(self).theme,
    {
        let ghost st = self@;
        let i = self.selected;
        match self.field {
            Field::Notes => {},
            Field::Phone => {
                let mut call = self.swap_call(i, Call::starting(String::new()));
                let _ = pop_char(&mut call.phone);
                let _ = self.swap_call(i, call);
                assert(self@.calls =~= st.char_removed().calls);
            },
            Field::Inc => {
                let mut call = self.swap_call(i, Call::starting(String::new()));
                let _ = pop_char(&mut call.inc);
                let _ = self.swap_call(i, call);
                assert(self@.calls =~= st.char_removed().calls);
            },
            Field::CallType => {
                let mut call = self.swap_call(i, Call::starting(String::new()));
                let _ = pop_char(&mut call.call_type);
                let _ = self.swap_call(i, call);
                assert(self@.calls =~= st.char_removed().calls);
            },
        }
    }

    /// Marks the selected call finished at `now`, unless it already is.
    fn finish_current(&mut self, now: String)
        requires
            old(self)@.inv(),
        ensures
            final(self)@ == old(self)@.with_current(old(self)@.current().finished(now@)),
            final(self)@.inv(),
            final(self).theme == old(self).theme,
    {
        let i = self.selected;
        let mut call = self.swap_call(i, Call::starting(String::new()));
        call.finish_at(now);
        let _ = self.swap_call(i, call);
        assert(self@.calls =~= old(self)@.with_current(old(self)@.current().finished(now@)).calls);
    }

    /// Handles a key press with `now` as the time stamp for a call that the
    /// press starts (Ctrl+N) or finishes (F2), and returns what the caller
    /// has to do next.
    pub fn handle_key_at(&mut self, press: KeyPress, now: String) -> (effect: Effect)
        requires
            old(self)@.inv(),
            old(self)@.has_room(),
        ensures
            (final(self)@, effect) == old(self)@.after_key(press, now@),
            final(self)@.inv(),
            final(self).theme == old(self).theme,
    {
        let ghost st = self@;
        match press.key {
            Key::Up => {
                self.select(self.selected.saturating_sub(1));
                return Effect::Nothing;
            },
            Key::Down => {
                let last = self.calls.len() - 1;
                let next = if self.selected < last {
                    self.selected + 1
                } else {
                    last
                };
                self.select(next);
                return Effect::Nothing;
            },
            _ => {},
        }
        if press.control {
            match press.key {
                Key::Char(c) => {
                    if c == 'q' {
                        self.sync_editor();
                        self.should_quit = true;
                        return Effect::Save { report: true };
                    } else if c == 's' {
                        self.sync_editor();
                        return Effect::Save { report: true };
                    } else if c == 'n' {
                        self.sync_editor();
                        self.calls.insert(0, Call::starting(now));
                        self.selected = 0;
                        self.field = Field::Notes;
                        proof {
                            reveal_strlit("");
                            lemma_join_split(Seq::<char>::empty());
                        }
                        self.editor = TextEditor::new("");
                        proof {
                            lemma_zero_boundary(self@.editor.line());
                        }
                        self.status = "New call started".to_owned();
                        assert(self@.calls =~= st.after_key(press, now@).0.calls);
                        return Effect::Nothing;
                    } else if c == '1' {
                        proof {
                            reveal_strlit("BMC Engineer");
                            crate::text::lemma_byte_len_bound("BMC Engineer"@);
                        }
                        self.insert_macro("BMC Engineer");
                        return Effect::Nothing;
                    } else if c == '2' {
                        proof {
                            reveal_strlit("Coforge");
                            crate::text::lemma_byte_len_bound("Coforge"@);
                        }
                        self.insert_macro("Coforge");
                        return Effect::Nothing;
                    } else if c == '3' {
                        proof {
                            reveal_strlit("INC-");
                            crate::text::lemma_byte_len_bound("INC-"@);
                        }
                        self.insert_macro("INC-");
                        return Effect::Nothing;
                    }
                },
                _ => {},
            }
        }
        let ghost ed = self@.editor;
        let notes = self.field == Field::Notes;
        let effect = match press.key {
            Key::F(n) => {
                if n == 2 {
                    self.sync_editor();
                    self.finish_current(now);
                    self.status = "Call finished and saved".to_owned();
                    Effect::Save { report: false }
                } else {
                    Effect::Nothing
                }
            },
            Key::Tab => {
                self.next_field(false);
                Effect::Nothing
            },
            Key::BackTab => {
                self.next_field(true);
                Effect::Nothing
            },
            Key::PageUp => {
                self.scroll = self.scroll.saturating_sub(8);
                Effect::Nothing
            },
            Key::PageDown => {
                self.scroll = self.scroll.saturating_add(8);
                Effect::Nothing
            },
            Key::Left => {
                if notes {
                    self.editor.move_left();
                }
                Effect::Nothing
            },
            Key::Right => {
                if notes {
                    self.editor.move_right();
                }
                Effect::Nothing
            },
            Key::Home => {
                if notes {
                    self.editor.home();
                }
                Effect::Nothing
            },
            Key::End => {
                if notes {
                    self.editor.end();
                }
                Effect::Nothing
            },
            Key::Enter => {
                if notes {
                    proof {
                        lemma_broken_text_len(ed);
                    }
                    self.editor.newline();
                }
                Effect::Nothing
            },
            Key::Backspace => {
                if notes {
                    proof {
                        lemma_join_bounds(ed.lines, ed.row as int);
                        lemma_backspaced_text_len(ed);
                    }
                    self.editor.backspace();
                } else {
                    self.remove_last_char();
                }
                Effect::Nothing
            },
            Key::Char(c) => {
                self.insert_char(c);
                Effect::Nothing
            },
            Key::Up | Key::Down | Key::Other => Effect::Nothing,
        };
        self.sync_editor();
        effect
    }

    /// Types the characters of `snippet` into the field that typing goes to,
    /// then syncs the editor into the notes.
    fn insert_macro(&mut self, snippet: &str)
        requires
            old(self)@.editing(),
            old(self)@.field == Field::Notes ==> old(self)@.editor.on_boundary(),
            byte_len(old(self)@.field_text()) + byte_len(snippet@) <= max_bytes(),
        ensures
            final(self)@ == old(self)@.typed_all(snippet@).synced(),
            final(self)@.inv(),
            final(self).theme == old(self).theme,
    {
        broadcast use vstd::string::group_string_axioms;

        let ghost st = self@;
        assert(snippet@.take(0) =~= Seq::<char>::empty());
        for c in it: snippet.chars()
            invariant
                it.seq() == snippet@,
                self@ == st.typed_all(it.seq().take(it.index())),
                self@.editing(),
                self@.field == st.field,
                self@.field == Field::Notes ==> self@.editor.on_boundary(),
                byte_len(self@.field_text()) == byte_len(st.field_text()) + byte_len(
                    snippet@.take(it.index()),
                ),
                byte_len(st.field_text()) + byte_len(snippet@) <= max_bytes(),
                self.theme == old(self).theme,
        {
            let ghost i = it.index();
            proof {
                let pre = snippet@.take(i);
                let post = snippet@.take(i + 1);
                assert(post.drop_last() =~= pre);
                assert(post.last() == c);
                lemma_byte_len_take_step(snippet@, i);
                crate::text::lemma_byte_len_take_le(snippet@, i + 1);
            }
            self.insert_char(c);
        }
        assert(snippet@.take(snippet@.len() as int) =~= snippet@);
        self.sync_editor();
    }
}

} // verus!
