//! A multi-line text editor whose cursor is a line number and a byte offset.
use vstd::prelude::*;
use crate::text::{
    byte_len, char_index, char_index_of, char_width, chars_of, is_boundary, join_lines,
    lemma_byte_len_concat, lemma_byte_len_is_utf8_len, lemma_byte_len_single, lemma_byte_len_split,
    lemma_byte_len_take_le, lemma_byte_len_take_mono, lemma_byte_len_take_step,
    lemma_char_index_unique, lemma_end_boundary, lemma_join_break, lemma_join_update,
    lemma_zero_boundary, max_bytes, split_lines, string_of, views, width,
};

verus! {

/// What an editor holds: its lines, the cursor's line, and the cursor's byte
/// offset within that line.
pub struct EditorState {
    pub lines: Seq<Seq<char>>,
    pub row: nat,
    pub column: nat,
}

impl EditorState {
    /// The editor an initial text opens as: its lines, cursor at the start.
    pub open spec fn fresh(text: Seq<char>) -> EditorState {
        EditorState { lines: split_lines(text), row: 0, column: 0 }
    }

    /// There is a line, the cursor is on one, no further right than its end,
    /// and each line fits in a `String`.
    pub open spec fn wf(self) -> bool {
        &&& self.lines.len() >= 1
        &&& self.row < self.lines.len()
        &&& self.column <= byte_len(self.lines[self.row as int])
        &&& forall|i: int|
            0 <= i < self.lines.len() ==> byte_len(#[trigger] self.lines[i]) <= max_bytes()
    }

    /// The line the cursor is on.
    pub open spec fn line(self) -> Seq<char> {
        self.lines[self.row as int]
    }

    /// The cursor sits at the start of a character or at the end of its line.
    pub open spec fn on_boundary(self) -> bool {
        is_boundary(self.line(), self.column as int)
    }

    /// The number of characters of the cursor's line before the cursor.
    pub open spec fn index(self) -> int {
        char_index(self.line(), self.column as int)
    }

    /// The whole text: the lines joined by `'\n'`.
    pub open spec fn text(self) -> Seq<char> {
        join_lines(self.lines)
    }

    /// The cursor moved to the start of its line.
    pub open spec fn at_home(self) -> EditorState {
        EditorState { column: 0, ..self }
    }

    /// The cursor moved to the end of its line.
    pub open spec fn at_end(self) -> EditorState {
        EditorState { column: byte_len(self.line()), ..self }
    }

    /// The cursor moved one line up, its column clamped to that line's length.
    pub open spec fn moved_up(self) -> EditorState {
        if self.row > 0 {
            let len = byte_len(self.lines[self.row - 1]);
            EditorState {
                row: (self.row - 1) as nat,
                column: if self.column <= len { self.column } else { len },
                ..self
            }
        } else {
            self
        }
    }

    /// The cursor moved one line down, its column clamped to that line's length.
    pub open spec fn moved_down(self) -> EditorState {
        if self.row + 1 < self.lines.len() {
            let len = byte_len(self.lines[self.row + 1 as int]);
            EditorState {
                row: self.row + 1,
                column: if self.column <= len { self.column } else { len },
                ..self
            }
        } else {
            self
        }
    }

    /// The cursor moved one character left, or to the end of the line above
    /// when it is at the start of a line.
    pub open spec fn moved_left(self) -> EditorState {
        if self.column > 0 {
            EditorState {
                column: (self.column - width(self.line()[self.index() - 1])) as nat,
                ..self
            }
        } else if self.row > 0 {
            EditorState {
                row: (self.row - 1) as nat,
                column: byte_len(self.lines[self.row - 1]),
                ..self
            }
        } else {
            self
        }
    }

    /// The cursor moved one character right, or to the start of the line
    /// below when it is at the end of a line.
    pub open spec fn moved_right(self) -> EditorState {
        if self.column < byte_len(self.line()) {
            EditorState { column: self.column + width(self.line()[self.index()]), ..self }
        } else if self.row + 1 < self.lines.len() {
            EditorState { row: self.row + 1, column: 0, ..self }
        } else {
            self
        }
    }

    /// `c` typed at the cursor, which moves past it.
    pub open spec fn inserted(self, c: char) -> EditorState {
        EditorState {
            lines: self.lines.update(self.row as int, self.line().insert(self.index(), c)),
            column: self.column + width(c),
            ..self
        }
    }

    /// The cursor's line broken in two at the cursor; the cursor moves to the
    /// start of the new second half.
    pub open spec fn broken(self) -> EditorState {
        EditorState {
            lines: self.lines.update(self.row as int, self.line().take(self.index())).insert(
                self.row + 1 as int,
                self.line().skip(self.index()),
            ),
            row: self.row + 1,
            column: 0,
        }
    }

    /// The character before the cursor deleted; at the start of a line, the
    /// line joined onto the one above, with the cursor at the seam.
    pub open spec fn backspaced(self) -> EditorState {
        if self.column > 0 {
            let k = self.index();
            EditorState {
                lines: self.lines.update(self.row as int, self.line().remove(k - 1)),
                column: (self.column - width(self.line()[k - 1])) as nat,
                ..self
            }
        } else if self.row > 0 {
            let above = self.lines[self.row - 1];
            EditorState {
                lines: self.lines.update(self.row - 1, above + self.line()).remove(
                    self.row as int,
                ),
                row: (self.row - 1) as nat,
                column: byte_len(above),
            }
        } else {
            self
        }
    }
}

/// Typing a character lengthens the text by that character's width.
pub proof fn lemma_inserted_text_len(st: EditorState, c: char)
    requires
        st.wf(),
        st.on_boundary(),
    ensures
        byte_len(st.inserted(c).text()) == byte_len(st.text()) + width(c),
        byte_len(st.line()) + width(c) == byte_len(st.inserted(c).line()),
{
    let line = st.line();
    let k = st.index();
    let x = line.insert(k, c);
    assert(x =~= line.take(k) + seq![c] + line.skip(k));
    lemma_byte_len_concat(line.take(k) + seq![c], line.skip(k));
    lemma_byte_len_concat(line.take(k), seq![c]);
    lemma_byte_len_single(c);
    lemma_byte_len_split(line, k);
    lemma_join_update(st.lines, st.row as int, x);
}

/// Breaking a line lengthens the text by one byte, the new `'\n'`.
pub proof fn lemma_broken_text_len(st: EditorState)
    requires
        st.wf(),
        st.on_boundary(),
    ensures
        byte_len(st.broken().text()) == byte_len(st.text()) + 1,
{
    let line = st.line();
    let k = st.index();
    assert(line =~= line.take(k) + line.skip(k));
    lemma_join_break(st.lines, st.row as int, line.take(k), line.skip(k));
}

/// Deleting never lengthens the text.
pub proof fn lemma_backspaced_text_len(st: EditorState)
    requires
        st.wf(),
        st.on_boundary(),
    ensures
        byte_len(st.backspaced().text()) <= byte_len(st.text()),
{
    let line = st.line();
    if st.column > 0 {
        let k = st.index();
        if k == 0 {
            assert(line.take(0) =~= Seq::<char>::empty());
        }
        let x = line.remove(k - 1);
        assert(x =~= line.take(k - 1) + line.skip(k));
        lemma_byte_len_concat(line.take(k - 1), line.skip(k));
        lemma_byte_len_split(line, k);
        lemma_byte_len_take_step(line, k - 1);
        lemma_join_update(st.lines, st.row as int, x);
    } else if st.row > 0 {
        let above = st.lines[st.row - 1];
        let m = st.lines.update(st.row - 1, above + line).remove(st.row as int);
        assert(m.update(st.row - 1, above).insert(st.row as int, line) =~= st.lines);
        lemma_join_break(m, st.row - 1, above, line);
    }
}

/// A multi-line text editor. The cursor's column is a byte offset into the
/// UTF-8 encoding of its line.
#[derive(Debug, Clone)]
pub struct TextEditor {
    lines: Vec<String>,
    row: usize,
    column: usize,
}

impl View for TextEditor {
    type V = EditorState;

    closed spec fn view(&self) -> EditorState {
        EditorState {
            lines: views(self.lines@),
            row: self.row as nat,
            column: self.column as nat,
        }
    }
}

impl TextEditor {
    /// An editor over the lines of `text` (split at each `'\n'`), cursor at
    /// the start of the first line.
    pub fn new(text: &str) -> (editor: Self)
        requires
            byte_len(text@) <= max_bytes(),
        ensures
            editor@ == EditorState::fresh(text@),
            editor@.wf(),
    {
        broadcast use vstd::string::group_string_axioms;

        let mut lines: Vec<String> = Vec::new();
        let mut current: Vec<char> = Vec::new();
        assert(text@.take(0) =~= Seq::<char>::empty());
        assert(views(lines@).push(current@) =~= seq![Seq::<char>::empty()]);
        for c in it: text.chars()
            invariant
                it.seq() == text@,
                byte_len(text@) <= max_bytes(),
                views(lines@).push(current@) == split_lines(it.seq().take(it.index())),
                byte_len(current@) <= byte_len(it.seq().take(it.index())),
                forall|i: int|
                    0 <= i < lines@.len() ==> byte_len(#[trigger] lines@[i]@) <= max_bytes(),
        {
            let ghost i = it.index();
            let ghost pre = it.seq().take(i);
            let ghost post = it.seq().take(i + 1);
            proof {
                assert(post.drop_last() =~= pre);
                assert(post.last() == c);
                assert(it.seq()[i] == c);
                lemma_byte_len_take_step(it.seq(), i);
                lemma_byte_len_take_le(it.seq(), i + 1);
            }
            if c == '\n' {
                let line = string_of(&current);
                lines.push(line);
                current = Vec::new();
                assert(current@.len() == 0);
                assert(byte_len(current@) == 0);
                assert(views(lines@).push(current@) =~= split_lines(post));
            } else {
                let ghost before = current@;
                current.push(c);
                assert(current@.drop_last() =~= before);
                assert(byte_len(current@) == byte_len(current@.drop_last()) + width(c));
                assert(views(lines@).push(current@) =~= split_lines(post));
            }
        }
        assert(text@.take(text@.len() as int) =~= text@);
        let last = string_of(&current);
        lines.push(last);
        assert(views(lines@) =~= split_lines(text@));
        TextEditor { lines, row: 0, column: 0 }
    }

    /// The byte length of line `r`.
    fn line_len(&self, r: usize) -> (n: usize)
        requires
            self@.wf(),
            r < self@.lines.len(),
        ensures
            n == byte_len(self@.lines[r as int]),
    {
        proof {
            lemma_byte_len_is_utf8_len(self@.lines[r as int]);
            assert(self.lines@[r as int]@ == self@.lines[r as int]);
        }
        self.lines[r].as_str().len()
    }

    /// The lines joined with `'\n'` between consecutive lines.
    pub fn text(&self) -> (s: String)
        ensures
            s@ == self@.text(),
    {
        let mut s = String::new();
        let mut i: usize = 0;
        assert(views(self.lines@).take(0) =~= Seq::<Seq<char>>::empty());
        while i < self.lines.len()
            invariant
                i <= self.lines@.len(),
                s@ == join_lines(views(self.lines@).take(i as int)),
            decreases self.lines@.len() - i,
        {
            let ghost ls = views(self.lines@);
            let ghost pre = s@;
            if i > 0 {
                proof {
                    reveal_strlit("\n");
                }
                s.append("\n");
            }
            s.append(self.lines[i].as_str());
            proof {
                assert(ls.take(i + 1).drop_last() =~= ls.take(i as int));
                assert(ls.take(i + 1).last() == self.lines@[i as int]@);
                if i == 0 {
                    assert(s@ =~= ls.take(1)[0]);
                } else {
                    assert(s@ =~= join_lines(ls.take(i as int)) + seq!['\n'] + ls.take(
                        i + 1,
                    ).last());
                }
            }
            i = i + 1;
        }
        assert(views(self.lines@).take(self.lines@.len() as int) =~= views(self.lines@));
        s
    }

    /// The lines, in order.
    pub fn lines(&self) -> (lines: &[String])
        ensures
            views(lines@) == self@.lines,
    {
        self.lines.as_slice()
    }

    /// The cursor as (line, byte offset in that line).
    pub fn cursor(&self) -> (cursor: (usize, usize))
        ensures
            cursor.0 == self@.row,
            cursor.1 == self@.column,
    {
        (self.row, self.column)
    }

    /// Whether the cursor sits at the start of a character or at the end of
    /// its line (moving up or down can leave it inside a character).
    pub fn cursor_on_boundary(&self) -> (b: bool)
        requires
            self@.wf(),
        ensures
            b == self@.on_boundary(),
    {
        let ghost line = self@.line();
        let cs = self.current_chars();
        let mut i: usize = 0;
        let mut acc: usize = 0;
        assert(line.take(0) =~= Seq::<char>::empty());
        while i < cs.len() && acc < self.column
            invariant
                cs@ == line,
                self@.wf(),
                i <= cs@.len(),
                acc == byte_len(line.take(i as int)),
                forall|j: int| 0 <= j < i ==> byte_len(#[trigger] line.take(j)) < self.column,
            decreases cs@.len() - i,
        {
            proof {
                lemma_byte_len_take_step(line, i as int);
                lemma_byte_len_take_le(line, i + 1);
            }
            let w = char_width(cs[i]);
            acc = acc + w;
            i = i + 1;
        }
        proof {
            if acc != self.column {
                assert(line.take(line.len() as int) =~= line);
                assert forall|j: int| 0 <= j <= line.len() implies #[trigger] byte_len(line.take(j))
                    != self.column by {
                    if j > i {
                        lemma_byte_len_take_mono(line, i as int, j);
                    }
                    if i == line.len() && acc < self.column {
                        if j < i {
                            lemma_byte_len_take_mono(line, j, i as int);
                        }
                    }
                }
            }
        }
        acc == self.column
    }

    /// The characters of the cursor's line.
    fn current_chars(&self) -> (cs: Vec<char>)
        requires
            self@.wf(),
        ensures
            cs@ == self@.line(),
    {
        assert(self.lines@[self.row as int]@ == self@.line());
        chars_of(self.lines[self.row].as_str())
    }

    /// Replaces line `r` with the characters `cs`.
    fn set_line(&mut self, r: usize, cs: &Vec<char>)
        requires
            r < old(self)@.lines.len(),
            byte_len(cs@) <= max_bytes(),
        ensures
            final(self)@ == (EditorState {
                lines: old(self)@.lines.update(r as int, cs@),
                ..old(self)@
            }),
    {
        let line = string_of(cs);
        self.lines.set(r, line);
        assert(views(self.lines@) =~= views(old(self).lines@).update(r as int, cs@));
    }

    /// Types `character` at the cursor and moves the cursor past it.
    pub fn insert(&mut self, character: char)
        requires
            old(self)@.wf(),
            old(self)@.on_boundary(),
            byte_len(old(self)@.line()) + width(character) <= max_bytes(),
        ensures
            final(self)@ == old(self)@.inserted(character),
            final(self)@.wf(),
            final(self)@.on_boundary(),
    {
        let ghost old_line = self@.line();
        let mut cs = self.current_chars();
        let k = char_index_of(&cs, self.column);
        cs.insert(k, character);
        let w = char_width(character);
        proof {
            lemma_byte_len_split(old_line, k as int);
            assert(cs@ =~= old_line.take(k as int) + seq![character] + old_line.skip(k as int));
            lemma_byte_len_concat(
                old_line.take(k as int) + seq![character],
                old_line.skip(k as int),
            );
            lemma_byte_len_concat(old_line.take(k as int), seq![character]);
            lemma_byte_len_single(character);
            assert(cs@.take(k + 1) =~= old_line.take(k as int) + seq![character]);
            lemma_char_index_unique(cs@, k + 1);
        }
        self.set_line(self.row, &cs);
        self.column = self.column + w;
    }

    /// Breaks the cursor's line in two at the cursor and moves the cursor to
    /// the start of the second half.
    pub fn newline(&mut self)
        requires
            old(self)@.wf(),
            old(self)@.on_boundary(),
        ensures
            final(self)@ == old(self)@.broken(),
            final(self)@.wf(),
            final(self)@.on_boundary(),
    {
        let ghost old_line = self@.line();
        let mut head = self.current_chars();
        let k = char_index_of(&head, self.column);
        let rest = head.split_off(k);
        proof {
            lemma_byte_len_split(old_line, k as int);
        }
        let tail = string_of(&rest);
        self.set_line(self.row, &head);
        let n = self.lines.len();
        assert(views(self.lines@).len() == self.lines@.len());
        assert(self.row < n);
        self.lines.insert(self.row + 1, tail);
        self.row = self.row + 1;
        self.column = 0;
        proof {
            assert(views(self.lines@) =~= old(self)@.broken().lines);
            lemma_zero_boundary(self@.line());
        }
    }

    /// Deletes the character before the cursor; at the start of a line, joins
    /// the line onto the one above with the cursor at the seam.
    pub fn backspace(&mut self)
        requires
            old(self)@.wf(),
            old(self)@.on_boundary(),
            old(self)@.column == 0 && old(self)@.row > 0 ==> byte_len(
                old(self)@.lines[old(self)@.row - 1],
            ) + byte_len(old(self)@.line()) <= max_bytes(),
        ensures
            final(self)@ == old(self)@.backspaced(),
            final(self)@.wf(),
            final(self)@.on_boundary(),
    {
        let ghost old_line = self@.line();
        if self.column > 0 {
            let mut cs = self.current_chars();
            let k = char_index_of(&cs, self.column);
            proof {
                if k == 0 {
                    assert(old_line.take(0) =~= Seq::<char>::empty());
                }
                lemma_byte_len_take_step(old_line, k - 1);
            }
            let previous = cs.remove(k - 1);
            let w = char_width(previous);
            proof {
                assert(cs@ =~= old_line.take(k - 1) + old_line.skip(k as int));
                lemma_byte_len_concat(old_line.take(k - 1), old_line.skip(k as int));
                lemma_byte_len_split(old_line, k as int);
                assert(cs@.take(k - 1) =~= old_line.take(k - 1));
                lemma_char_index_unique(cs@, k - 1);
            }
            self.set_line(self.row, &cs);
            self.column = self.column - w;
        } else if self.row > 0 {
            let ghost above_line = self@.lines[self.row - 1];
            let len = self.line_len(self.row - 1);
            let current = self.lines.remove(self.row);
            self.row = self.row - 1;
            let mut above = self.lines[self.row].clone();
            above.append(current.as_str());
            self.lines.set(self.row, above);
            self.column = len;
            proof {
                assert(views(self.lines@) =~= old(self)@.backspaced().lines);
                lemma_byte_len_concat(above_line, old_line);
                lemma_byte_len_take_le(above_line + old_line, above_line.len() as int);
                assert((above_line + old_line).take(above_line.len() as int) =~= above_line);
                lemma_char_index_unique(above_line + old_line, above_line.len() as int);
            }
        }
    }

    /// Moves the cursor one character left, or to the end of the line above
    /// when it is at the start of a line.
    pub fn move_left(&mut self)
        requires
            old(self)@.wf(),
            old(self)@.on_boundary(),
        ensures
            final(self)@ == old(self)@.moved_left(),
            final(self)@.wf(),
            final(self)@.on_boundary(),
    {
        let ghost old_line = self@.line();
        if self.column > 0 {
            let cs = self.current_chars();
            let k = char_index_of(&cs, self.column);
            proof {
                if k == 0 {
                    assert(old_line.take(0) =~= Seq::<char>::empty());
                }
                lemma_byte_len_take_step(old_line, k - 1);
                lemma_char_index_unique(old_line, k - 1);
            }
            let w = char_width(cs[k - 1]);
            self.column = self.column - w;
        } else if self.row > 0 {
            let len = self.line_len(self.row - 1);
            self.row = self.row - 1;
            self.column = len;
            proof {
                lemma_end_boundary(self@.line());
            }
        }
    }

    /// Moves the cursor one character right, or to the start of the line
    /// below when it is at the end of a line.
    pub fn move_right(&mut self)
        requires
            old(self)@.wf(),
            old(self)@.on_boundary(),
        ensures
            final(self)@ == old(self)@.moved_right(),
            final(self)@.wf(),
            final(self)@.on_boundary(),
    {
        let ghost old_line = self@.line();
        let len = self.line_len(self.row);
        if self.column < len {
            let cs = self.current_chars();
            let k = char_index_of(&cs, self.column);
            proof {
                if k == old_line.len() {
                    assert(old_line.take(k as int) =~= old_line);
                }
                lemma_byte_len_take_step(old_line, k as int);
                lemma_byte_len_take_le(old_line, k + 1);
                lemma_char_index_unique(old_line, k + 1);
            }
            let w = char_width(cs[k]);
            self.column = self.column + w;
        } else if self.row < self.lines.len() - 1 {
            self.row = self.row + 1;
            self.column = 0;
            proof {
                lemma_zero_boundary(self@.line());
            }
        }
    }

    /// Moves the cursor to the start of its line.
    pub fn home(&mut self)
        ensures
            final(self)@ == old(self)@.at_home(),
            old(self)@.wf() ==> final(self)@.wf() && final(self)@.on_boundary(),
    {
        self.column = 0;
        proof {
            lemma_zero_boundary(self@.line());
        }
    }

    /// Moves the cursor to the end of its line.
    pub fn end(&mut self)
        requires
            old(self)@.wf(),
        ensures
            final(self)@ == old(self)@.at_end(),
            final(self)@.wf(),
            final(self)@.on_boundary(),
    {
        self.column = self.line_len(self.row);
        proof {
            lemma_end_boundary(self@.line());
        }
    }

    /// Moves the cursor one line up, keeping its byte column where that line
    /// is long enough and clamping it to the line's end otherwise.
    pub fn move_up(&mut self)
        requires
            old(self)@.wf(),
        ensures
            final(self)@ == old(self)@.moved_up(),
            final(self)@.wf(),
    {
        if self.row > 0 {
            let len = self.line_len(self.row - 1);
            self.row = self.row - 1;
            if len < self.column {
                self.column = len;
            }
        }
    }

    /// Moves the cursor one line down, keeping its byte column where that
    /// line is long enough and clamping it to the line's end otherwise.
    pub fn move_down(&mut self)
        requires
            old(self)@.wf(),
        ensures
            final(self)@ == old(self)@.moved_down(),
            final(self)@.wf(),
    {
        if self.row < self.lines.len() - 1 {
            let len = self.line_len(self.row + 1);
            self.row = self.row + 1;
            if len < self.column {
                self.column = len;
            }
        }
    }
}

} // verus!
