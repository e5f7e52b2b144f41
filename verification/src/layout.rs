//! Where the call cards go on screen: each card's height from its notes, the
//! cards stacked top to bottom, and which of them fall inside the viewport.
use vstd::prelude::*;
use crate::app::{App, AppState};
use crate::calls::CallState;
use crate::text::{byte_len, max_bytes};

verus! {

/// The number of `'\n'` characters in `s`.
pub open spec fn newline_count(s: Seq<char>) -> nat
    decreases s.len(),
{
    if s.len() == 0 {
        0
    } else {
        newline_count(s.drop_last()) + if s.last() == '\n' {
            1nat
        } else {
            0nat
        }
    }
}

/// The number of lines `str::lines` finds in `s`: none in an empty text,
/// and a final `'\n'` ends the last line rather than starting a new one.
pub open spec fn line_count(s: Seq<char>) -> nat {
    if s.len() == 0 {
        0
    } else if s.last() == '\n' {
        newline_count(s)
    } else {
        newline_count(s) + 1
    }
}

/// The rows a call's card takes: six for its frame and fields, plus one per
/// line of notes (at least one), capped at `u16::MAX`.
pub open spec fn card_height(c: CallState) -> nat {
    let lines = if line_count(c.notes) == 0 {
        1
    } else {
        line_count(c.notes)
    };
    if 6 + lines <= u16::MAX {
        6 + lines
    } else {
        u16::MAX as nat
    }
}

/// The rows that the cards before card `i` take, each followed by one
/// blank row.
pub open spec fn rows_before(calls: Seq<CallState>, i: nat) -> nat
    decreases i,
{
    if i == 0 {
        0
    } else {
        rows_before(calls, (i - 1) as nat) + card_height(calls[i - 1]) + 1
    }
}

/// A card placed on screen: which call, the first row it is drawn on, how
/// many of its rows are drawn, and how many of its top rows are scrolled
/// out of sight above the viewport.
#[derive(Debug, Clone, Copy, PartialEq, Eq, Structural)]
pub struct CardSlot {
    pub index: usize,
    pub y: u16,
    pub height: u16,
    pub skip: u16,
}

impl AppState {
    /// The top row of card `i`, which may lie above the screen: the cards
    /// stack down from the viewport's top `area_y`, moved up by the scroll.
    pub open spec fn card_top(self, area_y: u16, i: nat) -> int {
        area_y + rows_before(self.calls, i) - self.scroll
    }

    /// Some row of card `i` lies in the viewport `area_y .. area_y + area_height`.
    pub open spec fn card_visible(self, area_y: u16, area_height: u16, i: nat) -> bool {
        let top = self.card_top(area_y, i);
        &&& top + card_height(self.calls[i as int]) > area_y
        &&& top < area_y + area_height
    }

    /// Card `i` clipped to the viewport.
    pub open spec fn card_slot(self, area_y: u16, area_height: u16, i: nat) -> CardSlot {
        let top = self.card_top(area_y, i);
        let bottom = top + card_height(self.calls[i as int]);
        let first = if top >= area_y { top } else { area_y as int };
        let last = if bottom <= area_y + area_height { bottom } else { area_y + area_height };
        CardSlot {
            index: i as usize,
            y: first as u16,
            height: (last - first) as u16,
            skip: (first - top) as u16,
        }
    }

    /// The placed cards among the first `n` calls that meet the viewport,
    /// in order.
    pub open spec fn slots_upto(self, area_y: u16, area_height: u16, n: nat) -> Seq<CardSlot>
        decreases n,
    {
        if n == 0 {
            Seq::empty()
        } else {
            let i = (n - 1) as nat;
            let before = self.slots_upto(area_y, area_height, i);
            if self.card_visible(area_y, area_height, i) {
                before.push(self.card_slot(area_y, area_height, i))
            } else {
                before
            }
        }
    }
}

/// The number of lines in `s`, as `str::lines` counts them.
pub fn line_count_of(s: &str) -> (n: usize)
    requires
        byte_len(s@) <= max_bytes(),
    ensures
        n == line_count(s@),
{
    broadcast use vstd::string::group_string_axioms;

    let mut newlines: usize = 0;
    let mut last: Option<char> = None;
    proof {
        crate::text::lemma_len_le_byte_len(s@);
    }
    assert(s@.take(0) =~= Seq::<char>::empty());
    for c in it: s.chars()
        invariant
            it.seq() == s@,
            s@.len() <= max_bytes(),
            newlines == newline_count(it.seq().take(it.index())),
            newlines <= it.index(),
            it.index() == 0 ==> last is None,
            it.index() > 0 ==> last == Some(it.seq()[it.index() - 1]),
    {
        let ghost i = it.index();
        assert(it.seq().take(i + 1).drop_last() =~= it.seq().take(i));
        if c == '\n' {
            newlines = newlines + 1;
        }
        last = Some(c);
    }
    assert(s@.take(s@.len() as int) =~= s@);
    match last {
        None => 0,
        Some(c) => if c == '\n' {
            newlines
        } else {
            newlines + 1
        },
    }
}

impl App {
    /// The height of call `i`'s card, in rows.
    fn card_height_of(&self, i: usize) -> (height: u16)
        requires
            self@.inv(),
            i < self@.calls.len(),
        ensures
            height == card_height(self@.calls[i as int]),
    {
        let ghost st = self@;
        assert(st.calls[i as int] == self.calls@[i as int]@);
        assert(byte_len(st.calls[i as int].notes) <= max_bytes()) by {
            if i != st.selected {
            } else {
            }
        }
        let lines = line_count_of(self.calls[i].notes.as_str());
        let lines = if lines == 0 {
            1
        } else {
            lines
        };
        if lines <= 65529 {
            (6 + lines) as u16
        } else {
            65535
        }
    }

    /// The cards to draw in the viewport `area_y .. area_y + area_height`
    /// (a rectangle's rows, so its bottom is at most `u16::MAX`), top to
    /// bottom, with the list scrolled up by `self.scroll` rows.
    #[verifier::rlimit(30)]
    pub fn card_slots(&self, area_y: u16, area_height: u16) -> (slots: Vec<CardSlot>)
        requires
            self@.inv(),
            area_y + area_height <= u16::MAX,
        ensures
            slots@ == self@.slots_upto(area_y, area_height, self@.calls.len()),
    {
        let ghost st = self@;
        let cap: u64 = area_height as u64 + self.scroll as u64;
        let view_top: i64 = area_y as i64;
        let view_bottom: i64 = area_y as i64 + area_height as i64;
        let mut before: u64 = 0;
        let mut slots: Vec<CardSlot> = Vec::new();
        let mut i: usize = 0;
        while i < self.calls.len()
            invariant
                st == self@,
                st.inv(),
                area_y + area_height <= u16::MAX,
                cap == area_height + st.scroll,
                view_top == area_y,
                view_bottom == area_y + area_height,
                i <= st.calls.len(),
                before == if rows_before(st.calls, i as nat) <= cap {
                    rows_before(st.calls, i as nat)
                } else {
                    cap as nat
                },
                slots@ == st.slots_upto(area_y, area_height, i as nat),
            decreases st.calls.len() - i,
        {
            let height = self.card_height_of(i);
            let top: i64 = view_top + before as i64 - self.scroll as i64;
            let bottom: i64 = top + height as i64;
            if bottom > view_top && top < view_bottom {
                let first: i64 = if top >= view_top {
                    top
                } else {
                    view_top
                };
                let last: i64 = if bottom <= view_bottom {
                    bottom
                } else {
                    view_bottom
                };
                slots.push(
                    CardSlot {
                        index: i,
                        y: first as u16,
                        height: (last - first) as u16,
                        skip: (first - top) as u16,
                    },
                );
            }
            let grown: u64 = before + height as u64 + 1;
            before = if grown <= cap {
                grown
            } else {
                cap
            };
            i = i + 1;
        }
        slots
    }
}

} // verus!
