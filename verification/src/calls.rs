//! Call records: who called, about which incident, when, and the notes taken.
use vstd::prelude::*;


verus! {

/// The `chrono` format of a call's start and finish stamps.
pub const STAMP_FORMAT: &'static str = "%Y-%m-%d %H:%M:%S";

/// What a call record holds, as plain values.
pub struct CallState {
    pub id: Option<i64>,
    pub phone: Seq<char>,
    pub inc: Seq<char>,
    pub call_type: Seq<char>,
    pub started_at: Seq<char>,
    pub finished_at: Option<Seq<char>>,
    pub notes: Seq<char>,
}

/// One logged call.
#[derive(Debug, Clone)]
pub struct Call {
    pub id: Option<i64>,
    pub phone: String,
    pub inc: String,
    pub call_type: String,
    pub started_at: String,
    pub finished_at: Option<String>,
    pub notes: String,
}

/// The view of an optional string.
pub open spec fn opt_view(s: Option<String>) -> Option<Seq<char>> {
    match s {
        Some(t) => Some(t@),
        None => None,
    }
}

impl View for Call {
    type V = CallState;

    open spec fn view(&self) -> CallState {
        CallState {
            id: self.id,
            phone: self.phone@,
            inc: self.inc@,
            call_type: self.call_type@,
            started_at: self.started_at@,
            finished_at: opt_view(self.finished_at),
            notes: self.notes@,
        }
    }
}

/// `c` is an ASCII decimal digit.
pub open spec fn is_digit(c: char) -> bool {
    '0' <= c <= '9'
}

/// `s` has the shape that `STAMP_FORMAT` gives: the year (zero-padded to at
/// least four digits, with a leading sign and at least four digits when it
/// lies outside 0 to 9999), then `-`, the month, `-`, the day, ` `, the
/// hour, `:`, the minute, `:` and the second, each of two digits.
pub open spec fn is_stamp(s: Seq<char>) -> bool {
    let n = s.len() as int;
    &&& n >= 19
    &&& !is_digit(s[0]) ==> n >= 20 && (s[0] == '+' || s[0] == '-')
    &&& forall|i: int|
        0 <= i < n ==> {
            let c = #[trigger] s[i];
            if i == n - 15 || i == n - 12 {
                c == '-'
            } else if i == n - 9 {
                c == ' '
            } else if i == n - 6 || i == n - 3 {
                c == ':'
            } else if i == 0 {
                is_digit(c) || c == '+' || c == '-'
            } else {
                is_digit(c)
            }
        }
}

/// The current local time, formatted by `chrono` with the pattern `STAMP_FORMAT`
/// (`chrono::Local::now().format(..).to_string()`). The time itself is not
/// stated; what is stated is the shape that the pattern gives whatever the
/// clock reads (`is_stamp`), so at least 19 characters.
/// The pattern is restricted to `STAMP_FORMAT`, which `chrono` formats
/// without error (an invalid pattern would make `to_string` panic).
#[verifier::external_body]
pub(crate) fn local_now(pattern: &str) -> (stamp: String)
    requires
        pattern@ == STAMP_FORMAT@,
    ensures
        is_stamp(stamp@),
{
    chrono::Local::now().format(pattern).to_string()
}

impl CallState {
    /// A call that has just started at `stamp`: no id, nothing typed, not finished.
    pub open spec fn started(stamp: Seq<char>) -> CallState {
        CallState {
            id: None,
            phone: Seq::empty(),
            inc: Seq::empty(),
            call_type: Seq::empty(),
            started_at: stamp,
            finished_at: None,
            notes: Seq::empty(),
        }
    }

    /// The call marked finished at `stamp`, unless it was already finished.
    pub open spec fn finished(self, stamp: Seq<char>) -> CallState {
        if self.finished_at is None {
            CallState { finished_at: Some(stamp), ..self }
        } else {
            self
        }
    }

    /// The phone, incident and call-type texts each fit in a `String`.
    pub open spec fn fields_fit(self) -> bool {
        &&& crate::text::byte_len(self.phone) <= crate::text::max_bytes()
        &&& crate::text::byte_len(self.inc) <= crate::text::max_bytes()
        &&& crate::text::byte_len(self.call_type) <= crate::text::max_bytes()
    }

    /// The call's card title: its incident (or "New call" while there is
    /// none) and whether it is finished or active, padded with spaces.
    pub open spec fn title(self) -> Seq<char> {
        let label = if self.inc.len() == 0 { "New call"@ } else { self.inc };
        let state = if self.finished_at is Some { "finished"@ } else { "active"@ };
        " "@ + label + " | "@ + state + " "@
    }
}

impl Call {
    /// A call starting now: no id, nothing typed yet, not finished, and
    /// `started_at` holding the local time.
    pub fn new() -> (call: Call)
        ensures
            call@ == CallState::started(call@.started_at),
            is_stamp(call@.started_at),
    {
        Self::starting(local_now(STAMP_FORMAT))
    }

    /// A call that started at `stamp`.
    pub fn starting(stamp: String) -> (call: Call)
        ensures
            call@ == CallState::started(stamp@),
    {
        Call {
            id: None,
            phone: String::new(),
            inc: String::new(),
            call_type: String::new(),
            started_at: stamp,
            finished_at: None,
            notes: String::new(),
        }
    }

    /// Marks the call finished at the current local time, unless it already is.
    pub fn finish(&mut self)
        ensures
            old(self)@.finished_at is Some ==> final(self)@ == old(self)@,
            old(self)@.finished_at is None ==> final(self)@ == old(self)@.finished(
                final(self)@.finished_at->0,
            ),
            old(self)@.finished_at is None ==> is_stamp(final(self)@.finished_at->0),
    {
        if self.finished_at.is_none() {
            let stamp = local_now(STAMP_FORMAT);
            self.finish_at(stamp);
        }
    }

    /// Marks the call finished at `stamp`, unless it already is.
    pub fn finish_at(&mut self, stamp: String)
        ensures
            final(self)@ == old(self)@.finished(stamp@),
    {
        if self.finished_at.is_none() {
            self.finished_at = Some(stamp);
        }
    }

    /// The finish time as a card shows it: the stamp, or `-` while the call
    /// is active.
    pub fn finished_label(&self) -> (label: &str)
        ensures
            label@ == match self@.finished_at {
                Some(t) => t,
                None => "-"@,
            },
    {
        match &self.finished_at {
            Some(t) => t.as_str(),
            None => "-",
        }
    }

    /// The call's card title, e.g. `" INC-42 | active "`.
    pub fn title(&self) -> (title: String)
        ensures
            title@ == self@.title(),
    {
        let label: &str = if self.inc.as_str().is_empty() {
            "New call"
        } else {
            self.inc.as_str()
        };
        let state: &str = if self.finished_at.is_some() {
            "finished"
        } else {
            "active"
        };
        let mut title = String::new();
        title.append(" ");
        title.append(label);
        title.append(" | ");
        title.append(state);
        title.append(" ");
        assert(title@ =~= self@.title());
        title
    }
}

} // verus!
