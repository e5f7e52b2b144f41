# callnotes

A terminal call-note log: each call has a phone number, an incident number,
a call type, start and finish stamps, and free-form notes typed in a small
multi-line editor. Calls are stored in SQLite.

- `src/` is the verified library (Verus): UTF-8 text and line handling
  (`text`), the editor (`editor`), call records (`calls`), the palette
  (`theme`), the key-driven state machine (`app`), the card layout
  (`layout`), and properties relating them (`laws`).
- `app/` is the program around it: the terminal loop, drawing with ratatui,
  key events from crossterm, and the SQLite store.
- `tests/` exercise the library on concrete values.

Keys: Ctrl+N new call, Ctrl+S save, F2 finish, Ctrl+Q save and quit,
Tab/Shift+Tab next/previous field, Up/Down (with or without Ctrl) select
the previous/next call, PageUp/PageDown scroll the call history by eight
rows, Ctrl+1/2/3 insert `BMC Engineer`, `Coforge`, `INC-`; in the notes,
Left/Right/Home/End move the cursor and Enter/Backspace edit.
