use vstd::prelude::*;

use std::collections::VecDeque;
use vstd::string::{StrSliceExecFns, StringExecFns, StringSliceAdditionalSpecFns};

verus! {

/// Calls `<String as From<char>>::from`: a string of the one character.
#[verifier::external_body]
fn string_of_char(c: char) -> (r: String)
    ensures
        r@ == seq![c],
{
    String::from(c)
}

/// The text with `ins` put in before character i.
pub open spec fn inserted(text: Seq<char>, i: int, ins: Seq<char>) -> Seq<char> {
    text.subrange(0, i) + ins + text.subrange(i, text.len() as int)
}

/// The text without character i.
pub open spec fn removed(text: Seq<char>, i: int) -> Seq<char> {
    text.subrange(0, i) + text.subrange(i + 1, text.len() as int)
}

/// What a key press asks of a text recorder, beyond editing its text.
#[derive(Copy, Clone, Eq, PartialEq, Debug, Structural)]
pub enum SpecialKey {
    /// User submitted the buffer.
    Submit,
    /// User requested autocompletion: TAB, or ArrowRight with the cursor at the end.
    Autocomplete,
    /// User pressed ArrowUp.
    HistoryUp,
    /// User pressed ArrowDown.
    HistoryDown,
    /// The key was not a character or special.
    NoEffect,
}

/// The physical keys that a text recorder tells apart.
#[derive(Copy, Clone, Eq, PartialEq, Debug, Structural)]
pub enum KeyCode {
    Space,
    Delete,
    Backspace,
    ArrowRight,
    ArrowLeft,
    Home,
    End,
    Enter,
    Tab,
    ArrowUp,
    ArrowDown,
    Other,
}

/// A keyboard event, as far as a text recorder reads it: whether the key went up, the text
/// that it types if it types any, and which key it was.
pub struct KeyEvent {
    pub released: bool,
    pub character: Option<String>,
    pub key_code: KeyCode,
}

/// Single-line text input: a buffer of characters and a cursor between them.
pub struct TextRecorder {
    buffer: String,
    cursor: usize,
}

impl TextRecorder {
    /// The characters of the buffer.
    pub closed spec fn text(&self) -> Seq<char> {
        self.buffer@
    }

    /// The number of characters before the cursor.
    pub closed spec fn cursor_at(&self) -> nat {
        self.cursor as nat
    }

    /// The number of bytes that the text takes in UTF-8.
    pub closed spec fn byte_size(&self) -> nat {
        vstd::utf8::encode_utf8(self.buffer@).len()
    }

    /// The cursor lies within the text.
    pub closed spec fn wf(&self) -> bool {
        self.cursor <= self.buffer@.len()
    }

    /// An empty recorder.
    pub fn new() -> (r: TextRecorder)
        ensures
            r.wf(),
            r.text() == Seq::<char>::empty(),
            r.cursor_at() == 0,
    {
        TextRecorder { buffer: String::new(), cursor: 0 }
    }

    /// The number of characters in the buffer.
    pub fn len(&self) -> (r: usize)
        ensures
            r == self.text().len(),
    {
        self.buffer.as_str().unicode_len()
    }

    /// The number of bytes in the buffer.
    pub fn size(&self) -> (r: usize)
        ensures
            r == self.byte_size() as usize,
    {
        let s = self.buffer.as_str();
        let n = s.len();
        proof {
            assert(s.spec_bytes() == vstd::utf8::encode_utf8(s@));
        }
        n
    }

    /// Empty the buffer; the cursor goes to 0.
    pub fn clear(&mut self)
        ensures
            final(self).wf(),
            final(self).text() == Seq::<char>::empty(),
            final(self).cursor_at() == 0,
    {
        self.buffer = String::new();
        self.cursor = 0;
    }

    /// Overwrite the text with a new string; the cursor goes to 0.
    pub fn set(&mut self, text: String)
        ensures
            final(self).wf(),
            final(self).text() == text@,
            final(self).cursor_at() == 0,
    {
        self.buffer = text;
        self.cursor = 0;
    }

    /// Insert a string at the cursor and advance the cursor past it.
    pub fn insert_str(&mut self, text: &str)
        requires
            old(self).wf(),
            old(self).text().len() + text@.len() <= usize::MAX,
        ensures
            final(self).wf(),
            final(self).text() == inserted(old(self).text(), old(self).cursor_at() as int, text@),
            final(self).cursor_at() == old(self).cursor_at() + text@.len(),
    {
        let n = self.buffer.as_str().unicode_len();
        let head = self.buffer.as_str().substring_char(0, self.cursor);
        let tail = self.buffer.as_str().substring_char(self.cursor, n);
        let added = text.unicode_len();
        let joined = String::from_str(head).concat(text).concat(tail);
        self.buffer = joined;
        self.cursor = self.cursor + added;
    }

    /// Insert a character at the cursor and advance the cursor by 1.
    pub fn insert(&mut self, c: char)
        requires
            old(self).wf(),
            old(self).text().len() + 1 <= usize::MAX,
        ensures
            final(self).wf(),
            final(self).text() == inserted(old(self).text(), old(self).cursor_at() as int, seq![c]),
            final(self).cursor_at() == old(self).cursor_at() + 1,
    {
        let s = string_of_char(c);
        self.insert_str(s.as_str());
    }

    /// Remove the character at index i.
    fn remove_at(&mut self, i: usize)
        requires
            i < old(self).buffer@.len(),
            old(self).cursor <= old(self).buffer@.len() - 1,
        ensures
            final(self).buffer@ == removed(old(self).buffer@, i as int),
            final(self).cursor == old(self).cursor,
    {
        let n = self.buffer.as_str().unicode_len();
        let head = self.buffer.as_str().substring_char(0, i);
        let tail = self.buffer.as_str().substring_char(i + 1, n);
        self.buffer = String::from_str(head).concat(tail);
    }

    /// Move the cursor back one character and delete the character there, if the cursor is
    /// not at the start.
    pub fn backspace(&mut self)
        requires
            old(self).wf(),
        ensures
            final(self).wf(),
            old(self).cursor_at() == 0 ==> final(self).text() == old(self).text() && final(self).cursor_at() == 0,
            old(self).cursor_at() > 0 ==> final(self).text() == removed(old(self).text(), old(self).cursor_at() - 1)
                && final(self).cursor_at() == old(self).cursor_at() - 1,
    {
        if let Some(cursor) = self.try_prev() {
            self.remove_at(cursor);
        }
    }

    /// Delete the character at the cursor; the cursor stays. Does nothing at the end.
    pub fn delete(&mut self)
        requires
            old(self).wf(),
        ensures
            final(self).wf(),
            final(self).cursor_at() == old(self).cursor_at(),
            old(self).cursor_at() == old(self).text().len() ==> final(self).text() == old(self).text(),
            old(self).cursor_at() < old(self).text().len() ==> final(self).text() == removed(
                old(self).text(),
                old(self).cursor_at() as int,
            ),
    {
        if !self.is_at_end() {
            let c = self.cursor;
            self.remove_at(c);
        }
    }

    /// Whether the cursor is at the end of the buffer.
    pub fn is_at_end(&self) -> (r: bool)
        requires
            self.wf(),
        ensures
            r == (self.cursor_at() == self.text().len()),
    {
        self.cursor >= self.buffer.as_str().unicode_len()
    }

    /// Advance the cursor, and give its new position if it could move.
    pub fn try_next(&mut self) -> (r: Option<usize>)
        requires
            old(self).wf(),
        ensures
            final(self).wf(),
            final(self).text() == old(self).text(),
            old(self).cursor_at() < old(self).text().len() ==> final(self).cursor_at() == old(self).cursor_at() + 1
                && r == Some(final(self).cursor_at() as usize),
            old(self).cursor_at() == old(self).text().len() ==> final(self).cursor_at() == old(self).cursor_at()
                && r is None,
    {
        if self.cursor < self.buffer.as_str().unicode_len() {
            self.cursor = self.cursor + 1;
            Some(self.cursor)
        } else {
            None
        }
    }

    /// Move the cursor back, and give its new position if it could move.
    pub fn try_prev(&mut self) -> (r: Option<usize>)
        requires
            old(self).wf(),
        ensures
            final(self).wf(),
            final(self).text() == old(self).text(),
            old(self).cursor_at() > 0 ==> final(self).cursor_at() == old(self).cursor_at() - 1 && r == Some(
                final(self).cursor_at() as usize,
            ),
            old(self).cursor_at() == 0 ==> final(self).cursor_at() == 0 && r is None,
    {
        if self.cursor != 0 {
            self.cursor = self.cursor - 1;
            Some(self.cursor)
        } else {
            None
        }
    }

    /// Advance the cursor, if it is not at the end.
    pub fn cursor_next(&mut self)
        requires
            old(self).wf(),
        ensures
            final(self).wf(),
            final(self).text() == old(self).text(),
            final(self).cursor_at() == if old(self).cursor_at() < old(self).text().len() {
                old(self).cursor_at() + 1
            } else {
                old(self).cursor_at()
            },
    {
        self.try_next();
    }

    /// Move the cursor back, if it is not at the start.
    pub fn cursor_prev(&mut self)
        requires
            old(self).wf(),
        ensures
            final(self).wf(),
            final(self).text() == old(self).text(),
            final(self).cursor_at() == if old(self).cursor_at() > 0 {
                old(self).cursor_at() - 1
            } else {
                0
            },
    {
        self.cursor = self.cursor.saturating_sub(1);
    }

    /// Put the cursor at the end of the buffer.
    pub fn go_to_end(&mut self)
        ensures
            final(self).wf(),
            final(self).text() == old(self).text(),
            final(self).cursor_at() == old(self).text().len(),
    {
        self.cursor = self.buffer.as_str().unicode_len();
    }

    /// Put the cursor at the start of the buffer.
    pub fn go_to_home(&mut self)
        ensures
            final(self).wf(),
            final(self).text() == old(self).text(),
            final(self).cursor_at() == 0,
    {
        self.cursor = 0;
    }

    /// The text of the buffer.
    pub fn read(&self) -> (r: &str)
        ensures
            r@ == self.text(),
    {
        self.buffer.as_str()
    }

    /// Apply a key press to the text, or tell the caller what it asks for: a special key for
    /// keys that ask for more than editing, or that have no effect.
    pub fn update(&mut self, ev: &KeyEvent) -> (r: Option<SpecialKey>)
        requires
            old(self).wf(),
            old(self).text().len() + 1 <= usize::MAX,
            ev.character is Some ==> old(self).text().len() + ev.character.unwrap()@.len() <= usize::MAX,
        ensures
            final(self).wf(),
            r == update_result(*ev, old(self).cursor_at(), old(self).text().len()),
            (final(self).text(), final(self).cursor_at()) == update_edit(*ev, old(self).text(), old(self).cursor_at()),
    {
        if ev.released {
            return None;
        }
        match &ev.character {
            Some(c) => {
                self.insert_str(c.as_str());
                None
            },
            None => match ev.key_code {
                KeyCode::Space => {
                    self.insert(' ');
                    None
                },
                KeyCode::Delete => {
                    self.delete();
                    None
                },
                KeyCode::Backspace => {
                    self.backspace();
                    None
                },
                KeyCode::ArrowRight => {
                    if self.try_next().is_none() {
                        Some(SpecialKey::Autocomplete)
                    } else {
                        None
                    }
                },
                KeyCode::ArrowLeft => {
                    self.cursor_prev();
                    None
                },
                KeyCode::Home => {
                    self.go_to_home();
                    None
                },
                KeyCode::End => {
                    self.go_to_end();
                    None
                },
                KeyCode::Enter => Some(SpecialKey::Submit),
                KeyCode::Tab => Some(SpecialKey::Autocomplete),
                KeyCode::ArrowUp => Some(SpecialKey::HistoryUp),
                KeyCode::ArrowDown => Some(SpecialKey::HistoryDown),
                KeyCode::Other => Some(SpecialKey::NoEffect),
            },
        }
    }

    /// Take the text out of the buffer, leaving it empty with the cursor at 0.
    pub fn submit(&mut self) -> (r: String)
        ensures
            r@ == old(self).text(),
            final(self).wf(),
            final(self).text() == Seq::<char>::empty(),
            final(self).cursor_at() == 0,
    {
        let ret = self.buffer.clone();
        self.buffer = String::new();
        self.cursor = 0;
        ret
    }
}

/// The special key that a key event gives, with the cursor at `cursor` of `len` characters.
pub open spec fn update_result(ev: KeyEvent, cursor: nat, len: nat) -> Option<SpecialKey> {
    if ev.released || ev.character is Some {
        None
    } else {
        match ev.key_code {
            KeyCode::ArrowRight => if cursor < len {
                None
            } else {
                Some(SpecialKey::Autocomplete)
            },
            KeyCode::Enter => Some(SpecialKey::Submit),
            KeyCode::Tab => Some(SpecialKey::Autocomplete),
            KeyCode::ArrowUp => Some(SpecialKey::HistoryUp),
            KeyCode::ArrowDown => Some(SpecialKey::HistoryDown),
            KeyCode::Other => Some(SpecialKey::NoEffect),
            _ => None,
        }
    }
}

/// The text and cursor after a key event.
pub open spec fn update_edit(ev: KeyEvent, text: Seq<char>, cursor: nat) -> (Seq<char>, nat) {
    if ev.released {
        (text, cursor)
    } else if ev.character is Some {
        let c = ev.character.unwrap()@;
        (inserted(text, cursor as int, c), cursor + c.len())
    } else {
        match ev.key_code {
            KeyCode::Space => (inserted(text, cursor as int, seq![' ']), cursor + 1),
            KeyCode::Delete => if cursor < text.len() {
                (removed(text, cursor as int), cursor)
            } else {
                (text, cursor)
            },
            KeyCode::Backspace => if cursor > 0 {
                (removed(text, cursor - 1), (cursor - 1) as nat)
            } else {
                (text, cursor)
            },
            KeyCode::ArrowRight => if cursor < text.len() {
                (text, cursor + 1)
            } else {
                (text, cursor)
            },
            KeyCode::ArrowLeft => (text, if cursor > 0 {
                (cursor - 1) as nat
            } else {
                0
            }),
            KeyCode::Home => (text, 0),
            KeyCode::End => (text, text.len()),
            _ => (text, cursor),
        }
    }
}

/// Recorded lines of text input, newest first, with a cursor into them.
pub struct TextHistory {
    /// Index 0 holds the newest line.
    history: VecDeque<String>,
    /// Currently selected line.
    cursor: usize,
    /// Max number of lines to keep.
    limit: Option<usize>,
}

impl TextHistory {
    /// The lines, newest first.
    pub closed spec fn lines(&self) -> Seq<Seq<char>> {
        self.history@.map_values(|s: String| s@)
    }

    /// The selected position.
    pub closed spec fn cursor_at(&self) -> nat {
        self.cursor as nat
    }

    /// The most lines kept, if limited.
    pub closed spec fn limit_of(&self) -> Option<usize> {
        self.limit
    }

    /// The cursor lies within the lines or just past them, and a limit is kept.
    pub closed spec fn wf(&self) -> bool {
        &&& self.cursor <= self.history@.len()
        &&& self.limit matches Some(l) ==> self.history@.len() <= l
    }

    /// An empty history without a limit.
    pub fn new() -> (r: TextHistory)
        ensures
            r.wf(),
            r.lines() == Seq::<Seq<char>>::empty(),
            r.cursor_at() == 0,
            r.limit_of() is None,
    {
        TextHistory { history: VecDeque::new(), cursor: 0, limit: None }
    }

    /// An empty history that keeps at most `limit` lines.
    pub fn with_limit(limit: usize) -> (r: TextHistory)
        ensures
            r.wf(),
            r.lines() == Seq::<Seq<char>>::empty(),
            r.cursor_at() == 0,
            r.limit_of() == Some(limit),
    {
        TextHistory { history: VecDeque::new(), cursor: 0, limit: Some(limit) }
    }

    /// Remove every line.
    pub fn clear(&mut self)
        ensures
            final(self).wf(),
            final(self).lines() == Seq::<Seq<char>>::empty(),
            final(self).cursor_at() == 0,
            final(self).limit_of() == old(self).limit_of(),
    {
        self.history.clear();
        self.cursor = 0;
    }

    /// Select the newest line.
    pub fn go_to_start(&mut self)
        requires
            old(self).wf(),
        ensures
            final(self).wf(),
            final(self).lines() == old(self).lines(),
            final(self).cursor_at() == 0,
            final(self).limit_of() == old(self).limit_of(),
    {
        self.cursor = 0;
    }

    /// Move the cursor past the oldest line.
    pub fn go_to_end(&mut self)
        requires
            old(self).wf(),
        ensures
            final(self).wf(),
            final(self).lines() == old(self).lines(),
            final(self).cursor_at() == old(self).lines().len(),
            final(self).limit_of() == old(self).limit_of(),
    {
        self.cursor = self.history.len();
    }

    /// Record a line as the newest, drop the oldest if that passes the limit, and select the
    /// newest.
    pub fn push(&mut self, item: String)
        requires
            old(self).wf(),
        ensures
            final(self).wf(),
            final(self).cursor_at() == 0,
            final(self).limit_of() == old(self).limit_of(),
            final(self).lines() == if old(self).limit_of() is Some && old(self).lines().len() + 1 > old(
                self,
            ).limit_of().unwrap() {
                (seq![item@] + old(self).lines()).subrange(0, old(self).limit_of().unwrap() as int)
            } else {
                seq![item@] + old(self).lines()
            },
    {
        self.cursor = 0;
        let ghost before = self.history@;
        self.history.push_front(item);
        assert(self.history@.map_values(|s: String| s@) =~= seq![item@] + before.map_values(|s: String| s@));
        if let Some(limit) = self.limit {
            if self.history.len() > limit {
                let ghost mid = self.history@;
                self.history.pop_back();
                assert(self.history@.map_values(|s: String| s@) =~= mid.map_values(|s: String| s@).subrange(
                    0,
                    limit as int,
                ));
            }
        }
    }

    /// The selected line; past the oldest, the oldest. None when the history is empty.
    pub fn curr(&self) -> (r: Option<&str>)
        requires
            self.wf(),
        ensures
            self.lines().len() == 0 ==> r is None,
            self.lines().len() > 0 && self.cursor_at() < self.lines().len() ==> r is Some && r.unwrap()@
                == self.lines()[self.cursor_at() as int],
            self.lines().len() > 0 && self.cursor_at() == self.lines().len() ==> r is Some && r.unwrap()@
                == self.lines()[self.lines().len() - 1],
    {
        let n = self.history.len();
        if self.cursor < n {
            Some(self.history[self.cursor].as_str())
        } else if n > 0 {
            Some(self.history[n - 1].as_str())
        } else {
            None
        }
    }

    /// The selected line, moving the cursor one line older; None past the oldest.
    pub fn prev(&mut self) -> (r: Option<&str>)
        requires
            old(self).wf(),
        ensures
            final(self).wf(),
            final(self).lines() == old(self).lines(),
            final(self).limit_of() == old(self).limit_of(),
            old(self).cursor_at() < old(self).lines().len() ==> r is Some && r.unwrap()@ == old(self).lines()[old(
                self,
            ).cursor_at() as int] && final(self).cursor_at() == old(self).cursor_at() + 1,
            old(self).cursor_at() == old(self).lines().len() ==> r is None && final(self).cursor_at()
                == old(self).cursor_at(),
    {
        if self.cursor < self.history.len() {
            let item = self.history[self.cursor].as_str();
            self.cursor = self.cursor + 1;
            Some(item)
        } else {
            None
        }
    }

    /// The selected line, moving the cursor one line newer; None at the newest. The cursor
    /// must not be past the oldest line unless it is at the newest.
    pub fn next(&mut self) -> (r: Option<&str>)
        requires
            old(self).wf(),
            old(self).cursor_at() == 0 || old(self).cursor_at() < old(self).lines().len(),
        ensures
            final(self).wf(),
            final(self).lines() == old(self).lines(),
            final(self).limit_of() == old(self).limit_of(),
            old(self).cursor_at() != 0 ==> r is Some && r.unwrap()@ == old(self).lines()[old(self).cursor_at() as int]
                && final(self).cursor_at() == old(self).cursor_at() - 1,
            old(self).cursor_at() == 0 ==> r is None && final(self).cursor_at() == 0,
    {
        if self.cursor != 0 {
            let item = self.history[self.cursor].as_str();
            self.cursor = self.cursor - 1;
            Some(item)
        } else {
            None
        }
    }
}

impl Default for TextRecorder {
    fn default() -> (r: TextRecorder)
        ensures
            r.wf(),
            r.text() == Seq::<char>::empty(),
            r.cursor_at() == 0,
    {
        TextRecorder::new()
    }
}

impl Default for TextHistory {
    fn default() -> (r: TextHistory)
        ensures
            r.wf(),
            r.lines() == Seq::<Seq<char>>::empty(),
            r.cursor_at() == 0,
            r.limit_of() is None,
    {
        TextHistory::new()
    }
}

} // verus!
