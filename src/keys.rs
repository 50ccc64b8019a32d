use vstd::prelude::*;
use crate::input::InputLine;
use crate::meta::{Event, EventView};

verus! {

/// A key press, as the terminal UI reads it.
#[derive(Debug, Clone, Copy, PartialEq, Eq)]
pub enum Key {
    /// A character, newline included.
    Char(char),
    /// A character typed with Ctrl held.
    Ctrl(char),
    Left,
    Right,
    /// Any key the input line ignores.
    Other,
}

/// What a key does to the input line: the text and cursor after it, and the
/// event it produces, if any.
pub open spec fn key_effect(t: Seq<char>, c: nat, key: Key) -> (Seq<char>, nat, Option<EventView>) {
    match key {
        Key::Ctrl('c') => (t, c, Some(EventView::QuitRequest)),
        Key::Ctrl('b') | Key::Left => (t, if c == 0 {
            0
        } else {
            (c - 1) as nat
        }, None),
        Key::Ctrl('f') | Key::Right => (t, if c < t.len() {
            c + 1
        } else {
            c
        }, None),
        Key::Char('\n') => (Seq::empty(), 0, Some(EventView::UserInput { line: t, which: 0 })),
        Key::Char(ch) => (t.insert(c as int, ch), c + 1, None),
        Key::Ctrl('h') => if c == 0 {
            (t, c, None)
        } else {
            (t.subrange(0, c - 1) + t.subrange(c as int, t.len() as int), (c - 1) as nat, None)
        },
        Key::Ctrl('d') => if c < t.len() {
            (t.subrange(0, c as int) + t.subrange(c + 1 as int, t.len() as int), c, None)
        } else {
            (t, c, None)
        },
        _ => (t, c, None),
    }
}

/// Apply a key press to the input line: Ctrl-C asks to quit; Ctrl-B and
/// Left, Ctrl-F and Right move the cursor; Enter sends the line as input to
/// window 0 and empties it; Ctrl-H and Ctrl-D delete before and after the
/// cursor; other characters are inserted.
pub fn handle_key(input: &mut InputLine, key: Key) -> (r: Option<Event>)
    requires
        old(input).wf(),
    ensures
        final(input).wf(),
        final(input).width() == old(input).width(),
        ({
            let (t, c, e) = key_effect(old(input).text(), old(input).cursor(), key);
            &&& final(input).text() == t
            &&& final(input).cursor() == c
            &&& match r {
                Some(ev) => e == Some(ev@),
                None => e is None,
            }
        }),
{
    proof {
        input.lemma_cursor_in_text();
    }
    match key {
        Key::Ctrl('c') => Some(Event::QuitRequest),
        Key::Ctrl('b') | Key::Left => {
            input.move_cursor(-1);
            None
        },
        Key::Ctrl('f') | Key::Right => {
            input.move_cursor(1);
            None
        },
        Key::Char('\n') => {
            let line = input.as_text();
            input.set_string(String::new());
            Some(Event::UserInput { line, which: 0 })
        },
        Key::Char(ch) => {
            input.insert_char(ch);
            None
        },
        Key::Ctrl('h') => {
            input.delete_chars(-1);
            proof {
                let t = old(input).text();
                let c = old(input).cursor() as int;
                if c > 0 {
                    assert(t.subrange(0, c - 1) + t.subrange(c, t.len() as int) == input.text());
                } else {
                    assert(t.subrange(0, 0) + t.subrange(0, t.len() as int) =~= t);
                }
            }
            None
        },
        Key::Ctrl('d') => {
            input.delete_chars(1);
            proof {
                let t = old(input).text();
                let c = old(input).cursor() as int;
                if c >= t.len() {
                    assert(t.subrange(0, c) + t.subrange(c, t.len() as int) =~= t);
                }
            }
            None
        },
        _ => None,
    }
}

} // verus!
