use vstd::prelude::*;
use crate::text::{chars_of, fitted, force_width, string_of};

verus! {

/// Something drawn on a grid of characters.
pub trait Window {
    /// The window's own consistency.
    spec fn valid(&self) -> bool;

    /// The rows of text that show the window.
    fn render(&self) -> Vec<String>
        requires
            self.valid(),
    ;

    /// (width, height).
    fn get_size(&self) -> (usize, usize)
        requires
            self.valid(),
    ;

    /// (x, y) of the cursor, 0-indexed.
    fn get_cursor_pos(&self) -> (usize, usize)
        requires
            self.valid(),
    ;

    /// Set the width; a window whose width follows from its contents may
    /// keep its own.
    fn set_width(&mut self, new_w: usize)
        requires
            old(self).valid(),
            new_w > 0,
        ensures
            final(self).valid(),
    ;

    /// Set the height; a window whose height follows from its contents may
    /// keep its own.
    fn set_height(&mut self, new_h: usize)
        requires
            old(self).valid(),
            new_h > 0,
        ensures
            final(self).valid(),
    ;
}

/// The rows that show `buf` wrapped at `width` characters, each padded to
/// the full width; an empty buffer shows as one blank row.
pub open spec fn wrapped_rows(buf: Seq<char>, width: nat) -> Seq<Seq<char>>
    recommends
        width > 0,
{
    Seq::new(
        row_count(buf.len(), width),
        |i: int| fitted(buf.subrange(i * width, min((i + 1) * width, buf.len() as int)), width),
    )
}

/// How many rows of `width` characters `len` characters fill; at least one.
pub open spec fn row_count(len: nat, width: nat) -> nat
    recommends
        width > 0,
{
    if len == 0 {
        1
    } else {
        (((len - 1) as nat) / width + 1) as nat
    }
}

pub open spec fn min(a: int, b: int) -> int {
    if a <= b {
        a
    } else {
        b
    }
}

/// Every row below the row count of `len` characters starts inside them.
proof fn lemma_row_start(k: nat, len: nat, width: nat)
    requires
        width > 0,
        len > 0,
        k < row_count(len, width),
    ensures
        k * width <= len - 1,
{
    let a = (len - 1) as nat;
    vstd::arithmetic::div_mod::lemma_fundamental_div_mod(a as int, width as int);
    vstd::arithmetic::div_mod::lemma_mod_bound(a as int, width as int);
    assert(k <= a / width);
    assert(k * width <= (a / width) * width) by (nonlinear_arith)
        requires
            k <= a / width,
            width > 0,
    ;
    assert((a / width) * width == width * (a / width)) by (nonlinear_arith);
}

/// The absolute value of a negative `n`.
fn magnitude(n: isize) -> (r: usize)
    requires
        n < 0,
    ensures
        r == -n,
{
    if n == isize::MIN {
        (isize::MAX as usize) + 1
    } else {
        (-n) as usize
    }
}

/// An editable line of text with a cursor, wrapped to a target width.
pub struct InputLine {
    buffer: Vec<char>,
    // The cursor sits between two characters: before `buffer[cursor]`.
    cursor: usize,
    target_width: usize,
}

impl InputLine {
    pub closed spec fn wf(&self) -> bool {
        &&& self.cursor <= self.buffer@.len()
        &&& self.target_width > 0
    }

    /// The text.
    pub closed spec fn text(&self) -> Seq<char> {
        self.buffer@
    }

    /// The cursor's position, between `text()[cursor() - 1]` and `text()[cursor()]`.
    pub closed spec fn cursor(&self) -> nat {
        self.cursor as nat
    }

    pub closed spec fn width(&self) -> nat {
        self.target_width as nat
    }

    /// The cursor of a well-formed line lies within its text.
    pub proof fn lemma_cursor_in_text(&self)
        requires
            self.wf(),
        ensures
            self.cursor() <= self.text().len(),
            self.width() > 0,
    {
    }

    /// An empty line `width` characters wide; its height follows from its text.
    pub fn new(width: usize, _height: usize) -> (r: InputLine)
        requires
            width > 0,
        ensures
            r.wf(),
            r.text() == Seq::<char>::empty(),
            r.cursor() == 0,
            r.width() == width,
    {
        InputLine { buffer: Vec::new(), cursor: 0, target_width: width }
    }

    /// Insert `what` at the cursor, which moves past it.
    pub fn insert_char(&mut self, what: char)
        requires
            old(self).wf(),
        ensures
            final(self).wf(),
            final(self).text() == old(self).text().insert(old(self).cursor() as int, what),
            final(self).cursor() == old(self).cursor() + 1,
            final(self).width() == old(self).width(),
    {
        self.buffer.insert(self.cursor, what);
        let len = self.buffer.len();
        assert(self.cursor < len);
        self.cursor = self.cursor + 1;
    }

    /// Delete `n` characters after the cursor (`n >= 0`) or `-n` before it
    /// (`n < 0`), as many as there are; the cursor moves back over those
    /// deleted before it.
    pub fn delete_chars(&mut self, n: isize)
        requires
            old(self).wf(),
        ensures
            final(self).wf(),
            ({
                let t = old(self).text();
                let c = old(self).cursor() as int;
                if n < 0 {
                    let k = min(-n, c);
                    &&& final(self).text() == t.subrange(0, c - k) + t.subrange(c, t.len() as int)
                    &&& final(self).cursor() == c - k
                } else {
                    let k = min(n as int, t.len() - c);
                    &&& final(self).text() == t.subrange(0, c) + t.subrange(c + k, t.len() as int)
                    &&& final(self).cursor() == c
                }
            }),
            final(self).width() == old(self).width(),
    {
        let len = self.buffer.len();
        let (from, to) = if n < 0 {
            let back: usize = if magnitude(n) > self.cursor {
                self.cursor
            } else {
                magnitude(n)
            };
            (self.cursor - back, self.cursor)
        } else {
            let ahead: usize = if n as usize > len - self.cursor {
                len - self.cursor
            } else {
                n as usize
            };
            (self.cursor, self.cursor + ahead)
        };
        let ghost t = self.buffer@;
        let mut kept: Vec<char> = Vec::new();
        let mut i: usize = 0;
        while i < len
            invariant
                len == t.len(),
                t == self.buffer@,
                from <= to <= len,
                i <= len,
                kept@ == if i <= from {
                    t.subrange(0, i as int)
                } else if i <= to {
                    t.subrange(0, from as int)
                } else {
                    t.subrange(0, from as int) + t.subrange(to as int, i as int)
                },
            decreases len - i,
        {
            if i < from || i >= to {
                kept.push(self.buffer[i]);
            }
            proof {
                if i < from {
                    assert(kept@ =~= t.subrange(0, i + 1));
                } else if i < to {
                } else {
                    assert(kept@ =~= t.subrange(0, from as int) + t.subrange(to as int, i + 1));
                }
            }
            i = i + 1;
        }
        proof {
            assert(kept@ =~= t.subrange(0, from as int) + t.subrange(to as int, len as int));
        }
        self.buffer = kept;
        self.cursor = from;
    }

    /// Replace the text with `what`; the cursor goes to the start.
    pub fn set_string(&mut self, what: String)
        requires
            old(self).wf(),
        ensures
            final(self).wf(),
            final(self).text() == what@,
            final(self).cursor() == 0,
            final(self).width() == old(self).width(),
    {
        self.buffer = chars_of(what.as_str());
        self.cursor = 0;
    }

    /// Move the cursor `offset` characters right (or `-offset` left),
    /// stopping at either end of the text.
    pub fn move_cursor(&mut self, offset: isize)
        requires
            old(self).wf(),
        ensures
            final(self).wf(),
            final(self).text() == old(self).text(),
            final(self).width() == old(self).width(),
            final(self).cursor() == if old(self).cursor() + offset < 0 {
                0
            } else if old(self).cursor() + offset > old(self).text().len() {
                old(self).text().len() as int
            } else {
                old(self).cursor() + offset
            },
    {
        if offset < 0 {
            if magnitude(offset) > self.cursor {
                self.cursor = 0;
            } else {
                self.cursor = self.cursor - magnitude(offset);
            }
        } else {
            let room = self.buffer.len() - self.cursor;
            if offset as usize > room {
                self.cursor = self.buffer.len();
            } else {
                self.cursor = self.cursor + offset as usize;
            }
        }
    }

    /// The text as a string.
    pub fn as_text(&self) -> (r: String)
        ensures
            r@ == self.text(),
    {
        string_of(self.buffer.as_slice())
    }
}

impl Window for InputLine {
    open spec fn valid(&self) -> bool {
        self.wf()
    }

    /// The text wrapped at the width, each row padded to the full width.
    fn render(&self) -> (r: Vec<String>)
        ensures
            r@.map_values(|row: String| row@) == wrapped_rows(self.text(), self.width()),
    {
        let w = self.target_width;
        let len = self.buffer.len();
        let count: usize = if len == 0 {
            1
        } else {
            (len - 1) / w + 1
        };
        let ghost rows = wrapped_rows(self.text(), self.width());
        let mut out: Vec<String> = Vec::new();
        let mut start: usize = 0;
        let mut i: usize = 0;
        while i < count
            invariant
                w == self.width(),
                w > 0,
                len == self.text().len(),
                count == row_count(len as nat, w as nat),
                rows == wrapped_rows(self.text(), self.width()),
                i <= count,
                i < count ==> start == i * w,
                i < count ==> start <= len,
                out@.len() == i,
                forall|j: int| 0 <= j < i ==> #[trigger] out@[j]@ == rows[j],
            decreases count - i,
        {
            let end: usize = if len - start < w {
                len
            } else {
                start + w
            };
            let mut chunk: Vec<char> = Vec::new();
            let mut k: usize = start;
            while k < end
                invariant
                    start <= k <= end,
                    end <= len,
                    len == self.text().len(),
                    chunk@ == self.text().subrange(start as int, k as int),
                decreases end - k,
            {
                chunk.push(self.buffer[k]);
                assert(chunk@ =~= self.text().subrange(start as int, k + 1));
                k = k + 1;
            }
            let row = force_width(string_of(chunk.as_slice()), w);
            assert(row@ == rows[i as int]) by {
                assert((i + 1) * w == i * w + w) by (nonlinear_arith);
            }
            out.push(row);
            if i + 1 < count {
                proof {
                    lemma_row_start((i + 1) as nat, len as nat, w as nat);
                    assert((i + 1) * w == i * w + w) by (nonlinear_arith);
                }
                start = start + w;
            }
            i = i + 1;
        }
        assert(out@.map_values(|row: String| row@) =~= rows);
        out
    }

    /// (width, rows needed to show the text).
    fn get_size(&self) -> (r: (usize, usize))
        ensures
            r.0 == self.width(),
            r.1 == row_count(self.text().len(), self.width()),
    {
        let len = self.buffer.len();
        let rows: usize = if len == 0 {
            1
        } else {
            (len - 1) / self.target_width + 1
        };
        (self.target_width, rows)
    }

    /// (column, row) of the cursor in the wrapped text.
    fn get_cursor_pos(&self) -> (r: (usize, usize))
        ensures
            r.0 == self.cursor() % self.width(),
            r.1 == self.cursor() / self.width(),
    {
        (self.cursor % self.target_width, self.cursor / self.target_width)
    }

    fn set_width(&mut self, new_w: usize)
        ensures
            final(self).text() == old(self).text(),
            final(self).cursor() == old(self).cursor(),
            final(self).width() == new_w,
    {
        self.target_width = new_w;
    }

    /// The height of an input line follows from its text: this changes nothing.
    fn set_height(&mut self, _new_h: usize)
        ensures
            *final(self) == *old(self),
    {
    }
}

} // verus!
