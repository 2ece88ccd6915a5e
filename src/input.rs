use vstd::prelude::*;

use crate::change::Change;
use crate::text::{byte_len, chars_of, string_from_chars};

verus! {

/// A one-line text field with a cursor counted in characters.
pub struct Input {
    pub string: String,
    pub cursor: usize,
}

/// `n` clamped to at most `max`.
pub open spec fn clamp(n: int, max: int) -> int {
    if n < 0 {
        0
    } else if n > max {
        max
    } else {
        n
    }
}

/// One editing operation on a text field.
#[derive(Clone, Copy, Debug, PartialEq, Eq, Structural)]
pub enum Edit {
    Insert(char),
    Delete,
    Left,
    Right,
    Start,
    End,
}

/// The cursor one step right of `c`, short of overflow.
pub open spec fn step_right(c: usize) -> int {
    if c < usize::MAX {
        c + 1
    } else {
        usize::MAX as int
    }
}

/// The text and cursor of a field after an edit.
pub open spec fn edited(s: Seq<char>, c: usize, e: Edit) -> (Seq<char>, int) {
    match e {
        Edit::Insert(ch) => {
            let k = clamp(c as int, s.len() as int);
            (s.take(k) + seq![ch] + s.skip(k), clamp(step_right(c), s.len() + 1 as int))
        },
        Edit::Delete => if c > 0 {
            let t = s.take(clamp(c - 1, s.len() as int)) + s.skip(clamp(c as int, s.len() as int));
            (t, clamp(c - 1, t.len() as int))
        } else {
            (s, c as int)
        },
        Edit::Left => (s, clamp(c - 1, s.len() as int)),
        Edit::Right => (s, clamp(step_right(c), s.len() as int)),
        Edit::Start => (s, 0),
        Edit::End => (s, (byte_len(s) as usize) as int),
    }
}

/// What an edit reports as changed: an insertion changes text and cursor, a
/// deletion both unless the cursor is at the start, a move only the cursor.
pub open spec fn edit_change(c: usize, e: Edit) -> Change {
    match e {
        Edit::Insert(_) => Change { content: true, cursor: true },
        Edit::Delete => if c > 0 {
            Change { content: true, cursor: true }
        } else {
            Change { content: false, cursor: false }
        },
        _ => Change { content: false, cursor: true },
    }
}

impl Input {
    /// Applies one edit.
    pub fn apply(&mut self, e: Edit) -> (r: Change)
        ensures
            (final(self).string@, final(self).cursor as int) == edited(
                old(self).string@,
                old(self).cursor,
                e,
            ),
            r == edit_change(old(self).cursor, e),
    {
        match e {
            Edit::Insert(ch) => self.insert(ch),
            Edit::Delete => self.delete_char(),
            Edit::Left => self.move_cursor_left(),
            Edit::Right => self.move_cursor_right(),
            Edit::Start => self.move_cursor_start(),
            Edit::End => self.move_cursor_end(),
        }
    }

    /// Inserts a character at the cursor (at the end if the cursor is past
    /// it) and moves the cursor right.
    pub fn insert(&mut self, ch: char) -> (r: Change)
        ensures
            ({
                let s = old(self).string@;
                let k = clamp(old(self).cursor as int, s.len() as int);
                &&& final(self).string@ == s.take(k) + seq![ch] + s.skip(k)
                &&& final(self).cursor == clamp(
                    if old(self).cursor < usize::MAX {
                        old(self).cursor + 1
                    } else {
                        usize::MAX as int
                    },
                    s.len() + 1 as int,
                )
            }),
            r.content && r.cursor,
    {
        let chars = chars_of(self.string.as_str());
        let k: usize = if self.cursor < chars.len() {
            self.cursor
        } else {
            chars.len()
        };
        let mut out: Vec<char> = Vec::new();
        let mut i: usize = 0;
        while i < chars.len()
            invariant
                i <= chars@.len(),
                k <= chars@.len(),
                out@ == if i <= k {
                    chars@.take(i as int)
                } else {
                    chars@.take(k as int) + seq![ch] + chars@.subrange(k as int, i as int)
                },
            decreases chars@.len() - i,
        {
            if i == k {
                out.push(ch);
            }
            out.push(chars[i]);
            i = i + 1;
            assert(out@ =~= if i <= k {
                chars@.take(i as int)
            } else {
                chars@.take(k as int) + seq![ch] + chars@.subrange(k as int, i as int)
            });
        }
        if k == chars.len() {
            out.push(ch);
        }
        assert(out@ =~= chars@.take(k as int) + seq![ch] + chars@.skip(k as int));
        self.string = string_from_chars(&out);
        self.move_cursor_right();
        Change::new().cursor().content()
    }

    /// Deletes the character before the cursor and moves the cursor left; with
    /// the cursor at the start, does nothing.
    pub fn delete_char(&mut self) -> (r: Change)
        ensures
            ({
                let s = old(self).string@;
                let c = old(self).cursor as int;
                if c > 0 {
                    let t = s.take(clamp(c - 1, s.len() as int)) + s.skip(clamp(c, s.len() as int));
                    &&& final(self).string@ == t
                    &&& final(self).cursor == clamp(c - 1, t.len() as int)
                    &&& r.content && r.cursor
                } else {
                    &&& final(self).string@ == s
                    &&& final(self).cursor == old(self).cursor
                    &&& !r.content && !r.cursor
                }
            }),
    {
        if self.cursor > 0 {
            let chars = chars_of(self.string.as_str());
            let n = chars.len();
            let a: usize = if self.cursor - 1 < n {
                self.cursor - 1
            } else {
                n
            };
            let b: usize = if self.cursor < n {
                self.cursor
            } else {
                n
            };
            let mut out: Vec<char> = Vec::new();
            let mut i: usize = 0;
            while i < a
                invariant
                    i <= a <= n,
                    n == chars@.len(),
                    out@ == chars@.take(i as int),
                decreases a - i,
            {
                out.push(chars[i]);
                i = i + 1;
                assert(out@ =~= chars@.take(i as int));
            }
            let mut j: usize = b;
            while j < n
                invariant
                    a <= n,
                    b <= j <= n,
                    n == chars@.len(),
                    out@ == chars@.take(a as int) + chars@.subrange(b as int, j as int),
                decreases n - j,
            {
                out.push(chars[j]);
                j = j + 1;
                assert(out@ =~= chars@.take(a as int) + chars@.subrange(b as int, j as int));
            }
            assert(out@ =~= chars@.take(a as int) + chars@.skip(b as int));
            self.string = string_from_chars(&out);
            self.move_cursor_left();
            Change::new().content().cursor()
        } else {
            Change::new()
        }
    }

    /// Moves the cursor to the byte length of the text.
    pub fn move_cursor_end(&mut self) -> (r: Change)
        ensures
            final(self).string == old(self).string,
            final(self).cursor == byte_len(old(self).string@) as usize,
            r.cursor && !r.content,
    {
        self.cursor = self.string.as_str().len();
        Change::new().cursor()
    }

    /// Moves the cursor to the start.
    pub fn move_cursor_start(&mut self) -> (r: Change)
        ensures
            final(self).string == old(self).string,
            final(self).cursor == 0,
            r.cursor && !r.content,
    {
        self.cursor = 0;
        Change::new().cursor()
    }

    /// Moves the cursor one character left, staying within the text.
    pub fn move_cursor_left(&mut self) -> (r: Change)
        ensures
            final(self).string == old(self).string,
            final(self).cursor == clamp(old(self).cursor - 1, old(self).string@.len() as int),
            r.cursor && !r.content,
    {
        let moved = if self.cursor > 0 {
            self.cursor - 1
        } else {
            0
        };
        self.cursor = self.clamp_cursor(moved);
        Change::new().cursor()
    }

    /// Moves the cursor one character right, staying within the text.
    pub fn move_cursor_right(&mut self) -> (r: Change)
        ensures
            final(self).string == old(self).string,
            final(self).cursor == clamp(
                if old(self).cursor < usize::MAX {
                    old(self).cursor + 1
                } else {
                    usize::MAX as int
                },
                old(self).string@.len() as int,
            ),
            r.cursor && !r.content,
    {
        let moved = if self.cursor < usize::MAX {
            self.cursor + 1
        } else {
            usize::MAX
        };
        self.cursor = self.clamp_cursor(moved);
        Change::new().cursor()
    }

    fn clamp_cursor(&self, pos: usize) -> (r: usize)
        ensures
            r == clamp(pos as int, self.string@.len() as int),
    {
        let n = chars_of(self.string.as_str()).len();
        if pos > n {
            n
        } else {
            pos
        }
    }
}

impl Default for Input {
    /// An empty field with the cursor at the start.
    fn default() -> (r: Self)
        ensures
            r.string@.len() == 0,
            r.cursor == 0,
    {
        Input { string: String::new(), cursor: 0 }
    }
}

} // verus!
