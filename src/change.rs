use vstd::prelude::*;

verus! {

/// What an input event changed: the text of a field, the cursor, both or neither.
#[derive(Clone, Copy, Debug, PartialEq, Eq, Structural)]
pub struct Change {
    pub content: bool,
    pub cursor: bool,
}

impl Change {
    /// Nothing changed.
    pub fn new() -> (r: Self)
        ensures
            !r.content && !r.cursor,
    {
        Change { content: false, cursor: false }
    }

    /// The same change, with the content marked as changed.
    pub fn content(self) -> (r: Self)
        ensures
            r.content && r.cursor == self.cursor,
    {
        Change { content: true, ..self }
    }

    /// The same change, with the cursor marked as moved.
    pub fn cursor(self) -> (r: Self)
        ensures
            r.cursor && r.content == self.content,
    {
        Change { cursor: true, ..self }
    }
}

impl Default for Change {
    fn default() -> (r: Self)
        ensures
            !r.content && !r.cursor,
    {
        Self::new()
    }
}

} // verus!
