use vstd::prelude::*;

use crate::cache::{Cache, deep, matched_spans, regex_compiles, regex_error_text};
use crate::change::Change;
use crate::color::Color;
use crate::input::{Edit, edit_change, edited};
use crate::persist::Session;
use crate::render::{
    DrawOp, colored_as, error_plan, hay_ops, hay_plan, is_line, lines_of, regex_query_colors,
    syntax_colors,
};
use crate::text::byte_len;

verus! {

/// Rows between the pattern field and the test-string field.
pub const LINES_BETWEEN: usize = 3;

/// Width of the field titles, at which both fields start.
pub const LEFT_PADDING: usize = 20;

/// The field that has the keyboard.
#[derive(Clone, Copy, Debug, PartialEq, Eq, Structural)]
pub enum Field {
    RegexQuery,
    TestString,
}

/// A key as the editor tells keys apart.
#[derive(Clone, Copy, Debug, PartialEq, Eq, Structural)]
pub enum Key {
    Char(char),
    Backspace,
    Left,
    Right,
    Tab,
    Up,
    Down,
    Esc,
    Other,
}

/// A key press, with whether Control was held.
#[derive(Clone, Copy, Debug, PartialEq, Eq, Structural)]
pub struct KeyPress {
    pub key: Key,
    pub control: bool,
}

/// What a key press asks for.
#[derive(Clone, Copy, Debug, PartialEq, Eq, Structural)]
pub enum Action {
    Edit(Edit),
    Switch,
    Exit,
    Nothing,
}

/// The key bindings.
pub open spec fn action_of(k: KeyPress) -> Action {
    match k.key {
        Key::Char(ch) => if k.control {
            if ch == 'h' {
                Action::Edit(Edit::Left)
            } else if ch == 'j' || ch == 'k' || ch == 'n' || ch == 'p' {
                Action::Switch
            } else if ch == 'l' {
                Action::Edit(Edit::Right)
            } else {
                Action::Nothing
            }
        } else {
            Action::Edit(Edit::Insert(ch))
        },
        Key::Backspace => Action::Edit(Edit::Delete),
        Key::Left => if k.control {
            Action::Edit(Edit::Start)
        } else {
            Action::Edit(Edit::Left)
        },
        Key::Right => if k.control {
            Action::Edit(Edit::End)
        } else {
            Action::Edit(Edit::Right)
        },
        Key::Tab | Key::Up | Key::Down => Action::Switch,
        Key::Esc => Action::Exit,
        Key::Other => Action::Nothing,
    }
}

/// Which action a key press asks for.
pub fn action(k: KeyPress) -> (r: Action)
    ensures
        r == action_of(k),
{
    match k.key {
        Key::Char(ch) => if k.control {
            if ch == 'h' {
                Action::Edit(Edit::Left)
            } else if ch == 'j' || ch == 'k' || ch == 'n' || ch == 'p' {
                Action::Switch
            } else if ch == 'l' {
                Action::Edit(Edit::Right)
            } else {
                Action::Nothing
            }
        } else {
            Action::Edit(Edit::Insert(ch))
        },
        Key::Backspace => Action::Edit(Edit::Delete),
        Key::Left => if k.control {
            Action::Edit(Edit::Start)
        } else {
            Action::Edit(Edit::Left)
        },
        Key::Right => if k.control {
            Action::Edit(Edit::End)
        } else {
            Action::Edit(Edit::Right)
        },
        Key::Tab | Key::Up | Key::Down => Action::Switch,
        Key::Esc => Action::Exit,
        Key::Other => Action::Nothing,
    }
}

/// The state of the interactive editor: the session's two fields, the
/// field that has the keyboard, the match cache, and whether it is done.
pub struct App {
    session: Session,
    field: Field,
    regex_cache: Cache,
    exit: bool,
}

impl App {
    pub closed spec fn wf(&self) -> bool {
        self.regex_cache.wf()
    }

    pub closed spec fn spec_session(&self) -> Session {
        self.session
    }

    pub closed spec fn spec_field(&self) -> Field {
        self.field
    }

    pub closed spec fn spec_exit(&self) -> bool {
        self.exit
    }

    pub closed spec fn spec_cache(&self) -> Cache {
        self.regex_cache
    }

    /// A fresh editor on the session, with the pattern field active.
    pub fn new(session: Session) -> (r: Self)
        ensures
            r.wf(),
            r.spec_session() == session,
            r.spec_field() == Field::RegexQuery,
            !r.spec_exit(),
            forall|p: Seq<char>, h: Seq<char>| r.spec_cache().outcome(p, h) is None,
    {
        App { session, field: Field::RegexQuery, regex_cache: Cache::new(), exit: false }
    }

    pub fn session(&self) -> (r: &Session)
        ensures
            *r == self.spec_session(),
    {
        &self.session
    }

    pub fn into_session(self) -> (r: Session)
        ensures
            r == self.spec_session(),
    {
        self.session
    }

    pub fn field(&self) -> (r: Field)
        ensures
            r == self.spec_field(),
    {
        self.field
    }

    /// Whether the editor was asked to stop.
    pub fn is_exit(&self) -> (r: bool)
        ensures
            r == self.spec_exit(),
    {
        self.exit
    }

    fn exit(&mut self) -> (r: Change)
        ensures
            final(self).spec_exit(),
            final(self).spec_session() == old(self).spec_session(),
            final(self).spec_field() == old(self).spec_field(),
            final(self).spec_cache() == old(self).spec_cache(),
            !r.content && !r.cursor,
    {
        self.exit = true;
        Change::new()
    }

    fn switch(&mut self) -> (r: Change)
        ensures
            final(self).spec_field() == match old(self).spec_field() {
                Field::RegexQuery => Field::TestString,
                Field::TestString => Field::RegexQuery,
            },
            final(self).spec_session() == old(self).spec_session(),
            final(self).spec_exit() == old(self).spec_exit(),
            final(self).spec_cache() == old(self).spec_cache(),
            r.cursor && !r.content,
    {
        self.field = match self.field {
            Field::RegexQuery => Field::TestString,
            Field::TestString => Field::RegexQuery,
        };
        Change::new().cursor()
    }

    /// Handles one key press: edits the active field, switches fields,
    /// asks to stop, or does nothing, and says what changed.
    pub fn handle_key_event(&mut self, k: KeyPress) -> (r: Change)
        ensures
            old(self).wf() ==> final(self).wf(),
            final(self).spec_cache() == old(self).spec_cache(),
            final(self).spec_session().name == old(self).spec_session().name,
            match action_of(k) {
                Action::Edit(e) => {
                    let q = old(self).spec_session().regex_query;
                    let t = old(self).spec_session().test_string;
                    let q2 = final(self).spec_session().regex_query;
                    let t2 = final(self).spec_session().test_string;
                    &&& final(self).spec_field() == old(self).spec_field()
                    &&& final(self).spec_exit() == old(self).spec_exit()
                    &&& old(self).spec_field() == Field::RegexQuery ==> {
                        &&& (q2.string@, q2.cursor as int) == edited(q.string@, q.cursor, e)
                        &&& t2 == t
                        &&& r == edit_change(q.cursor, e)
                    }
                    &&& old(self).spec_field() == Field::TestString ==> {
                        &&& (t2.string@, t2.cursor as int) == edited(t.string@, t.cursor, e)
                        &&& q2 == q
                        &&& r == edit_change(t.cursor, e)
                    }
                },
                Action::Switch => {
                    &&& final(self).spec_field() != old(self).spec_field()
                    &&& final(self).spec_session() == old(self).spec_session()
                    &&& final(self).spec_exit() == old(self).spec_exit()
                    &&& r.cursor && !r.content
                },
                Action::Exit => {
                    &&& final(self).spec_exit()
                    &&& final(self).spec_field() == old(self).spec_field()
                    &&& final(self).spec_session() == old(self).spec_session()
                    &&& !r.content && !r.cursor
                },
                Action::Nothing => {
                    &&& final(self).spec_exit() == old(self).spec_exit()
                    &&& final(self).spec_field() == old(self).spec_field()
                    &&& final(self).spec_session() == old(self).spec_session()
                    &&& !r.content && !r.cursor
                },
            },
    {
        match action(k) {
            Action::Edit(e) => match self.field {
                Field::RegexQuery => self.session.regex_query.apply(e),
                Field::TestString => self.session.test_string.apply(e),
            },
            Action::Switch => self.switch(),
            Action::Exit => self.exit(),
            Action::Nothing => Change::new(),
        }
    }

    /// Where the terminal cursor goes: the column of the active field's
    /// cursor and the row of the field.
    pub fn pos(&self) -> (r: (usize, usize))
        ensures
            ({
                let c = match self.spec_field() {
                    Field::RegexQuery => self.spec_session().regex_query.cursor,
                    Field::TestString => self.spec_session().test_string.cursor,
                };
                &&& r.0 == if c <= usize::MAX - LEFT_PADDING {
                    c + LEFT_PADDING
                } else {
                    usize::MAX as int
                }
                &&& r.1 == match self.spec_field() {
                    Field::RegexQuery => 0,
                    Field::TestString => LINES_BETWEEN,
                }
            }),
    {
        let (c, row) = match self.field {
            Field::RegexQuery => (self.session.regex_query.cursor, 0),
            Field::TestString => (self.session.test_string.cursor, LINES_BETWEEN),
        };
        let col = if c <= usize::MAX - LEFT_PADDING {
            c + LEFT_PADDING
        } else {
            usize::MAX
        };
        (col, row)
    }

    /// The colour of each character of the pattern field.
    pub fn draw_regex_query(&self) -> (r: Vec<Color>)
        ensures
            colored_as(
                r@,
                self.spec_session().regex_query.string@,
                syntax_colors(self.spec_session().regex_query.string@),
            ),
    {
        regex_query_colors(self.session.regex_query.string.as_str())
    }

    /// The plan for the test-string field: the matches of the pattern, from
    /// the cache, or the pattern's compile error.
    pub fn draw_hay(&mut self) -> (r: Vec<DrawOp>)
        requires
            old(self).wf(),
        ensures
            final(self).wf(),
            final(self).spec_session() == old(self).spec_session(),
            final(self).spec_field() == old(self).spec_field(),
            final(self).spec_exit() == old(self).spec_exit(),
            ({
                let p = old(self).spec_session().regex_query.string@;
                let h = old(self).spec_session().test_string.string@;
                &&& Cache::lookup_post(
                    old(self).spec_cache(),
                    final(self).spec_cache(),
                    p,
                    h,
                    final(self).spec_cache().outcome(p, h)->Some_0,
                )
                &&& (final(self).spec_cache().outcome(p, h) matches Some(Ok(_)) <==> regex_compiles(p))
                &&& match final(self).spec_cache().outcome(p, h) {
                    Some(Ok(lists)) => {
                        &&& deep(lists) == matched_spans(p, h)
                        &&& (forall|m: int|
                            0 <= m < lists.len() ==> #[trigger] lists[m]@.len() + 2 <= usize::MAX)
                            ==> r@ == hay_ops(byte_len(h) as usize, lists)
                    },
                    Some(Err(_)) => {
                        &&& r@.len() == 1 + lines_of(regex_error_text(p)).len()
                        &&& is_line(r@[0], Color::DarkRed, 0, seq!['E', 'R', 'R', 'O', 'R'])
                        &&& forall|i: int| 0 <= i < r@.len() ==> #[trigger] r@[i] is Line
                        &&& forall|i: int|
                            0 <= i < lines_of(regex_error_text(p)).len() ==> is_line(
                                #[trigger] r@[i + 1],
                                Color::Reset,
                                i + 1,
                                lines_of(regex_error_text(p))[i],
                            )
                    },
                    None => false,
                }
            }),
    {
        let hay_len = self.session.test_string.string.as_str().len();
        let result = self.regex_cache.get_or_init(
            self.session.regex_query.string.as_str(),
            self.session.test_string.string.as_str(),
        );
        match result {
            Ok(matches) => {
                if lists_fit(matches) {
                    hay_plan(hay_len, matches)
                } else {
                    hay_plan(hay_len, &Vec::new())
                }
            },
            Err(e) => error_plan(e.message().as_str()),
        }
    }
}

/// Whether every capture list is short enough to lay out.
fn lists_fit(lists: &Vec<Vec<(usize, usize)>>) -> (r: bool)
    ensures
        r == forall|m: int| 0 <= m < lists@.len() ==> #[trigger] lists@[m]@.len() + 2 <= usize::MAX,
{
    let mut i: usize = 0;
    while i < lists.len()
        invariant
            i <= lists@.len(),
            forall|m: int| 0 <= m < i ==> #[trigger] lists@[m]@.len() + 2 <= usize::MAX,
        decreases lists@.len() - i,
    {
        if lists[i].len() > usize::MAX - 2 {
            return false;
        }
        i = i + 1;
    }
    true
}

} // verus!
