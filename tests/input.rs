use replay::change::Change;
use replay::input::{Edit, Input};

fn field(s: &str, cursor: usize) -> Input {
    Input { string: s.to_string(), cursor }
}

#[test]
fn insert_at_cursor() {
    let mut i = field("ac", 1);
    let ch = i.insert('b');
    assert_eq!(i.string, "abc");
    assert_eq!(i.cursor, 2);
    assert!(ch.content && ch.cursor);
}

#[test]
fn insert_past_end_appends() {
    let mut i = field("ab", 9);
    i.insert('é');
    assert_eq!(i.string, "abé");
    assert_eq!(i.cursor, 3);
}

#[test]
fn insert_multibyte_by_character_position() {
    let mut i = field("éé", 1);
    i.insert('x');
    assert_eq!(i.string, "éxé");
    assert_eq!(i.cursor, 2);
}

#[test]
fn delete_before_cursor() {
    let mut i = field("abc", 2);
    let ch = i.delete_char();
    assert_eq!(i.string, "ac");
    assert_eq!(i.cursor, 1);
    assert_eq!(ch, Change { content: true, cursor: true });
}

#[test]
fn delete_at_start_does_nothing() {
    let mut i = field("abc", 0);
    let ch = i.delete_char();
    assert_eq!(i.string, "abc");
    assert_eq!(i.cursor, 0);
    assert_eq!(ch, Change::new());
}

#[test]
fn cursor_moves_stay_in_the_text() {
    let mut i = field("ab", 0);
    i.move_cursor_left();
    assert_eq!(i.cursor, 0);
    i.move_cursor_right();
    i.move_cursor_right();
    i.move_cursor_right();
    assert_eq!(i.cursor, 2);
    i.move_cursor_start();
    assert_eq!(i.cursor, 0);
    let ch = i.move_cursor_end();
    assert_eq!(i.cursor, 2);
    assert_eq!(ch, Change::new().cursor());
}

#[test]
fn end_counts_bytes() {
    let mut i = field("éa", 0);
    i.move_cursor_end();
    assert_eq!(i.cursor, 3);
    i.move_cursor_left();
    assert_eq!(i.cursor, 2);
}

#[test]
fn apply_dispatches_edits() {
    let mut i = Input::default();
    assert_eq!(i.apply(Edit::Insert('x')), Change { content: true, cursor: true });
    assert_eq!(i.apply(Edit::Left), Change { content: false, cursor: true });
    assert_eq!(i.cursor, 0);
    assert_eq!(i.apply(Edit::Delete), Change::new());
    assert_eq!(i.string, "x");
}

#[test]
fn change_builders() {
    let c = Change::new();
    assert!(!c.content && !c.cursor);
    assert_eq!(Change::default(), c);
    assert_eq!(c.content(), Change { content: true, cursor: false });
    assert_eq!(c.cursor().content(), Change { content: true, cursor: true });
}
