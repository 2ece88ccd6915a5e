use replay::change::Change;
use replay::color::Color;
use replay::editor::{Field, Key, KeyPress, LEFT_PADDING, LINES_BETWEEN};
use replay::persist::Session;
use replay::App;

fn press(key: Key) -> KeyPress {
    KeyPress { key, control: false }
}

fn ctrl(ch: char) -> KeyPress {
    KeyPress { key: Key::Char(ch), control: true }
}

#[test]
fn typing_edits_the_active_field() {
    let mut app = App::new(Session::scratch());
    assert_eq!(app.handle_key_event(press(Key::Char('a'))), Change { content: true, cursor: true });
    app.handle_key_event(press(Key::Char('b')));
    app.handle_key_event(ctrl('h'));
    app.handle_key_event(press(Key::Backspace));
    assert_eq!(app.session().regex_query.string, "b");
    assert_eq!(app.session().regex_query.cursor, 0);
    assert_eq!(app.pos(), (LEFT_PADDING, 0));
}

#[test]
fn switching_fields() {
    let mut app = App::new(Session::scratch());
    assert_eq!(app.handle_key_event(press(Key::Tab)), Change::new().cursor());
    assert_eq!(app.field(), Field::TestString);
    app.handle_key_event(press(Key::Char('z')));
    assert_eq!(app.session().test_string.string, "z");
    assert_eq!(app.session().regex_query.string, "");
    assert_eq!(app.pos(), (LEFT_PADDING + 1, LINES_BETWEEN));
    app.handle_key_event(ctrl('k'));
    assert_eq!(app.field(), Field::RegexQuery);
    app.handle_key_event(press(Key::Down));
    assert_eq!(app.field(), Field::TestString);
}

#[test]
fn control_arrows_jump() {
    let mut app = App::new(Session::scratch());
    for ch in "abc".chars() {
        app.handle_key_event(press(Key::Char(ch)));
    }
    app.handle_key_event(KeyPress { key: Key::Left, control: true });
    assert_eq!(app.session().regex_query.cursor, 0);
    app.handle_key_event(KeyPress { key: Key::Right, control: true });
    assert_eq!(app.session().regex_query.cursor, 3);
    app.handle_key_event(press(Key::Left));
    app.handle_key_event(ctrl('l'));
    assert_eq!(app.session().regex_query.cursor, 3);
}

#[test]
fn escape_asks_to_stop() {
    let mut app = App::new(Session::scratch());
    assert!(!app.is_exit());
    assert_eq!(app.handle_key_event(ctrl('x')), Change::new());
    assert_eq!(app.handle_key_event(press(Key::Other)), Change::new());
    assert!(!app.is_exit());
    assert_eq!(app.handle_key_event(press(Key::Esc)), Change::new());
    assert!(app.is_exit());
    assert_eq!(app.into_session().regex_query.string, "");
}

#[test]
fn pattern_field_colors() {
    let mut app = App::new(Session::scratch());
    for ch in "(a)".chars() {
        app.handle_key_event(press(Key::Char(ch)));
    }
    assert_eq!(app.draw_regex_query(), vec![Color::Green, Color::Reset, Color::Green]);
}
