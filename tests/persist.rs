use replay::persist::{
    decimal_chars, parse_field, parse_session, parse_usize, validate_name, Error, FormatError,
    SaveAction, Session, SessionName,
};

fn chars(s: &str) -> Vec<char> {
    s.chars().collect()
}

#[test]
fn names_without_separators_are_valid() {
    assert_eq!(validate_name("work-1"), Ok(()));
    assert_eq!(validate_name(""), Ok(()));
}

#[test]
fn names_with_separators_are_refused() {
    assert_eq!(validate_name("a b"), Err(Error::InvalidName(' ')));
    assert_eq!(validate_name("x/y\\z"), Err(Error::InvalidName('/')));
    assert_eq!(validate_name("éé\\"), Err(Error::InvalidName('\\')));
}

#[test]
fn cursor_positions() {
    assert_eq!(parse_usize(&chars("42")), Some(42));
    assert_eq!(parse_usize(&chars("+7")), Some(7));
    assert_eq!(parse_usize(&chars("18446744073709551615")), Some(usize::MAX));
    assert_eq!(parse_usize(&chars("18446744073709551616")), None);
    assert_eq!(parse_usize(&chars("")), None);
    assert_eq!(parse_usize(&chars("+")), None);
    assert_eq!(parse_usize(&chars("-1")), None);
    assert_eq!(parse_usize(&chars("1a")), None);
}

#[test]
fn fields() {
    let f = parse_field(&chars("3:a:b")).unwrap();
    assert_eq!((f.string.as_str(), f.cursor), ("a:b", 3));
    assert_eq!(parse_field(&chars("abc")).err(), Some(Error::InvalidFormat(FormatError::Separator)));
    assert_eq!(parse_field(&chars("x:abc")).err(), Some(Error::InvalidFormat(FormatError::Cursor)));
}

#[test]
fn session_text_has_two_lines() {
    let (q, t) = parse_session("2:(a)\n0:abc").unwrap();
    assert_eq!((q.string.as_str(), q.cursor), ("(a)", 2));
    assert_eq!((t.string.as_str(), t.cursor), ("abc", 0));
    assert_eq!(parse_session("1:a").err(), Some(Error::InvalidFormat(FormatError::Lines)));
    assert_eq!(parse_session("1:a\n2:b\n").err(), Some(Error::InvalidFormat(FormatError::Lines)));
    assert_eq!(parse_session("1:a\nb").err(), Some(Error::InvalidFormat(FormatError::Separator)));
}

#[test]
fn fetch_named_session() {
    let s = Session::fetch("n".to_string(), Some("1:a\n0:")).unwrap();
    assert_eq!(s.name, SessionName::Name("n".to_string()));
    assert_eq!((s.regex_query.string.as_str(), s.regex_query.cursor), ("a", 1));
    assert_eq!((s.test_string.string.as_str(), s.test_string.cursor), ("", 0));
    let blank = Session::fetch("n".to_string(), None).unwrap();
    assert_eq!(blank.regex_query.string, "");
    assert_eq!(Session::fetch("a/b".to_string(), None).err(), Some(Error::InvalidName('/')));
}

#[test]
fn scratch_session_is_blank() {
    let s = Session::scratch();
    assert_eq!(s.name, SessionName::Scratch);
    assert_eq!(s.regex_query.string, "");
    assert_eq!(s.test_string.cursor, 0);
    assert_eq!(s.save_action(), SaveAction::Skip);
}

#[test]
fn save_writes_or_removes() {
    let mut s = Session::fetch("w".to_string(), None).unwrap();
    assert_eq!(s.save_action(), SaveAction::Remove("w".to_string()));
    s.regex_query.string = "a+".to_string();
    s.regex_query.cursor = 12;
    assert_eq!(s.save_action(), SaveAction::Write("w".to_string(), "12:a+\n0:".to_string()));
    match s.save_action() {
        SaveAction::Write(_, text) => {
            let (q, t) = parse_session(&text).unwrap();
            assert_eq!((q.string.as_str(), q.cursor, t.string.as_str()), ("a+", 12, ""));
        }
        other => panic!("{:?}", other),
    }
}

#[test]
fn decimal_digits() {
    assert_eq!(decimal_chars(0), chars("0"));
    assert_eq!(decimal_chars(1234), chars("1234"));
    assert_eq!(decimal_chars(usize::MAX), chars(&usize::MAX.to_string()));
}

#[test]
fn session_titles() {
    assert_eq!(SessionName::Scratch.title(), "--- <scratch> ---");
    assert_eq!(SessionName::Name("x".to_string()).title(), "--- x ---");
}
