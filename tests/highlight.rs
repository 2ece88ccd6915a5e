use replay::color::Color;
use replay::highlight::{HighlightEvent, HighlightEventWrapper, HighlightGroup};
use replay::syntax::{custom_queries, highlight_configuration};

fn drain(events: Vec<HighlightEvent>) -> Vec<Color> {
    let mut w = HighlightEventWrapper::from_events(events);
    let mut out = Vec::new();
    while let Some(c) = w.next() {
        out.push(c);
    }
    assert_eq!(w.next(), None);
    out
}

#[test]
fn no_open_category_gives_default_color() {
    let out = drain(vec![HighlightEvent::Source { start: 0, end: 3 }]);
    assert_eq!(out, vec![Color::Reset; 3]);
}

#[test]
fn one_open_category_gives_its_color() {
    let out = drain(vec![
        HighlightEvent::Start(2),
        HighlightEvent::Source { start: 0, end: 2 },
        HighlightEvent::End,
        HighlightEvent::Source { start: 2, end: 3 },
    ]);
    assert_eq!(out, vec![Color::DarkMagenta, Color::DarkMagenta, Color::Reset]);
}

#[test]
fn higher_priority_category_wins_until_it_closes() {
    let out = drain(vec![
        HighlightEvent::Start(1),
        HighlightEvent::Start(4),
        HighlightEvent::Source { start: 0, end: 2 },
        HighlightEvent::End,
        HighlightEvent::Source { start: 2, end: 3 },
        HighlightEvent::End,
        HighlightEvent::Start(4),
        HighlightEvent::Start(1),
        HighlightEvent::Source { start: 3, end: 4 },
        HighlightEvent::End,
        HighlightEvent::Source { start: 4, end: 5 },
        HighlightEvent::End,
    ]);
    assert_eq!(
        out,
        vec![Color::Magenta, Color::Magenta, Color::Magenta, Color::Magenta, Color::DarkYellow]
    );
}

#[test]
fn failure_ends_the_stream() {
    let out = drain(vec![
        HighlightEvent::Source { start: 0, end: 1 },
        HighlightEvent::Failed,
        HighlightEvent::Source { start: 1, end: 3 },
    ]);
    assert_eq!(out, vec![Color::Reset]);
}

#[test]
fn unknown_category_has_no_color() {
    let out = drain(vec![HighlightEvent::Start(9), HighlightEvent::Source { start: 0, end: 1 }]);
    assert_eq!(out, vec![Color::Reset]);
}

#[test]
fn source_range_behind_position_emits_nothing() {
    let out = drain(vec![
        HighlightEvent::Source { start: 0, end: 2 },
        HighlightEvent::Source { start: 0, end: 1 },
        HighlightEvent::Source { start: 1, end: 3 },
    ]);
    assert_eq!(out, vec![Color::Reset; 3]);
}

#[test]
fn default_wrapper_is_empty() {
    let mut w = HighlightEventWrapper::default();
    assert_eq!(w.next(), None);
}

#[test]
fn group_priority_and_colors() {
    assert_eq!(HighlightGroup::Flags.rank(), 0);
    assert_eq!(HighlightGroup::Group.rank(), 6);
    assert_eq!(HighlightGroup::from_rank(3), Some(HighlightGroup::CharacterClass));
    assert_eq!(HighlightGroup::from_rank(7), None);
    assert_eq!(HighlightGroup::Flags.color(), Color::Blue);
    assert_eq!(HighlightGroup::Operator.color(), Color::DarkYellow);
    assert_eq!(HighlightGroup::Escape.color(), Color::Black);
}

#[test]
fn group_names_in_priority_order() {
    assert_eq!(
        HighlightGroup::group_names(),
        vec!["flags", "anchors", "quantifiers", "character_class", "operator", "escape", "property"]
    );
}

#[test]
fn category_queries_one_per_line() {
    let q = custom_queries();
    let lines: Vec<&str> = q.split('\n').collect();
    assert_eq!(lines.len(), 4);
    assert_eq!(lines[0], "[ (flags) (inline_flags_group) ] @flags");
    assert_eq!(lines[3], "[ (character_class_escape) (character_class) ] @character_class");
}

#[test]
fn highlighter_sets_up() {
    assert!(highlight_configuration().is_ok());
}

#[test]
fn tokenizer_events_cover_the_pattern() {
    let mut w = HighlightEventWrapper::new("a|b".as_bytes()).expect("highlighter");
    let mut out = Vec::new();
    while let Some(c) = w.next() {
        out.push(c);
    }
    assert_eq!(out, vec![Color::Reset, Color::DarkYellow, Color::Reset]);
}
