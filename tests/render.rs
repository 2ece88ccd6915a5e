use replay::color::Color;
use replay::highlight::{HighlightEvent, HighlightEventWrapper};
use replay::render::{error_plan, hay_plan, query_colors, regex_query_colors, split_lines, DrawOp};

#[test]
fn brackets_take_depth_colors() {
    let c = regex_query_colors("(a(b)c)");
    assert_eq!(
        c,
        vec![
            Color::Green,
            Color::Reset,
            Color::Yellow,
            Color::Reset,
            Color::Yellow,
            Color::Reset,
            Color::Green
        ]
    );
}

#[test]
fn unbalanced_brackets_clamp_at_zero() {
    let c = regex_query_colors("())(");
    assert_eq!(c, vec![Color::Green, Color::Green, Color::Grey, Color::Green]);
    let c = regex_query_colors(")))");
    assert_eq!(c, vec![Color::Grey; 3]);
}

#[test]
fn deep_brackets_wrap_round_the_table() {
    let c = regex_query_colors("(((((((");
    assert_eq!(c[5], Color::Grey);
    assert_eq!(c[6], Color::Green);
}

#[test]
fn syntax_colors_from_the_tokenizer() {
    assert_eq!(regex_query_colors("a|b"), vec![Color::Reset, Color::DarkYellow, Color::Reset]);
    assert_eq!(regex_query_colors("^a"), vec![Color::Magenta, Color::Reset]);
    assert_eq!(regex_query_colors(""), Vec::<Color>::new());
}

#[test]
fn multibyte_character_takes_its_last_byte_color() {
    let mut w = HighlightEventWrapper::from_events(vec![
        HighlightEvent::Source { start: 0, end: 1 },
        HighlightEvent::Start(0),
        HighlightEvent::Source { start: 1, end: 3 },
        HighlightEvent::End,
    ]);
    assert_eq!(query_colors("éa", &mut w), vec![Color::Blue, Color::Blue]);
    let mut w = HighlightEventWrapper::from_events(vec![
        HighlightEvent::Start(0),
        HighlightEvent::Source { start: 0, end: 1 },
        HighlightEvent::End,
        HighlightEvent::Source { start: 1, end: 2 },
    ]);
    assert_eq!(query_colors("éa", &mut w), vec![Color::Reset, Color::Reset]);
}

#[test]
fn nested_match_plan() {
    let ops = hay_plan(3, &vec![vec![(0, 3), (1, 2)]]);
    let g = |color, col, row, ch| DrawOp::Glyph { color, col, row, ch };
    let expected = vec![
        DrawOp::Text { color: Color::Reset, col: 0, row: 0, start: 0, end: 3 },
        DrawOp::Text { color: Color::Grey, col: 0, row: 0, start: 0, end: 3 },
        DrawOp::Text { color: Color::Green, col: 1, row: 0, start: 1, end: 2 },
        g(Color::Grey, 0, 1, '~'),
        g(Color::Grey, 1, 1, '~'),
        g(Color::Grey, 2, 1, '|'),
        g(Color::Grey, 0, 1, '|'),
        g(Color::Grey, 0, 2, '|'),
        DrawOp::Number { color: Color::Grey, col: 0, row: 3, value: 0 },
        g(Color::Green, 1, 2, '|'),
        g(Color::Green, 1, 2, '|'),
        DrawOp::Number { color: Color::Green, col: 1, row: 3, value: 1 },
    ];
    assert_eq!(ops, expected);
}

#[test]
fn no_match_plan_is_the_plain_text() {
    assert_eq!(
        hay_plan(4, &Vec::new()),
        vec![DrawOp::Text { color: Color::Reset, col: 0, row: 0, start: 0, end: 4 }]
    );
}

#[test]
fn error_plan_lists_message_lines() {
    let ops = error_plan("line one\nline two\r\n");
    let line = |color, row, text: &str| DrawOp::Line { color, col: 0, row, text: text.chars().collect() };
    assert_eq!(
        ops,
        vec![
            line(Color::DarkRed, 0, "ERROR"),
            line(Color::Reset, 1, "line one"),
            line(Color::Reset, 2, "line two"),
        ]
    );
}

#[test]
fn lines_split_like_str_lines() {
    for s in ["", "a", "a\n", "a\n\nb", "\r", "x\r\ny", "\n"] {
        let expected: Vec<Vec<char>> = s.lines().map(|l| l.chars().collect()).collect();
        assert_eq!(split_lines(s), expected, "{:?}", s);
    }
}
