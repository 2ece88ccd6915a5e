use replay::cache::{Cache, CapturesCache, CompiledRegex};
use replay::color::Color;
use replay::editor::App;
use replay::persist::Session;
use replay::render::DrawOp;

fn lookup(c: &mut Cache, p: &str, h: &str) -> Result<Vec<Vec<(usize, usize)>>, String> {
    c.get_or_init(p, h).map(|v| v.clone()).map_err(|e| e.message())
}

#[test]
fn nested_groups_end_to_end() {
    let mut c = Cache::new();
    assert_eq!(lookup(&mut c, "(a(b)c)", "abc"), Ok(vec![vec![(0, 3), (0, 3), (1, 2)]]));
}

#[test]
fn repeated_lookup_returns_the_same() {
    let mut c = Cache::new();
    let first = lookup(&mut c, "a(b)?", "ab a");
    let second = lookup(&mut c, "a(b)?", "ab a");
    assert_eq!(first, second);
    assert_eq!(first, Ok(vec![vec![(0, 2), (1, 2)], vec![(3, 4)]]));
}

#[test]
fn same_pattern_other_haystack() {
    let mut c = Cache::new();
    assert_eq!(lookup(&mut c, "b+", "abba"), Ok(vec![vec![(1, 3)]]));
    assert_eq!(lookup(&mut c, "b+", "xyz"), Ok(vec![]));
    assert_eq!(lookup(&mut c, "b+", "abba"), Ok(vec![vec![(1, 3)]]));
}

#[test]
fn compiled_regex_reports_errors() {
    assert!(CompiledRegex::new("a(b)").is_ok());
    let e = CompiledRegex::new("(a").err().unwrap();
    assert_eq!(e.message(), regex::Regex::new("(a").unwrap_err().to_string());
}

#[test]
fn invalid_pattern_is_an_error_every_time() {
    let mut c = Cache::new();
    let e1 = lookup(&mut c, "(a", "a").unwrap_err();
    let e2 = lookup(&mut c, "(a", "b").unwrap_err();
    assert!(!e1.is_empty());
    assert_eq!(e1, e2);
}

#[test]
fn captures_cache_stores_per_haystack() {
    let re = CompiledRegex::new("a").ok().expect("compiles");
    let mut c = CapturesCache::new();
    assert_eq!(c.get_or_init(&re, "aa").clone(), vec![vec![(0, 1)], vec![(1, 2)]]);
    assert_eq!(c.get_or_init(&re, "b").clone(), Vec::<Vec<(usize, usize)>>::new());
    assert_eq!(c.get_or_init(&re, "aa").clone(), vec![vec![(0, 1)], vec![(1, 2)]]);
}

#[test]
fn invalid_pattern_draws_error_lines() {
    let mut s = Session::scratch();
    s.regex_query.string = "(a".to_string();
    s.test_string.string = "abc".to_string();
    let mut app = App::new(s);
    let ops = app.draw_hay();
    assert_eq!(
        ops[0],
        DrawOp::Line { color: Color::DarkRed, col: 0, row: 0, text: "ERROR".chars().collect() }
    );
    let message = regex::Regex::new("(a").unwrap_err().to_string();
    let lines: Vec<&str> = message.lines().collect();
    assert!(!lines.is_empty());
    assert_eq!(ops.len(), 1 + lines.len());
    for (i, op) in ops.iter().enumerate().skip(1) {
        match op {
            DrawOp::Line { color, col, row, text } => {
                assert_eq!((*color, *col, *row), (Color::Reset, 0, i));
                assert_eq!(text.iter().collect::<String>(), lines[i - 1]);
            }
            other => panic!("unexpected step {:?}", other),
        }
    }
}

#[test]
fn valid_pattern_draws_layers() {
    let mut s = Session::scratch();
    s.regex_query.string = "(a(b)c)".to_string();
    s.test_string.string = "abc".to_string();
    let mut app = App::new(s);
    let ops = app.draw_hay();
    let numbers: Vec<(usize, usize, usize)> = ops
        .iter()
        .filter_map(|op| match op {
            DrawOp::Number { col, row, value, .. } => Some((*col, *row, *value)),
            _ => None,
        })
        .collect();
    assert_eq!(numbers, vec![(0, 4, 0), (0, 4, 1), (1, 4, 2)]);
}
