use replay::color::{layer_color, Color};
use replay::layering::{assign_layers, Group};

fn layers(spans: &[(usize, usize)]) -> (usize, Vec<usize>) {
    let (max, groups) = assign_layers(&spans.to_vec());
    for (g, s) in groups.iter().zip(spans) {
        assert_eq!((g.start, g.end), *s);
    }
    (max, groups.iter().map(|g| g.layer).collect())
}

#[test]
fn disjoint_spans_all_on_layer_zero() {
    assert_eq!(layers(&[(0, 2), (2, 4), (5, 9)]), (0, vec![0, 0, 0]));
}

#[test]
fn siblings_inside_a_span_share_a_layer() {
    assert_eq!(layers(&[(0, 10), (2, 5), (6, 8)]), (1, vec![0, 1, 1]));
}

#[test]
fn strictly_nested_spans_stack_up() {
    assert_eq!(layers(&[(0, 10), (2, 8), (4, 6)]), (2, vec![0, 1, 2]));
}

#[test]
fn adjacent_span_has_closed() {
    assert_eq!(layers(&[(0, 10), (2, 5), (5, 8)]), (1, vec![0, 1, 1]));
}

#[test]
fn empty_capture_list() {
    let (max, groups) = assign_layers(&Vec::new());
    assert_eq!(max, 0);
    assert_eq!(groups, Vec::<Group>::new());
}

#[test]
fn layer_colors_wrap_round_the_table() {
    assert_eq!(layer_color(0), Color::Grey);
    assert_eq!(layer_color(1), Color::Green);
    assert_eq!(layer_color(5), Color::Cyan);
    assert_eq!(layer_color(6), Color::Grey);
    assert_eq!(layer_color(7), Color::Green);
}
