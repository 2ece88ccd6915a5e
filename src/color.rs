use vstd::prelude::*;

verus! {

/// A terminal foreground colour, as the draw plan names it.
#[derive(Clone, Copy, Debug, PartialEq, Eq, Structural)]
pub enum Color {
    Reset,
    Grey,
    Green,
    Yellow,
    Blue,
    Magenta,
    Cyan,
    DarkMagenta,
    DarkBlue,
    DarkYellow,
    Black,
    DarkRed,
}

/// Number of entries in the layer colour table.
pub const LAYER_COLOR_COUNT: usize = 6;

/// The layer colour table: the first entry marks a whole match, the others
/// the groups nested in it. Deeper layers wrap round the table.
pub open spec fn layer_color_spec(layer: nat) -> Color {
    let i = layer % 6;
    if i == 0 {
        Color::Grey
    } else if i == 1 {
        Color::Green
    } else if i == 2 {
        Color::Yellow
    } else if i == 3 {
        Color::Blue
    } else if i == 4 {
        Color::Magenta
    } else {
        Color::Cyan
    }
}

/// The colour in which a span of the given nesting layer is drawn.
pub fn layer_color(layer: usize) -> (c: Color)
    ensures
        c == layer_color_spec(layer as nat),
{
    let i: usize = layer % LAYER_COLOR_COUNT;
    if i == 0 {
        Color::Grey
    } else if i == 1 {
        Color::Green
    } else if i == 2 {
        Color::Yellow
    } else if i == 3 {
        Color::Blue
    } else if i == 4 {
        Color::Magenta
    } else {
        Color::Cyan
    }
}

} // verus!
