use vstd::prelude::*;

use crate::color::{Color, layer_color, layer_color_spec};
use vstd::utf8::encode_utf8;

use crate::highlight::{HighlightEventWrapper, materialize};
use crate::syntax::pattern_highlight;
use crate::text::chars_of;
use crate::layering::{Group, assign_layers, layer_of, max_layer_of};

verus! {

/// Number of bytes that UTF-8 takes for a character.
pub open spec fn utf8_len(c: char) -> nat {
    if (c as u32) < 0x80 {
        1
    } else if (c as u32) < 0x800 {
        2
    } else if (c as u32) < 0x10000 {
        3
    } else {
        4
    }
}

pub fn len_utf8(c: char) -> (r: usize)
    ensures
        r == utf8_len(c),
{
    let v = c as u32;
    if v < 0x80 {
        1
    } else if v < 0x800 {
        2
    } else if v < 0x10000 {
        3
    } else {
        4
    }
}

/// Byte offset of character `i` of the text.
pub open spec fn byte_offset(chars: Seq<char>, i: int) -> nat
    decreases i,
{
    if i <= 0 {
        0
    } else {
        byte_offset(chars, i - 1) + utf8_len(chars[i - 1])
    }
}

/// Bracket depth before character `i`: each `(` opens a level, each `)`
/// closes one, and a `)` with none open leaves the depth at 0.
pub open spec fn depth_before(chars: Seq<char>, i: int) -> nat
    decreases i,
{
    if i <= 0 {
        0
    } else {
        let d = depth_before(chars, i - 1);
        if chars[i - 1] == '(' {
            d + 1
        } else if chars[i - 1] == ')' {
            if d > 0 {
                (d - 1) as nat
            } else {
                0
            }
        } else {
            d
        }
    }
}

/// The syntax colour of character `i`: the last of the byte colours that
/// fall within the character, or the default colour where the byte colours
/// have run out.
pub open spec fn sampled_color(syntax: Seq<Color>, chars: Seq<char>, i: int) -> Color {
    let a = byte_offset(chars, i);
    let b = byte_offset(chars, i + 1);
    let a2 = if a < syntax.len() {
        a
    } else {
        syntax.len()
    };
    let b2 = if b < syntax.len() {
        b
    } else {
        syntax.len()
    };
    if b2 > a2 {
        syntax[b2 - 1]
    } else {
        Color::Reset
    }
}

/// The colour of character `i` of the pattern field: a bracket takes the
/// colour of the depth it opens or closes; any other character its syntax colour.
pub open spec fn query_color(syntax: Seq<Color>, chars: Seq<char>, i: int) -> Color {
    if chars[i] == '(' {
        layer_color_spec(depth_before(chars, i) + 1)
    } else if chars[i] == ')' {
        layer_color_spec(depth_before(chars, i))
    } else {
        sampled_color(syntax, chars, i)
    }
}

/// A closing bracket with no bracket open keeps the depth at 0 and takes the
/// colour of depth 0, whatever precedes it: an unbalanced pattern is coloured
/// like any other.
pub proof fn lemma_unbalanced_close_clamps(syntax: Seq<Color>, chars: Seq<char>, i: int)
    requires
        0 <= i < chars.len(),
        chars[i] == ')',
        depth_before(chars, i) == 0,
    ensures
        depth_before(chars, i + 1) == 0,
        query_color(syntax, chars, i) == layer_color_spec(0),
{
}

proof fn lemma_sampled_step(syntax: Seq<Color>, chars: Seq<char>, i: int)
    requires
        0 <= i,
    ensures
        byte_offset(chars, i + 1) == byte_offset(chars, i) + utf8_len(chars[i]),
{
}

/// The colour of each character of the pattern field, drawing syntax colours
/// from `syntax`, which is left after the pattern's bytes.
pub fn query_colors(s: &str, syntax: &mut HighlightEventWrapper) -> (r: Vec<Color>)
    requires
        old(syntax).wf(),
    ensures
        final(syntax).wf(),
        r@.len() == s@.len(),
        forall|i: int|
            0 <= i < s@.len() ==> #[trigger] r@[i] == query_color(old(syntax).rest(), s@, i),
{
    let chars = chars_of(s);
    let ghost all = syntax.rest();
    let mut colors: Vec<Color> = Vec::new();
    let mut layer: usize = 0;
    let mut i: usize = 0;
    while i < chars.len()
        invariant
            chars@ == s@,
            i <= chars@.len(),
            syntax.wf(),
            layer == depth_before(chars@, i as int),
            layer <= i,
            colors@.len() == i,
            syntax.rest() == all.skip(
                if byte_offset(chars@, i as int) < all.len() {
                    byte_offset(chars@, i as int) as int
                } else {
                    all.len() as int
                },
            ),
            forall|j: int| 0 <= j < i ==> #[trigger] colors@[j] == query_color(all, chars@, j),
        decreases chars@.len() - i,
    {
        let ch = chars[i];
        let n = len_utf8(ch);
        let ghost a: int = if byte_offset(chars@, i as int) < all.len() {
            byte_offset(chars@, i as int) as int
        } else {
            all.len() as int
        };
        let mut last: Option<Color> = None;
        let mut k: usize = 0;
        let mut done = false;
        while k < n && !done
            invariant
                syntax.wf(),
                0 <= a <= all.len(),
                k <= n,
                done ==> a + k == all.len(),
                a + k <= all.len(),
                syntax.rest() == all.skip(a + k),
                k == 0 <==> last is None,
                k > 0 ==> last == Some(all[a + k - 1]),
            decreases n - k + (if done { 0int } else { 1int }),
        {
            let ghost before = syntax.rest();
            match syntax.next() {
                Some(c) => {
                    assert(before =~= all.skip(a + k));
                    assert(all.skip(a + k)[0] == c);
                    assert(all.skip(a + k + 1) =~= all.skip(a + k).drop_first());
                    last = Some(c);
                    k = k + 1;
                },
                None => {
                    done = true;
                },
            }
        }
        let syntax_color = match last {
            Some(c) => c,
            None => Color::Reset,
        };
        proof {
            lemma_sampled_step(all, chars@, i as int);
        }
        let color = if ch == '(' {
            layer = layer + 1;
            layer_color(layer)
        } else if ch == ')' {
            let c = layer_color(layer);
            layer = if layer > 0 {
                layer - 1
            } else {
                0
            };
            c
        } else {
            syntax_color
        };
        colors.push(color);
        i = i + 1;
    }
    colors
}

/// `colors` colours the pattern field `chars` with the byte colours `syntax`.
pub open spec fn colored_as(colors: Seq<Color>, chars: Seq<char>, syntax: Seq<Color>) -> bool {
    &&& colors.len() == chars.len()
    &&& forall|i: int| 0 <= i < chars.len() ==> #[trigger] colors[i] == query_color(syntax, chars, i)
}

/// The byte colours that the highlighter gives a pattern: none where it
/// yields no events.
pub open spec fn syntax_colors(pattern: Seq<char>) -> Seq<Color> {
    match pattern_highlight(encode_utf8(pattern)) {
        Ok(events) => materialize(events),
        Err(_) => Seq::empty(),
    }
}

/// The colour of each character of the pattern field, with the syntax
/// colours that the highlighter gives the pattern's bytes; where the
/// highlighter yields no events, every character but a bracket keeps the
/// default colour.
pub fn regex_query_colors(s: &str) -> (r: Vec<Color>)
    ensures
        colored_as(r@, s@, syntax_colors(s@)),
{
    let mut syntax = match HighlightEventWrapper::new(s.as_bytes()) {
        Ok(w) => w,
        Err(_) => HighlightEventWrapper::default(),
    };
    let ghost colors = syntax.rest();
    let r = query_colors(s, &mut syntax);
    assert(colored_as(r@, s@, colors));
    r
}

/// One step of the plan for drawing a field. Positions are columns and rows
/// counted from the field's origin.
#[derive(Debug, PartialEq, Eq)]
pub enum DrawOp {
    /// The bytes `start..end` of the field's text.
    Text { color: Color, col: usize, row: usize, start: usize, end: usize },
    /// One character.
    Glyph { color: Color, col: usize, row: usize, ch: char },
    /// A number in decimal.
    Number { color: Color, col: usize, row: usize, value: usize },
    /// A line of text.
    Line { color: Color, col: usize, row: usize, text: Vec<char> },
}

/// The connector of one layered span: a run of `~` under the span with a `|`
/// under its last byte, on the row of its layer; a `|` under its first byte
/// from there down to the row below the deepest layer; its layer number on
/// the row after that.
pub open spec fn group_ops(g: Group, max_layer: nat) -> Seq<DrawOp> {
    let color = layer_color_spec(g.layer as nat);
    let last: int = if g.end > 0 {
        g.end - 1
    } else {
        0
    };
    let tildes: nat = if last > g.start {
        (last - g.start) as nat
    } else {
        0
    };
    let bars: nat = if max_layer + 1 > g.layer {
        (max_layer + 1 - g.layer) as nat
    } else {
        0
    };
    Seq::new(
        tildes,
        |k: int|
            DrawOp::Glyph { color, col: (g.start + k) as usize, row: (g.layer + 1) as usize, ch: '~' },
    ) + seq![DrawOp::Glyph { color, col: last as usize, row: (g.layer + 1) as usize, ch: '|' }]
        + Seq::new(
        bars,
        |k: int|
            DrawOp::Glyph { color, col: g.start, row: (g.layer + 1 + k) as usize, ch: '|' },
    ) + seq![
        DrawOp::Number { color, col: g.start, row: (max_layer + 2) as usize, value: g.layer },
    ]
}

/// The layered span `i` of a capture list.
pub open spec fn layered(spans: Seq<(usize, usize)>, i: int) -> Group {
    Group { start: spans[i].0, end: spans[i].1, layer: layer_of(spans, i) as usize }
}

/// The connectors of the first `k` spans of a capture list.
pub open spec fn connectors(spans: Seq<(usize, usize)>, k: int) -> Seq<DrawOp>
    decreases k,
{
    if k <= 0 {
        Seq::empty()
    } else {
        connectors(spans, k - 1) + group_ops(layered(spans, k - 1), max_layer_of(spans))
    }
}

/// The spans of a capture list redrawn in the colours of their layers.
pub open spec fn span_texts(spans: Seq<(usize, usize)>) -> Seq<DrawOp> {
    Seq::new(
        spans.len(),
        |i: int|
            DrawOp::Text {
                color: layer_color_spec(layer_of(spans, i)),
                col: spans[i].0,
                row: 0,
                start: spans[i].0,
                end: spans[i].1,
            },
    )
}

/// The plan for one capture list: its spans, then their connectors.
pub open spec fn match_ops(spans: Seq<(usize, usize)>) -> Seq<DrawOp> {
    span_texts(spans) + connectors(spans, spans.len() as int)
}

/// The plans of the first `k` capture lists.
pub open spec fn matches_ops(lists: Seq<Vec<(usize, usize)>>, k: int) -> Seq<DrawOp>
    decreases k,
{
    if k <= 0 {
        Seq::empty()
    } else {
        matches_ops(lists, k - 1) + match_ops(lists[k - 1]@)
    }
}

/// The plan for the test-string field: the whole text in the default colour,
/// then each capture list.
pub open spec fn hay_ops(hay_len: usize, lists: Seq<Vec<(usize, usize)>>) -> Seq<DrawOp> {
    seq![DrawOp::Text { color: Color::Reset, col: 0, row: 0, start: 0, end: hay_len }]
        + matches_ops(lists, lists.len() as int)
}

proof fn lemma_layers_bounded(spans: Seq<(usize, usize)>)
    ensures
        spans.len() > 0 ==> max_layer_of(spans) < spans.len(),
        forall|i: int| 0 <= i < spans.len() ==> #[trigger] layer_of(spans, i) <= max_layer_of(spans),
    decreases spans.len(),
{
    if spans.len() > 0 {
        let p = spans.drop_last();
        lemma_layers_bounded(p);
        lemma_layer_below_count(spans, spans.len() - 1);
        assert forall|i: int| 0 <= i < spans.len() implies #[trigger] layer_of(spans, i)
            <= max_layer_of(spans) by {
            if i < spans.len() - 1 {
                assert(spans.take(i + 1) =~= p.take(i + 1));
                assert(layer_of(spans, i) == layer_of(p, i));
            }
        }
    }
}

proof fn lemma_layer_below_count(spans: Seq<(usize, usize)>, i: int)
    requires
        0 <= i < spans.len(),
    ensures
        layer_of(spans, i) <= i,
{
    crate::layering::lemma_stack_after_len(spans.take(i + 1));
}

fn push_connector(ops: &mut Vec<DrawOp>, g: Group, max_layer: usize)
    requires
        max_layer + 2 <= usize::MAX,
        g.layer <= max_layer,
    ensures
        final(ops)@ == old(ops)@ + group_ops(g, max_layer as nat),
{
    let color = layer_color(g.layer);
    let last = if g.end > 0 {
        g.end - 1
    } else {
        0
    };
    let ghost base = ops@;
    let ghost tilde = |k: int|
        DrawOp::Glyph { color, col: (g.start + k) as usize, row: (g.layer + 1) as usize, ch: '~' };
    let mut idx = g.start;
    while idx < last
        invariant
            g.start <= idx,
            idx <= last || idx == g.start,
            color == layer_color_spec(g.layer as nat),
            tilde == (|k: int|
                DrawOp::Glyph { color, col: (g.start + k) as usize, row: (g.layer + 1) as usize, ch: '~' }),
            ops@ == base + Seq::new((idx - g.start) as nat, tilde),
            g.layer <= max_layer,
            max_layer + 2 <= usize::MAX,
        decreases last - idx,
    {
        ops.push(DrawOp::Glyph { color, col: idx, row: g.layer + 1, ch: '~' });
        assert(tilde(idx - g.start) == DrawOp::Glyph { color, col: idx, row: (g.layer + 1) as usize, ch: '~' });
        idx = idx + 1;
        assert(ops@ =~= base + Seq::new((idx - g.start) as nat, tilde));
    }
    ops.push(DrawOp::Glyph { color, col: last, row: g.layer + 1, ch: '|' });
    let ghost mid = ops@;
    let mut line = g.layer + 1;
    while line <= max_layer + 1
        invariant
            g.layer + 1 <= line <= max_layer + 2,
            g.layer <= max_layer,
            max_layer + 2 <= usize::MAX,
            color == layer_color_spec(g.layer as nat),
            ops@ == mid + Seq::new(
                (line - g.layer - 1) as nat,
                |k: int| DrawOp::Glyph { color, col: g.start, row: (g.layer + 1 + k) as usize, ch: '|' },
            ),
        decreases max_layer + 2 - line,
    {
        ops.push(DrawOp::Glyph { color, col: g.start, row: line, ch: '|' });
        line = line + 1;
    }
    ops.push(DrawOp::Number { color, col: g.start, row: max_layer + 2, value: g.layer });
    assert(ops@ =~= base + group_ops(g, max_layer as nat));
}

/// The plan for the test-string field, from the byte length of its text and
/// the capture lists of all matches.
pub fn hay_plan(hay_len: usize, matches: &Vec<Vec<(usize, usize)>>) -> (r: Vec<DrawOp>)
    requires
        forall|m: int| 0 <= m < matches@.len() ==> #[trigger] matches@[m]@.len() + 2 <= usize::MAX,
    ensures
        r@ == hay_ops(hay_len, matches@),
{
    let mut ops: Vec<DrawOp> = Vec::new();
    ops.push(DrawOp::Text { color: Color::Reset, col: 0, row: 0, start: 0, end: hay_len });
    let mut m: usize = 0;
    while m < matches.len()
        invariant
            m <= matches@.len(),
            forall|j: int| 0 <= j < matches@.len() ==> #[trigger] matches@[j]@.len() + 2 <= usize::MAX,
            ops@ == seq![DrawOp::Text { color: Color::Reset, col: 0, row: 0, start: 0, end: hay_len }]
                + matches_ops(matches@, m as int),
        decreases matches@.len() - m,
    {
        let captures = &matches[m];
        let ghost spans = captures@;
        let ghost before = ops@;
        let (max_layer, infos) = assign_layers(captures);
        proof {
            lemma_layers_bounded(spans);
        }
        let mut i: usize = 0;
        while i < infos.len()
            invariant
                infos@.len() == spans.len(),
                forall|j: int|
                    0 <= j < spans.len() ==> #[trigger] infos@[j] == layered(spans, j),
                i <= infos@.len(),
                ops@ == before + span_texts(spans).take(i as int),
            decreases infos@.len() - i,
        {
            let g = infos[i];
            proof {
                lemma_layer_below_count(spans, i as int);
            }
            ops.push(DrawOp::Text { color: layer_color(g.layer), col: g.start, row: 0, start: g.start, end: g.end });
            assert(span_texts(spans).take(i as int + 1) =~= span_texts(spans).take(i as int).push(span_texts(spans)[i as int]));
            i = i + 1;
        }
        assert(span_texts(spans).take(i as int) =~= span_texts(spans));
        let ghost mid = ops@;
        let mut i: usize = 0;
        while i < infos.len()
            invariant
                infos@.len() == spans.len(),
                spans.len() + 2 <= usize::MAX,
                max_layer == max_layer_of(spans),
                spans.len() > 0 ==> max_layer < spans.len(),
                forall|j: int| 0 <= j < spans.len() ==> #[trigger] layer_of(spans, j) <= max_layer_of(spans),
                forall|j: int|
                    0 <= j < spans.len() ==> #[trigger] infos@[j] == layered(spans, j),
                i <= infos@.len(),
                ops@ == mid + connectors(spans, i as int),
            decreases infos@.len() - i,
        {
            let g = infos[i];
            assert(layer_of(spans, i as int) <= max_layer_of(spans));
            push_connector(&mut ops, g, max_layer);
            i = i + 1;
        }
        assert(ops@ =~= before + match_ops(spans));
        m = m + 1;
        assert(matches@[m - 1]@ == spans);
    }
    ops
}

/// Index of the first line feed of the text, or its length if it has none.
pub open spec fn newline_index(s: Seq<char>) -> nat
    decreases s.len(),
{
    if s.len() == 0 || s[0] == '\n' {
        0
    } else {
        1 + newline_index(s.drop_first())
    }
}

/// A line without its carriage return, if it ends in one.
pub open spec fn strip_cr(line: Seq<char>) -> Seq<char> {
    if line.len() > 0 && line.last() == '\r' {
        line.drop_last()
    } else {
        line
    }
}

/// The lines of a text: split at each line feed, each line that a line feed
/// ends without a carriage return before it, and no empty line after a final
/// line feed.
pub open spec fn lines_of(s: Seq<char>) -> Seq<Seq<char>>
    decreases s.len(),
{
    if s.len() == 0 {
        Seq::empty()
    } else {
        let i = newline_index(s);
        if i >= s.len() {
            seq![s]
        } else {
            seq![strip_cr(s.take(i as int))] + lines_of(s.skip(i + 1 as int))
        }
    }
}

proof fn lemma_newline_index(t: Seq<char>, k: int)
    requires
        0 <= k <= t.len(),
        forall|j: int| 0 <= j < k ==> t[j] != '\n',
        k < t.len() ==> t[k] == '\n',
    ensures
        newline_index(t) == k,
    decreases k,
{
    if k > 0 {
        assert forall|j: int| 0 <= j < k - 1 implies t.drop_first()[j] != '\n' by {
            assert(t.drop_first()[j] == t[j + 1]);
        }
        lemma_newline_index(t.drop_first(), k - 1);
    }
}

/// The lines of a text.
pub fn split_lines(s: &str) -> (r: Vec<Vec<char>>)
    ensures
        r@.len() == lines_of(s@).len(),
        forall|i: int| 0 <= i < r@.len() ==> #[trigger] r@[i]@ == lines_of(s@)[i],
{
    let chars = chars_of(s);
    let ghost all = chars@;
    let mut lines: Vec<Vec<char>> = Vec::new();
    let mut cur: Vec<char> = Vec::new();
    let ghost mut start: int = 0;
    let mut i: usize = 0;
    assert(all.skip(0) =~= all);
    assert(Seq::new(lines@.len(), |k: int| lines@[k]@) + lines_of(all.skip(0)) =~= lines_of(all));
    while i < chars.len()
        invariant
            all == chars@,
            all == s@,
            0 <= start <= i <= all.len(),
            cur@ == all.subrange(start, i as int),
            forall|j: int| start <= j < i ==> all[j] != '\n',
            ({
                let done = Seq::new(lines@.len(), |k: int| lines@[k]@);
                done + lines_of(all.skip(start)) == lines_of(all)
            }),
        decreases all.len() - i,
    {
        let ch = chars[i];
        if ch == '\n' {
            let ghost t = all.skip(start);
            let ghost k = i - start;
            proof {
                lemma_newline_index(t, k);
                assert(t.take(k) =~= cur@);
                assert(t.skip(k + 1) =~= all.skip(i + 1));
                assert(lines_of(t) == seq![strip_cr(t.take(k))] + lines_of(t.skip(k + 1)));
            }
            let ghost before = Seq::new(lines@.len(), |j: int| lines@[j]@);
            let mut line = cur;
            if line.len() > 0 && line[line.len() - 1] == '\r' {
                line.pop();
            }
            assert(line@ =~= strip_cr(t.take(k)));
            lines.push(line);
            cur = Vec::new();
            proof {
                start = i + 1;
                assert(Seq::new(lines@.len(), |j: int| lines@[j]@) =~= before.push(
                    strip_cr(t.take(k)),
                ));
                assert(Seq::new(lines@.len(), |j: int| lines@[j]@) + lines_of(all.skip(start))
                    =~= before + lines_of(t));
            }
            assert(cur@ =~= all.subrange(start, i as int + 1));
        } else {
            cur.push(ch);
        }
        i = i + 1;
    }
    if cur.len() > 0 {
        let ghost t = all.skip(start);
        proof {
            lemma_newline_index(t, t.len() as int);
            assert(t =~= cur@);
        }
        let ghost before = Seq::new(lines@.len(), |k: int| lines@[k]@);
        let line = cur;
        lines.push(line);
        assert(lines_of(t) == seq![t]);
        assert(Seq::new(lines@.len(), |k: int| lines@[k]@) =~= before + lines_of(t));
    } else {
        assert(all.skip(start).len() == 0);
        assert(Seq::new(lines@.len(), |k: int| lines@[k]@) + lines_of(all.skip(start)) =~= Seq::new(lines@.len(), |k: int| lines@[k]@));
    }
    assert(Seq::new(lines@.len(), |k: int| lines@[k]@) =~= lines_of(all));
    lines
}

/// The step draws the given text in the given colour at the start of the given row.
pub open spec fn is_line(op: DrawOp, color: Color, row: int, text: Seq<char>) -> bool {
    match op {
        DrawOp::Line { color: c, col, row: r, text: t } => c == color && col == 0 && r == row
            && t@ == text,
        _ => false,
    }
}

/// The plan for the test-string field when the pattern does not compile: an
/// `ERROR` label, then the lines of the message, one per row below it.
pub fn error_plan(message: &str) -> (r: Vec<DrawOp>)
    ensures
        r@.len() == 1 + lines_of(message@).len(),
        is_line(r@[0], Color::DarkRed, 0, seq!['E', 'R', 'R', 'O', 'R']),
        forall|i: int| 0 <= i < r@.len() ==> #[trigger] r@[i] is Line,
        forall|i: int|
            0 <= i < lines_of(message@).len() ==> is_line(
                #[trigger] r@[i + 1],
                Color::Reset,
                i + 1,
                lines_of(message@)[i],
            ),
{
    let lines = split_lines(message);
    let mut ops: Vec<DrawOp> = Vec::new();
    ops.push(DrawOp::Line { color: Color::DarkRed, col: 0, row: 0, text: vec!['E', 'R', 'R', 'O', 'R'] });
    let mut rest = lines;
    let ghost all = rest@;
    let mut taken: Vec<Vec<char>> = Vec::new();
    let mut i: usize = 0;
    while i < rest.len()
        invariant
            rest@ == all,
            all.len() == lines_of(message@).len(),
            forall|k: int| 0 <= k < all.len() ==> #[trigger] all[k]@ == lines_of(message@)[k],
            i <= all.len(),
            ops@.len() == 1 + i,
            is_line(ops@[0], Color::DarkRed, 0, seq!['E', 'R', 'R', 'O', 'R']),
            forall|k: int| 0 <= k < i ==> is_line(#[trigger] ops@[k + 1], Color::Reset, k + 1, all[k]@),
            forall|k: int| 0 <= k < ops@.len() ==> #[trigger] ops@[k] is Line,
        decreases all.len() - i,
    {
        let text = rest[i].clone();
        ops.push(DrawOp::Line { color: Color::Reset, col: 0, row: i + 1, text });
        i = i + 1;
    }
    ops
}

} // verus!
