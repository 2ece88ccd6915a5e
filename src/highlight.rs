use vstd::prelude::*;

use crate::color::Color;

verus! {

/// A syntax category of a pattern. The order of the variants is the priority
/// when several categories are open at once: the first wins.
#[derive(Clone, Copy, Debug, PartialEq, Eq, Structural)]
pub enum HighlightGroup {
    Flags,
    Anchors,
    Quantifiers,
    CharacterClass,
    Operator,
    Escape,
    Group,
}

/// Number of highlight categories.
pub const GROUP_COUNT: usize = 7;

impl HighlightGroup {
    /// The category of the given rank (its place in the priority order).
    pub open spec fn spec_from_rank(rank: nat) -> Option<HighlightGroup> {
        if rank == 0 {
            Some(HighlightGroup::Flags)
        } else if rank == 1 {
            Some(HighlightGroup::Anchors)
        } else if rank == 2 {
            Some(HighlightGroup::Quantifiers)
        } else if rank == 3 {
            Some(HighlightGroup::CharacterClass)
        } else if rank == 4 {
            Some(HighlightGroup::Operator)
        } else if rank == 5 {
            Some(HighlightGroup::Escape)
        } else if rank == 6 {
            Some(HighlightGroup::Group)
        } else {
            None
        }
    }

    pub open spec fn spec_rank(self) -> nat {
        match self {
            HighlightGroup::Flags => 0,
            HighlightGroup::Anchors => 1,
            HighlightGroup::Quantifiers => 2,
            HighlightGroup::CharacterClass => 3,
            HighlightGroup::Operator => 4,
            HighlightGroup::Escape => 5,
            HighlightGroup::Group => 6,
        }
    }

    pub open spec fn spec_color(self) -> Color {
        match self {
            HighlightGroup::Flags => Color::Blue,
            HighlightGroup::Anchors => Color::Magenta,
            HighlightGroup::Quantifiers => Color::DarkMagenta,
            HighlightGroup::CharacterClass => Color::DarkBlue,
            HighlightGroup::Operator => Color::DarkYellow,
            HighlightGroup::Escape => Color::Black,
            HighlightGroup::Group => Color::Black,
        }
    }

    pub fn from_rank(rank: usize) -> (g: Option<HighlightGroup>)
        ensures
            g == Self::spec_from_rank(rank as nat),
    {
        if rank == 0 {
            Some(HighlightGroup::Flags)
        } else if rank == 1 {
            Some(HighlightGroup::Anchors)
        } else if rank == 2 {
            Some(HighlightGroup::Quantifiers)
        } else if rank == 3 {
            Some(HighlightGroup::CharacterClass)
        } else if rank == 4 {
            Some(HighlightGroup::Operator)
        } else if rank == 5 {
            Some(HighlightGroup::Escape)
        } else if rank == 6 {
            Some(HighlightGroup::Group)
        } else {
            None
        }
    }

    pub fn rank(&self) -> (r: usize)
        ensures
            r == self.spec_rank(),
    {
        match self {
            HighlightGroup::Flags => 0,
            HighlightGroup::Anchors => 1,
            HighlightGroup::Quantifiers => 2,
            HighlightGroup::CharacterClass => 3,
            HighlightGroup::Operator => 4,
            HighlightGroup::Escape => 5,
            HighlightGroup::Group => 6,
        }
    }

    pub fn color(&self) -> (c: Color)
        ensures
            c == self.spec_color(),
    {
        match self {
            HighlightGroup::Flags => Color::Blue,
            HighlightGroup::Anchors => Color::Magenta,
            HighlightGroup::Quantifiers => Color::DarkMagenta,
            HighlightGroup::CharacterClass => Color::DarkBlue,
            HighlightGroup::Operator => Color::DarkYellow,
            HighlightGroup::Escape => Color::Black,
            HighlightGroup::Group => Color::Black,
        }
    }
}

/// The colour of an open category given by rank; a rank outside the
/// category set carries no colour.
pub open spec fn rank_color(rank: nat) -> Color {
    match HighlightGroup::spec_from_rank(rank) {
        Some(g) => g.spec_color(),
        None => Color::Reset,
    }
}

/// The smallest rank on a non-empty stack.
pub open spec fn min_rank(stack: Seq<usize>) -> nat
    recommends
        stack.len() > 0,
    decreases stack.len(),
{
    if stack.len() <= 1 {
        stack[0] as nat
    } else {
        let m = min_rank(stack.drop_last());
        if (stack.last() as nat) < m {
            stack.last() as nat
        } else {
            m
        }
    }
}

/// The colour in force under a stack of open categories: that of the open
/// category of highest priority, or the default colour when none is open.
pub open spec fn stack_color(stack: Seq<usize>) -> Color {
    if stack.len() == 0 {
        Color::Reset
    } else {
        rank_color(min_rank(stack))
    }
}

/// One event of a tokenizer's highlight stream.
#[derive(Clone, Copy, Debug, PartialEq, Eq, Structural)]
pub enum HighlightEvent {
    /// A category, given by rank, opens.
    Start(usize),
    /// The bytes up to `end` are source text under the open categories.
    Source { start: usize, end: usize },
    /// The innermost open category closes.
    End,
    /// The tokenizer failed; the stream stops here.
    Failed,
}

/// The colours, one per byte, that the events give from the given stack of
/// open categories and the given next byte position on.
pub open spec fn colors_from(events: Seq<HighlightEvent>, stack: Seq<usize>, pos: nat) -> Seq<
    Color,
>
    decreases events.len(),
{
    if events.len() == 0 {
        Seq::empty()
    } else {
        let rest = events.drop_first();
        match events[0] {
            HighlightEvent::Start(rank) => colors_from(rest, stack.push(rank), pos),
            HighlightEvent::End => colors_from(
                rest,
                if stack.len() > 0 {
                    stack.drop_last()
                } else {
                    stack
                },
                pos,
            ),
            HighlightEvent::Source { start: _, end } => Seq::new(
                if end > pos {
                    (end - pos) as nat
                } else {
                    0
                },
                |_i: int| stack_color(stack),
            ) + colors_from(
                rest,
                stack,
                if end > pos {
                    end as nat
                } else {
                    pos
                },
            ),
            HighlightEvent::Failed => Seq::empty(),
        }
    }
}

/// The whole colour sequence of an event stream.
pub open spec fn materialize(events: Seq<HighlightEvent>) -> Seq<Color> {
    colors_from(events, Seq::empty(), 0)
}

/// Turns a highlight event stream into one colour per byte, handed out one at
/// a time.
pub struct HighlightEventWrapper {
    events: Vec<HighlightEvent>,
    next_event: usize,
    pos: usize,
    limit: usize,
    stack: Vec<usize>,
}

impl HighlightEventWrapper {
    /// The event stream this wrapper walks.
    pub closed spec fn events(&self) -> Seq<HighlightEvent> {
        self.events@
    }

    pub closed spec fn wf(&self) -> bool {
        self.next_event <= self.events@.len()
    }

    /// The next byte position to get a colour.
    pub closed spec fn position(&self) -> nat {
        self.pos as nat
    }

    /// The end of the source range that bytes are being handed out from.
    pub closed spec fn buffered_end(&self) -> nat {
        self.limit as nat
    }

    /// The next event not yet taken from the stream, if any.
    pub closed spec fn next_event(&self) -> Option<HighlightEvent> {
        if self.next_event < self.events@.len() {
            Some(self.events@[self.next_event as int])
        } else {
            None
        }
    }

    /// The buffered range is used up and the next event is a source range that
    /// reaches past the next byte position.
    pub open spec fn source_ahead(&self) -> bool {
        &&& self.position() >= self.buffered_end()
        &&& match self.next_event() {
            Some(HighlightEvent::Source { start: _, end }) => end > self.position(),
            _ => false,
        }
    }

    /// The ranks of the categories open at this point of the stream, innermost last.
    pub closed spec fn open_categories(&self) -> Seq<usize> {
        self.stack@
    }

    /// The colours still to come.
    pub closed spec fn rest(&self) -> Seq<Color> {
        Seq::new(
            if self.limit > self.pos {
                (self.limit - self.pos) as nat
            } else {
                0
            },
            |_i: int| stack_color(self.stack@),
        ) + colors_from(
            self.events@.skip(self.next_event as int),
            self.stack@,
            if self.limit > self.pos {
                self.limit as nat
            } else {
                self.pos as nat
            },
        )
    }

    /// Starts at the beginning of the given event stream.
    pub fn from_events(events: Vec<HighlightEvent>) -> (r: Self)
        ensures
            r.wf(),
            r.events() == events@,
            r.rest() == materialize(events@),
    {
        let r = HighlightEventWrapper { events, next_event: 0, pos: 0, limit: 0, stack: Vec::new() };
        assert(r.events@.skip(0) == r.events@);
        assert(r.rest() =~= materialize(r.events@));
        r
    }

    fn current_color(&self) -> (c: Color)
        ensures
            c == stack_color(self.stack@),
    {
        if self.stack.len() == 0 {
            return Color::Reset;
        }
        let mut m: usize = self.stack[0];
        let mut i: usize = 1;
        while i < self.stack.len()
            invariant
                1 <= i <= self.stack@.len(),
                m == min_rank(self.stack@.take(i as int)),
            decreases self.stack@.len() - i,
        {
            proof {
                assert(self.stack@.take(i as int + 1).drop_last() == self.stack@.take(i as int));
            }
            if self.stack[i] < m {
                m = self.stack[i];
            }
            i = i + 1;
        }
        proof {
            assert(self.stack@.take(i as int) == self.stack@);
        }
        match HighlightGroup::from_rank(m) {
            Some(g) => g.color(),
            None => Color::Reset,
        }
    }

    /// The next colour, or `None` once the stream is spent.
    pub fn next(&mut self) -> (r: Option<Color>)
        requires
            old(self).wf(),
        ensures
            final(self).wf(),
            r matches Some(c) ==> c == stack_color(final(self).open_categories()),
            old(self).position() < old(self).buffered_end() ==> {
                &&& r == Some(stack_color(old(self).open_categories()))
                &&& final(self).position() == old(self).position() + 1
                &&& final(self).open_categories() == old(self).open_categories()
            },
            old(self).source_ahead() ==> {
                &&& r == Some(stack_color(old(self).open_categories()))
                &&& final(self).position() == old(self).position() + 1
                &&& final(self).open_categories() == old(self).open_categories()
            },
            match r {
                Some(c) => old(self).rest() == seq![c] + final(self).rest(),
                None => old(self).rest().len() == 0 && final(self).rest().len() == 0,
            },
    {
        loop
            invariant
                self.wf(),
                self.rest() == old(self).rest(),
                self.events@ == old(self).events@,
                old(self).pos < old(self).limit ==> self.pos == old(self).pos && self.limit == old(
                    self,
                ).limit && self.stack@ == old(self).stack@,
                old(self).source_ahead() ==> self.pos == old(self).pos && self.stack@ == old(
                    self,
                ).stack@ && ((self.next_event == old(self).next_event && self.limit == old(
                    self,
                ).limit) || (self.next_event == old(self).next_event + 1 && self.limit > self.pos)),
            decreases self.events@.len() - self.next_event, self.limit - self.pos,
        {
            if self.pos < self.limit {
                let c = self.current_color();
                let ghost before = self.rest();
                self.pos = self.pos + 1;
                assert(before =~= seq![c] + self.rest());
                return Some(c);
            }
            if self.next_event >= self.events.len() {
                return None;
            }
            let ghost evs = self.events@.skip(self.next_event as int);
            assert(evs.drop_first() =~= self.events@.skip(self.next_event as int + 1));
            match self.events[self.next_event] {
                HighlightEvent::Start(rank) => {
                    self.stack.push(rank);
                },
                HighlightEvent::Source { start: _, end } => {
                    self.limit = end;
                },
                HighlightEvent::End => {
                    self.stack.pop();
                },
                HighlightEvent::Failed => {
                    return None;
                },
            }
            self.next_event = self.next_event + 1;
            assert(self.rest() =~= old(self).rest());
        }
    }
}

proof fn lemma_min_rank_is_min(stack: Seq<usize>)
    requires
        stack.len() > 0,
    ensures
        forall|j: int| 0 <= j < stack.len() ==> min_rank(stack) <= stack[j] as nat,
        exists|j: int| 0 <= j < stack.len() && min_rank(stack) == stack[j] as nat,
    decreases stack.len(),
{
    if stack.len() > 1 {
        lemma_min_rank_is_min(stack.drop_last());
        let j = choose|j: int|
            0 <= j < stack.drop_last().len() && min_rank(stack.drop_last())
                == stack.drop_last()[j] as nat;
        assert forall|i: int| 0 <= i < stack.len() implies min_rank(stack) <= stack[i] as nat by {
            if i < stack.len() - 1 {
                assert(stack[i] == stack.drop_last()[i]);
            }
        }
        if (stack.last() as nat) < min_rank(stack.drop_last()) {
            assert(min_rank(stack) == stack[stack.len() - 1] as nat);
        } else {
            assert(min_rank(stack) == stack[j] as nat);
        }
    } else {
        assert(min_rank(stack) == stack[0] as nat);
    }
}

/// Under any stack of open categories, the colour in force is that of the
/// category of highest priority on it.
pub proof fn lemma_highest_priority_wins(stack: Seq<usize>, top: HighlightGroup)
    requires
        stack.contains(top.spec_rank() as usize),
        forall|j: int| 0 <= j < stack.len() ==> top.spec_rank() <= stack[j] as nat,
    ensures
        stack_color(stack) == top.spec_color(),
{
    lemma_min_rank_is_min(stack);
    let k = choose|k: int| 0 <= k < stack.len() && stack[k] == top.spec_rank() as usize;
    assert(min_rank(stack) <= stack[k] as nat);
    assert(min_rank(stack) == top.spec_rank());
    assert(HighlightGroup::spec_from_rank(top.spec_rank()) == Some(top)) by {
        match top {
            HighlightGroup::Flags => {},
            HighlightGroup::Anchors => {},
            HighlightGroup::Quantifiers => {},
            HighlightGroup::CharacterClass => {},
            HighlightGroup::Operator => {},
            HighlightGroup::Escape => {},
            HighlightGroup::Group => {},
        }
    }
}

/// The colour in force with no category open is the default colour; with one
/// open, its colour; with two open, in either order, the colour of the one of
/// higher priority.
pub proof fn lemma_open_category_colors(a: HighlightGroup, b: HighlightGroup)
    ensures
        stack_color(Seq::empty()) == Color::Reset,
        stack_color(seq![a.spec_rank() as usize]) == a.spec_color(),
        stack_color(seq![a.spec_rank() as usize, b.spec_rank() as usize]) == if a.spec_rank()
            <= b.spec_rank() {
            a.spec_color()
        } else {
            b.spec_color()
        },
{
    let ra = a.spec_rank() as usize;
    let rb = b.spec_rank() as usize;
    let one = seq![ra];
    assert(one[0] == ra);
    assert(one.contains(ra));
    lemma_highest_priority_wins(one, a);
    let two = seq![ra, rb];
    assert(two[0] == ra && two[1] == rb);
    if a.spec_rank() <= b.spec_rank() {
        assert(two.contains(ra));
        lemma_highest_priority_wins(two, a);
    } else {
        assert(two.contains(rb));
        lemma_highest_priority_wins(two, b);
    }
}

/// Every event is a source range.
pub open spec fn only_sources(events: Seq<HighlightEvent>) -> bool {
    forall|i: int| 0 <= i < events.len() ==> #[trigger] events[i] is Source
}

proof fn lemma_sources_keep_color(events: Seq<HighlightEvent>, stack: Seq<usize>, pos: nat)
    requires
        only_sources(events),
    ensures
        forall|k: int|
            0 <= k < colors_from(events, stack, pos).len() ==> #[trigger] colors_from(
                events,
                stack,
                pos,
            )[k] == stack_color(stack),
    decreases events.len(),
{
    if events.len() > 0 {
        let rest = events.drop_first();
        assert(events[0] is Source);
        assert forall|i: int| 0 <= i < rest.len() implies #[trigger] rest[i] is Source by {
            assert(rest[i] == events[i + 1]);
        }
        match events[0] {
            HighlightEvent::Source { start: _, end } => {
                let next = if end > pos {
                    end as nat
                } else {
                    pos
                };
                lemma_sources_keep_color(rest, stack, next);
            },
            _ => {},
        }
    }
}

/// With no category open, every byte of the source ranges gets the default colour.
pub proof fn lemma_no_category_default(events: Seq<HighlightEvent>)
    requires
        only_sources(events),
    ensures
        forall|k: int|
            0 <= k < materialize(events).len() ==> #[trigger] materialize(events)[k] == Color::Reset,
{
    lemma_sources_keep_color(events, Seq::empty(), 0);
}

/// With one category open, every byte of the source ranges inside it gets
/// that category's colour.
pub proof fn lemma_one_category_color(g: HighlightGroup, events: Seq<HighlightEvent>)
    requires
        only_sources(events),
    ensures
        ({
            let all = seq![HighlightEvent::Start(g.spec_rank() as usize)] + events;
            forall|k: int|
                0 <= k < materialize(all).len() ==> #[trigger] materialize(all)[k] == g.spec_color()
        }),
{
    let r = g.spec_rank() as usize;
    let all = seq![HighlightEvent::Start(r)] + events;
    let st = Seq::<usize>::empty().push(r);
    assert(all[0] == HighlightEvent::Start(r));
    assert(all.drop_first() =~= events);
    assert(st[0] == r);
    assert(st.contains(r));
    lemma_highest_priority_wins(st, g);
    lemma_sources_keep_color(events, st, 0);
}

/// With two categories open at once, every byte of the source ranges inside
/// both gets the colour of the one of higher priority, whichever opened first.
pub proof fn lemma_two_categories_priority(
    a: HighlightGroup,
    b: HighlightGroup,
    events: Seq<HighlightEvent>,
)
    requires
        only_sources(events),
    ensures
        ({
            let all = seq![
                HighlightEvent::Start(a.spec_rank() as usize),
                HighlightEvent::Start(b.spec_rank() as usize),
            ] + events;
            let win = if a.spec_rank() <= b.spec_rank() {
                a
            } else {
                b
            };
            forall|k: int|
                0 <= k < materialize(all).len() ==> #[trigger] materialize(all)[k] == win.spec_color()
        }),
{
    let ra = a.spec_rank() as usize;
    let rb = b.spec_rank() as usize;
    let all = seq![HighlightEvent::Start(ra), HighlightEvent::Start(rb)] + events;
    let win = if a.spec_rank() <= b.spec_rank() {
        a
    } else {
        b
    };
    let st = Seq::<usize>::empty().push(ra).push(rb);
    assert(st[0] == ra && st[1] == rb);
    if a.spec_rank() <= b.spec_rank() {
        assert(st.contains(ra));
    } else {
        assert(st.contains(rb));
    }
    lemma_highest_priority_wins(st, win);
    assert(all[0] == HighlightEvent::Start(ra));
    assert(all.drop_first()[0] == HighlightEvent::Start(rb));
    assert(all.drop_first().drop_first() =~= events);
    assert(Seq::<usize>::empty().push(ra) == seq![ra]);
    assert(materialize(all) == colors_from(all.drop_first(), seq![ra], 0));
    assert(colors_from(all.drop_first(), seq![ra], 0) == colors_from(events, st, 0));
    lemma_sources_keep_color(events, st, 0);
}

impl Default for HighlightEventWrapper {
    /// A wrapper over no events: it yields nothing.
    fn default() -> (r: Self)
        ensures
            r.wf(),
            r.rest() == Seq::<Color>::empty(),
    {
        let r = HighlightEventWrapper {
            events: Vec::new(),
            next_event: 0,
            pos: 0,
            limit: 0,
            stack: Vec::new(),
        };
        assert(r.rest() =~= Seq::<Color>::empty());
        r
    }
}

} // verus!
