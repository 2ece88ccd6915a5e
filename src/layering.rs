use vstd::prelude::*;

verus! {

/// One capture span with the nesting layer it was given.
#[derive(Clone, Copy, Debug, PartialEq, Eq, Structural)]
pub struct Group {
    pub start: usize,
    pub end: usize,
    pub layer: usize,
}

/// Drops from the top of the stack of pending end offsets every span that has
/// closed by `start`.
pub open spec fn pop_closed(stack: Seq<usize>, start: usize) -> Seq<usize>
    decreases stack.len(),
{
    if stack.len() > 0 && stack.last() <= start {
        pop_closed(stack.drop_last(), start)
    } else {
        stack
    }
}

/// The stack of pending end offsets after the given spans were processed in order.
pub open spec fn stack_after(spans: Seq<(usize, usize)>) -> Seq<usize>
    decreases spans.len(),
{
    if spans.len() == 0 {
        Seq::empty()
    } else {
        pop_closed(stack_after(spans.drop_last()), spans.last().0).push(spans.last().1)
    }
}

/// The layer of span `i`: the depth of the stack right after it was pushed, less one.
pub open spec fn layer_of(spans: Seq<(usize, usize)>, i: int) -> nat {
    (stack_after(spans.take(i + 1)).len() - 1) as nat
}

/// The largest layer among the spans, 0 for none.
pub open spec fn max_layer_of(spans: Seq<(usize, usize)>) -> nat
    decreases spans.len(),
{
    if spans.len() == 0 {
        0
    } else {
        let m = max_layer_of(spans.drop_last());
        let l = layer_of(spans, spans.len() - 1);
        if l > m {
            l
        } else {
            m
        }
    }
}

proof fn lemma_pop_closed_len(stack: Seq<usize>, start: usize)
    ensures
        pop_closed(stack, start).len() <= stack.len(),
    decreases stack.len(),
{
    if stack.len() > 0 && stack.last() <= start {
        lemma_pop_closed_len(stack.drop_last(), start);
    }
}

pub(crate) proof fn lemma_stack_after_len(spans: Seq<(usize, usize)>)
    ensures
        1 <= stack_after(spans).len() <= spans.len() || spans.len() == 0,
        stack_after(spans).len() <= spans.len(),
    decreases spans.len(),
{
    if spans.len() > 0 {
        lemma_stack_after_len(spans.drop_last());
        lemma_pop_closed_len(stack_after(spans.drop_last()), spans.last().0);
    }
}

/// Assigns each capture span of one match its nesting layer, in the order the
/// spans are given, and returns the largest layer with the layered spans.
pub fn assign_layers(captures: &Vec<(usize, usize)>) -> (r: (usize, Vec<Group>))
    ensures
        r.1@.len() == captures@.len(),
        forall|i: int|
            0 <= i < captures@.len() ==> {
                &&& (#[trigger] r.1@[i]).start == captures@[i].0
                &&& r.1@[i].end == captures@[i].1
                &&& r.1@[i].layer == layer_of(captures@, i)
            },
        r.0 == max_layer_of(captures@),
{
    let mut layers: Vec<usize> = Vec::new();
    let mut infos: Vec<Group> = Vec::new();
    let mut max_layer: usize = 0;
    let mut k: usize = 0;
    while k < captures.len()
        invariant
            k <= captures@.len(),
            layers@ == stack_after(captures@.take(k as int)),
            infos@.len() == k,
            forall|i: int|
                0 <= i < k ==> {
                    &&& (#[trigger] infos@[i]).start == captures@[i].0
                    &&& infos@[i].end == captures@[i].1
                    &&& infos@[i].layer == layer_of(captures@, i)
                },
            max_layer == max_layer_of(captures@.take(k as int)),
        decreases captures@.len() - k,
    {
        let (start, end) = captures[k];
        let ghost prefix = captures@.take(k as int);
        let ghost next = captures@.take(k as int + 1);
        assert(next.drop_last() == prefix);
        while layers.len() > 0 && layers[layers.len() - 1] <= start
            invariant
                pop_closed(layers@, start) == pop_closed(stack_after(prefix), start),
            decreases layers@.len(),
        {
            layers.pop();
        }
        layers.push(end);
        proof {
            lemma_stack_after_len(next);
            lemma_stack_after_len(prefix);
        }
        let layer = layers.len() - 1;
        infos.push(Group { start, end, layer });
        if layer > max_layer {
            max_layer = layer;
        }
        proof {
            assert(next.take(k as int + 1) == next);
            assert(captures@.take(k as int + 1).take(k as int + 1) == next);
            assert(max_layer_of(next) == if layer_of(next, k as int) > max_layer_of(prefix) {
                layer_of(next, k as int)
            } else {
                max_layer_of(prefix)
            });
        }
        k = k + 1;
    }
    assert(captures@.take(k as int) == captures@);
    (max_layer, infos)
}

proof fn lemma_disjoint_prefix_stack(spans: Seq<(usize, usize)>, k: int)
    requires
        1 <= k <= spans.len(),
        forall|i: int, j: int| 0 <= i < j < spans.len() ==> spans[i].1 <= spans[j].0,
    ensures
        stack_after(spans.take(k)) == seq![spans[k - 1].1],
    decreases k,
{
    let p = spans.take(k);
    assert(p.drop_last() =~= spans.take(k - 1));
    if k == 1 {
        assert(stack_after(spans.take(0)) == Seq::<usize>::empty());
    } else {
        lemma_disjoint_prefix_stack(spans, k - 1);
        let prev = seq![spans[k - 2].1];
        assert(prev.drop_last() =~= Seq::<usize>::empty());
        assert(pop_closed(prev.drop_last(), spans[k - 1].0) == Seq::<usize>::empty());
    }
}

/// Spans that do not overlap one another, given in order, all lie on layer 0.
pub proof fn lemma_disjoint_spans_flat(spans: Seq<(usize, usize)>)
    requires
        forall|i: int, j: int| 0 <= i < j < spans.len() ==> spans[i].1 <= spans[j].0,
    ensures
        forall|i: int| 0 <= i < spans.len() ==> layer_of(spans, i) == 0,
{
    assert forall|i: int| 0 <= i < spans.len() implies layer_of(spans, i) == 0 by {
        lemma_disjoint_prefix_stack(spans, i + 1);
    }
}

} // verus!
