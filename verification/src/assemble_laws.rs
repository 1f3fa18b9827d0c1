//! What holds of every plan that is gathered.

use vstd::prelude::*;
use crate::assemble::{
    first_end, lemma_first_end_bounds, lemma_run_is_plan, plan_of, run, start_state, step,
    text_of, AssemblerView, EventView,
};
use crate::info::info_of_kind;

verus! {

/// The number of opening events among `events`.
pub open spec fn count_starts(events: Seq<EventView>) -> nat
    decreases events.len(),
{
    if events.len() == 0 {
        0
    } else if events[0] is Start {
        1 + count_starts(events.drop_first())
    } else {
        count_starts(events.drop_first())
    }
}

/// Every opening event is followed by a closing event, with no opening event
/// between the two: no block opens inside another, and none is left open.
pub open spec fn paired(events: Seq<EventView>) -> bool {
    forall|i: int|
        0 <= i < events.len() && (#[trigger] events[i]) is Start ==> exists|j: int|
            i < j < events.len() && (#[trigger] events[j]) is End && forall|k: int|
                i < k < j ==> !((#[trigger] events[k]) is Start)
}

/// Where the events before `n` hold no opening event, they do not count.
proof fn lemma_count_starts_skip(events: Seq<EventView>, n: int)
    requires
        0 <= n <= events.len(),
        forall|k: int| 0 <= k < n ==> !((#[trigger] events[k]) is Start),
    ensures
        count_starts(events) == count_starts(events.skip(n)),
    decreases n,
{
    if n == 0 {
        assert(events.skip(0) =~= events);
    } else {
        let rest = events.drop_first();
        assert(!(events[0] is Start));
        assert forall|k: int| 0 <= k < n - 1 implies !((#[trigger] rest[k]) is Start) by {
            assert(rest[k] == events[k + 1]);
        }
        lemma_count_starts_skip(rest, n - 1);
        assert(rest.skip(n - 1) =~= events.skip(n));
    }
}

/// What is left of paired events after the first `n` is paired.
proof fn lemma_paired_skip(events: Seq<EventView>, n: int)
    requires
        paired(events),
        0 <= n <= events.len(),
    ensures
        paired(events.skip(n)),
{
    let tail = events.skip(n);
    assert forall|i: int| 0 <= i < tail.len() && (#[trigger] tail[i]) is Start implies exists|
        j: int,
    |
        i < j < tail.len() && (#[trigger] tail[j]) is End && forall|k: int|
            i < k < j ==> !((#[trigger] tail[k]) is Start) by {
        assert(events[i + n] is Start);
        let j = choose|j: int|
            i + n < j < events.len() && (#[trigger] events[j]) is End && forall|k: int|
                i + n < k < j ==> !((#[trigger] events[k]) is Start);
        assert(tail[j - n] is End);
        assert forall|k: int| i < k < j - n implies !((#[trigger] tail[k]) is Start) by {
            assert(tail[k] == events[k + n]);
        }
    }
}

/// A document in which no block opens inside another and none is left open
/// has a plan, and the plan has one block for each opening event.
pub proof fn lemma_plan_counts_starts(events: Seq<EventView>)
    requires
        paired(events),
    ensures
        plan_of(events) is Ok,
        plan_of(events)->Ok_0.len() == count_starts(events),
    decreases events.len(),
{
    if events.len() > 0 {
        let rest = events.drop_first();
        assert(rest =~= events.skip(1));
        if events[0] is Start {
            let j = choose|j: int|
                0 < j < events.len() && (#[trigger] events[j]) is End && forall|k: int|
                    0 < k < j ==> !((#[trigger] events[k]) is Start);
            lemma_first_end_bounds(rest);
            let close = first_end(rest);
            assert(rest[j - 1] is End);
            assert(close <= j - 1);
            assert forall|k: int| 0 <= k < close + 1 implies !((#[trigger] rest[k]) is Start) by {
                assert(rest[k] == events[k + 1]);
            }
            lemma_count_starts_skip(rest, close + 1);
            lemma_paired_skip(events, close + 2);
            assert(events.skip(close + 2) =~= rest.skip(close + 1));
            lemma_plan_counts_starts(rest.skip(close + 1));
        } else {
            lemma_paired_skip(events, 1);
            lemma_plan_counts_starts(rest);
        }
    }
}

/// The positions of the opening and the closing event of the block at `k` of
/// the plan of `events`.
pub open spec fn span_of(events: Seq<EventView>, k: int) -> (int, int)
    decreases events.len(),
{
    if events.len() == 0 {
        (0, 0)
    } else {
        let rest = events.drop_first();
        match events[0] {
            EventView::Start(_) => {
                let close = first_end(rest);
                if k > 0 && 0 <= close < rest.len() {
                    let inner = span_of(rest.skip(close + 1), k - 1);
                    (inner.0 + close + 2, inner.1 + close + 2)
                } else {
                    (0, close + 1)
                }
            },
            _ => {
                let inner = span_of(rest, k);
                (inner.0 + 1, inner.1 + 1)
            },
        }
    }
}

/// Every block of a plan comes from one opening event and the first closing
/// event after it: its header is that of the opening event, and its body is
/// the text of the text events between the two, joined in order.
pub proof fn lemma_block_span(events: Seq<EventView>, k: int)
    requires
        plan_of(events) is Ok,
        0 <= k < plan_of(events)->Ok_0.len(),
    ensures
        0 <= span_of(events, k).0 < span_of(events, k).1 < events.len(),
        events[span_of(events, k).0] is Start,
        events[span_of(events, k).1] is End,
        forall|j: int|
            span_of(events, k).0 < j < span_of(events, k).1 ==> !((#[trigger] events[j]) is End),
        plan_of(events)->Ok_0[k].info == info_of_kind(events[span_of(events, k).0]->Start_0),
        plan_of(events)->Ok_0[k].content == text_of(
            events.subrange(span_of(events, k).0 + 1, span_of(events, k).1),
        ),
    decreases events.len(),
{
    let rest = events.drop_first();
    let open = span_of(events, k).0;
    let shut = span_of(events, k).1;
    match events[0] {
        EventView::Start(kind) => {
            lemma_first_end_bounds(rest);
            let close = first_end(rest);
            if k == 0 {
                assert(events.subrange(1, close + 1) =~= rest.take(close));
                assert forall|j: int| 0 < j < close + 1 implies !((#[trigger] events[j]) is End) by {
                    assert(events[j] == rest[j - 1]);
                }
            } else {
                let tail = rest.skip(close + 1);
                lemma_block_span(tail, k - 1);
                let inner = span_of(tail, k - 1);
                assert(events.subrange(open + 1, shut) =~= tail.subrange(inner.0 + 1, inner.1));
                assert forall|j: int| open < j < shut implies !((#[trigger] events[j]) is End) by {
                    assert(events[j] == tail[j - close - 2]);
                }
            }
        },
        _ => {
            lemma_block_span(rest, k);
            let inner = span_of(rest, k);
            assert(events.subrange(open + 1, shut) =~= rest.subrange(inner.0 + 1, inner.1));
            assert forall|j: int| open < j < shut implies !((#[trigger] events[j]) is End) by {
                assert(events[j] == rest[j - 1]);
            }
        },
    }
}

/// The blocks of a plan stand in the plan as they stand in the document: each
/// closes before the next opens, so no event belongs to two blocks.
pub proof fn lemma_spans_in_order(events: Seq<EventView>, k: int)
    requires
        plan_of(events) is Ok,
        0 <= k,
        k + 1 < plan_of(events)->Ok_0.len(),
    ensures
        span_of(events, k).1 < span_of(events, k + 1).0,
    decreases events.len(),
{
    let rest = events.drop_first();
    match events[0] {
        EventView::Start(_) => {
            lemma_first_end_bounds(rest);
            let close = first_end(rest);
            let tail = rest.skip(close + 1);
            if k == 0 {
                lemma_block_span(tail, 0);
            } else {
                lemma_spans_in_order(tail, k - 1);
            }
        },
        _ => {
            lemma_spans_in_order(rest, k);
        },
    }
}

/// The events that the assembler looks at: all but those that neither open
/// or close a block nor carry text.
pub open spec fn code_events(events: Seq<EventView>) -> Seq<EventView> {
    events.filter(|e: EventView| !(e is Other))
}

/// Running over one more event is one more step.
proof fn lemma_run_push(state: AssemblerView, events: Seq<EventView>, event: EventView)
    ensures
        run(state, events.push(event)) == step(run(state, events), event),
    decreases events.len(),
{
    let longer = events.push(event);
    if events.len() == 0 {
        assert(longer.drop_first() =~= Seq::<EventView>::empty());
        assert(run(step(state, event), longer.drop_first()) == step(state, event));
    } else {
        assert(longer.drop_first() =~= events.drop_first().push(event));
        lemma_run_push(step(state, events[0]), events.drop_first(), event);
    }
}

/// An assembler ends in the same place whether or not it is shown the events
/// that it passes over.
proof fn lemma_run_ignores_other(state: AssemblerView, events: Seq<EventView>)
    ensures
        run(state, events) == run(state, code_events(events)),
    decreases events.len(),
{
    reveal(Seq::filter);
    if events.len() > 0 {
        let front = events.drop_last();
        let last = events.last();
        lemma_run_ignores_other(state, front);
        assert(front.push(last) =~= events);
        lemma_run_push(state, front, last);
        if !(last is Other) {
            lemma_run_push(state, code_events(front), last);
        }
    }
}

/// The plan of a document does not depend on the events that neither open or
/// close a block nor carry text, wherever they stand.
pub proof fn lemma_plan_ignores_other(events: Seq<EventView>)
    ensures
        plan_of(events) == plan_of(code_events(events)),
{
    lemma_run_ignores_other(start_state(), events);
    lemma_run_is_plan(events);
    lemma_run_is_plan(code_events(events));
}

/// Two documents whose events differ only in such events, in where they stand
/// or in how many there are, have the same plan.
pub proof fn lemma_plan_same_code_events(a: Seq<EventView>, b: Seq<EventView>)
    requires
        code_events(a) == code_events(b),
    ensures
        plan_of(a) == plan_of(b),
{
    lemma_plan_ignores_other(a);
    lemma_plan_ignores_other(b);
}

/// Where every block of a document is indented, no block of its plan has a
/// header.
pub proof fn lemma_indented_blocks_have_no_info(events: Seq<EventView>)
    requires
        plan_of(events) is Ok,
        forall|i: int|
            0 <= i < events.len() && (#[trigger] events[i]) is Start
                ==> events[i]->Start_0 is Indented,
    ensures
        forall|k: int|
            0 <= k < plan_of(events)->Ok_0.len() ==> (#[trigger] plan_of(events)->Ok_0[k]).info
                is None,
{
    let blocks = plan_of(events)->Ok_0;
    assert forall|k: int| 0 <= k < blocks.len() implies (#[trigger] blocks[k]).info is None by {
        lemma_block_span(events, k);
    }
}

} // verus!
