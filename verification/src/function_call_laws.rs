//! What holds of the events of streamed function calls.
use crate::accumulator::{
    arguments_piece, blank_call, extended_call, extended_calls, lemma_calls_needed,
    AccumulatorView,
};
use crate::chat::{ChatChunkView, ToolCallDeltaView};
use crate::events::{function_item, SlotView, StreamEventView};
use crate::function_calls::{
    added_event, all_closing_events, closed_state, closing_events, lemma_keys_after,
    lemma_keys_grow, lemma_told_valid, merge_events, merged, slots_needed, CallEventView,
    CallsView, Told,
};
use crate::order::{lemma_rank, lemma_with_key, rank, with_key};
use crate::responses::FunctionCallView;
use vstd::prelude::*;

verus! {

/// The argument pieces that were told of an output item, joined.
pub open spec fn streamed(events: Seq<StreamEventView>, index: usize) -> Seq<char>
    decreases events.len(),
{
    if events.len() == 0 {
        seq![]
    } else {
        let before = streamed(events.drop_last(), index);
        match events.last() {
            StreamEventView::FunctionCallArgumentsDelta { output_index, delta, .. } => {
                if output_index == index {
                    before + delta
                } else {
                    before
                }
            },
            _ => before,
        }
    }
}

/// How often an output item was announced.
pub open spec fn announcements(events: Seq<StreamEventView>, index: usize) -> nat
    decreases events.len(),
{
    if events.len() == 0 {
        0
    } else {
        let before = announcements(events.drop_last(), index);
        match events.last() {
            StreamEventView::OutputItemAdded { output_index, .. } => if output_index == index {
                before + 1
            } else {
                before
            },
            _ => before,
        }
    }
}

/// How often an output item was told to be done.
pub open spec fn completions(events: Seq<StreamEventView>, index: usize) -> nat
    decreases events.len(),
{
    if events.len() == 0 {
        0
    } else {
        let before = completions(events.drop_last(), index);
        match events.last() {
            StreamEventView::OutputItemDone { output_index, .. } => if output_index == index {
                before + 1
            } else {
                before
            },
            _ => before,
        }
    }
}

/// How often the arguments of an output item were told to be whole.
pub open spec fn endings(events: Seq<StreamEventView>, index: usize) -> nat
    decreases events.len(),
{
    if events.len() == 0 {
        0
    } else {
        let before = endings(events.drop_last(), index);
        match events.last() {
            StreamEventView::FunctionCallArgumentsDone { output_index, .. } => {
                if output_index == index {
                    before + 1
                } else {
                    before
                }
            },
            _ => before,
        }
    }
}

/// The output item that an event of a function call speaks of.
pub open spec fn slot_of(event: StreamEventView) -> Option<SlotView> {
    match event {
        StreamEventView::OutputItemAdded { output_index, item }
        | StreamEventView::OutputItemDone { output_index, item } => Some(
            SlotView { output_index, item_id: item.id },
        ),
        StreamEventView::FunctionCallArgumentsDelta { output_index, item_id, .. }
        | StreamEventView::FunctionCallArgumentsDone { output_index, item_id, .. } => Some(
            SlotView { output_index, item_id },
        ),
        _ => None,
    }
}

/// The events that speak of an output item all call it by the same identifier.
pub open spec fn call_it(
    events: Seq<StreamEventView>,
    index: usize,
    item_id: Seq<char>,
) -> bool {
    forall|i: int|
        0 <= i < events.len() ==> (slot_of(#[trigger] events[i]) matches Some(slot)
            ==> slot.output_index == index ==> slot.item_id == item_id)
}

/// No event speaks of an output item.
pub open spec fn unmentioned(events: Seq<StreamEventView>, index: usize) -> bool {
    forall|i: int|
        0 <= i < events.len() ==> (slot_of(#[trigger] events[i]) matches Some(slot)
            ==> slot.output_index != index)
}

/// The events so far told of a function call what its state says: the argument pieces are its
/// arguments; it was announced and told to be done, arguments and all, once, or not at all; and it
/// was called by its identifier throughout.
pub open spec fn tell(events: Seq<StreamEventView>, state: CallEventView) -> bool {
    &&& streamed(events, state.output_index) == state.arguments
    &&& announcements(events, state.output_index) == if state.added {
        1nat
    } else {
        0nat
    }
    &&& endings(events, state.output_index) == if state.completed {
        1nat
    } else {
        0nat
    }
    &&& completions(events, state.output_index) == if state.completed {
        1nat
    } else {
        0nat
    }
    &&& call_it(events, state.output_index, state.item_id)
}

/// The events so far say nothing of an output item.
pub open spec fn silent(events: Seq<StreamEventView>, index: usize) -> bool {
    &&& streamed(events, index) == Seq::<char>::empty()
    &&& announcements(events, index) == 0
    &&& endings(events, index) == 0
    &&& completions(events, index) == 0
    &&& unmentioned(events, index)
}

/// An event of a function call may come behind other events. A call is announced once, before
/// anything else is told of it. Its arguments are told to be whole once, and are then the pieces
/// that were told before, joined. The item is told to be done once, directly behind that, with the
/// status `completed` and the same arguments.
pub open spec fn may_follow(events: Seq<StreamEventView>, event: StreamEventView) -> bool {
    match event {
        StreamEventView::OutputItemAdded { output_index, .. } => announcements(
            events,
            output_index,
        ) == 0,
        StreamEventView::FunctionCallArgumentsDelta { output_index, .. } => announcements(
            events,
            output_index,
        ) == 1,
        StreamEventView::FunctionCallArgumentsDone { output_index, arguments, .. } => {
            &&& announcements(events, output_index) == 1
            &&& endings(events, output_index) == 0
            &&& arguments == streamed(events, output_index)
        },
        StreamEventView::OutputItemDone { output_index, item } => {
            &&& completions(events, output_index) == 0
            &&& item.status == "completed"@
            &&& events.len() > 0
            &&& events.last() == (StreamEventView::FunctionCallArgumentsDone {
                output_index,
                item_id: item.id,
                arguments: item.arguments,
            })
        },
        _ => true,
    }
}

/// Every event may come behind those before it.
pub open spec fn in_order(events: Seq<StreamEventView>) -> bool {
    forall|i: int| 0 <= i < events.len() ==> may_follow(events.take(i), #[trigger] events[i])
}

/// One of the calls has the given output index.
pub open spec fn uses(calls: CallsView, index: usize) -> bool {
    exists|i: int| 0 <= i < calls.states.len() && (#[trigger] calls.states[i]).output_index == index
}

/// The events so far told of each call what its state says, and nothing of other items.
pub open spec fn consistent(calls: CallsView, events: Seq<StreamEventView>) -> bool {
    &&& forall|i: int, j: int|
        0 <= i < j < calls.states.len() ==> (#[trigger] calls.states[i]).output_index != (
        #[trigger] calls.states[j]).output_index
    &&& forall|i: int| 0 <= i < calls.states.len() ==> tell(events, #[trigger] calls.states[i])
    &&& forall|index: usize| !uses(calls, index) ==> #[trigger] silent(events, index)
}

/// The slots from a position on belong to none of the calls.
pub open spec fn unused_from(calls: CallsView, slots: Seq<SlotView>, from: int) -> bool {
    forall|i: int| from <= i < slots.len() ==> !uses(calls, (#[trigger] slots[i]).output_index)
}

/// No two slots have the same output index.
pub open spec fn distinct_slots(slots: Seq<SlotView>) -> bool {
    forall|i: int, j: int|
        0 <= i < j < slots.len() ==> (#[trigger] slots[i]).output_index != (
        #[trigger] slots[j]).output_index
}

/// What events tell adds up.
pub proof fn lemma_tell_concat(a: Seq<StreamEventView>, b: Seq<StreamEventView>, index: usize)
    ensures
        streamed(a + b, index) == streamed(a, index) + streamed(b, index),
        announcements(a + b, index) == announcements(a, index) + announcements(b, index),
        endings(a + b, index) == endings(a, index) + endings(b, index),
        completions(a + b, index) == completions(a, index) + completions(b, index),
        unmentioned(a + b, index) <==> unmentioned(a, index) && unmentioned(b, index),
        forall|item_id: Seq<char>| #[trigger]
            call_it(a + b, index, item_id) <==> call_it(a, index, item_id) && call_it(
                b,
                index,
                item_id,
            ),
    decreases b.len(),
{
    let all = a + b;
    assert forall|i: int| 0 <= i < a.len() implies all[i] == #[trigger] a[i] by {}
    assert forall|i: int| 0 <= i < b.len() implies all[a.len() + i] == #[trigger] b[i] by {}
    assert forall|i: int| a.len() <= i < all.len() implies #[trigger] all[i] == b[i
        - a.len()] by {}
    if b.len() == 0 {
        assert(a + b =~= a);
        assert(streamed(a, index) + streamed(b, index) =~= streamed(a, index));
    } else {
        lemma_tell_concat(a, b.drop_last(), index);
        assert((a + b).drop_last() =~= a + b.drop_last());
        assert((a + b).last() == b.last());
        assert(streamed(a + b, index) =~= streamed(a, index) + streamed(b, index));
    }
}

/// What one event tells.
pub proof fn lemma_tell_one(event: StreamEventView, index: usize)
    ensures
        streamed(seq![event], index) == (match event {
            StreamEventView::FunctionCallArgumentsDelta { output_index, delta, .. } => {
                if output_index == index {
                    delta
                } else {
                    seq![]
                }
            },
            _ => seq![],
        }),
        announcements(seq![event], index) == (match event {
            StreamEventView::OutputItemAdded { output_index, .. } => if output_index == index {
                1nat
            } else {
                0nat
            },
            _ => 0nat,
        }),
        endings(seq![event], index) == (match event {
            StreamEventView::FunctionCallArgumentsDone { output_index, .. } => {
                if output_index == index {
                    1nat
                } else {
                    0nat
                }
            },
            _ => 0nat,
        }),
        unmentioned(seq![event], index) <==> (slot_of(event) matches Some(slot)
            ==> slot.output_index != index),
        completions(seq![event], index) == (match event {
            StreamEventView::OutputItemDone { output_index, .. } => if output_index == index {
                1nat
            } else {
                0nat
            },
            _ => 0nat,
        }),
{
    let one = seq![event];
    let none = one.drop_last();
    assert(none =~= Seq::<StreamEventView>::empty());
    assert(one.last() == event);
    assert(one[0] == event);
    assert(endings(none, index) == 0);
    assert(streamed(none, index) =~= seq![]);
    assert(announcements(none, index) == 0);
    assert(completions(none, index) == 0);
    match event {
        StreamEventView::FunctionCallArgumentsDelta { output_index, delta, .. } => {
            assert(Seq::<char>::empty() + delta =~= delta);
        },
        _ => {},
    }
}

/// What is told of a piece.
proof fn lemma_tell_merge(state: CallEventView, delta: ToolCallDeltaView, index: usize)
    ensures
        index != state.output_index ==> silent(merge_events(state, delta), index),
        index == state.output_index ==> streamed(merge_events(state, delta), index)
            == arguments_piece(delta),
        index == state.output_index ==> announcements(merge_events(state, delta), index) == (
        if !state.added && delta.function is Some {
            1nat
        } else {
            0nat
        }),
        endings(merge_events(state, delta), index) == 0,
        completions(merge_events(state, delta), index) == 0,
        call_it(merge_events(state, delta), state.output_index, state.item_id),
{
    let announced = if delta.function is Some && !state.added {
        seq![added_event(merged(state, delta))]
    } else {
        seq![]
    };
    let event = StreamEventView::FunctionCallArgumentsDelta {
        output_index: state.output_index,
        item_id: state.item_id,
        delta: arguments_piece(delta),
    };
    let argued = if arguments_piece(delta).len() > 0 {
        seq![event]
    } else {
        seq![]
    };
    lemma_tell_one(added_event(merged(state, delta)), index);
    lemma_tell_one(event, index);
    lemma_tell_concat(announced, argued, index);
    assert(merge_events(state, delta) =~= announced + argued);
    if arguments_piece(delta).len() == 0 {
        assert(arguments_piece(delta) =~= seq![]);
    }
    assert(streamed(announced, index) =~= seq![]);
    assert(streamed(announced, index) + streamed(argued, index) =~= streamed(argued, index));
}

/// What is told when a call is complete.
proof fn lemma_tell_closing(state: CallEventView, index: usize)
    ensures
        index != state.output_index ==> silent(closing_events(state), index),
        streamed(closing_events(state), index) == Seq::<char>::empty(),
        index == state.output_index ==> announcements(closing_events(state), index) == (
        if !state.added && !state.completed {
            1nat
        } else {
            0nat
        }),
        index == state.output_index ==> endings(closing_events(state), index) == (
        if !state.completed {
            1nat
        } else {
            0nat
        }),
        index == state.output_index ==> completions(closing_events(state), index) == (
        if !state.completed {
            1nat
        } else {
            0nat
        }),
        call_it(closing_events(state), state.output_index, state.item_id),
{
    if !state.completed {
        let announced = if state.added {
            seq![]
        } else {
            seq![added_event(state)]
        };
        let whole = StreamEventView::FunctionCallArgumentsDone {
            output_index: state.output_index,
            item_id: state.item_id,
            arguments: state.arguments,
        };
        let done = StreamEventView::OutputItemDone {
            output_index: state.output_index,
            item: function_item(
                state.item_id,
                state.call_id,
                state.name,
                "completed"@,
                state.arguments,
            ),
        };
        let complete = StreamEventView::CompleteOutputItem { output_index: state.output_index };
        lemma_tell_one(added_event(state), index);
        lemma_tell_one(whole, index);
        lemma_tell_one(done, index);
        lemma_tell_one(complete, index);
        lemma_tell_concat(announced, seq![whole], index);
        lemma_tell_concat(announced + seq![whole], seq![done], index);
        lemma_tell_concat(announced + seq![whole] + seq![done], seq![complete], index);
        assert(closing_events(state) =~= announced + seq![whole] + seq![done] + seq![complete]);
        assert(streamed(closing_events(state), index) =~= Seq::<char>::empty());
    }
}

/// An event that may follow keeps the events in order.
pub proof fn lemma_in_order_push(events: Seq<StreamEventView>, event: StreamEventView)
    requires
        in_order(events),
        may_follow(events, event),
    ensures
        in_order(events.push(event)),
{
    let all = events.push(event);
    assert forall|i: int| 0 <= i < all.len() implies may_follow(all.take(i), #[trigger] all[i]) by {
        if i < events.len() {
            assert(all[i] == events[i]);
            assert(all.take(i) =~= events.take(i));
        } else {
            assert(all.take(i) =~= events);
        }
    }
}

/// What is told of a piece comes in order.
proof fn lemma_merge_in_order(
    events: Seq<StreamEventView>,
    state: CallEventView,
    delta: ToolCallDeltaView,
)
    requires
        in_order(events),
        tell(events, state),
    ensures
        in_order(events + merge_events(state, delta)),
{
    let index = state.output_index;
    let added = added_event(merged(state, delta));
    let announced = if delta.function is Some && !state.added {
        events.push(added)
    } else {
        events
    };
    if delta.function is Some && !state.added {
        lemma_in_order_push(events, added);
        assert(announced.drop_last() =~= events);
        assert(announced.last() == added);
    }
    if arguments_piece(delta).len() > 0 {
        let argued = StreamEventView::FunctionCallArgumentsDelta {
            output_index: index,
            item_id: state.item_id,
            delta: arguments_piece(delta),
        };
        lemma_in_order_push(announced, argued);
        assert(events + merge_events(state, delta) =~= announced.push(argued));
    } else {
        assert(events + merge_events(state, delta) =~= announced);
    }
}

/// What is told when a call is complete comes in order.
proof fn lemma_closing_in_order(events: Seq<StreamEventView>, state: CallEventView)
    requires
        in_order(events),
        tell(events, state),
    ensures
        in_order(events + closing_events(state)),
{
    if state.completed {
        assert(events + closing_events(state) =~= events);
    } else {
        let index = state.output_index;
        let announced = if state.added {
            events
        } else {
            events.push(added_event(state))
        };
        if !state.added {
            lemma_in_order_push(events, added_event(state));
            assert(announced.drop_last() =~= events);
            assert(announced.last() == added_event(state));
        }
        let whole = StreamEventView::FunctionCallArgumentsDone {
            output_index: index,
            item_id: state.item_id,
            arguments: state.arguments,
        };
        lemma_in_order_push(announced, whole);
        let told = announced.push(whole);
        assert(told.drop_last() =~= announced);
        assert(told.last() == whole);
        assert(completions(announced, index) == 0);
        assert(completions(told, index) == 0);
        let done = StreamEventView::OutputItemDone {
            output_index: index,
            item: function_item(
                state.item_id,
                state.call_id,
                state.name,
                "completed"@,
                state.arguments,
            ),
        };
        lemma_in_order_push(told, done);
        let complete = StreamEventView::CompleteOutputItem { output_index: index };
        lemma_in_order_push(told.push(done), complete);
        assert(events + closing_events(state) =~= told.push(done).push(complete));
    }
}

/// A call that moves on as its events tell leaves all calls consistent with the events.
proof fn lemma_consistent_update(
    calls: CallsView,
    events: Seq<StreamEventView>,
    r: int,
    state: CallEventView,
    more: Seq<StreamEventView>,
)
    requires
        consistent(calls, events),
        0 <= r < calls.states.len(),
        state.output_index == calls.states[r].output_index,
        tell(events + more, state),
        forall|index: usize| index != state.output_index ==> #[trigger] silent(more, index),
    ensures
        consistent(
            (CallsView { keys: calls.keys, states: calls.states.update(r, state) }),
            events + more,
        ),
        forall|index: usize|
            #[trigger] uses(
                (CallsView { keys: calls.keys, states: calls.states.update(r, state) }),
                index,
            ) <==> uses(calls, index),
{
    let after = CallsView { keys: calls.keys, states: calls.states.update(r, state) };
    assert forall|index: usize| #[trigger] uses(after, index) <==> uses(calls, index) by {
        if uses(after, index) {
            let i = choose|i: int|
                0 <= i < after.states.len() && (#[trigger] after.states[i]).output_index == index;
            assert(calls.states[i].output_index == index);
        }
        if uses(calls, index) {
            let i = choose|i: int|
                0 <= i < calls.states.len() && (#[trigger] calls.states[i]).output_index == index;
            assert(after.states[i].output_index == index);
        }
    }
    assert forall|i: int| 0 <= i < after.states.len() implies tell(
        events + more,
        #[trigger] after.states[i],
    ) by {
        if i != r {
            let other = calls.states[i];
            assert(other.output_index != state.output_index);
            assert(silent(more, other.output_index));
            assert(tell(events, other));
            lemma_tell_concat(events, more, other.output_index);
            assert(streamed(events, other.output_index) + Seq::<char>::empty() =~= streamed(
                events,
                other.output_index,
            ));
        }
    }
    assert forall|index: usize| !uses(after, index) implies #[trigger] silent(
        events + more,
        index,
    ) by {
        assert(after.states[r].output_index == state.output_index);
        assert(index != state.output_index);
        assert(silent(events, index) && silent(more, index));
        lemma_tell_concat(events, more, index);
        assert(Seq::<char>::empty() + Seq::<char>::empty() =~= Seq::<char>::empty());
    }
    assert forall|i: int, j: int| 0 <= i < j < after.states.len() implies (
    #[trigger] after.states[i]).output_index != (#[trigger] after.states[j]).output_index by {
        assert(calls.states[i].output_index != calls.states[j].output_index);
    }
}

/// A new call, of which nothing was told, leaves all calls consistent with the events.
proof fn lemma_consistent_open(
    calls: CallsView,
    events: Seq<StreamEventView>,
    key: u32,
    slot: SlotView,
)
    requires
        calls.valid(),
        consistent(calls, events),
        !calls.keys.contains(key) ==> !uses(calls, slot.output_index),
    ensures
        calls.opened(key, slot).valid(),
        consistent(calls.opened(key, slot), events),
        forall|index: usize|
            #[trigger] uses(calls.opened(key, slot), index) ==> uses(calls, index) || (
            !calls.keys.contains(key) && index == slot.output_index),
{
    lemma_with_key(calls.keys, key);
    lemma_rank(calls.keys, key);
    if !calls.keys.contains(key) {
        let r = rank(calls.keys, key);
        let after = calls.opened(key, slot);
        assert(silent(events, slot.output_index));
        assert forall|index: usize| #[trigger] uses(after, index) implies uses(calls, index)
            || index == slot.output_index by {
            let i = choose|i: int|
                0 <= i < after.states.len() && (#[trigger] after.states[i]).output_index == index;
            if i < r {
                assert(calls.states[i].output_index == index);
            } else if i > r {
                assert(calls.states[i - 1].output_index == index);
            }
        }
        assert forall|i: int| 0 <= i < after.states.len() implies tell(
            events,
            #[trigger] after.states[i],
        ) by {
            if i < r {
                assert(after.states[i] == calls.states[i]);
            } else if i > r {
                assert(after.states[i] == calls.states[i - 1]);
            }
        }
        assert forall|i: int, j: int| 0 <= i < j < after.states.len() implies (
        #[trigger] after.states[i]).output_index != (#[trigger] after.states[j]).output_index by {
            let a = if i < r {
                i
            } else {
                i - 1
            };
            let b = if j < r {
                j
            } else {
                j - 1
            };
            if i == r {
                assert(calls.states[b].output_index == after.states[j].output_index);
            } else if j == r {
                assert(calls.states[a].output_index == after.states[i].output_index);
            } else {
                assert(calls.states[a].output_index != calls.states[b].output_index);
            }
        }
        assert forall|index: usize| !uses(after, index) implies #[trigger] silent(
            events,
            index,
        ) by {
            if uses(calls, index) {
                let i = choose|i: int|
                    0 <= i < calls.states.len() && (#[trigger] calls.states[i]).output_index
                        == index;
                if i < r {
                    assert(after.states[i].output_index == index);
                } else {
                    assert(after.states[i + 1].output_index == index);
                }
            }
        }
    }
}

/// Pieces leave the calls consistent with the events.
proof fn lemma_told_consistent(
    calls: CallsView,
    events: Seq<StreamEventView>,
    deltas: Seq<ToolCallDeltaView>,
    slots: Seq<SlotView>,
)
    requires
        calls.valid(),
        consistent(calls, events),
        distinct_slots(slots),
        unused_from(calls, slots, 0),
        slots_needed(calls.keys, deltas) <= slots.len(),
    ensures
        calls.told(deltas, slots).calls.valid(),
        consistent(calls.told(deltas, slots).calls, events + calls.told(deltas, slots).events),
        in_order(events) ==> in_order(events + calls.told(deltas, slots).events),
        unused_from(
            calls.told(deltas, slots).calls,
            slots,
            slots_needed(calls.keys, deltas),
        ),
    decreases deltas.len(),
{
    lemma_told_valid(calls, deltas, slots);
    if deltas.len() == 0 {
        assert(events + Seq::<StreamEventView>::empty() =~= events);
    } else {
        let shorter = deltas.drop_last();
        let delta = deltas.last();
        lemma_keys_after(calls.keys, shorter);
        lemma_keys_grow(calls.keys, deltas, deltas.len() - 1);
        assert(deltas.take(deltas.len() - 1) =~= shorter);
        lemma_told_valid(calls, shorter, slots);
        lemma_told_consistent(calls, events, shorter, slots);
        let before = calls.told(shorter, slots);
        let used = before.calls.keys.len() - calls.keys.len();
        let slot = slots[used];
        lemma_with_key(before.calls.keys, delta.index);
        lemma_rank(before.calls.keys, delta.index);
        lemma_consistent_open(before.calls, events + before.events, delta.index, slot);
        let open = before.calls.opened(delta.index, slot);
        let r = rank(open.keys, delta.index);
        let state = open.states[r];
        let more = merge_events(state, delta);
        assert forall|index: usize| index != state.output_index implies #[trigger] silent(
            more,
            index,
        ) by {
            lemma_tell_merge(state, delta, index);
        }
        lemma_tell_merge(state, delta, state.output_index);
        lemma_tell_concat(events + before.events, more, state.output_index);
        assert(tell(events + before.events, state));
        if in_order(events) {
            lemma_merge_in_order(events + before.events, state, delta);
        }
        lemma_consistent_update(
            open,
            events + before.events,
            r,
            merged(state, delta),
            more,
        );
        let after = calls.told(deltas, slots);
        assert(events + after.events =~= events + before.events + more);
        assert forall|i: int| slots_needed(calls.keys, deltas) <= i < slots.len() implies !uses(
            after.calls,
            (#[trigger] slots[i]).output_index,
        ) by {
            if uses(after.calls, slots[i].output_index) {
                assert(uses(open, slots[i].output_index));
                assert(!uses(before.calls, slots[i].output_index));
            }
        }
    }
}

/// The calls of which the first are complete.
spec fn closed_up_to(calls: CallsView, k: int) -> CallsView {
    CallsView {
        keys: calls.keys,
        states: Seq::new(
            calls.states.len(),
            |i: int|
                if i < k {
                    closed_state(calls.states[i])
                } else {
                    calls.states[i]
                },
        ),
    }
}

/// Completing calls one after the other leaves them consistent with the events.
proof fn lemma_closing_consistent(calls: CallsView, events: Seq<StreamEventView>, k: int)
    requires
        consistent(calls, events),
        0 <= k <= calls.states.len(),
    ensures
        consistent(
            closed_up_to(calls, k),
            events + all_closing_events(calls.states.take(k)),
        ),
        in_order(events) ==> in_order(events + all_closing_events(calls.states.take(k))),
    decreases k,
{
    if k == 0 {
        assert(closed_up_to(calls, 0).states =~= calls.states);
        assert(events + all_closing_events(calls.states.take(0)) =~= events);
    } else {
        lemma_closing_consistent(calls, events, k - 1);
        let before = closed_up_to(calls, k - 1);
        let told = events + all_closing_events(calls.states.take(k - 1));
        let state = calls.states[k - 1];
        let more = closing_events(state);
        assert(before.states[k - 1] == state);
        assert forall|index: usize| index != state.output_index implies #[trigger] silent(
            more,
            index,
        ) by {
            lemma_tell_closing(state, index);
        }
        lemma_tell_closing(state, state.output_index);
        lemma_tell_concat(told, more, state.output_index);
        assert(tell(told, before.states[k - 1]));
        if in_order(events) {
            lemma_closing_in_order(told, state);
        }
        assert(streamed(told, state.output_index) + Seq::<char>::empty() =~= streamed(
            told,
            state.output_index,
        ));
        assert(tell(told + more, closed_state(state)));
        lemma_consistent_update(before, told, k - 1, closed_state(state), more);
        assert(before.states.update(k - 1, closed_state(state)) =~= closed_up_to(
            calls,
            k,
        ).states);
        assert(calls.states.take(k).drop_last() =~= calls.states.take(k - 1));
        assert(calls.states.take(k).last() == state);
        assert(told + more =~= events + all_closing_events(calls.states.take(k)));
    }
}

/// A chunk keeps what was told of each function call in line with the call: the argument pieces
/// told so far, joined, are its arguments so far; it was announced once, as soon as a piece spoke
/// of its function or it was complete, and not before; and it was told to be done once, when it
/// was complete, and not before. It also keeps the events in order.
pub proof fn law_events_tell_the_calls(
    calls: CallsView,
    events: Seq<StreamEventView>,
    chunk: ChatChunkView,
    slots: Seq<SlotView>,
)
    requires
        calls.valid(),
        consistent(calls, events),
        distinct_slots(slots),
        unused_from(calls, slots, 0),
        slots.len() == slots_needed(calls.keys, chunk.deltas()),
    ensures
        calls.told_chunk(chunk, slots).calls.valid(),
        consistent(
            calls.told_chunk(chunk, slots).calls,
            events + calls.told_chunk(chunk, slots).events,
        ),
        in_order(events) ==> in_order(events + calls.told_chunk(chunk, slots).events),
{
    lemma_told_consistent(calls, events, chunk.deltas(), slots);
    let pieces = calls.told(chunk.deltas(), slots);
    let n = pieces.calls.states.len() as int;
    lemma_closing_consistent(pieces.calls, events + pieces.events, n);
    assert(closed_up_to(pieces.calls, n).states =~= pieces.calls.closed().states);
    assert(pieces.calls.states.take(n) =~= pieces.calls.states);
    assert(events + (pieces.events + all_closing_events(pieces.calls.states)) =~= events
        + pieces.events + all_closing_events(pieces.calls.states));
}

/// The output item of the call with the given key.
pub open spec fn item_of(calls: CallsView, key: u32) -> Option<SlotView> {
    if calls.keys.contains(key) {
        let state = calls.states[rank(calls.keys, key)];
        Some(SlotView { output_index: state.output_index, item_id: state.item_id })
    } else {
        None
    }
}

/// Every call keeps its output item.
pub open spec fn items_kept(before: CallsView, after: CallsView) -> bool {
    forall|key: u32|
        before.keys.contains(key) ==> #[trigger] item_of(after, key) == item_of(before, key)
}

/// A piece leaves every call its output item.
pub proof fn lemma_piece_keeps_items(calls: CallsView, delta: ToolCallDeltaView, slot: SlotView)
    requires
        calls.valid(),
    ensures
        items_kept(calls, calls.told_piece(delta, slot).calls),
{
    let open = calls.opened(delta.index, slot);
    let after = calls.told_piece(delta, slot).calls;
    let r = rank(calls.keys, delta.index);
    lemma_with_key(calls.keys, delta.index);
    lemma_rank(calls.keys, delta.index);
    assert forall|key: u32| calls.keys.contains(key) implies #[trigger] item_of(after, key)
        == item_of(calls, key) by {
        let was = rank(calls.keys, key);
        let now = rank(after.keys, key);
        lemma_rank(calls.keys, key);
        lemma_rank(after.keys, key);
        assert(after.keys == with_key(calls.keys, delta.index));
        if calls.keys.contains(delta.index) {
            assert(open == calls);
        } else {
            assert(key != delta.index);
            let shifted = if was < r {
                was
            } else {
                was + 1
            };
            assert(after.keys[shifted] == key);
            assert(now == shifted) by {
                if now < shifted {
                    assert(after.keys[now] < after.keys[shifted]);
                } else if now > shifted {
                    assert(after.keys[shifted] < after.keys[now]);
                }
            }
            assert(open.states[shifted] == calls.states[was]);
        }
    }
}

/// Pieces leave every call its output item.
proof fn lemma_told_keeps_items(
    calls: CallsView,
    deltas: Seq<ToolCallDeltaView>,
    slots: Seq<SlotView>,
)
    requires
        calls.valid(),
    ensures
        items_kept(calls, calls.told(deltas, slots).calls),
    decreases deltas.len(),
{
    if deltas.len() > 0 {
        let shorter = deltas.drop_last();
        lemma_told_keeps_items(calls, shorter, slots);
        lemma_told_valid(calls, shorter, slots);
        let before = calls.told(shorter, slots).calls;
        let slot = slots[before.keys.len() - calls.keys.len()];
        lemma_piece_keeps_items(before, deltas.last(), slot);
        let after = calls.told(deltas, slots).calls;
        assert forall|key: u32| calls.keys.contains(key) implies #[trigger] item_of(after, key)
            == item_of(calls, key) by {
            assert(item_of(before, key) == item_of(calls, key));
        }
    }
}

/// What is told of a piece bears the output item of the call that the piece belongs to. That is
/// the given slot where the call is new.
pub proof fn law_pieces_bear_the_item_of_their_call(
    calls: CallsView,
    delta: ToolCallDeltaView,
    slot: SlotView,
)
    requires
        calls.valid(),
    ensures
        item_of(calls.told_piece(delta, slot).calls, delta.index) == (if calls.keys.contains(
            delta.index,
        ) {
            item_of(calls, delta.index)
        } else {
            Some(slot)
        }),
        forall|i: int|
            0 <= i < calls.told_piece(delta, slot).events.len() ==> slot_of(
                #[trigger] calls.told_piece(delta, slot).events[i],
            ) == item_of(calls.told_piece(delta, slot).calls, delta.index),
{
    lemma_with_key(calls.keys, delta.index);
    lemma_rank(calls.keys, delta.index);
}

/// A chunk leaves every call the output item that the call took at first sight.
pub proof fn law_calls_keep_their_items(
    calls: CallsView,
    chunk: ChatChunkView,
    slots: Seq<SlotView>,
)
    requires
        calls.valid(),
    ensures
        items_kept(calls, calls.told_chunk(chunk, slots).calls),
{
    lemma_told_keeps_items(calls, chunk.deltas(), slots);
    lemma_told_valid(calls, chunk.deltas(), slots);
    let pieces = calls.told(chunk.deltas(), slots).calls;
    assert forall|key: u32| calls.keys.contains(key) implies #[trigger] item_of(
        pieces.closed(),
        key,
    ) == item_of(calls, key) by {
        assert(item_of(pieces, key) == item_of(calls, key));
        lemma_rank(pieces.keys, key);
    }
}

/// A chunk, with the output slots for the calls that it opens.
pub struct ChunkTaken {
    pub chunk: ChatChunkView,
    pub slots: Seq<SlotView>,
}

/// Chunks taken in, one after the other, from no calls on.
pub open spec fn told_chunks(taken: Seq<ChunkTaken>) -> Told
    decreases taken.len(),
{
    if taken.len() == 0 {
        Told { calls: CallsView { keys: seq![], states: seq![] }, events: seq![] }
    } else {
        let before = told_chunks(taken.drop_last());
        let next = before.calls.told_chunk(taken.last().chunk, taken.last().slots);
        Told { calls: next.calls, events: before.events + next.events }
    }
}

/// Each chunk came with as many slots as it opens calls, and no two calls were given the same.
pub open spec fn slots_fit(taken: Seq<ChunkTaken>) -> bool
    decreases taken.len(),
{
    taken.len() == 0 || {
        let calls = told_chunks(taken.drop_last()).calls;
        let last = taken.last();
        &&& slots_fit(taken.drop_last())
        &&& distinct_slots(last.slots)
        &&& unused_from(calls, last.slots, 0)
        &&& last.slots.len() == slots_needed(calls.keys, last.chunk.deltas())
    }
}

/// Whatever chunks are taken in from no calls on, every function call has one output item, whose
/// index and identifier all its events bear and which stays the same from chunk to chunk. The call
/// is announced once at most, before anything else is told of it. Its arguments are told to be
/// whole once at most; they are then the pieces told before, joined, and the item is told to be
/// done directly behind that, once at most, with the status `completed` and the same arguments.
pub proof fn law_call_events_come_in_order(taken: Seq<ChunkTaken>)
    requires
        slots_fit(taken),
    ensures
        told_chunks(taken).calls.valid(),
        consistent(told_chunks(taken).calls, told_chunks(taken).events),
        in_order(told_chunks(taken).events),
        taken.len() > 0 ==> items_kept(
            told_chunks(taken.drop_last()).calls,
            told_chunks(taken).calls,
        ),
        forall|i: int|
            0 <= i < told_chunks(taken).events.len() ==> (slot_of(
                #[trigger] told_chunks(taken).events[i],
            ) matches Some(slot) ==> exists|key: u32| #[trigger]
                item_of(told_chunks(taken).calls, key) == Some(slot)),
    decreases taken.len(),
{
    let told = told_chunks(taken);
    if taken.len() == 0 {
        assert forall|index: usize| #[trigger] silent(told.events, index) by {}
    } else {
        let before = told_chunks(taken.drop_last());
        let last = taken.last();
        law_call_events_come_in_order(taken.drop_last());
        law_events_tell_the_calls(before.calls, before.events, last.chunk, last.slots);
        law_calls_keep_their_items(before.calls, last.chunk, last.slots);
    }
    assert forall|i: int| 0 <= i < told.events.len() implies (slot_of(
        #[trigger] told.events[i],
    ) matches Some(slot) ==> exists|key: u32| #[trigger]
        item_of(told.calls, key) == Some(slot)) by {
        if let Some(slot) = slot_of(told.events[i]) {
            lemma_events_bear_items(told.calls, told.events, i);
        }
    }
}

/// An event of a function call bears the output item of one of the calls.
proof fn lemma_events_bear_items(calls: CallsView, events: Seq<StreamEventView>, i: int)
    requires
        calls.valid(),
        consistent(calls, events),
        0 <= i < events.len(),
        slot_of(events[i]) is Some,
    ensures
        exists|key: u32| #[trigger] item_of(calls, key) == slot_of(events[i]),
{
    let slot = slot_of(events[i])->0;
    if !uses(calls, slot.output_index) {
        assert(silent(events, slot.output_index));
    }
    let k = choose|k: int|
        0 <= k < calls.states.len() && (#[trigger] calls.states[k]).output_index
            == slot.output_index;
    assert(tell(events, calls.states[k]));
    let key = calls.keys[k];
    lemma_rank(calls.keys, key);
    let r = rank(calls.keys, key);
    assert(r == k) by {
        if r < k {
            assert(calls.keys[r] < calls.keys[k]);
        } else if k < r {
            assert(calls.keys[k] < calls.keys[r]);
        }
    }
    assert(item_of(calls, key) == Some(slot));
}

/// Once a chunk with the finish reason `tool_calls` is taken in, every function call is complete
/// and was announced.
pub proof fn law_finish_completes_all_calls(
    calls: CallsView,
    chunk: ChatChunkView,
    slots: Seq<SlotView>,
)
    requires
        calls.valid(),
        forall|i: int|
            0 <= i < calls.states.len() ==> ((#[trigger] calls.states[i]).completed
                ==> calls.states[i].added),
        slots.len() == slots_needed(calls.keys, chunk.deltas()),
        chunk.finish_reason() == Some("tool_calls"@),
    ensures
        forall|i: int|
            0 <= i < calls.told_chunk(chunk, slots).calls.states.len() ==> (
            #[trigger] calls.told_chunk(chunk, slots).calls.states[i]).completed,
        forall|i: int|
            0 <= i < calls.told_chunk(chunk, slots).calls.states.len() ==> (
            #[trigger] calls.told_chunk(chunk, slots).calls.states[i]).added,
{
    lemma_completed_were_added(calls, chunk.deltas(), slots);
}

/// A call that is complete was announced.
proof fn lemma_completed_were_added(
    calls: CallsView,
    deltas: Seq<ToolCallDeltaView>,
    slots: Seq<SlotView>,
)
    requires
        calls.valid(),
        forall|i: int|
            0 <= i < calls.states.len() ==> ((#[trigger] calls.states[i]).completed
                ==> calls.states[i].added),
    ensures
        forall|i: int|
            0 <= i < calls.told(deltas, slots).calls.states.len() ==> ((
            #[trigger] calls.told(deltas, slots).calls.states[i]).completed ==> calls.told(
                deltas,
                slots,
            ).calls.states[i].added),
    decreases deltas.len(),
{
    if deltas.len() > 0 {
        let shorter = deltas.drop_last();
        lemma_completed_were_added(calls, shorter, slots);
        lemma_told_valid(calls, shorter, slots);
        let before = calls.told(shorter, slots).calls;
        let slot = slots[before.keys.len() - calls.keys.len()];
        lemma_with_key(before.keys, deltas.last().index);
        lemma_rank(before.keys, deltas.last().index);
        let open = before.opened(deltas.last().index, slot);
        let r = rank(before.keys, deltas.last().index);
        assert forall|i: int| 0 <= i < open.states.len() implies (!(
        #[trigger] open.states[i]).completed || open.states[i].added) by {
            if !before.keys.contains(deltas.last().index) {
                if i < r {
                    assert(open.states[i] == before.states[i]);
                } else if i > r {
                    assert(open.states[i] == before.states[i - 1]);
                }
            }
        }
    }
}

/// What the events say of the function calls is what the accumulated response says: each call has
/// the same call identifier, name and arguments in both, and a call of the response that no event
/// speaks of is blank.
pub open spec fn agree(calls: CallsView, response: Seq<FunctionCallView>) -> bool {
    &&& forall|i: int|
        0 <= i < calls.keys.len() ==> {
            let key = #[trigger] calls.keys[i];
            &&& key < response.len()
            &&& calls.states[i].call_id == response[key as int].call_id
            &&& calls.states[i].name == response[key as int].name
            &&& calls.states[i].arguments == response[key as int].arguments
        }
    &&& forall|k: u32|
        k < response.len() && !#[trigger] calls.keys.contains(k) ==> {
            &&& response[k as int].call_id == Seq::<char>::empty()
            &&& response[k as int].name == Seq::<char>::empty()
            &&& response[k as int].arguments == Seq::<char>::empty()
        }
}

/// Pieces keep the agreement.
proof fn lemma_pieces_agree(
    calls: CallsView,
    response: Seq<FunctionCallView>,
    deltas: Seq<ToolCallDeltaView>,
    slots: Seq<SlotView>,
)
    requires
        calls.valid(),
        agree(calls, response),
        forall|j: int| 0 <= j < deltas.len() ==> (#[trigger] deltas[j]).index < response.len(),
    ensures
        extended_calls(response, deltas).len() == response.len(),
        agree(calls.told(deltas, slots).calls, extended_calls(response, deltas)),
    decreases deltas.len(),
{
    if deltas.len() > 0 {
        let shorter = deltas.drop_last();
        let delta = deltas.last();
        let key = delta.index;
        assert forall|j: int| 0 <= j < shorter.len() implies (#[trigger] shorter[j]).index
            < response.len() by {
            assert(shorter[j] == deltas[j]);
        }
        assert(deltas[deltas.len() - 1].index < response.len());
        lemma_pieces_agree(calls, response, shorter, slots);
        lemma_told_valid(calls, shorter, slots);
        let before = calls.told(shorter, slots).calls;
        let said = extended_calls(response, shorter);
        let slot = slots[before.keys.len() - calls.keys.len()];
        lemma_with_key(before.keys, key);
        lemma_rank(before.keys, key);
        let open = before.opened(key, slot);
        let r = rank(open.keys, key);
        assert(agree(open, said)) by {
            if !before.keys.contains(key) {
                assert forall|i: int| 0 <= i < open.keys.len() implies {
                    let k = #[trigger] open.keys[i];
                    &&& k < said.len()
                    &&& open.states[i].call_id == said[k as int].call_id
                    &&& open.states[i].name == said[k as int].name
                    &&& open.states[i].arguments == said[k as int].arguments
                } by {
                    if i < r {
                        assert(open.keys[i] == before.keys[i]);
                    } else if i > r {
                        assert(open.keys[i] == before.keys[i - 1]);
                    }
                }
                assert forall|k: u32| k < said.len() && !#[trigger] open.keys.contains(k) implies {
                    &&& said[k as int].call_id == Seq::<char>::empty()
                    &&& said[k as int].name == Seq::<char>::empty()
                    &&& said[k as int].arguments == Seq::<char>::empty()
                } by {
                    assert(k != key);
                    assert(!before.keys.contains(k));
                }
            }
        }
        assert(open.keys[r] == key);
        let after = calls.told(deltas, slots).calls;
        let now = extended_calls(response, deltas);
        assert(now =~= said.update(key as int, extended_call(said[key as int], delta)));
        assert forall|i: int| 0 <= i < after.keys.len() implies {
            let k = #[trigger] after.keys[i];
            &&& k < now.len()
            &&& after.states[i].call_id == now[k as int].call_id
            &&& after.states[i].name == now[k as int].name
            &&& after.states[i].arguments == now[k as int].arguments
        } by {
            assert(open.keys[i] == after.keys[i]);
            if i < r {
                assert(open.keys[i] < open.keys[r]);
            } else if i > r {
                assert(open.keys[r] < open.keys[i]);
            }
        }
    }
}

/// The events of a stream and the response accumulated from it agree on the function calls, chunk
/// by chunk.
pub proof fn law_events_agree_with_the_response(
    calls: CallsView,
    view: AccumulatorView,
    chunk: ChatChunkView,
    slots: Seq<SlotView>,
    fresh: Seq<Seq<char>>,
)
    requires
        calls.valid(),
        agree(calls, view.tool_calls),
        slots.len() == slots_needed(calls.keys, chunk.deltas()),
        fresh.len() == view.opened_by(chunk),
    ensures
        agree(calls.told_chunk(chunk, slots).calls, view.after(chunk, fresh).tool_calls),
{
    let deltas = chunk.deltas();
    let blanks = fresh.map_values(|id: Seq<char>| blank_call(id));
    let wider = view.tool_calls + blanks;
    lemma_calls_needed(view.tool_calls.len(), deltas);
    assert(agree(calls, wider)) by {
        assert forall|k: u32| k < wider.len() && !#[trigger] calls.keys.contains(k) implies {
            &&& wider[k as int].call_id == Seq::<char>::empty()
            &&& wider[k as int].name == Seq::<char>::empty()
            &&& wider[k as int].arguments == Seq::<char>::empty()
        } by {
            if k < view.tool_calls.len() {
                assert(wider[k as int] == view.tool_calls[k as int]);
            } else {
                assert(wider[k as int] == blank_call(fresh[k - view.tool_calls.len()]));
            }
        }
    }
    lemma_pieces_agree(calls, wider, deltas, slots);
    let pieces = calls.told(deltas, slots).calls;
    let now = extended_calls(wider, deltas);
    assert(view.after(chunk, fresh).tool_calls =~= now) by {
        if chunk.choices.len() == 0 {
            assert(blanks =~= seq![]);
            assert(wider =~= view.tool_calls);
        }
    }
    assert(agree(pieces.closed(), now)) by {
        assert forall|i: int| 0 <= i < pieces.keys.len() implies {
            let k = #[trigger] pieces.closed().keys[i];
            &&& k < now.len()
            &&& pieces.closed().states[i].call_id == now[k as int].call_id
            &&& pieces.closed().states[i].name == now[k as int].name
            &&& pieces.closed().states[i].arguments == now[k as int].arguments
        } by {
            assert(pieces.keys[i] == pieces.closed().keys[i]);
            lemma_told_valid(calls, deltas, slots);
        }
    }
}

} // verus!
