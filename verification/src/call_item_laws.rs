//! What holds of the output items by which function calls are told.
use crate::chat::{ChatChunkView, ToolCallDeltaView};
use crate::events::{ItemView, SlotView, StreamEventView};
use crate::function_call_laws::{
    item_of, law_finish_completes_all_calls, law_pieces_bear_the_item_of_their_call,
    lemma_piece_keeps_items,
};
use crate::function_calls::{
    all_closing_events, closing_events, keys_after, lemma_keys_after, lemma_told_valid,
    slots_needed, CallEventView, CallsView,
};
use crate::order::{increasing, lemma_rank, lemma_with_key, rank};
use vstd::prelude::*;

verus! {

/// An item announces a function call: it bears the identifier of the call's output item, the call
/// identifier and as much of the name as were known by then, and no arguments.
pub open spec fn announces(item: ItemView, state: CallEventView) -> bool {
    &&& item.id == state.item_id
    &&& item.item_type == "function_call"@
    &&& item.call_id matches Some(call_id) && (call_id.len() == 0 || call_id == state.call_id)
    &&& item.name.is_prefix_of(state.name)
    &&& item.status == "in_progress"@
    &&& item.arguments == ""@
    &&& item.server_label is None
}

/// An item reports a complete function call: it bears the identifier of the call's output item and
/// the whole call.
pub open spec fn reports_whole(item: ItemView, state: CallEventView) -> bool {
    item == (ItemView {
        id: state.item_id,
        item_type: "function_call"@,
        call_id: Some(state.call_id),
        name: state.name,
        status: "completed"@,
        arguments: state.arguments,
        server_label: None,
    })
}

/// An event says of one of the calls what holds of it.
pub open spec fn says(event: StreamEventView, states: Seq<CallEventView>) -> bool {
    match event {
        StreamEventView::OutputItemAdded { output_index, item } => exists|k: int|
            0 <= k < states.len() && (#[trigger] states[k]).output_index == output_index
                && announces(item, states[k]),
        StreamEventView::OutputItemDone { output_index, item } => exists|k: int|
            0 <= k < states.len() && (#[trigger] states[k]).output_index == output_index
                && reports_whole(item, states[k]),
        StreamEventView::FunctionCallArgumentsDelta { delta, .. } => delta.len() > 0,
        _ => true,
    }
}

/// An event that tells of the end of a call.
pub open spec fn tells_end(event: StreamEventView) -> bool {
    ||| event is FunctionCallArgumentsDone
    ||| event is OutputItemDone
    ||| event is CompleteOutputItem
}

/// Each item that is told to be done is closed directly behind that, and no other item is closed.
pub open spec fn closes_what_is_done(events: Seq<StreamEventView>) -> bool {
    &&& forall|i: int|
        0 <= i < events.len() ==> (#[trigger] events[i] matches StreamEventView::OutputItemDone {
            output_index,
            ..
        } ==> i + 1 < events.len() && events[i + 1] == (StreamEventView::CompleteOutputItem {
            output_index,
        }))
    &&& forall|i: int|
        0 <= i < events.len() ==> (
        #[trigger] events[i] matches StreamEventView::CompleteOutputItem { output_index }
            ==> i > 0 && events[i - 1] is OutputItemDone
            && events[i - 1]->OutputItemDone_output_index == output_index)
}

/// A call grew: its output item and a known call identifier stay, and its name goes on.
spec fn grew(before: CallEventView, after: CallEventView) -> bool {
    &&& after.output_index == before.output_index
    &&& after.item_id == before.item_id
    &&& before.call_id.len() > 0 ==> after.call_id == before.call_id
    &&& before.name.is_prefix_of(after.name)
}

/// A call grew into one of the given.
spec fn grew_into(before: CallEventView, after: Seq<CallEventView>) -> bool {
    exists|m: int| 0 <= m < after.len() && grew(before, #[trigger] after[m])
}

/// Events without an end that hold of calls hold of them once they grew.
proof fn lemma_growth_keeps_says(
    events: Seq<StreamEventView>,
    before: Seq<CallEventView>,
    after: Seq<CallEventView>,
)
    requires
        forall|i: int| 0 <= i < events.len() ==> says(#[trigger] events[i], before),
        forall|i: int| 0 <= i < events.len() ==> !tells_end(#[trigger] events[i]),
        forall|k: int| 0 <= k < before.len() ==> grew_into(#[trigger] before[k], after),
    ensures
        forall|i: int| 0 <= i < events.len() ==> says(#[trigger] events[i], after),
{
    assert forall|i: int| 0 <= i < events.len() implies says(#[trigger] events[i], after) by {
        assert(says(events[i], before));
        assert(!tells_end(events[i]));
        if let StreamEventView::OutputItemAdded { output_index, item } = events[i] {
            let k = choose|k: int|
                0 <= k < before.len() && (#[trigger] before[k]).output_index == output_index
                    && announces(item, before[k]);
            assert(grew_into(before[k], after));
            let m = choose|m: int|
                0 <= m < after.len() && grew(before[k], #[trigger] after[m]);
            assert(after[m].output_index == output_index && announces(item, after[m]));
        }
    }
}

/// What one piece tells holds of its call, and the calls grow.
proof fn lemma_piece_says(calls: CallsView, delta: ToolCallDeltaView, slot: SlotView)
    requires
        calls.valid(),
    ensures
        ({
            let told = calls.told_piece(delta, slot);
            &&& forall|i: int|
                0 <= i < told.events.len() ==> says(#[trigger] told.events[i], told.calls.states)
                    && !tells_end(told.events[i])
            &&& forall|k: int|
                0 <= k < calls.states.len() ==> grew_into(
                    #[trigger] calls.states[k],
                    told.calls.states,
                )
        }),
{
    let told = calls.told_piece(delta, slot);
    let open = calls.opened(delta.index, slot);
    let r = rank(open.keys, delta.index);
    lemma_with_key(calls.keys, delta.index);
    lemma_rank(calls.keys, delta.index);
    assert(0 <= r < open.states.len());
    let after = told.calls.states;
    assert forall|i: int| 0 <= i < told.events.len() implies says(#[trigger] told.events[i], after)
        && !tells_end(told.events[i]) by {
        assert(after[r].output_index == open.states[r].output_index);
    }
    assert forall|k: int| 0 <= k < calls.states.len() implies grew_into(
        #[trigger] calls.states[k],
        after,
    ) by {
        let m = if open.states.len() > calls.states.len() && k >= r {
            k + 1
        } else {
            k
        };
        assert(open.states[m] == calls.states[k]);
        assert(grew(calls.states[k], after[m]));
    }
}

/// What pieces tell holds of their calls, and the calls grow.
proof fn lemma_pieces_say(calls: CallsView, deltas: Seq<ToolCallDeltaView>, slots: Seq<SlotView>)
    requires
        calls.valid(),
    ensures
        ({
            let told = calls.told(deltas, slots);
            forall|i: int|
                0 <= i < told.events.len() ==> says(#[trigger] told.events[i], told.calls.states)
                    && !tells_end(told.events[i])
        }),
    decreases deltas.len(),
{
    if deltas.len() > 0 {
        let before = calls.told(deltas.drop_last(), slots);
        let slot = slots[before.calls.keys.len() - calls.keys.len()];
        let next = before.calls.told_piece(deltas.last(), slot);
        lemma_pieces_say(calls, deltas.drop_last(), slots);
        lemma_told_valid(calls, deltas.drop_last(), slots);
        lemma_piece_says(before.calls, deltas.last(), slot);
        lemma_growth_keeps_says(before.events, before.calls.states, next.calls.states);
        let told = calls.told(deltas, slots);
        assert forall|i: int| 0 <= i < told.events.len() implies says(
            #[trigger] told.events[i],
            told.calls.states,
        ) && !tells_end(told.events[i]) by {
            if i < before.events.len() {
                assert(told.events[i] == before.events[i]);
            } else {
                assert(told.events[i] == next.events[i - before.events.len()]);
            }
        }
    }
}

/// What completing calls tells holds of them, and closes what is done.
proof fn lemma_closing_says(states: Seq<CallEventView>, k: int)
    requires
        0 <= k <= states.len(),
    ensures
        ({
            let events = all_closing_events(states.take(k));
            &&& forall|i: int|
                0 <= i < events.len() ==> says(#[trigger] events[i], states)
            &&& closes_what_is_done(events)
        }),
    decreases k,
{
    if k > 0 {
        lemma_closing_says(states, k - 1);
        let before = all_closing_events(states.take(k - 1));
        let next = closing_events(states[k - 1]);
        let events = all_closing_events(states.take(k));
        assert(states.take(k).drop_last() =~= states.take(k - 1));
        assert(states.take(k).last() == states[k - 1]);
        assert(events == before + next);
        assert forall|i: int| 0 <= i < events.len() implies says(#[trigger] events[i], states) by {
            if i < before.len() {
                assert(events[i] == before[i]);
            } else {
                assert(events[i] == next[i - before.len()]);
            }
        }
        lemma_closing_adjacent(before, states[k - 1]);
    } else {
        assert(states.take(0) =~= Seq::<CallEventView>::empty());
    }
}

/// The events of one more complete call close what is done.
proof fn lemma_closing_adjacent(before: Seq<StreamEventView>, state: CallEventView)
    requires
        closes_what_is_done(before),
    ensures
        closes_what_is_done(before + closing_events(state)),
{
    let next = closing_events(state);
    let events = before + next;
    let n = before.len() as int;
    assert forall|i: int| 0 <= i < events.len() implies (
    #[trigger] events[i] matches StreamEventView::OutputItemDone { output_index, .. } ==> i + 1
        < events.len() && events[i + 1] == (StreamEventView::CompleteOutputItem {
        output_index,
    })) by {
        if i < n {
            assert(events[i] == before[i]);
            if before[i] is OutputItemDone {
                assert(events[i + 1] == before[i + 1]);
            }
        } else {
            assert(events[i] == next[i - n]);
            if next[i - n] is OutputItemDone {
                assert(events[i + 1] == next[i + 1 - n]);
            }
        }
    }
    assert forall|i: int| 0 <= i < events.len() implies (
    #[trigger] events[i] matches StreamEventView::CompleteOutputItem { output_index } ==> i > 0
        && events[i - 1] is OutputItemDone && events[i - 1]->OutputItemDone_output_index
        == output_index) by {
        if i < n {
            assert(events[i] == before[i]);
            if before[i] is CompleteOutputItem {
                assert(events[i - 1] == before[i - 1]);
            }
        } else {
            assert(events[i] == next[i - n]);
            if next[i - n] is CompleteOutputItem {
                assert(events[i - 1] == next[i - 1 - n]);
            }
        }
    }
}

/// Whatever a chunk says, the item that announces a function call bears the identifier of its
/// output item, the call identifier and the name as far as they were known, and the item that
/// tells it to be done bears the call identifier, the name and the arguments of the call, all of
/// them whole. Each item that is told to be done is closed directly behind that, and no other.
pub proof fn law_items_bear_their_calls(
    calls: CallsView,
    chunk: ChatChunkView,
    slots: Seq<SlotView>,
)
    requires
        calls.valid(),
    ensures
        ({
            let told = calls.told_chunk(chunk, slots);
            &&& forall|i: int|
                0 <= i < told.events.len() ==> says(#[trigger] told.events[i], told.calls.states)
            &&& closes_what_is_done(told.events)
        }),
{
    let pieces = calls.told(chunk.deltas(), slots);
    let told = calls.told_chunk(chunk, slots);
    lemma_pieces_say(calls, chunk.deltas(), slots);
    assert(closes_what_is_done(pieces.events)) by {
        assert forall|i: int| 0 <= i < pieces.events.len() implies !tells_end(
            #[trigger] pieces.events[i],
        ) by {}
    }
    if chunk.finish_reason() == Some("tool_calls"@) {
        let states = pieces.calls.states;
        let closed = told.calls.states;
        let n = pieces.events.len() as int;
        let closing = all_closing_events(states);
        lemma_closing_says(states, states.len() as int);
        assert(states.take(states.len() as int) =~= states);
        assert forall|k: int| 0 <= k < states.len() implies grew_into(
            #[trigger] states[k],
            closed,
        ) by {
            assert(grew(states[k], closed[k]));
        }
        lemma_growth_keeps_says(pieces.events, states, closed);
        assert forall|i: int| 0 <= i < told.events.len() implies says(
            #[trigger] told.events[i],
            closed,
        ) by {
            if i < n {
                assert(told.events[i] == pieces.events[i]);
            } else {
                let event = closing[i - n];
                assert(told.events[i] == event);
                assert(says(event, states));
                match event {
                    StreamEventView::OutputItemAdded { output_index, item } => {
                        let k = choose|k: int|
                            0 <= k < states.len() && (#[trigger] states[k]).output_index
                                == output_index && announces(item, states[k]);
                        assert(closed[k].output_index == output_index);
                        assert(announces(item, closed[k]));
                    },
                    StreamEventView::OutputItemDone { output_index, item } => {
                        let k = choose|k: int|
                            0 <= k < states.len() && (#[trigger] states[k]).output_index
                                == output_index && reports_whole(item, states[k]);
                        assert(closed[k].output_index == output_index);
                        assert(reports_whole(item, closed[k]));
                    },
                    _ => {},
                }
            }
        }
        lemma_behind_no_end(pieces.events, closing);
    }
}

/// Events without an end in front change nothing of what is closed.
proof fn lemma_behind_no_end(before: Seq<StreamEventView>, next: Seq<StreamEventView>)
    requires
        forall|i: int| 0 <= i < before.len() ==> !tells_end(#[trigger] before[i]),
        closes_what_is_done(next),
    ensures
        closes_what_is_done(before + next),
{
    let events = before + next;
    let n = before.len() as int;
    assert forall|i: int| 0 <= i < events.len() implies (
    #[trigger] events[i] matches StreamEventView::OutputItemDone { output_index, .. } ==> i + 1
        < events.len() && events[i + 1] == (StreamEventView::CompleteOutputItem {
        output_index,
    })) by {
        if i < n {
            assert(events[i] == before[i]);
        } else {
            assert(events[i] == next[i - n]);
            if next[i - n] is OutputItemDone {
                assert(events[i + 1] == next[i + 1 - n]);
            }
        }
    }
    assert forall|i: int| 0 <= i < events.len() implies (
    #[trigger] events[i] matches StreamEventView::CompleteOutputItem { output_index } ==> i > 0
        && events[i - 1] is OutputItemDone && events[i - 1]->OutputItemDone_output_index
        == output_index) by {
        if i < n {
            assert(events[i] == before[i]);
        } else {
            assert(events[i] == next[i - n]);
            if next[i - n] is CompleteOutputItem {
                assert(events[i - 1] == next[i - 1 - n]);
            }
        }
    }
}

/// A piece announces its call where the piece speaks of a function and the call was not announced
/// before, with the call identifier and the name as they are with this piece. It tells the
/// arguments that it carries, where they are not empty, and tells nothing else.
pub proof fn law_pieces_tell_what_they_carry(
    calls: CallsView,
    delta: ToolCallDeltaView,
    slot: SlotView,
    j: int,
)
    requires
        calls.valid(),
        0 <= j < calls.told_piece(delta, slot).calls.keys.len(),
        calls.told_piece(delta, slot).calls.keys[j] == delta.index,
    ensures
        ({
            let told = calls.told_piece(delta, slot);
            let call = told.calls.states[j];
            let announced = exists|i: int|
                0 <= i < calls.keys.len() && #[trigger] calls.keys[i] == delta.index
                    && calls.states[i].added;
            let announcement = StreamEventView::OutputItemAdded {
                output_index: call.output_index,
                item: ItemView {
                    id: call.item_id,
                    item_type: "function_call"@,
                    call_id: Some(call.call_id),
                    name: call.name,
                    status: "in_progress"@,
                    arguments: ""@,
                    server_label: None,
                },
            };
            let first = if delta.function is Some && !announced {
                seq![announcement]
            } else {
                seq![]
            };
            &&& call.added <==> announced || delta.function is Some
            &&& match delta.function {
                Some(function) => match function.arguments {
                    Some(text) => if text.len() > 0 {
                        told.events =~= first.push(
                            StreamEventView::FunctionCallArgumentsDelta {
                                output_index: call.output_index,
                                item_id: call.item_id,
                                delta: text,
                            },
                        )
                    } else {
                        told.events =~= first
                    },
                    None => told.events =~= first,
                },
                None => told.events.len() == 0,
            }
        }),
{
    let told = calls.told_piece(delta, slot);
    lemma_with_key(calls.keys, delta.index);
    lemma_rank(calls.keys, delta.index);
    let r = rank(calls.keys, delta.index);
    assert(j == r) by {
        if j < r {
            assert(told.calls.keys[j] < told.calls.keys[r]);
        } else if j > r {
            assert(told.calls.keys[r] < told.calls.keys[j]);
        }
    }
    if calls.keys.contains(delta.index) {
        assert(calls.keys[r] == delta.index);
        assert forall|i: int|
            0 <= i < calls.keys.len() && #[trigger] calls.keys[i] == delta.index implies i == r by {
            if i < r {
                assert(calls.keys[i] < calls.keys[r]);
            } else if i > r {
                assert(calls.keys[r] < calls.keys[i]);
            }
        }
    }
}

/// An event tells that the call with a position is done.
pub open spec fn tells_done(event: StreamEventView, states: Seq<CallEventView>, k: int) -> bool {
    &&& 0 <= k < states.len()
    &&& event is OutputItemDone
    &&& event->OutputItemDone_output_index == states[k].output_index
}

/// One event tells of a call before the other in their order.
pub open spec fn done_in_turn(
    first: StreamEventView,
    second: StreamEventView,
    states: Seq<CallEventView>,
) -> bool {
    exists|k: int, m: int|
        k < m && #[trigger] tells_done(first, states, k) && #[trigger] tells_done(second, states, m)
}

/// Completing calls tells them to be done in their order.
proof fn lemma_closing_in_turn(states: Seq<CallEventView>, k: int)
    requires
        0 <= k <= states.len(),
    ensures
        ({
            let events = all_closing_events(states.take(k));
            &&& forall|i: int|
                0 <= i < events.len() && #[trigger] events[i] is OutputItemDone ==> exists|m: int|
                    m < k && #[trigger] tells_done(events[i], states, m)
            &&& forall|i: int, j: int|
                0 <= i < j < events.len() && #[trigger] events[i] is OutputItemDone
                    && #[trigger] events[j] is OutputItemDone ==> done_in_turn(
                    events[i],
                    events[j],
                    states,
                )
        }),
    decreases k,
{
    if k == 0 {
        assert(states.take(0) =~= Seq::<CallEventView>::empty());
    } else {
        lemma_closing_in_turn(states, k - 1);
        let before = all_closing_events(states.take(k - 1));
        let next = closing_events(states[k - 1]);
        let events = all_closing_events(states.take(k));
        let n = before.len() as int;
        assert(states.take(k).drop_last() =~= states.take(k - 1));
        assert(events == before + next);
        assert forall|i: int|
            0 <= i < events.len() && #[trigger] events[i] is OutputItemDone implies exists|m: int|
            m < k && #[trigger] tells_done(events[i], states, m) by {
            if i < n {
                assert(events[i] == before[i]);
                let m = choose|m: int| m < k - 1 && #[trigger] tells_done(before[i], states, m);
                assert(tells_done(events[i], states, m));
            } else {
                assert(events[i] == next[i - n]);
                assert(tells_done(events[i], states, k - 1));
            }
        }
        assert forall|i: int, j: int|
            0 <= i < j < events.len() && #[trigger] events[i] is OutputItemDone
                && #[trigger] events[j] is OutputItemDone implies done_in_turn(
            events[i],
            events[j],
            states,
        ) by {
            if j < n {
                assert(events[i] == before[i] && events[j] == before[j]);
            } else {
                assert(events[j] == next[j - n]);
                assert(tells_done(events[j], states, k - 1));
                if i < n {
                    assert(events[i] == before[i]);
                    let m = choose|m: int| m < k - 1 && #[trigger] tells_done(before[i], states, m);
                    assert(tells_done(events[i], states, m));
                } else {
                    assert(events[i] == next[i - n]);
                    assert(i == j);
                }
            }
        }
    }
}

/// Calls that a chunk completes are told to be done in the order of their index.
pub proof fn law_calls_are_done_in_order(
    calls: CallsView,
    chunk: ChatChunkView,
    slots: Seq<SlotView>,
    i: int,
    j: int,
)
    requires
        calls.valid(),
        0 <= i < j < calls.told_chunk(chunk, slots).events.len(),
        calls.told_chunk(chunk, slots).events[i] is OutputItemDone,
        calls.told_chunk(chunk, slots).events[j] is OutputItemDone,
    ensures
        increasing(calls.told_chunk(chunk, slots).calls.keys),
        done_in_turn(
            calls.told_chunk(chunk, slots).events[i],
            calls.told_chunk(chunk, slots).events[j],
            calls.told_chunk(chunk, slots).calls.states,
        ),
{
    let pieces = calls.told(chunk.deltas(), slots);
    let told = calls.told_chunk(chunk, slots);
    lemma_told_valid(calls, chunk.deltas(), slots);
    lemma_pieces_say(calls, chunk.deltas(), slots);
    let states = pieces.calls.states;
    let n = pieces.events.len() as int;
    if i < n {
        assert(told.events[i] == pieces.events[i]);
        assert(!tells_end(pieces.events[i]));
    }
    let closing = all_closing_events(states);
    lemma_closing_in_turn(states, states.len() as int);
    assert(states.take(states.len() as int) =~= states);
    assert(told.events[i] == closing[i - n] && told.events[j] == closing[j - n]);
    let (k, m) = choose|k: int, m: int|
        k < m && #[trigger] tells_done(closing[i - n], states, k) && #[trigger] tells_done(
            closing[j - n],
            states,
            m,
        );
    assert(tells_done(told.events[i], told.calls.states, k));
    assert(tells_done(told.events[j], told.calls.states, m));
}

/// These are the new calls of the given pieces: the indices of pieces that no key has, each once.
pub open spec fn are_new_calls(
    new: Seq<u32>,
    keys: Seq<u32>,
    deltas: Seq<ToolCallDeltaView>,
) -> bool {
    &&& new.no_duplicates()
    &&& forall|k: u32| #[trigger]
        new.contains(k) <==> !keys.contains(k) && exists|i: int|
            0 <= i < deltas.len() && (#[trigger] deltas[i]).index == k
}

/// A key behind pieces is an old one or the index of one of the pieces.
proof fn lemma_keys_are_old_or_new(
    keys: Seq<u32>,
    deltas: Seq<ToolCallDeltaView>,
    new: Seq<u32>,
    key: u32,
)
    requires
        increasing(keys),
        are_new_calls(new, keys, deltas),
    ensures
        keys_after(keys, deltas).contains(key) <==> keys.contains(key) || new.contains(key),
{
    lemma_keys_after_contain(keys, deltas, key);
}

/// The keys behind pieces are the old ones and the indices of the pieces.
proof fn lemma_keys_after_contain(keys: Seq<u32>, deltas: Seq<ToolCallDeltaView>, key: u32)
    requires
        increasing(keys),
    ensures
        keys_after(keys, deltas).contains(key) <==> keys.contains(key) || exists|i: int|
            0 <= i < deltas.len() && (#[trigger] deltas[i]).index == key,
    decreases deltas.len(),
{
    if deltas.len() > 0 {
        let shorter = deltas.drop_last();
        lemma_keys_after_contain(keys, shorter, key);
        lemma_keys_after(keys, shorter);
        lemma_with_key(keys_after(keys, shorter), deltas.last().index);
        if exists|i: int| 0 <= i < shorter.len() && (#[trigger] shorter[i]).index == key {
            let i = choose|i: int| 0 <= i < shorter.len() && (#[trigger] shorter[i]).index == key;
            assert(deltas[i].index == key);
        }
        if exists|i: int| 0 <= i < deltas.len() && (#[trigger] deltas[i]).index == key {
            let i = choose|i: int| 0 <= i < deltas.len() && (#[trigger] deltas[i]).index == key;
            if i < shorter.len() {
                assert(shorter[i].index == key);
            }
        }
        assert(deltas[deltas.len() - 1] == deltas.last());
    }
}

/// The calls stand in the order in which the pieces first speak of them.
pub open spec fn in_order_of_appearance(new: Seq<u32>, deltas: Seq<ToolCallDeltaView>) -> bool {
    forall|m: int, n: int, i: int|
        #![trigger new[m], new[n], deltas[i]]
        0 <= m < n < new.len() && 0 <= i < deltas.len() && deltas[i].index == new[n]
            ==> appears(deltas.take(i), new[m])
}

/// One of the pieces speaks of a call.
pub open spec fn appears(deltas: Seq<ToolCallDeltaView>, key: u32) -> bool {
    exists|j: int| 0 <= j < deltas.len() && (#[trigger] deltas[j]).index == key
}

/// Pieces need one slot for each call that they open, however many pieces the call has, and none
/// for a call that was opened before. The new calls take the slots in the order in which the pieces
/// first speak of them.
pub proof fn law_slots_are_taken_in_order(
    calls: CallsView,
    deltas: Seq<ToolCallDeltaView>,
    slots: Seq<SlotView>,
) -> (new: Seq<u32>)
    requires
        calls.valid(),
        slots.len() >= slots_needed(calls.keys, deltas),
    ensures
        are_new_calls(new, calls.keys, deltas),
        in_order_of_appearance(new, deltas),
        new.len() == slots_needed(calls.keys, deltas),
        forall|m: int|
            0 <= m < new.len() ==> item_of(
                calls.told(deltas, slots).calls,
                #[trigger] new[m],
            ) == Some(slots[m]),
    decreases deltas.len(),
{
    if deltas.len() == 0 {
        let new = Seq::<u32>::empty();
        assert(are_new_calls(new, calls.keys, deltas));
        new
    } else {
        let shorter = deltas.drop_last();
        let key = deltas.last().index;
        lemma_keys_after(calls.keys, shorter);
        lemma_with_key(keys_after(calls.keys, shorter), key);
        lemma_rank(keys_after(calls.keys, shorter), key);
        let before = law_slots_are_taken_in_order(calls, shorter, slots);
        lemma_keys_are_old_or_new(calls.keys, shorter, before, key);
        lemma_told_valid(calls, shorter, slots);
        let told = calls.told(shorter, slots).calls;
        let slot = slots[told.keys.len() - calls.keys.len()];
        lemma_piece_keeps_items(told, deltas.last(), slot);
        law_pieces_bear_the_item_of_their_call(told, deltas.last(), slot);
        let new = if told.keys.contains(key) {
            before
        } else {
            before.push(key)
        };
        lemma_one_more_new_call(calls.keys, deltas, before, new);
        let after = calls.told(deltas, slots).calls;
        assert forall|m: int| 0 <= m < new.len() implies item_of(after, #[trigger] new[m]) == Some(
            slots[m],
        ) by {
            if m < before.len() {
                assert(before.contains(before[m]));
                lemma_keys_are_old_or_new(calls.keys, shorter, before, before[m]);
                assert(told.keys.contains(before[m]));
                assert(item_of(told, before[m]) == Some(slots[m]));
            } else {
                assert(slot == slots[m]);
            }
        }
        new
    }
}

/// One more piece opens its call where the call is new, behind the calls before.
proof fn lemma_one_more_new_call(
    keys: Seq<u32>,
    deltas: Seq<ToolCallDeltaView>,
    before: Seq<u32>,
    new: Seq<u32>,
)
    requires
        increasing(keys),
        deltas.len() > 0,
        are_new_calls(before, keys, deltas.drop_last()),
        in_order_of_appearance(before, deltas.drop_last()),
        new == (if keys.contains(deltas.last().index) || before.contains(deltas.last().index) {
            before
        } else {
            before.push(deltas.last().index)
        }),
    ensures
        are_new_calls(new, keys, deltas),
        in_order_of_appearance(new, deltas),
{
    let shorter = deltas.drop_last();
    let key = deltas.last().index;
    assert(deltas[deltas.len() - 1].index == key);
    assert forall|k: u32| #[trigger] new.contains(k) <==> !keys.contains(k) && exists|i: int|
        0 <= i < deltas.len() && (#[trigger] deltas[i]).index == k by {
        if exists|i: int| 0 <= i < shorter.len() && (#[trigger] shorter[i]).index == k {
            let i = choose|i: int| 0 <= i < shorter.len() && (#[trigger] shorter[i]).index == k;
            assert(deltas[i].index == k);
        }
        if exists|i: int| 0 <= i < deltas.len() && (#[trigger] deltas[i]).index == k {
            let i = choose|i: int| 0 <= i < deltas.len() && (#[trigger] deltas[i]).index == k;
            if i < shorter.len() {
                assert(shorter[i].index == k);
            }
        }
        if before.contains(k) {
            let m = choose|m: int| 0 <= m < before.len() && before[m] == k;
            assert(new[m] == k);
        }
        if new.contains(k) && !before.contains(k) {
            let m = choose|m: int| 0 <= m < new.len() && new[m] == k;
            if m < before.len() {
                assert(before[m] == k);
            }
        }
        if new.len() > before.len() {
            assert(new[before.len() as int] == key);
        }
    }
    assert forall|m: int, n: int, i: int|
        #![trigger new[m], new[n], deltas[i]]
        0 <= m < n < new.len() && 0 <= i < deltas.len() && deltas[i].index
            == new[n] implies appears(deltas.take(i), new[m]) by {
        assert(new[m] == before[m]);
        assert(before.contains(before[m]));
        if i < shorter.len() {
            assert(shorter[i].index == new[n]);
            assert(deltas.take(i) =~= shorter.take(i));
            if n < before.len() {
                assert(new[n] == before[n]);
            } else {
                assert(before.contains(key));
            }
        } else {
            let j = choose|j: int|
                0 <= j < shorter.len() && (#[trigger] shorter[j]).index == before[m];
            assert(deltas.take(i)[j].index == before[m]);
        }
    }
}

/// The calls are told to be complete with the chunk whose first choice bears the finish reason
/// `tool_calls`, and with no other chunk.
pub proof fn law_only_the_finish_completes_calls(
    calls: CallsView,
    chunk: ChatChunkView,
    slots: Seq<SlotView>,
)
    requires
        calls.valid(),
        forall|i: int|
            0 <= i < calls.states.len() ==> ((#[trigger] calls.states[i]).completed
                ==> calls.states[i].added),
        slots.len() == slots_needed(calls.keys, chunk.deltas()),
    ensures
        ({
            let told = calls.told_chunk(chunk, slots);
            if chunk.choices.len() > 0 && chunk.choices[0].finish_reason == Some("tool_calls"@) {
                forall|i: int|
                    0 <= i < told.calls.states.len() ==> (
                    #[trigger] told.calls.states[i]).completed && told.calls.states[i].added
            } else {
                forall|i: int| 0 <= i < told.events.len() ==> !tells_end(#[trigger] told.events[i])
            }
        }),
{
    lemma_pieces_say(calls, chunk.deltas(), slots);
    if chunk.finish_reason() == Some("tool_calls"@) {
        law_finish_completes_all_calls(calls, chunk, slots);
    }
}

} // verus!
