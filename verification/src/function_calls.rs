//! The events of streamed function calls.
use crate::accumulator::{append_text, arguments_piece, keep_call_id, kept_call_id, name_piece};
use crate::chat::{ChatChunk, ChatChunkView, ToolCallDelta, ToolCallDeltaView};
use crate::events::{
    function_item, function_record, OutputSlot, SlotView, StreamEvent, StreamEventView,
};
use crate::order::{
    in_key_order, increasing, keys_in_order, lemma_key_order, lemma_key_order_insert, lemma_ordered,
    lemma_ordered_is, lemma_rank, lemma_with_key, ordered, orders, rank, with_key,
};
use crate::text::same_text;
use std::collections::{BTreeMap, BTreeSet};
use vstd::prelude::*;

verus! {

/// What has been told of one function call.
#[derive(Clone, Debug)]
pub struct FunctionCallEventState {
    pub output_index: usize,
    pub item_id: String,
    pub call_id: String,
    pub name: String,
    pub arguments: String,
    pub added: bool,
    pub completed: bool,
}

/// What a [`FunctionCallEventState`] says.
pub struct CallEventView {
    pub output_index: usize,
    pub item_id: Seq<char>,
    pub call_id: Seq<char>,
    pub name: Seq<char>,
    pub arguments: Seq<char>,
    pub added: bool,
    pub completed: bool,
}

impl DeepView for FunctionCallEventState {
    type V = CallEventView;

    open spec fn deep_view(&self) -> CallEventView {
        CallEventView {
            output_index: self.output_index,
            item_id: self.item_id@,
            call_id: self.call_id@,
            name: self.name@,
            arguments: self.arguments@,
            added: self.added,
            completed: self.completed,
        }
    }
}

/// A function call of which nothing has been told.
pub open spec fn fresh_state(slot: SlotView) -> CallEventView {
    CallEventView {
        output_index: slot.output_index,
        item_id: slot.item_id,
        call_id: seq![],
        name: seq![],
        arguments: seq![],
        added: false,
        completed: false,
    }
}

/// A function call after one more piece.
pub open spec fn merged(state: CallEventView, delta: ToolCallDeltaView) -> CallEventView {
    CallEventView {
        call_id: kept_call_id(state.call_id, delta),
        name: state.name + name_piece(delta),
        arguments: state.arguments + arguments_piece(delta),
        added: state.added || delta.function is Some,
        ..state
    }
}

/// The event that announces a function call.
pub open spec fn added_event(state: CallEventView) -> StreamEventView {
    StreamEventView::OutputItemAdded {
        output_index: state.output_index,
        item: function_item(
            state.item_id,
            state.call_id,
            state.name,
            "in_progress"@,
            ""@,
        ),
    }
}

/// What is told of a piece: the function call, where it was not announced yet and the piece speaks
/// of the function, and the arguments in the piece, where there are any.
pub open spec fn merge_events(state: CallEventView, delta: ToolCallDeltaView) -> Seq<
    StreamEventView,
> {
    let announced = if delta.function is Some && !state.added {
        seq![added_event(merged(state, delta))]
    } else {
        seq![]
    };
    let argued = if arguments_piece(delta).len() > 0 {
        seq![
            StreamEventView::FunctionCallArgumentsDelta {
                output_index: state.output_index,
                item_id: state.item_id,
                delta: arguments_piece(delta),
            },
        ]
    } else {
        seq![]
    };
    announced + argued
}

/// A function call once it is complete.
pub open spec fn closed_state(state: CallEventView) -> CallEventView {
    if state.completed {
        state
    } else {
        CallEventView { added: true, completed: true, ..state }
    }
}

/// What is told when a function call is complete, unless it was told before.
pub open spec fn closing_events(state: CallEventView) -> Seq<StreamEventView> {
    if state.completed {
        seq![]
    } else {
        let announced = if state.added {
            seq![]
        } else {
            seq![added_event(state)]
        };
        announced + seq![
            StreamEventView::FunctionCallArgumentsDone {
                output_index: state.output_index,
                item_id: state.item_id,
                arguments: state.arguments,
            },
            StreamEventView::OutputItemDone {
                output_index: state.output_index,
                item: function_item(
                    state.item_id,
                    state.call_id,
                    state.name,
                    "completed"@,
                    state.arguments,
                ),
            },
            StreamEventView::CompleteOutputItem { output_index: state.output_index },
        ]
    }
}

/// What is told when several function calls are complete, one after the other.
pub open spec fn all_closing_events(states: Seq<CallEventView>) -> Seq<StreamEventView>
    decreases states.len(),
{
    if states.len() == 0 {
        seq![]
    } else {
        all_closing_events(states.drop_last()) + closing_events(states.last())
    }
}

/// The function calls of a stream by their index, in increasing order.
pub struct CallsView {
    pub keys: Seq<u32>,
    pub states: Seq<CallEventView>,
}

/// Function calls and what was told of them.
pub struct Told {
    pub calls: CallsView,
    pub events: Seq<StreamEventView>,
}

impl CallsView {
    /// Every key has its state, and the keys increase.
    pub open spec fn valid(self) -> bool {
        self.keys.len() == self.states.len() && increasing(self.keys)
    }

    /// The calls with one for the given key, which takes the given slot where it is new.
    pub open spec fn opened(self, key: u32, slot: SlotView) -> CallsView {
        if self.keys.contains(key) {
            self
        } else {
            CallsView {
                keys: with_key(self.keys, key),
                states: self.states.insert(rank(self.keys, key), fresh_state(slot)),
            }
        }
    }

    /// One piece taken in.
    pub open spec fn told_piece(self, delta: ToolCallDeltaView, slot: SlotView) -> Told {
        let open = self.opened(delta.index, slot);
        let r = rank(open.keys, delta.index);
        Told {
            calls: CallsView {
                keys: open.keys,
                states: open.states.update(r, merged(open.states[r], delta)),
            },
            events: merge_events(open.states[r], delta),
        }
    }

    /// All pieces taken in, one after the other. A new call takes the next of the slots.
    pub open spec fn told(self, deltas: Seq<ToolCallDeltaView>, slots: Seq<SlotView>) -> Told
        decreases deltas.len(),
    {
        if deltas.len() == 0 {
            Told { calls: self, events: seq![] }
        } else {
            let before = self.told(deltas.drop_last(), slots);
            let next = before.calls.told_piece(
                deltas.last(),
                slots[before.calls.keys.len() - self.keys.len()],
            );
            Told { calls: next.calls, events: before.events + next.events }
        }
    }

    /// All calls complete.
    pub open spec fn closed(self) -> CallsView {
        CallsView {
            keys: self.keys,
            states: self.states.map_values(|state: CallEventView| closed_state(state)),
        }
    }

    /// A chunk taken in. The finish reason `tool_calls` completes all calls.
    pub open spec fn told_chunk(self, chunk: ChatChunkView, slots: Seq<SlotView>) -> Told {
        let pieces = self.told(chunk.deltas(), slots);
        if chunk.finish_reason() == Some("tool_calls"@) {
            Told {
                calls: pieces.calls.closed(),
                events: pieces.events + all_closing_events(pieces.calls.states),
            }
        } else {
            pieces
        }
    }
}

/// The keys after the given pieces.
pub open spec fn keys_after(keys: Seq<u32>, deltas: Seq<ToolCallDeltaView>) -> Seq<u32>
    decreases deltas.len(),
{
    if deltas.len() == 0 {
        keys
    } else {
        with_key(keys_after(keys, deltas.drop_last()), deltas.last().index)
    }
}

/// How many calls the given pieces open.
pub open spec fn slots_needed(keys: Seq<u32>, deltas: Seq<ToolCallDeltaView>) -> int {
    keys_after(keys, deltas).len() - keys.len()
}

/// Pieces keep the keys increasing and open one call each at most.
pub proof fn lemma_keys_after(keys: Seq<u32>, deltas: Seq<ToolCallDeltaView>)
    requires
        increasing(keys),
    ensures
        increasing(keys_after(keys, deltas)),
        0 <= slots_needed(keys, deltas) <= deltas.len(),
    decreases deltas.len(),
{
    if deltas.len() > 0 {
        lemma_keys_after(keys, deltas.drop_last());
        lemma_with_key(keys_after(keys, deltas.drop_last()), deltas.last().index);
        lemma_rank(keys_after(keys, deltas.drop_last()), deltas.last().index);
    }
}

/// The calls stay valid, and their keys are those of the pieces.
pub proof fn lemma_told_valid(
    calls: CallsView,
    deltas: Seq<ToolCallDeltaView>,
    slots: Seq<SlotView>,
)
    requires
        calls.valid(),
    ensures
        calls.told(deltas, slots).calls.valid(),
        calls.told(deltas, slots).calls.keys == keys_after(calls.keys, deltas),
    decreases deltas.len(),
{
    if deltas.len() > 0 {
        lemma_told_valid(calls, deltas.drop_last(), slots);
        let before = calls.told(deltas.drop_last(), slots).calls;
        lemma_with_key(before.keys, deltas.last().index);
        lemma_rank(before.keys, deltas.last().index);
    }
}

/// Adds an event.
pub fn emit(events: &mut Vec<StreamEvent>, event: StreamEvent)
    ensures
        final(events).deep_view() == old(events).deep_view().push(event.deep_view()),
{
    events.push(event);
    proof {
        assert(events.deep_view() =~= old(events).deep_view().push(event.deep_view()));
    }
}

/// Adds the event that announces a function call.
fn emit_added(events: &mut Vec<StreamEvent>, state: &FunctionCallEventState)
    ensures
        final(events).deep_view() == old(events).deep_view().push(added_event(state.deep_view())),
{
    emit(
        events,
        StreamEvent::OutputItemAdded {
            output_index: state.output_index,
            item: function_record(
                state.item_id.as_str(),
                state.call_id.as_str(),
                state.name.as_str(),
                "in_progress",
                "",
            ),
        },
    );
}

/// Takes one piece into its function call.
pub fn merge_piece(
    state: &mut FunctionCallEventState,
    delta: &ToolCallDelta,
    events: &mut Vec<StreamEvent>,
)
    ensures
        final(state).deep_view() == merged(old(state).deep_view(), delta.deep_view()),
        final(events).deep_view() == old(events).deep_view() + merge_events(
            old(state).deep_view(),
            delta.deep_view(),
        ),
{
    let ghost before = state.deep_view();
    let ghost piece = delta.deep_view();
    let ghost told = events.deep_view();
    keep_call_id(&mut state.call_id, delta);
    match &delta.function {
        Some(function) => {
            append_text(&mut state.name, &function.name);
            let announce = !state.added;
            state.added = true;
            let ghost announced = CallEventView {
                arguments: merged(before, piece).arguments,
                ..state.deep_view()
            };
            proof {
                assert(announced =~= merged(before, piece));
            }
            if announce {
                emit_added(events, state);
            }
            match &function.arguments {
                Some(arguments) => {
                    if !arguments.as_str().is_empty() {
                        state.arguments.append(arguments.as_str());
                        emit(
                            events,
                            StreamEvent::FunctionCallArgumentsDelta {
                                output_index: state.output_index,
                                item_id: state.item_id.clone(),
                                delta: arguments.clone(),
                            },
                        );
                    } else {
                        proof {
                            assert(before.arguments + arguments_piece(piece) =~= before.arguments);
                        }
                    }
                },
                None => {
                    proof {
                        assert(before.arguments + arguments_piece(piece) =~= before.arguments);
                    }
                },
            }
        },
        None => {
            proof {
                assert(before.name + name_piece(piece) =~= before.name);
                assert(before.arguments + arguments_piece(piece) =~= before.arguments);
            }
        },
    }
    proof {
        assert(state.deep_view() =~= merged(before, piece));
        assert(events.deep_view() =~= told + merge_events(before, piece));
    }
}

/// Completes a function call.
pub fn close_call(state: &mut FunctionCallEventState, events: &mut Vec<StreamEvent>)
    ensures
        final(state).deep_view() == closed_state(old(state).deep_view()),
        final(events).deep_view() == old(events).deep_view() + closing_events(
            old(state).deep_view(),
        ),
{
    let ghost before = state.deep_view();
    let ghost told = events.deep_view();
    if !state.completed {
        if !state.added {
            emit_added(events, state);
            state.added = true;
        }
        emit(
            events,
            StreamEvent::FunctionCallArgumentsDone {
                output_index: state.output_index,
                item_id: state.item_id.clone(),
                arguments: state.arguments.clone(),
            },
        );
        emit(
            events,
            StreamEvent::OutputItemDone {
                output_index: state.output_index,
                item: function_record(
                    state.item_id.as_str(),
                    state.call_id.as_str(),
                    state.name.as_str(),
                    "completed",
                    state.arguments.as_str(),
                ),
            },
        );
        emit(events, StreamEvent::CompleteOutputItem { output_index: state.output_index });
        state.completed = true;
    }
    proof {
        assert(events.deep_view() =~= told + closing_events(before));
    }
}

/// The function calls of a stream by their index, and what has been told of them.
#[derive(Debug)]
pub struct FunctionCallEvents {
    pub states: BTreeMap<u32, FunctionCallEventState>,
}

impl View for FunctionCallEvents {
    type V = CallsView;

    open spec fn view(&self) -> CallsView {
        CallsView { keys: ordered(self.states@.dom()), states: in_key_order(self.states@) }
    }
}

impl FunctionCallEvents {
    /// No function calls.
    pub fn new() -> (res: Self)
        ensures
            res@ == (CallsView { keys: seq![], states: seq![] }),
            res@.valid(),
    {
        let res = FunctionCallEvents { states: BTreeMap::new() };
        proof {
            lemma_ordered_is(seq![], res.states@.dom());
            assert(res@.states =~= seq![]);
        }
        res
    }

    /// Whether there is no function call.
    pub fn is_empty(&self) -> (res: bool)
        ensures
            res == (self@.keys.len() == 0),
    {
        proof {
            lemma_ordered(self.states@.dom());
            if self@.keys.len() == 0 {
                assert forall|key: u32| !self.states@.contains_key(key) by {
                    assert(self@.keys.contains(key) <==> self.states@.dom().contains(key));
                }
                assert(self.states@ =~= Map::empty());
            } else {
                assert(self@.keys.contains(self@.keys[0]));
            }
        }
        self.states.is_empty()
    }

    /// How many function calls a chunk opens.
    pub fn count_slots(&self, chunk: &ChatChunk) -> (res: usize)
        requires
            self@.valid(),
        ensures
            res == slots_needed(self@.keys, chunk.deep_view().deltas()),
    {
        let ghost view = chunk.deep_view();
        if chunk.choices.len() == 0 {
            return 0;
        }
        assert(view.choices[0] == chunk.choices@[0].deep_view());
        let deltas = match &chunk.choices[0].tool_calls {
            Some(deltas) => deltas,
            None => {
                return 0;
            },
        };
        let ghost pieces = deltas.deep_view();
        assert(view.deltas() == pieces);
        let n = deltas.len();
        let mut opened: BTreeSet<u32> = BTreeSet::new();
        let mut count: usize = 0;
        let mut j: usize = 0;
        proof {
            lemma_ordered(self.states@.dom());
            assert(pieces.take(0) =~= seq![]);
        }
        while j < n
            invariant
                n == deltas@.len(),
                j <= n,
                count <= j,
                pieces == deltas.deep_view(),
                self@.valid(),
                orders(self@.keys, self.states@.dom()),
                forall|key: u32| #[trigger]
                    keys_after(self@.keys, pieces.take(j as int)).contains(key) <==> (
                    self.states@.contains_key(key) || opened@.contains(key)),
                count == slots_needed(self@.keys, pieces.take(j as int)),
            decreases n - j,
        {
            let key: u32 = deltas[j].index;
            let ghost before = keys_after(self@.keys, pieces.take(j as int));
            proof {
                lemma_keys_after(self@.keys, pieces.take(j as int));
                lemma_with_key(before, key);
                lemma_rank(before, key);
                assert(pieces.take(j + 1).drop_last() =~= pieces.take(j as int));
                assert(pieces.take(j + 1).last() == deltas@[j as int].deep_view());
                assert(before.contains(key) <==> (self.states@.contains_key(key)
                    || opened@.contains(key)));
            }
            if !self.states.contains_key(&key) && !opened.contains(&key) {
                opened.insert(key);
                count += 1;
            }
            j += 1;
        }
        proof {
            assert(pieces.take(n as int) =~= pieces);
        }
        count
    }

    /// Takes one piece in.
    fn take_piece(
        &mut self,
        delta: &ToolCallDelta,
        slots: &Vec<OutputSlot>,
        used: usize,
        events: &mut Vec<StreamEvent>,
    ) -> (res: usize)
        requires
            old(self)@.valid(),
            used <= slots@.len(),
            !old(self)@.keys.contains(delta.index) ==> used < slots@.len(),
        ensures
            final(self)@ == old(self)@.told_piece(
                delta.deep_view(),
                slots.deep_view()[used as int],
            ).calls,
            final(events).deep_view() == old(events).deep_view() + old(self)@.told_piece(
                delta.deep_view(),
                slots.deep_view()[used as int],
            ).events,
            res == (if old(self)@.keys.contains(delta.index) {
                used as int
            } else {
                used + 1
            }),
            final(self)@.valid(),
    {
        let ghost before = self@;
        let ghost held = self.states@;
        let ghost slot = slots.deep_view()[used as int];
        let key: u32 = delta.index;
        proof {
            lemma_key_order(held, key);
            lemma_rank(before.keys, key);
            lemma_with_key(before.keys, key);
        }
        let mut next: usize = used;
        let mut state = match self.states.remove(&key) {
            Some(state) => state,
            None => {
                assert(used < slots.len());
                next = used + 1;
                FunctionCallEventState {
                    output_index: slots[used].output_index,
                    item_id: slots[used].item_id.clone(),
                    call_id: String::new(),
                    name: String::new(),
                    arguments: String::new(),
                    added: false,
                    completed: false,
                }
            },
        };
        let ghost open = before.opened(key, slot);
        let ghost r = rank(before.keys, key);
        proof {
            assert(state.deep_view() == open.states[r]);
        }
        merge_piece(&mut state, delta, events);
        self.states.insert(key, state);
        proof {
            lemma_key_order_insert(held, key, state);
            assert(self.states@ =~= held.insert(key, state));
            assert(self@.states =~= open.states.update(r, state.deep_view()));
        }
        next
    }

    /// Completes all calls.
    fn close_all(&mut self, events: &mut Vec<StreamEvent>)
        requires
            old(self)@.valid(),
        ensures
            final(self)@ == old(self)@.closed(),
            final(events).deep_view() == old(events).deep_view() + all_closing_events(
                old(self)@.states,
            ),
            final(self)@.valid(),
    {
        let ghost before = self@;
        let ghost held = self.states@;
        let ghost told = events.deep_view();
        let keys = keys_in_order(&self.states);
        let n = keys.len();
        let mut i: usize = 0;
        proof {
            lemma_ordered(held.dom());
            assert(told + all_closing_events(before.states.take(0)) =~= told);
        }
        while i < n
            invariant
                n == keys@.len(),
                i <= n,
                keys@ == before.keys,
                orders(keys@, held.dom()),
                before.states == in_key_order(held),
                before.keys == ordered(held.dom()),
                self.states@.dom() == held.dom(),
                forall|j: int|
                    0 <= j < n ==> self.states@[#[trigger] keys@[j]].deep_view() == if j < i {
                        closed_state(before.states[j])
                    } else {
                        before.states[j]
                    },
                events.deep_view() == told + all_closing_events(before.states.take(i as int)),
            decreases n - i,
        {
            let key: u32 = keys[i];
            let ghost current = self.states@;
            proof {
                assert(keys@.contains(key));
            }
            match self.states.remove(&key) {
                Some(state) => {
                    let mut state = state;
                    close_call(&mut state, events);
                    self.states.insert(key, state);
                },
                None => {},
            }
            proof {
                assert(self.states@.dom() =~= held.dom());
                assert(before.states.take(i + 1).drop_last() =~= before.states.take(i as int));
                assert(before.states.take(i + 1).last() == before.states[i as int]);
                assert(events.deep_view() =~= told + all_closing_events(
                    before.states.take(i + 1),
                ));
                assert forall|j: int| 0 <= j < n implies self.states@[
                    #[trigger] keys@[j]
                ].deep_view() == if j <= i {
                    closed_state(before.states[j])
                } else {
                    before.states[j]
                } by {
                    if j < i {
                        assert(keys@[j] < keys@[i as int]);
                    } else if j > i {
                        assert(keys@[i as int] < keys@[j]);
                    }
                }
            }
            i += 1;
        }
        proof {
            assert(before.states.take(n as int) =~= before.states);
            assert(self@.states =~= before.closed().states);
        }
    }

    /// Takes a chunk in. A function call that the chunk opens takes the next of the slots.
    pub fn process_non_mcp_function_call_chunk(
        &mut self,
        chunk: &ChatChunk,
        slots: &Vec<OutputSlot>,
    ) -> (res: Vec<StreamEvent>)
        requires
            old(self)@.valid(),
            slots@.len() == slots_needed(old(self)@.keys, chunk.deep_view().deltas()),
        ensures
            final(self)@ == old(self)@.told_chunk(chunk.deep_view(), slots.deep_view()).calls,
            res.deep_view() == old(self)@.told_chunk(chunk.deep_view(), slots.deep_view()).events,
            final(self)@.valid(),
    {
        let ghost before = self@;
        let ghost view = chunk.deep_view();
        let ghost places = slots.deep_view();
        let mut events: Vec<StreamEvent> = Vec::new();
        proof {
            assert(events.deep_view() =~= seq![]);
        }
        if chunk.choices.len() == 0 {
            return events;
        }
        let choice = &chunk.choices[0];
        assert(view.choices[0] == choice.deep_view());
        match &choice.tool_calls {
            Some(deltas) => {
                let ghost pieces = deltas.deep_view();
                assert(view.deltas() == pieces);
                let n = deltas.len();
                let mut used: usize = 0;
                let mut j: usize = 0;
                proof {
                    assert(pieces.take(0) =~= seq![]);
                }
                while j < n
                    invariant
                        n == deltas@.len(),
                        j <= n,
                        before.valid(),
                        self@.valid(),
                        pieces == deltas.deep_view(),
                        places == slots.deep_view(),
                        slots@.len() == slots_needed(before.keys, pieces),
                        used == self@.keys.len() - before.keys.len(),
                        used <= slots@.len(),
                        self@ == before.told(pieces.take(j as int), places).calls,
                        events.deep_view() == before.told(pieces.take(j as int), places).events,
                    decreases n - j,
                {
                    let ghost current = self@;
                    let ghost told = events.deep_view();
                    proof {
                        assert(pieces.take(j + 1).drop_last() =~= pieces.take(j as int));
                        assert(pieces.take(j + 1).last() == deltas@[j as int].deep_view());
                        lemma_told_valid(before, pieces.take(j as int), places);
                        lemma_told_valid(before, pieces.take(j + 1), places);
                        lemma_keys_grow(before.keys, pieces, j + 1);
                        lemma_with_key(current.keys, deltas@[j as int].index);
                        lemma_rank(current.keys, deltas@[j as int].index);
                    }
                    used = self.take_piece(&deltas[j], slots, used, &mut events);
                    j += 1;
                }
                proof {
                    assert(pieces.take(n as int) =~= pieces);
                }
            },
            None => {
                assert(view.deltas() =~= seq![]);
            },
        }
        let finished = match &choice.finish_reason {
            Some(reason) => same_text(reason.as_str(), "tool_calls"),
            None => false,
        };
        if finished {
            self.close_all(&mut events);
        }
        events
    }
}

/// More pieces open no fewer calls.
pub proof fn lemma_keys_grow(keys: Seq<u32>, deltas: Seq<ToolCallDeltaView>, j: int)
    requires
        increasing(keys),
        0 <= j <= deltas.len(),
    ensures
        keys_after(keys, deltas.take(j)).len() <= keys_after(keys, deltas).len(),
    decreases deltas.len(),
{
    if j == deltas.len() {
        assert(deltas.take(j) =~= deltas);
    } else {
        let shorter = deltas.drop_last();
        lemma_keys_grow(keys, shorter, j);
        assert(shorter.take(j) =~= deltas.take(j));
        lemma_keys_after(keys, shorter);
        lemma_with_key(keys_after(keys, shorter), deltas.last().index);
        lemma_rank(keys_after(keys, shorter), deltas.last().index);
    }
}

} // verus!
