//! What holds of the tool calls that a tool loop is asked for.
use crate::events::{SlotView, StreamEventView};
use crate::json::{json_of_text, JsonView};
use crate::responses::ResponseStatus;
use crate::stream::{StreamActionView, StreamInputView};
use crate::tool_loop::{
    all_call_events, call_events, ExtractedCallView, LoopActionView, LoopInputView, LoopNext,
    LoopStageView, LoopView, PreparedView, ToolOutcomeView,
};
use crate::tool_loop_laws::{events_in, lemma_run_counted, LoopSetup};
use openai_protocol::responses::ResponsesResponse;
use vstd::prelude::*;

verus! {

/// The calls that the last completion asks for.
pub open spec fn asked(inputs: Seq<LoopInputView>) -> Seq<ExtractedCallView>
    decreases inputs.len(),
{
    if inputs.len() == 0 {
        seq![]
    } else {
        match inputs.last() {
            LoopInputView::Calls(calls) => calls,
            _ => asked(inputs.drop_last()),
        }
    }
}

/// How many calls were recorded since the last completion.
pub open spec fn recorded(inputs: Seq<LoopInputView>) -> nat
    decreases inputs.len(),
{
    if inputs.len() == 0 {
        0
    } else {
        match inputs.last() {
            LoopInputView::Calls(_) => 0,
            LoopInputView::Recorded => recorded(inputs.drop_last()) + 1,
            _ => recorded(inputs.drop_last()),
        }
    }
}

/// How the last call was prepared.
pub open spec fn prepared_last(inputs: Seq<LoopInputView>) -> Option<PreparedView>
    decreases inputs.len(),
{
    if inputs.len() == 0 {
        None
    } else {
        match inputs.last() {
            LoopInputView::Prepared(prepared) => Some(prepared),
            _ => prepared_last(inputs.drop_last()),
        }
    }
}

/// What the last tool returned.
pub open spec fn outcome_last(inputs: Seq<LoopInputView>) -> Option<ToolOutcomeView>
    decreases inputs.len(),
{
    if inputs.len() == 0 {
        None
    } else {
        match inputs.last() {
            LoopInputView::ToolDone(outcome) => Some(outcome),
            _ => outcome_last(inputs.drop_last()),
        }
    }
}

/// The response that the emitter made last.
pub open spec fn response_last(inputs: Seq<LoopInputView>) -> Option<ResponsesResponse>
    decreases inputs.len(),
{
    if inputs.len() == 0 {
        None
    } else {
        match inputs.last() {
            LoopInputView::Finalized(response) => Some(response),
            _ => response_last(inputs.drop_last()),
        }
    }
}

/// The calls that an MCP server takes, or those that none does, in their order.
pub open spec fn picked(calls: Seq<ExtractedCallView>, exposed: bool) -> Seq<ExtractedCallView>
    decreases calls.len(),
{
    if calls.len() == 0 {
        seq![]
    } else if calls.last().exposed == exposed {
        picked(calls.drop_last(), exposed).push(calls.last())
    } else {
        picked(calls.drop_last(), exposed)
    }
}

/// Picking calls is filtering them.
proof fn lemma_picked(calls: Seq<ExtractedCallView>)
    ensures
        picked(calls, true) == calls.filter(|call: ExtractedCallView| call.exposed),
        picked(calls, false) == calls.filter(|call: ExtractedCallView| !call.exposed),
        picked(calls, true).len() + picked(calls, false).len() == calls.len(),
    decreases calls.len(),
{
    reveal(Seq::filter);
    if calls.len() == 0 {
        assert(picked(calls, true) =~= calls.filter(|call: ExtractedCallView| call.exposed));
        assert(picked(calls, false) =~= calls.filter(|call: ExtractedCallView| !call.exposed));
    } else {
        lemma_picked(calls.drop_last());
    }
}

/// What a loop holds of the calls that it was asked for.
spec fn in_hand(view: LoopView, inputs: Seq<LoopInputView>) -> bool {
    let tools = picked(asked(inputs), true);
    let others = picked(asked(inputs), false);
    let done = recorded(inputs) as int;
    match view.stage {
        LoopStageView::Preparing
        | LoopStageView::Announcing(_)
        | LoopStageView::Executing(_)
        | LoopStageView::Reporting { .. }
        | LoopStageView::Recording => {
            &&& 0 <= done < tools.len()
            &&& view.memo.mcp_calls == tools.skip(done)
            &&& view.memo.function_calls == others
            &&& view.stage matches LoopStageView::Announcing(prepared) ==> prepared_last(inputs)
                == Some(prepared)
            &&& view.stage matches LoopStageView::Executing(prepared) ==> prepared_last(inputs)
                == Some(prepared)
            &&& view.stage matches LoopStageView::Reporting { success } ==> (outcome_last(
                inputs,
            ) matches Some(outcome) && success == !outcome.is_error)
        },
        LoopStageView::Allocating => {
            &&& done == tools.len()
            &&& view.memo.function_calls == others
            &&& others.len() > 0
        },
        LoopStageView::CountingRound => view.memo.iteration > 0 ==> {
            &&& done == tools.len()
            &&& others.len() == 0
        },
        LoopStageView::SendingLimit(response) => response_last(inputs) == Some(response),
        _ => true,
    }
}

/// A run keeps in hand what it was asked for.
proof fn lemma_run_in_hand(setup: LoopSetup, inputs: Seq<LoopInputView>)
    requires
        setup.legal(inputs),
    ensures
        setup.run(inputs) matches LoopNext::Running(view, _) ==> in_hand(view, inputs)
            && view.sound(),
    decreases inputs.len(),
{
    lemma_run_counted(setup, inputs);
    if inputs.len() > 0 {
        let shorter = inputs.drop_last();
        lemma_run_in_hand(setup, shorter);
        if let LoopNext::Running(view, _) = setup.run(shorter) {
            let tools = picked(asked(inputs), true);
            if let LoopInputView::Calls(calls) = inputs.last() {
                lemma_picked(calls);
                assert(tools.skip(0) =~= tools);
            }
            if inputs.last() is Recorded {
                let done = recorded(shorter) as int;
                assert(tools.skip(done).skip(1) =~= tools.skip(done + 1));
            }
        }
    }
}

/// A tool is prepared and run for the calls that the last completion asks of MCP servers, one after
/// the other: the next is the one behind those that were recorded. It is run under the name and the
/// call identifier that the completion gave, and with the arguments that it gave where their text
/// is a JSON object, and with an empty object only where it is not.
pub proof fn law_tools_run_as_asked(setup: LoopSetup, inputs: Seq<LoopInputView>)
    requires
        setup.legal(inputs),
    ensures
        ({
            let tools = picked(asked(inputs), true);
            let next = tools[recorded(inputs) as int];
            &&& setup.run(inputs) matches LoopNext::Running(_, LoopActionView::Prepare { name })
                ==> recorded(inputs) < tools.len() && name == next.name
            &&& setup.run(inputs) matches LoopNext::Running(
                _,
                LoopActionView::Execute { call_id, name, arguments },
            ) ==> {
                &&& recorded(inputs) < tools.len()
                &&& call_id == next.call_id
                &&& name == next.name
                &&& json_of_text(next.arguments) matches Some(JsonView::Object(_)) ==> arguments
                    == next.arguments
                &&& !(json_of_text(next.arguments) matches Some(JsonView::Object(_)))
                    ==> arguments == "{}"@
            }
        }),
{
    lemma_run_in_hand(setup, inputs);
    if inputs.len() > 0 {
        lemma_run_in_hand(setup, inputs.drop_last());
        if let LoopInputView::Calls(calls) = inputs.last() {
            lemma_picked(calls);
        }
    }
}

/// Before a tool runs, the client is told of it: of an item with the identifier and the type that
/// it is shown with, the name that the completion gave and the label of the server; where the call
/// is shown as it is, of its arguments as the completion gave them.
pub proof fn law_tools_are_announced_as_asked(setup: LoopSetup, inputs: Seq<LoopInputView>)
    requires
        setup.legal(inputs),
        inputs.len() > 0,
        inputs.last() is Prepared,
    ensures
        ({
            let prepared = inputs.last()->Prepared_0;
            let slot = prepared.slot;
            let events = events_in(setup.run(inputs));
            let tools = picked(asked(inputs), true);
            let call = tools[recorded(inputs) as int];
            &&& setup.run(inputs) is Running
            &&& recorded(inputs) < tools.len()
            &&& events.len() == if prepared.passthrough {
                5
            } else {
                3int
            }
            &&& events[0] matches StreamEventView::OutputItemAdded { output_index, item }
                && output_index == slot.output_index && item.id == slot.item_id && item.item_type
                == prepared.item_type && item.name == call.name && item.status == "in_progress"@
                && item.server_label == Some(prepared.server_label)
            &&& events[1] == (StreamEventView::ToolCallInProgress {
                output_index: slot.output_index,
                item_id: slot.item_id,
            })
            &&& prepared.passthrough ==> events[2] == (StreamEventView::McpCallArgumentsDelta {
                output_index: slot.output_index,
                item_id: slot.item_id,
                delta: call.arguments,
            }) && events[3] == (StreamEventView::McpCallArgumentsDone {
                output_index: slot.output_index,
                item_id: slot.item_id,
                arguments: call.arguments,
            })
            &&& events.last() == (StreamEventView::ToolCallSearching {
                output_index: slot.output_index,
                item_id: slot.item_id,
            })
        }),
{
    lemma_run_in_hand(setup, inputs);
}

/// After a tool ran, the client is told that its call failed where it did and the call is shown as
/// it is, with what the tool says of it or else its output, and that it ended in every other case.
/// Then the output item is told to be done, with the identifier that it was announced with, and
/// closed. The call is recorded as a success unless the tool failed.
pub proof fn law_tools_are_reported_as_they_ended(setup: LoopSetup, inputs: Seq<LoopInputView>)
    requires
        setup.legal(inputs),
        inputs.len() > 0,
    ensures
        inputs.last() matches LoopInputView::ToolDone(outcome) ==> (prepared_last(
            inputs,
        ) matches Some(prepared) && {
            let slot = prepared.slot;
            let events = events_in(setup.run(inputs));
            &&& events.len() == 3
            &&& outcome.is_error && prepared.passthrough ==> (
            events[0] matches StreamEventView::McpCallFailed { output_index, item_id, error }
                && output_index == slot.output_index && item_id == slot.item_id && (
            outcome.error_message is Some ==> error == outcome.error_message->0) && (
            outcome.error_message is None ==> error == outcome.output))
            &&& !(outcome.is_error && prepared.passthrough) ==> events[0] == (
            StreamEventView::ToolCallCompleted {
                output_index: slot.output_index,
                item_id: slot.item_id,
            })
            &&& events[1] matches StreamEventView::ToolOutputDone { output_index, output } && {
                &&& output_index == slot.output_index
                &&& outcome.item matches Some(JsonView::Object(members)) ==> output
                    == JsonView::Object(members.insert("id"@, JsonView::Text(slot.item_id)))
                &&& outcome.item is Some && !(outcome.item->0 is Object) ==> output
                    == outcome.item->0
                &&& outcome.item is None ==> {
                    &&& output.member("id"@) == Some(JsonView::Text(slot.item_id))
                    &&& output.member("type"@) == Some(JsonView::Text(prepared.item_type))
                    &&& output.member("status"@) == Some(
                        JsonView::Text(
                            if outcome.is_error {
                                "failed"@
                            } else {
                                "completed"@
                            },
                        ),
                    )
                }
            }
            &&& events[2] == (StreamEventView::CompleteOutputItem {
                output_index: slot.output_index,
            })
        }),
        setup.run(inputs) matches LoopNext::Running(_, LoopActionView::Record { success }) ==> (
        outcome_last(inputs) matches Some(outcome) && success == !outcome.is_error),
{
    lemma_run_in_hand(setup, inputs);
    lemma_run_in_hand(setup, inputs.drop_last());
    reveal_strlit("id");
    reveal_strlit("type");
    reveal_strlit("status");
    assert("id"@.len() != "type"@.len());
    assert("id"@.len() != "status"@.len());
    assert("type"@.len() != "status"@.len());
}

/// How many tool calls a loop may make: as many as it may take rounds, and no more than the request
/// allows.
pub open spec fn allowed(setup: LoopSetup) -> int {
    if setup.max_tool_calls is Some && setup.max_tool_calls->0 < setup.max_iterations {
        setup.max_tool_calls->0 as int
    } else {
        setup.max_iterations as int
    }
}

/// Once a completion asks for calls, only those of MCP tools count against the limit, with those
/// that ran before. Where they exceed it, the loop ends as incomplete. Where they do not, the first
/// of them is prepared, and where there is none, output slots are taken for all others, however
/// many they are.
pub proof fn law_only_tools_count_against_the_limit(setup: LoopSetup, inputs: Seq<LoopInputView>)
    requires
        setup.legal(inputs),
        inputs.len() > 0,
        inputs.last() is Calls,
        inputs.last()->Calls_0.len() > 0,
    ensures
        ({
            let calls = inputs.last()->Calls_0;
            let tools = picked(calls, true);
            let exceeded = setup.executions(inputs) + tools.len() > allowed(setup);
            &&& exceeded ==> (setup.run(inputs) matches LoopNext::Running(
                _,
                LoopActionView::Finalize { status, incomplete_reason, .. },
            ) && status == Some(ResponseStatus::Completed) && incomplete_reason == Some(
                "max_tool_calls"@,
            ))
            &&& !exceeded && tools.len() > 0 ==> (setup.run(inputs) matches LoopNext::Running(
                _,
                LoopActionView::Prepare { name },
            ) && name == tools[0].name)
            &&& !exceeded && tools.len() == 0 ==> (setup.run(inputs) matches LoopNext::Running(
                _,
                LoopActionView::Stream(StreamActionView::Allocate(n)),
            ) && n == calls.len())
        }),
{
    lemma_run_counted(setup, inputs.drop_last());
    lemma_picked(inputs.last()->Calls_0);
}

/// A loop is incomplete only where the calls of a completion exceeded the limit: the emitter is
/// asked for such a response only then, and the client is told of it only behind that.
pub proof fn law_incomplete_only_beyond_the_limit(setup: LoopSetup, inputs: Seq<LoopInputView>)
    requires
        setup.legal(inputs),
        inputs.len() > 0,
    ensures
        setup.run(inputs) matches LoopNext::Running(
            _,
            LoopActionView::Finalize { incomplete_reason: Some(reason), .. },
        ) ==> (inputs.last() matches LoopInputView::Calls(calls) && setup.executions(inputs)
            + picked(calls, true).len() > allowed(setup)),
        forall|i: int|
            0 <= i < events_in(setup.run(inputs)).len() ==> (#[trigger] events_in(
                setup.run(inputs),
            )[i] matches StreamEventView::Completed { incomplete_reason: Some(reason), .. }
                ==> reason == "max_tool_calls"@ && inputs.last() is Finalized && (setup.run(
                inputs.drop_last(),
            ) matches LoopNext::Running(_, LoopActionView::Finalize { incomplete_reason, .. })
                && incomplete_reason is Some)),
    decreases inputs.len(),
{
    lemma_run_counted(setup, inputs.drop_last());
    if let LoopInputView::Calls(calls) = inputs.last() {
        lemma_picked(calls);
    }
    if let LoopInputView::Stream(StreamInputView::Slots(slots)) = inputs.last() {
        if let LoopNext::Running(view, _) = setup.run(inputs.drop_last()) {
            lemma_call_events(view.memo.function_calls, slots);
            let calls = view.memo.function_calls;
            let events = events_in(setup.run(inputs));
            assert forall|i: int| 0 <= i < events.len() implies (
            #[trigger] events[i] matches StreamEventView::Completed { incomplete_reason, .. }
                ==> incomplete_reason is None) by {
                if i < 5 * calls.len() {
                    let k = i / 5;
                    assert(events[i] == all_call_events(calls, slots)[5 * k + (i - 5 * k)]);
                    assert(call_events(calls[k], slots[k])[i - 5 * k] !is Completed);
                }
            }
        }
    }
    lemma_finalizing_asks(setup, inputs.drop_last());
}

/// A loop that waits for the response asked the emitter for it.
proof fn lemma_finalizing_asks(setup: LoopSetup, inputs: Seq<LoopInputView>)
    requires
        setup.legal(inputs),
    ensures
        setup.run(inputs) matches LoopNext::Running(view, action) ==> {
            &&& view.stage is Finalizing ==> (action matches LoopActionView::Finalize {
                incomplete_reason,
                ..
            } && incomplete_reason is None)
            &&& view.stage is FinalizingLimit ==> (action matches LoopActionView::Finalize {
                status,
                incomplete_reason,
                ..
            } && incomplete_reason == Some("max_tool_calls"@) && status == Some(
                ResponseStatus::Completed,
            ))
        },
{
}

/// A tool loop goes on behind the calls of a completion only once all of them that an MCP server
/// takes were run and recorded. It then takes output slots for all others, and starts another round
/// only where there are none.
pub proof fn law_no_asked_call_is_left_out(setup: LoopSetup, inputs: Seq<LoopInputView>)
    requires
        setup.legal(inputs),
    ensures
        setup.run(inputs) matches LoopNext::Running(
            _,
            LoopActionView::Stream(StreamActionView::Allocate(n)),
        ) ==> {
            &&& recorded(inputs) == picked(asked(inputs), true).len()
            &&& n == picked(asked(inputs), false).len()
            &&& n > 0
        },
        setup.run(inputs) matches LoopNext::Running(_, LoopActionView::CountRound) ==>
            setup.rounds(inputs) > 1 ==> {
            &&& recorded(inputs) == picked(asked(inputs), true).len()
            &&& picked(asked(inputs), false).len() == 0
        },
{
    lemma_run_in_hand(setup, inputs);
    lemma_run_counted(setup, inputs);
    if inputs.len() > 0 {
        lemma_run_in_hand(setup, inputs.drop_last());
    }
}

/// The events of function calls stand one call behind the other, five for each.
proof fn lemma_call_events(calls: Seq<ExtractedCallView>, slots: Seq<SlotView>)
    ensures
        all_call_events(calls, slots).len() == 5 * calls.len(),
        forall|i: int, m: int|
            #![trigger all_call_events(calls, slots)[5 * i + m]]
            0 <= i < calls.len() && 0 <= m < 5 ==> all_call_events(calls, slots)[5 * i + m]
                == call_events(calls[i], slots[i])[m],
    decreases calls.len(),
{
    if calls.len() > 0 {
        let shorter = calls.drop_last();
        lemma_call_events(shorter, slots);
        let before = all_call_events(shorter, slots);
        let all = all_call_events(calls, slots);
        assert forall|i: int, m: int|
            #![trigger all[5 * i + m]]
            0 <= i < calls.len() && 0 <= m < 5 implies all[5 * i + m] == call_events(
            calls[i],
            slots[i],
        )[m] by {
            if i < shorter.len() {
                assert(all[5 * i + m] == before[5 * i + m]);
                assert(shorter[i] == calls[i]);
            }
        }
    }
}

/// Each function call that is left to the client is told of in full, in the order in which the
/// completion asks for them: its item is announced, its arguments are told, and it is told to be
/// done and closed. Both items bear the call identifier and the name that the completion gave, and
/// the identifier of the output slot as their own; the arguments are those that the completion
/// gave. Behind them the client is told of a response that is still in progress.
pub proof fn law_client_calls_are_told_as_asked(setup: LoopSetup, inputs: Seq<LoopInputView>)
    requires
        setup.legal(inputs),
        inputs.len() > 0,
        inputs.last() is Stream,
        inputs.last()->Stream_0 is Slots,
    ensures
        ({
            let slots = inputs.last()->Stream_0->Slots_0;
            let calls = picked(asked(inputs), false);
            let events = events_in(setup.run(inputs));
            &&& slots.len() == calls.len()
            &&& events.len() == 5 * calls.len() + 1
            &&& events.last() matches StreamEventView::Completed { status, incomplete_reason, .. }
                && status == Some(ResponseStatus::InProgress) && incomplete_reason is None
            &&& forall|i: int|
                #![trigger calls[i]]
                0 <= i < calls.len() ==> {
                    &&& events[5 * i] matches StreamEventView::OutputItemAdded {
                        output_index,
                        item,
                    } && output_index == slots[i].output_index && item.id == slots[i].item_id
                        && item.item_type == "function_call"@ && item.call_id == Some(
                        calls[i].call_id,
                    ) && item.name == calls[i].name && item.status == "in_progress"@
                        && item.arguments == ""@
                    &&& events[5 * i + 1] == (StreamEventView::FunctionCallArgumentsDelta {
                        output_index: slots[i].output_index,
                        item_id: slots[i].item_id,
                        delta: calls[i].arguments,
                    })
                    &&& events[5 * i + 2] == (StreamEventView::FunctionCallArgumentsDone {
                        output_index: slots[i].output_index,
                        item_id: slots[i].item_id,
                        arguments: calls[i].arguments,
                    })
                    &&& events[5 * i + 3] matches StreamEventView::OutputItemDone {
                        output_index,
                        item,
                    } && output_index == slots[i].output_index && item.id == slots[i].item_id
                        && item.item_type == "function_call"@ && item.call_id == Some(
                        calls[i].call_id,
                    ) && item.name == calls[i].name && item.status == "completed"@
                        && item.arguments == calls[i].arguments
                    &&& events[5 * i + 4] == (StreamEventView::CompleteOutputItem {
                        output_index: slots[i].output_index,
                    })
                }
        }),
{
    let shorter = inputs.drop_last();
    lemma_run_in_hand(setup, shorter);
    let slots = inputs.last()->Stream_0->Slots_0;
    let calls = picked(asked(inputs), false);
    lemma_call_events(calls, slots);
    let told = all_call_events(calls, slots);
    let events = events_in(setup.run(inputs));
    assert forall|i: int| #![trigger calls[i]] 0 <= i < calls.len() implies {
        &&& events[5 * i] == call_events(calls[i], slots[i])[0]
        &&& events[5 * i + 1] == call_events(calls[i], slots[i])[1]
        &&& events[5 * i + 2] == call_events(calls[i], slots[i])[2]
        &&& events[5 * i + 3] == call_events(calls[i], slots[i])[3]
        &&& events[5 * i + 4] == call_events(calls[i], slots[i])[4]
    } by {
        assert(told[5 * i + 0] == call_events(calls[i], slots[i])[0]);
        assert(told[5 * i + 1] == call_events(calls[i], slots[i])[1]);
        assert(told[5 * i + 2] == call_events(calls[i], slots[i])[2]);
        assert(told[5 * i + 3] == call_events(calls[i], slots[i])[3]);
        assert(told[5 * i + 4] == call_events(calls[i], slots[i])[4]);
    }
}

/// Where a loop ends because of the limit, the emitter is asked for a completed response with the
/// reason `max_tool_calls`, and once it made one the client is told of the completion, with the
/// emitter's own status and the same reason. In every other case the response that the emitter made
/// ends the loop at once.
pub proof fn law_the_limit_is_told(setup: LoopSetup, inputs: Seq<LoopInputView>)
    requires
        setup.legal(inputs),
        inputs.len() > 0,
        inputs.last() is Finalized,
    ensures
        ({
            let events = events_in(setup.run(inputs));
            setup.run(inputs.drop_last()) matches LoopNext::Running(
                _,
                LoopActionView::Finalize { status, incomplete_reason, .. },
            ) && match incomplete_reason {
                Some(reason) => {
                    &&& reason == "max_tool_calls"@
                    &&& status == Some(ResponseStatus::Completed)
                    &&& setup.run(inputs) is Running
                    &&& events.len() == 1
                    &&& events[0] matches StreamEventView::Completed {
                        status: told,
                        incomplete_reason: why,
                        ..
                    } && told is None && why == Some(reason)
                },
                None => setup.run(inputs) == LoopNext::Finished(inputs.last()->Finalized_0),
            }
        }),
{
    lemma_finalizing_asks(setup, inputs.drop_last());
}

/// A loop ends with the response that the emitter made last.
pub proof fn law_loop_ends_with_the_emitters_response(
    setup: LoopSetup,
    inputs: Seq<LoopInputView>,
)
    requires
        setup.legal(inputs),
    ensures
        setup.run(inputs) matches LoopNext::Finished(response) ==> response_last(inputs) == Some(
            response,
        ),
    decreases inputs.len(),
{
    if inputs.len() > 0 {
        lemma_run_in_hand(setup, inputs.drop_last());
        law_loop_ends_with_the_emitters_response(setup, inputs.drop_last());
    }
}

} // verus!
