//! What holds of the rounds of a tool loop and of its end.
use crate::chat::Usage;
use crate::chat_stream::ChatNext;
use crate::completion::CompletionView;
use crate::events::{SlotView, StreamEventView, UsageReport};
use crate::responses::ResponseStatus;
use crate::stream::StreamInputView;
use crate::stream_step_laws::{law_chats_wait_for_what_they_asked, may_come_of};
use crate::text::decimal;
use crate::tool_call_laws::asked;
use crate::tool_loop::{
    all_call_events, call_events, loop_went, ExtractedCallView, LoopActionView, LoopInputView,
    LoopNext, LoopProgress, LoopStageView, LoopView,
};
use crate::tool_loop_laws::{events_in, lemma_run_counted, LoopSetup};
use vstd::prelude::*;

verus! {

/// The rounds are numbered as they start, and every one but the first continues the one before.
pub proof fn law_rounds_are_numbered(setup: LoopSetup, inputs: Seq<LoopInputView>)
    requires
        setup.legal(inputs),
    ensures
        setup.run(inputs) matches LoopNext::Running(
            _,
            LoopActionView::StartChat { iteration, continues },
        ) ==> iteration == setup.chats(inputs) && continues == (iteration > 1),
{
    lemma_run_counted(setup, inputs);
}

/// A round that was counted starts unless as many as the loop may take were started before: the
/// first with the lists of the tools of every server, every other with its chat completion. One too
/// many fails, and the error names the limit.
pub proof fn law_counted_rounds_start_within_the_limit(
    setup: LoopSetup,
    inputs: Seq<LoopInputView>,
)
    requires
        setup.legal(inputs),
        inputs.len() > 0,
        inputs.last() is Counted,
    ensures
        ({
            let started = setup.chats(inputs.drop_last());
            let events = events_in(setup.run(inputs));
            &&& started >= setup.max_iterations ==> setup.run(inputs) == LoopNext::Failed(
                "Tool loop exceeded maximum iterations ("@ + decimal(setup.max_iterations as nat)
                    + ")"@,
            )
            &&& started < setup.max_iterations && started == 0 ==> {
                &&& setup.run(inputs) is Running
                &&& events.len() == setup.servers
                &&& forall|i: int|
                    0 <= i < setup.servers ==> #[trigger] events[i] == (
                    StreamEventView::McpListTools { server: i as usize })
            }
            &&& 0 < started < setup.max_iterations ==> (setup.run(
                inputs,
            ) matches LoopNext::Running(_, LoopActionView::StartChat { .. }))
        }),
{
    lemma_run_counted(setup, inputs.drop_last());
}

/// A loop fails only where a request cannot be converted, an event cannot be sent, the body of a
/// chat completion cannot be read or there are too many rounds. The error tells why.
pub proof fn law_failures_tell_why(setup: LoopSetup, inputs: Seq<LoopInputView>)
    requires
        setup.legal(inputs),
        inputs.len() > 0,
    ensures
        setup.run(inputs) is Failed ==> match inputs.last() {
            LoopInputView::Counted => true,
            LoopInputView::ConversionFailed(_) => true,
            LoopInputView::Stream(input) => input is DeliveryFailed || input is BodyFailed,
            _ => false,
        },
        inputs.last() matches LoopInputView::ConversionFailed(reason) ==> setup.run(inputs)
            == LoopNext::Failed("Failed to convert request: "@ + reason),
        inputs.last() matches LoopInputView::Stream(StreamInputView::DeliveryFailed(reason))
            ==> setup.run(inputs) == LoopNext::Failed(reason),
        inputs.last() matches LoopInputView::Stream(StreamInputView::BodyFailed(reason))
            ==> setup.run(inputs) == LoopNext::Failed("Stream read error: "@ + reason),
{
    lemma_run_counted(setup, inputs.drop_last());
}

/// While a chat completion runs, the loop does what the chat completion asks for, and once that is
/// complete it looks for its tool calls.
pub proof fn law_rounds_run_the_chat(view: LoopView, input: StreamInputView)
    requires
        view.stage is Chatting,
        view.expects(LoopInputView::Stream(input)),
    ensures
        match view.stage->Chatting_0.step(input) {
            ChatNext::Running(stream, action) => {
                &&& view.step(LoopInputView::Stream(input)) matches LoopNext::Running(
                    next,
                    LoopActionView::Stream(wanted),
                ) && wanted == action && next.stage == LoopStageView::Chatting(stream)
            },
            ChatNext::Finished(completion) => {
                &&& view.step(LoopInputView::Stream(input)) matches LoopNext::Running(
                    next,
                    LoopActionView::Extract(wanted),
                ) && wanted == completion
            },
            ChatNext::Failed(error) => view.step(LoopInputView::Stream(input))
                == LoopNext::Failed(error),
        },
{
}

/// The completion that a run has last looked for tool calls in.
pub open spec fn completion_last(setup: LoopSetup, inputs: Seq<LoopInputView>) -> Option<
    CompletionView,
>
    decreases inputs.len(),
{
    if inputs.len() == 0 {
        None
    } else {
        match setup.run(inputs) {
            LoopNext::Running(_, LoopActionView::Extract(completion)) => Some(completion),
            _ => completion_last(setup, inputs.drop_last()),
        }
    }
}

/// The usage of a completion that may be missing.
pub open spec fn usage_of(completion: Option<CompletionView>) -> Option<Usage> {
    if completion is Some {
        completion->0.usage
    } else {
        None
    }
}

/// The reasoning of the first choice of a completion that may be missing.
pub open spec fn reasoning_of(completion: Option<CompletionView>) -> Option<Seq<char>> {
    if completion is Some && completion->0.choices.len() > 0 {
        completion->0.choices[0].reasoning
    } else {
        None
    }
}

/// What a loop remembers of the last completion, and how it ends.
spec fn remembers(view: LoopView, setup: LoopSetup, inputs: Seq<LoopInputView>) -> bool {
    &&& view.memo.usage == usage_of(completion_last(setup, inputs))
    &&& view.memo.reasoning == reasoning_of(completion_last(setup, inputs))
    &&& match view.stage {
        LoopStageView::Preparing
        | LoopStageView::Announcing(_)
        | LoopStageView::Executing(_)
        | LoopStageView::Reporting { .. }
        | LoopStageView::Recording
        | LoopStageView::Allocating
        | LoopStageView::SendingCalls => asked(inputs).len() > 0,
        LoopStageView::SendingFinal => asked(inputs).len() == 0,
        _ => true,
    }
}

/// A run keeps what it remembers of the last completion.
proof fn lemma_run_remembers(setup: LoopSetup, inputs: Seq<LoopInputView>)
    requires
        setup.legal(inputs),
    ensures
        setup.run(inputs) matches LoopNext::Running(view, _) ==> remembers(view, setup, inputs),
    decreases inputs.len(),
{
    if inputs.len() > 0 {
        lemma_run_remembers(setup, inputs.drop_last());
    }
}

/// Counts are reported as they were counted, without those of the reasoning.
pub open spec fn reports(report: Option<UsageReport>, usage: Option<Usage>) -> bool {
    &&& report is Some <==> usage is Some
    &&& usage is Some ==> {
        &&& report->0.input_tokens == usage->0.prompt_tokens
        &&& report->0.output_tokens == usage->0.completion_tokens
        &&& report->0.total_tokens == usage->0.total_tokens
        &&& report->0.reasoning_tokens is None
    }
}

/// The response and the event that tell of the end report the usage of the last completion. The
/// response is in progress where function calls are left to the client, and where there are no
/// calls it bears the emitter's own status.
pub proof fn law_end_reports_the_last_completion(setup: LoopSetup, inputs: Seq<LoopInputView>)
    requires
        setup.legal(inputs),
    ensures
        setup.run(inputs) matches LoopNext::Running(
            _,
            LoopActionView::Finalize { status, usage, incomplete_reason },
        ) ==> {
            &&& usage == usage_of(completion_last(setup, inputs))
            &&& incomplete_reason is None ==> status == if asked(inputs).len() == 0 {
                None
            } else {
                Some(ResponseStatus::InProgress)
            }
        },
        forall|i: int|
            0 <= i < events_in(setup.run(inputs)).len() ==> (#[trigger] events_in(
                setup.run(inputs),
            )[i] matches StreamEventView::Completed { usage, .. } ==> reports(
                usage,
                usage_of(completion_last(setup, inputs)),
            )),
{
    lemma_run_remembers(setup, inputs);
    if inputs.len() > 0 {
        lemma_run_remembers(setup, inputs.drop_last());
        if let LoopInputView::Stream(StreamInputView::Slots(slots)) = inputs.last() {
            if let LoopNext::Running(view, _) = setup.run(inputs.drop_last()) {
                let calls = view.memo.function_calls;
                let events = events_in(setup.run(inputs));
                let told = all_call_events(calls, slots);
                lemma_no_completion_among(calls, slots);
                assert forall|i: int| 0 <= i < events.len() implies (
                #[trigger] events[i] matches StreamEventView::Completed { usage, .. } ==> reports(
                    usage,
                    usage_of(completion_last(setup, inputs)),
                )) by {
                    if i < told.len() {
                        assert(events[i] == told[i]);
                    }
                }
            }
        }
    }
}

/// The events of function calls tell of no completion.
proof fn lemma_no_completion_among(
    calls: Seq<ExtractedCallView>,
    slots: Seq<SlotView>,
)
    ensures
        forall|i: int|
            0 <= i < all_call_events(calls, slots).len() ==> #[trigger] all_call_events(
                calls,
                slots,
            )[i] !is Completed,
    decreases calls.len(),
{
    if calls.len() > 0 {
        lemma_no_completion_among(calls.drop_last(), slots);
        let before = all_call_events(calls.drop_last(), slots);
        let more = call_events(calls.last(), slots[calls.len() - 1]);
        let all = all_call_events(calls, slots);
        assert forall|i: int| 0 <= i < all.len() implies #[trigger] all[i] !is Completed by {
            if i < before.len() {
                assert(all[i] == before[i]);
            } else {
                assert(all[i] == more[i - before.len()]);
            }
        }
    }
}

/// A completion without tool calls ends the loop: its reasoning is told, where it is not empty, and
/// then the completion, with the emitter's own status.
pub proof fn law_no_calls_end_the_loop(setup: LoopSetup, inputs: Seq<LoopInputView>)
    requires
        setup.legal(inputs),
        inputs.len() > 0,
        inputs.last() is Calls,
        inputs.last()->Calls_0.len() == 0,
    ensures
        ({
            let events = events_in(setup.run(inputs));
            let reasoning = reasoning_of(completion_last(setup, inputs));
            &&& setup.run(inputs) is Running
            &&& events.len() > 0
            &&& events.last() matches StreamEventView::Completed { status, incomplete_reason, .. }
                && status is None && incomplete_reason is None
            &&& reasoning is Some && reasoning->0.len() > 0 ==> events.len() == 2 && events[0] == (
            StreamEventView::ReasoningItem { text: reasoning->0 })
            &&& reasoning is None || reasoning->0.len() == 0 ==> events.len() == 1
        }),
{
    lemma_run_remembers(setup, inputs.drop_last());
}

/// A loop starts with `response.created`, and goes on to `response.in_progress` and the first round
/// as these are sent.
pub proof fn law_loop_opens_step_by_step(setup: LoopSetup, inputs: Seq<LoopInputView>)
    requires
        setup.legal(inputs),
        inputs.len() <= 2,
        forall|i: int|
            0 <= i < inputs.len() ==> #[trigger] inputs[i] == LoopInputView::Stream(
                StreamInputView::Delivered,
            ),
    ensures
        inputs.len() == 0 ==> events_in(setup.run(inputs)) == seq![StreamEventView::Created],
        inputs.len() == 1 ==> events_in(setup.run(inputs)) == seq![StreamEventView::InProgress],
        inputs.len() == 2 ==> (setup.run(inputs) matches LoopNext::Running(
            _,
            LoopActionView::CountRound,
        )),
{
    if inputs.len() > 0 {
        assert(inputs[inputs.len() - 1] == LoopInputView::Stream(StreamInputView::Delivered));
        let shorter = inputs.drop_last();
        if shorter.len() > 0 {
            assert(inputs[0] == LoopInputView::Stream(StreamInputView::Delivered));
            assert(shorter.last() == inputs[0]);
            assert(setup.run(shorter.drop_last()) == setup.opening());
        }
    }
}

/// A step of a tool loop goes as it is described.
pub proof fn law_loop_steps_go_as_described(progress: LoopProgress, next: LoopNext)
    requires
        loop_went(progress, next),
    ensures
        match (progress, next) {
            (LoopProgress::Running(tool_loop, action), LoopNext::Running(view, wanted)) =>
                tool_loop@ == view && action.deep_view() == wanted,
            (LoopProgress::Finished(response), LoopNext::Finished(wanted)) => response == wanted,
            (LoopProgress::Failed(error), LoopNext::Failed(wanted)) => error@ == wanted,
            _ => false,
        },
{
}

/// What can come of an action of a tool loop.
pub open spec fn may_come_of_loop(action: LoopActionView, input: LoopInputView) -> bool {
    match action {
        LoopActionView::Stream(action) => input is Stream && may_come_of(action, input->Stream_0),
        LoopActionView::CountRound => input is Counted,
        LoopActionView::StartChat { .. } => input is ChatStarted || input is ConversionFailed,
        LoopActionView::Extract(_) => input is Calls,
        LoopActionView::Prepare { .. } => input is Prepared,
        LoopActionView::Execute { .. } => input is ToolDone,
        LoopActionView::Record { .. } => input is Recorded,
        LoopActionView::Finalize { .. } => input is Finalized,
    }
}

/// A tool loop waits for what can come of its action, all of it and nothing else.
pub proof fn law_loops_wait_for_what_they_asked(
    setup: LoopSetup,
    inputs: Seq<LoopInputView>,
    other: LoopInputView,
)
    requires
        setup.legal(inputs),
    ensures
        setup.run(inputs) matches LoopNext::Running(view, action) ==> (view.expects(other)
            <==> may_come_of_loop(action, other)),
{
    if inputs.len() > 0 {
        if let LoopNext::Running(view, _) = setup.run(inputs.drop_last()) {
            if let LoopStageView::Chatting(stream) = view.stage {
                law_chats_wait_for_what_they_asked(
                    stream,
                    inputs.last()->Stream_0,
                    other->Stream_0,
                );
            }
        }
    }
}

} // verus!
