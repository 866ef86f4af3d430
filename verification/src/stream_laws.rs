//! What holds of every run of a stream without hosted tools.
use crate::accumulator::{
    blank_call, extended_calls, lemma_calls_needed, lemma_extended_calls, AccumulatorView,
};
use crate::chat::{chunk_content, ChatChunkView, ToolCallDeltaView};
use crate::events::{SlotView, StreamEventView};
use crate::function_call_laws::{
    agree, consistent, distinct_slots, in_order, law_events_agree_with_the_response,
    law_events_tell_the_calls, lemma_in_order_push, lemma_tell_concat, lemma_tell_one, silent,
    streamed, tell, unused_from, uses,
};
use crate::function_calls::{
    all_closing_events, closing_events, lemma_told_valid, CallEventView, CallsView,
};
use crate::json::{json_of_text, reports_error};
use crate::responses::{request_content, DraftView, FunctionCallView, ResponseStatus};
use crate::sse::{
    last_data, lemma_left_text_holds_no_record, lemma_next_data_concat, lemma_next_data_shrinks,
    next_data, record_of, utf8_lossy, Pull, RecordText, SseRecordView,
};
use crate::stream::{
    raw_outcome, Next, Reading, SseRecordOutcome, StageView, StreamActionView, StreamInputView,
    StreamView,
};
use crate::text::lf_only;
use openai_protocol::responses::ResponsesRequest;
use vstd::prelude::*;

verus! {

/// An input of a run, with the identifiers that the response gives to the function calls that it
/// gains from it.
pub struct RunInput {
    pub input: StreamInputView,
    pub fresh: Seq<Seq<char>>,
}

/// A stream as it starts, with its first action.
pub open spec fn opening(
    request: ResponsesRequest,
    response_id: Seq<char>,
    created_at: i64,
) -> Next {
    Next::Running(
        StreamView::initial(request, response_id, created_at),
        StreamActionView::Deliver(seq![StreamEventView::Created]),
    )
}

/// Where a stream stands after a run.
pub open spec fn run(start: Next, inputs: Seq<RunInput>) -> Next
    decreases inputs.len(),
{
    if inputs.len() == 0 {
        start
    } else {
        match run(start, inputs.drop_last()) {
            Next::Running(view, _) => view.step(inputs.last().input, inputs.last().fresh),
            ended => ended,
        }
    }
}

/// Every input of a run was waited for.
pub open spec fn legal(start: Next, inputs: Seq<RunInput>) -> bool
    decreases inputs.len(),
{
    if inputs.len() == 0 {
        true
    } else {
        &&& legal(start, inputs.drop_last())
        &&& match run(start, inputs.drop_last()) {
            Next::Running(view, _) => {
                &&& view.expects(inputs.last().input)
                &&& view.fits(inputs.last().input, inputs.last().fresh)
            },
            _ => false,
        }
    }
}

/// The events that a step tells.
pub open spec fn told_in(next: Next) -> Seq<StreamEventView> {
    match next {
        Next::Running(_, StreamActionView::Deliver(events)) => events,
        _ => seq![],
    }
}

/// All events that a run tells.
pub open spec fn log(start: Next, inputs: Seq<RunInput>) -> Seq<StreamEventView>
    decreases inputs.len(),
{
    if inputs.len() == 0 {
        told_in(start)
    } else {
        log(start, inputs.drop_last()) + told_in(run(start, inputs))
    }
}

/// Among the events is an upstream error that was passed on.
pub open spec fn reports_upstream(events: Seq<StreamEventView>) -> bool {
    exists|i: int|
        0 <= i < events.len() && (#[trigger] events[i] matches StreamEventView::RawJson(json)
            && reports_error(json_of_text(json)))
}

/// An event of a function call.
pub open spec fn is_call_event(event: StreamEventView) -> bool {
    ||| event is OutputItemAdded
    ||| event is FunctionCallArgumentsDelta
    ||| event is FunctionCallArgumentsDone
    ||| event is OutputItemDone
    ||| event is CompleteOutputItem
}

/// Completing function calls tells events of function calls only.
proof fn lemma_closing_events_kind(states: Seq<CallEventView>)
    ensures
        forall|i: int|
            0 <= i < all_closing_events(states).len() ==> is_call_event(
                #[trigger] all_closing_events(states)[i],
            ),
    decreases states.len(),
{
    if states.len() > 0 {
        lemma_closing_events_kind(states.drop_last());
        let before = all_closing_events(states.drop_last());
        let all = all_closing_events(states);
        let more = closing_events(states.last());
        assert forall|i: int| 0 <= i < all.len() implies is_call_event(#[trigger] all[i]) by {
            if i < before.len() {
                assert(all[i] == before[i]);
            } else {
                assert(all[i] == more[i - before.len()]);
            }
        }
    }
}

/// Pieces of function calls tell events of function calls only.
proof fn lemma_told_kind(
    calls: CallsView,
    deltas: Seq<ToolCallDeltaView>,
    slots: Seq<SlotView>,
)
    ensures
        forall|i: int|
            0 <= i < calls.told(deltas, slots).events.len() ==> is_call_event(
                #[trigger] calls.told(deltas, slots).events[i],
            ),
    decreases deltas.len(),
{
    if deltas.len() > 0 {
        lemma_told_kind(calls, deltas.drop_last(), slots);
        let before = calls.told(deltas.drop_last(), slots);
        let next = before.calls.told_piece(
            deltas.last(),
            slots[before.calls.keys.len() - calls.keys.len()],
        );
        let all = calls.told(deltas, slots).events;
        assert forall|i: int| 0 <= i < all.len() implies is_call_event(#[trigger] all[i]) by {
            if i < before.events.len() {
                assert(all[i] == before.events[i]);
            } else {
                assert(all[i] == next.events[i - before.events.len()]);
            }
        }
    }
}

/// A chunk of function calls tells events of function calls only.
proof fn lemma_told_chunk_kind(calls: CallsView, chunk: ChatChunkView, slots: Seq<SlotView>)
    ensures
        forall|i: int|
            0 <= i < calls.told_chunk(chunk, slots).events.len() ==> is_call_event(
                #[trigger] calls.told_chunk(chunk, slots).events[i],
            ),
{
    let pieces = calls.told(chunk.deltas(), slots);
    lemma_told_kind(calls, chunk.deltas(), slots);
    lemma_closing_events_kind(pieces.calls.states);
    let all = calls.told_chunk(chunk, slots).events;
    assert forall|i: int| 0 <= i < all.len() implies is_call_event(#[trigger] all[i]) by {
        if i < pieces.events.len() {
            assert(all[i] == pieces.events[i]);
        } else {
            assert(all[i] == all_closing_events(pieces.calls.states)[i - pieces.events.len()]);
        }
    }
}

/// What the events so far say of where the stream stands.
spec fn in_step(next: Next, events: Seq<StreamEventView>) -> bool {
    &&& events.len() > 0
    &&& events[0] is Created
    &&& forall|i: int|
        0 <= i < events.len() ==> match #[trigger] events[i] {
            StreamEventView::Created => i == 0,
            StreamEventView::InProgress => i == 1,
            StreamEventView::Completed { .. } => i == events.len() - 1,
            _ => i > 1,
        }
    &&& match next {
        Next::Running(view, _) => {
            &&& reports_upstream(events) <==> (view.stage matches StageView::Sending {
                outcome,
                ..
            } && outcome == SseRecordOutcome::UpstreamError)
            &&& events.last() is Completed <==> view.stage is Completing
            &&& view.stage is Completing ==> events.last()->Completed_status == Some(
                view.response.status(),
            )
            &&& view.stage is SendingCreated <==> events.len() == 1
        },
        Next::Finished { draft, persist, .. } => if reports_upstream(events) {
            &&& !persist
            &&& draft.status == ResponseStatus::Failed
            &&& events.last() !is Completed
        } else {
            &&& persist
            &&& events.last() is Completed
            &&& events.last()->Completed_status == Some(draft.status)
        },
        Next::Failed(_) => true,
    }
}

/// A step keeps what the events say of where the stream stands.
proof fn lemma_step_in_step(
    view: StreamView,
    action: StreamActionView,
    events: Seq<StreamEventView>,
    input: StreamInputView,
    fresh: Seq<Seq<char>>,
)
    requires
        in_step(Next::Running(view, action), events),
        view.expects(input),
    ensures
        in_step(view.step(input, fresh), events + told_in(view.step(input, fresh))),
{
    let next = view.step(input, fresh);
    let more = told_in(next);
    let all = events + more;
    if let StageView::Allocating { chunk, .. } = view.stage {
        lemma_told_chunk_kind(view.calls, chunk, input->Slots_0);
    }
    assert forall|i: int| 0 <= i < all.len() implies match #[trigger] all[i] {
        StreamEventView::Created => i == 0,
        StreamEventView::InProgress => i == 1,
        StreamEventView::Completed { .. } => i == all.len() - 1,
        _ => i > 1,
    } by {
        if i < events.len() {
            assert(all[i] == events[i]);
        } else {
            assert(all[i] == more[i - events.len()]);
        }
    }
    assert(reports_upstream(all) <==> reports_upstream(events) || reports_upstream(more)) by {
        if reports_upstream(all) {
            let i = choose|i: int|
                0 <= i < all.len() && (#[trigger] all[i] matches StreamEventView::RawJson(json)
                    && reports_error(json_of_text(json)));
            if i < events.len() {
                assert(all[i] == events[i]);
            } else {
                assert(all[i] == more[i - events.len()]);
            }
        }
        if reports_upstream(events) {
            let i = choose|i: int|
                0 <= i < events.len() && (#[trigger] events[i] matches StreamEventView::RawJson(
                    json,
                ) && reports_error(json_of_text(json)));
            assert(all[i] == events[i]);
        }
        if reports_upstream(more) {
            let i = choose|i: int|
                0 <= i < more.len() && (#[trigger] more[i] matches StreamEventView::RawJson(json)
                    && reports_error(json_of_text(json)));
            assert(all[events.len() + i] == more[i]);
        }
    }
    if let StageView::Allocating { .. } = view.stage {
        assert(!reports_upstream(more)) by {
            if reports_upstream(more) {
                let i = choose|i: int|
                    0 <= i < more.len() && (#[trigger] more[i] matches StreamEventView::RawJson(
                        json,
                    ) && reports_error(json_of_text(json)));
                assert(is_call_event(more[i]));
            }
        }
        if more.len() > 0 {
            assert(is_call_event(more[more.len() - 1]));
        }
    } else {
        assert(more.len() <= 1);
        if more.len() == 1 {
            if let StreamEventView::RawJson(json) = more[0] {
                assert(reports_upstream(more) <==> reports_error(json_of_text(json)));
            }
        }
    }
    if more.len() == 0 {
        assert(all =~= events);
    } else {
        assert(all.last() == more.last());
    }
}

/// A run keeps what the events say of where the stream stands.
proof fn lemma_run_in_step(
    request: ResponsesRequest,
    response_id: Seq<char>,
    created_at: i64,
    inputs: Seq<RunInput>,
)
    requires
        legal(opening(request, response_id, created_at), inputs),
    ensures
        in_step(
            run(opening(request, response_id, created_at), inputs),
            log(opening(request, response_id, created_at), inputs),
        ),
    decreases inputs.len(),
{
    let start = opening(request, response_id, created_at);
    if inputs.len() > 0 {
        lemma_run_in_step(request, response_id, created_at, inputs.drop_last());
        if let Next::Running(view, action) = run(start, inputs.drop_last()) {
            lemma_step_in_step(
                view,
                action,
                log(start, inputs.drop_last()),
                inputs.last().input,
                inputs.last().fresh,
            );
        }
    } else {
        let first = told_in(start);
        assert(first[0] is Created);
        assert(!reports_upstream(first));
    }
}

/// A stream that passed on an upstream error tells of no completion. It ends with a failed
/// response, which is not persisted, if it does not end with an error of its own.
pub proof fn law_upstream_errors_end_the_stream(
    request: ResponsesRequest,
    response_id: Seq<char>,
    created_at: i64,
    inputs: Seq<RunInput>,
)
    requires
        legal(opening(request, response_id, created_at), inputs),
        reports_upstream(log(opening(request, response_id, created_at), inputs)),
    ensures
        ({
            let events = log(opening(request, response_id, created_at), inputs);
            forall|i: int| 0 <= i < events.len() ==> #[trigger] events[i] !is Completed
        }),
        run(opening(request, response_id, created_at), inputs) matches Next::Finished {
            draft,
            persist,
            ..
        } ==> draft.status == ResponseStatus::Failed && !persist,
{
    lemma_run_in_step(request, response_id, created_at, inputs);
    if inputs.len() > 0 {
        lemma_run_in_step(request, response_id, created_at, inputs.drop_last());
    }
    let start = opening(request, response_id, created_at);
    let events = log(start, inputs);
    assert forall|i: int| 0 <= i < events.len() implies #[trigger] events[i] !is Completed by {
        if events[i] is Completed {
            assert(i == events.len() - 1);
            lemma_failed_was_running(request, response_id, created_at, inputs);
        }
    }
}

/// A run that ended with an error told nothing in its last step.
proof fn lemma_failed_was_running(
    request: ResponsesRequest,
    response_id: Seq<char>,
    created_at: i64,
    inputs: Seq<RunInput>,
)
    requires
        legal(opening(request, response_id, created_at), inputs),
        run(opening(request, response_id, created_at), inputs) is Failed,
    ensures
        inputs.len() > 0,
        run(opening(request, response_id, created_at), inputs.drop_last()) is Running,
        log(opening(request, response_id, created_at), inputs) == log(
            opening(request, response_id, created_at),
            inputs.drop_last(),
        ),
{
    let start = opening(request, response_id, created_at);
    assert(log(start, inputs) =~= log(start, inputs.drop_last()));
}

/// The first event of a stream is `response.created` and its second `response.in_progress`, and
/// neither comes again. `response.completed` comes once, as the last event, or not at all; a
/// response that is to be persisted has the status that it told.
pub proof fn law_events_come_in_order(
    request: ResponsesRequest,
    response_id: Seq<char>,
    created_at: i64,
    inputs: Seq<RunInput>,
)
    requires
        legal(opening(request, response_id, created_at), inputs),
    ensures
        ({
            let events = log(opening(request, response_id, created_at), inputs);
            &&& events.len() > 0
            &&& events[0] is Created
            &&& forall|i: int|
                0 <= i < events.len() ==> match #[trigger] events[i] {
                    StreamEventView::Created => i == 0,
                    StreamEventView::InProgress => i == 1,
                    StreamEventView::Completed { .. } => i == events.len() - 1,
                    _ => i > 1,
                }
            &&& run(opening(request, response_id, created_at), inputs) matches Next::Finished {
                draft,
                persist,
                ..
            } ==> persist ==> (events.last() matches StreamEventView::Completed { status, .. }
                && status == Some(draft.status))
        }),
{
    lemma_run_in_step(request, response_id, created_at, inputs);
}

/// A response was begun as a stream starts: it has the identifier, the creation time and the
/// request of that start, and the model of that request.
pub open spec fn begun_as(
    response: AccumulatorView,
    request: ResponsesRequest,
    response_id: Seq<char>,
    created_at: i64,
) -> bool {
    &&& response.response_id == response_id
    &&& response.model == request_content(request).model
    &&& response.created_at == created_at
    &&& response.original_request == request
}

/// The response of a stream keeps the identifier, the model, the creation time and the request of
/// its start, whatever the chunks say.
pub proof fn law_response_keeps_its_identity(
    request: ResponsesRequest,
    response_id: Seq<char>,
    created_at: i64,
    inputs: Seq<RunInput>,
)
    requires
        legal(opening(request, response_id, created_at), inputs),
        response_id.len() > 0,
    ensures
        match run(opening(request, response_id, created_at), inputs) {
            Next::Running(view, _) => begun_as(view.response, request, response_id, created_at),
            Next::Finished { draft, request: answered, .. } => {
                &&& draft.id == response_id
                &&& draft.model == request_content(request).model
                &&& draft.created_at == created_at
                &&& answered == request
            },
            Next::Failed(_) => true,
        },
    decreases inputs.len(),
{
    if inputs.len() > 0 {
        law_response_keeps_its_identity(request, response_id, created_at, inputs.drop_last());
    }
}

/// The events of a stream and its response agree on the function calls. While output slots for a
/// chunk are awaited, they agreed before that chunk.
pub open spec fn in_agreement(view: StreamView) -> bool {
    &&& view.calls.valid()
    &&& match view.stage {
        StageView::Allocating { chunk, .. } => {
            exists|before: AccumulatorView, fresh: Seq<Seq<char>>|
                #![trigger before.after(chunk, fresh)]
                {
                    &&& agree(view.calls, before.tool_calls)
                    &&& fresh.len() == before.opened_by(chunk)
                    &&& view.response == before.after(chunk, fresh)
                }
        },
        _ => agree(view.calls, view.response.tool_calls),
    }
}

/// A step keeps the agreement of events and response on the function calls.
pub proof fn law_steps_keep_the_agreement(
    view: StreamView,
    input: StreamInputView,
    fresh: Seq<Seq<char>>,
)
    requires
        in_agreement(view),
        view.expects(input),
        view.fits(input, fresh),
    ensures
        view.step(input, fresh) matches Next::Running(next, _) ==> in_agreement(next),
{
    match view.stage {
        StageView::Allocating { chunk, .. } => {
            let slots = input->Slots_0;
            let (before, given) = choose|before: AccumulatorView, given: Seq<Seq<char>>|
                #![trigger before.after(chunk, given)]
                {
                    &&& agree(view.calls, before.tool_calls)
                    &&& given.len() == before.opened_by(chunk)
                    &&& view.response == before.after(chunk, given)
                };
            law_events_agree_with_the_response(view.calls, before, chunk, slots, given);
            lemma_told_valid(view.calls, chunk.deltas(), slots);
        },
        _ => {
            if let Some(Reading::Record { record, last, .. }) = view.reading(input) {
                if let SseRecordView::ChatChunk(outside) = record {
                    let chunk = chunk_content(outside);
                    if chunk.deltas().len() > 0 || view.calls.keys.len() > 0 {
                        assert(view.response.after(chunk, fresh) == view.response.after(
                            chunk,
                            fresh,
                        ));
                    } else {
                        law_events_agree_with_the_response(
                            view.calls,
                            view.response,
                            chunk,
                            seq![],
                            fresh,
                        );
                        assert(view.calls.states =~= seq![]);
                        assert(view.calls.closed().states =~= view.calls.states);
                    }
                }
            }
        },
    }
}

/// The output slots of a run were given to no function call before.
pub open spec fn unused_slots(start: Next, inputs: Seq<RunInput>) -> bool
    decreases inputs.len(),
{
    inputs.len() == 0 || {
        &&& unused_slots(start, inputs.drop_last())
        &&& match (run(start, inputs.drop_last()), inputs.last().input) {
            (Next::Running(view, _), StreamInputView::Slots(slots)) => distinct_slots(slots)
                && unused_from(view.calls, slots, 0),
            _ => true,
        }
    }
}

/// Events that are not those of function calls say nothing of one.
proof fn lemma_other_events_are_silent(event: StreamEventView, index: usize)
    requires
        !is_call_event(event),
    ensures
        silent(seq![event], index),
{
    lemma_tell_one(event, index);
}

/// Throughout a stream the events say of the function calls what the response says: for each call
/// that they speak of, the argument pieces told so far, joined, are the arguments in the response,
/// and the call is announced once and told to be done once, or not at all. The events of the calls
/// come in order throughout.
pub proof fn law_streamed_calls_are_the_response_calls(
    request: ResponsesRequest,
    response_id: Seq<char>,
    created_at: i64,
    inputs: Seq<RunInput>,
)
    requires
        legal(opening(request, response_id, created_at), inputs),
        unused_slots(opening(request, response_id, created_at), inputs),
    ensures
        run(opening(request, response_id, created_at), inputs) matches Next::Running(view, _)
            ==> in_agreement(view) && consistent(
            view.calls,
            log(opening(request, response_id, created_at), inputs),
        ),
        in_order(log(opening(request, response_id, created_at), inputs)),
    decreases inputs.len(),
{
    let start = opening(request, response_id, created_at);
    if inputs.len() == 0 {
        let events = told_in(start);
        lemma_in_order_push(seq![], StreamEventView::Created);
        assert(events =~= Seq::<StreamEventView>::empty().push(StreamEventView::Created));
        let calls = StreamView::initial(request, response_id, created_at).calls;
        assert forall|index: usize| !uses(calls, index) implies #[trigger] silent(
            events,
            index,
        ) by {
            lemma_other_events_are_silent(StreamEventView::Created, index);
        }
    } else {
        let shorter = inputs.drop_last();
        law_streamed_calls_are_the_response_calls(request, response_id, created_at, shorter);
        if let Next::Running(view, _) = run(start, shorter) {
            let input = inputs.last().input;
            let fresh = inputs.last().fresh;
            law_steps_keep_the_agreement(view, input, fresh);
            let before = log(start, shorter);
            let next = view.step(input, fresh);
            let more = told_in(next);
            if more.len() == 0 {
                assert(before + more =~= before);
            }
            if let Next::Running(after, _) = next {
                if let StageView::Allocating { chunk, .. } = view.stage {
                    law_events_tell_the_calls(view.calls, before, chunk, input->Slots_0);
                } else {
                    assert(after.calls == view.calls);
                    if more.len() > 0 {
                        assert(more =~= seq![more[0]]);
                        lemma_in_order_push(before, more[0]);
                        assert(before + more =~= before.push(more[0]));
                        assert forall|index: usize| #[trigger] silent(more, index) by {
                            lemma_other_events_are_silent(more[0], index);
                        }
                        lemma_silence_keeps_consistency(view.calls, before, more);
                    }
                }
            }
        }
    }
}

/// Events that say nothing of function calls keep the consistency.
proof fn lemma_silence_keeps_consistency(
    calls: CallsView,
    events: Seq<StreamEventView>,
    more: Seq<StreamEventView>,
)
    requires
        consistent(calls, events),
        forall|index: usize| #[trigger] silent(more, index),
    ensures
        consistent(calls, events + more),
{
    assert forall|i: int| 0 <= i < calls.states.len() implies tell(
        events + more,
        #[trigger] calls.states[i],
    ) by {
        let index = calls.states[i].output_index;
        lemma_tell_concat(events, more, index);
        assert(silent(more, index));
        assert(streamed(events, index) + Seq::<char>::empty() =~= streamed(events, index));
    }
    assert forall|index: usize| !uses(calls, index) implies #[trigger] silent(
        events + more,
        index,
    ) by {
        lemma_tell_concat(events, more, index);
        assert(silent(more, index) && silent(events, index));
        assert(Seq::<char>::empty() + Seq::<char>::empty() =~= Seq::<char>::empty());
    }
}

/// The text that an input brings.
pub open spec fn text_of_input(input: StreamInputView) -> Seq<char> {
    match input {
        StreamInputView::Bytes(bytes) => lf_only(utf8_lossy(bytes)),
        _ => seq![],
    }
}

/// The text that several inputs bring, joined.
pub open spec fn text_of_inputs(inputs: Seq<StreamInputView>) -> Seq<char>
    decreases inputs.len(),
{
    if inputs.len() == 0 {
        seq![]
    } else {
        text_of_inputs(inputs.drop_last()) + text_of_input(inputs.last())
    }
}

/// Function calls without the identifiers of their items.
pub open spec fn without_ids(calls: Seq<FunctionCallView>) -> Seq<FunctionCallView> {
    calls.map_values(|call: FunctionCallView| FunctionCallView { id: seq![], ..call })
}

/// What is accumulated, without the identifiers of the function call items, which are fresh.
pub open spec fn impersonal(view: AccumulatorView) -> AccumulatorView {
    AccumulatorView { tool_calls: without_ids(view.tool_calls), ..view }
}

/// Empty identifiers, as many as a chunk opens function calls.
pub open spec fn no_ids(view: AccumulatorView, chunk: ChatChunkView) -> Seq<Seq<char>> {
    Seq::new(view.opened_by(chunk), |i: int| Seq::<char>::empty())
}

/// What a whole body comes to.
pub struct Digest {
    pub response: AccumulatorView,
    /// Whether the upstream reported an error.
    pub failed: bool,
}

/// What a record adds.
pub open spec fn digest_record(response: AccumulatorView, record: SseRecordView) -> Digest {
    match record {
        SseRecordView::ChatChunk(outside) => Digest {
            response: response.after(
                chunk_content(outside),
                no_ids(response, chunk_content(outside)),
            ),
            failed: false,
        },
        SseRecordView::RawJson(json) => Digest {
            response,
            failed: raw_outcome(json) == SseRecordOutcome::UpstreamError,
        },
        SseRecordView::Done => Digest { response, failed: false },
    }
}

/// What the text adds that the end of the body left.
pub open spec fn digest_end(response: AccumulatorView, text: Seq<char>) -> Digest {
    match last_data(text).record {
        Some(record) => digest_record(response, record_of(record)),
        None => Digest { response, failed: false },
    }
}

/// What a whole text adds: its records up to an upstream error, the record that ends the stream or
/// its end. What follows the record that ends the stream counts as left by the end of the body.
pub open spec fn digest(response: AccumulatorView, text: Seq<char>) -> Digest
    decreases text.len(),
{
    proof {
        lemma_next_data_shrinks(text);
    }
    let pull = next_data(text);
    match pull.record {
        Some(RecordText::Done) => digest_end(response, pull.rest),
        Some(record) => {
            let next = digest_record(response, record_of(record));
            if next.failed {
                next
            } else {
                digest(next.response, pull.rest)
            }
        },
        None => digest_end(response, pull.rest),
    }
}

/// What a stream comes to once the text in `tail` follows what it has read.
pub open spec fn outlook(view: StreamView, tail: Seq<char>) -> Digest {
    let response = impersonal(view.response);
    match view.stage {
        StageView::Sending { outcome: SseRecordOutcome::UpstreamError, .. } => Digest {
            response,
            failed: true,
        },
        StageView::Sending { last: true, .. }
        | StageView::Allocating { last: true, .. }
        | StageView::Completing => Digest { response, failed: false },
        _ => digest(response, view.unread + tail),
    }
}

/// The stream reads no more from the body.
pub open spec fn past_the_end(next: Next) -> bool {
    match next {
        Next::Running(view, _) => match view.stage {
            StageView::Sending { outcome: SseRecordOutcome::UpstreamError, .. } => true,
            StageView::Sending { last, .. } => last,
            StageView::Allocating { last, .. } => last,
            StageView::Completing => true,
            _ => false,
        },
        _ => true,
    }
}

/// A stream that waits for more of the body has read all complete records.
pub open spec fn settled(view: StreamView) -> bool {
    match view.stage {
        StageView::Reading
        | StageView::SendingCreated
        | StageView::SendingInProgress => next_data(view.unread) == (Pull {
            record: None,
            rest: view.unread,
        }),
        _ => true,
    }
}

/// Identifiers play no part in how function calls grow.
proof fn lemma_calls_grow_without_ids(
    calls: Seq<FunctionCallView>,
    deltas: Seq<ToolCallDeltaView>,
)
    requires
        forall|j: int| 0 <= j < deltas.len() ==> (#[trigger] deltas[j]).index < calls.len(),
    ensures
        without_ids(extended_calls(calls, deltas)) == extended_calls(without_ids(calls), deltas),
{
    let bare = without_ids(calls);
    lemma_extended_calls(calls, deltas);
    assert(bare.len() == calls.len());
    lemma_extended_calls(bare, deltas);
    let a = without_ids(extended_calls(calls, deltas));
    let b = extended_calls(bare, deltas);
    assert forall|i: int| 0 <= i < calls.len() implies a[i] == b[i] by {
        assert(a[i].name == extended_calls(calls, deltas)[i].name);
        assert(bare[i].name == calls[i].name);
    }
    assert(a =~= b);
}

/// Identifiers play no part in what a chunk adds.
proof fn lemma_chunks_add_without_ids(
    view: AccumulatorView,
    chunk: ChatChunkView,
    fresh: Seq<Seq<char>>,
)
    requires
        fresh.len() == view.opened_by(chunk),
    ensures
        impersonal(view.after(chunk, fresh)) == impersonal(view).after(
            chunk,
            no_ids(impersonal(view), chunk),
        ),
{
    let bare = impersonal(view);
    assert(bare.tool_calls.len() == view.tool_calls.len());
    let blanks = fresh.map_values(|id: Seq<char>| blank_call(id));
    let bare_blanks = no_ids(bare, chunk).map_values(|id: Seq<char>| blank_call(id));
    let calls = view.tool_calls + blanks;
    if chunk.choices.len() > 0 {
        lemma_calls_needed(view.tool_calls.len(), chunk.deltas());
        assert(without_ids(calls) =~= bare.tool_calls + bare_blanks);
        lemma_calls_grow_without_ids(calls, chunk.deltas());
    }
}

/// Text that follows is read with what a part left that holds no complete record.
proof fn lemma_digest_goes_on(response: AccumulatorView, unread: Seq<char>, tail: Seq<char>)
    ensures
        ({
            let pull = next_data(unread);
            match pull.record {
                None => digest(response, unread + tail) == digest(response, pull.rest + tail),
                Some(RecordText::Done) => tail.len() == 0 ==> digest(response, unread + tail)
                    == digest_end(response, pull.rest),
                Some(text) => {
                    let next = digest_record(response, record_of(text));
                    digest(response, unread + tail) == if next.failed {
                        next
                    } else {
                        digest(next.response, pull.rest + tail)
                    }
                },
            }
        }),
{
    lemma_next_data_concat(unread, tail);
    let pull = next_data(unread);
    if tail.len() == 0 {
        assert(unread + tail =~= unread);
        assert(pull.rest + tail =~= pull.rest);
    }
    if pull.record is None {
        lemma_next_data_shrinks(unread);
        assert(next_data(unread + tail) == next_data(pull.rest + tail));
    }
}

/// A step changes nothing of what a stream comes to. The text that it brings moves from what is to
/// come to what was read, and no text is left once the stream reads no more.
proof fn lemma_step_keeps_outlook(
    view: StreamView,
    input: StreamInputView,
    fresh: Seq<Seq<char>>,
    tail: Seq<char>,
)
    requires
        settled(view),
        view.expects(input),
        view.fits(input, fresh),
        past_the_end(view.step(input, fresh)) ==> tail.len() == 0,
    ensures
        ({
            let all = outlook(view, text_of_input(input) + tail);
            match view.step(input, fresh) {
                Next::Running(next, _) => settled(next) && outlook(next, tail) == all,
                Next::Finished { draft, persist, .. } => {
                    &&& persist == !all.failed
                    &&& impersonal(view.response) == all.response
                    &&& draft == view.response.draft(
                        if all.failed {
                            ResponseStatus::Failed
                        } else {
                            view.response.status()
                        },
                    )
                },
                Next::Failed(_) => true,
            }
        }),
{
    let brought = text_of_input(input);
    let bare = impersonal(view.response);
    if let Some(reading) = view.reading(input) {
        let unread = view.unread + brought;
        if input is Bytes {
            assert(view.unread + (brought + tail) =~= unread + tail);
        } else {
            assert(unread =~= view.unread);
            assert(brought + tail =~= tail);
        }
        if let Reading::Record { record: SseRecordView::ChatChunk(outside), .. } = reading {
            lemma_chunks_add_without_ids(view.response, chunk_content(outside), fresh);
        }
        if input is BodyEnd {
            assert(tail.len() == 0);
            assert(unread + tail =~= unread);
        } else {
            lemma_digest_goes_on(bare, unread, tail);
            if next_data(unread).record is None {
                lemma_left_text_holds_no_record(unread);
            }
        }
        assert(outlook(view, brought + tail) == digest(bare, unread + tail));
    } else {
        assert(brought + tail =~= tail);
    }
}

/// The inputs of a run without the identifiers.
pub open spec fn inputs_of(inputs: Seq<RunInput>) -> Seq<StreamInputView> {
    inputs.map_values(|input: RunInput| input.input)
}

/// A run keeps what the stream comes to once the text in `tail` follows.
proof fn lemma_run_keeps_outlook(
    request: ResponsesRequest,
    response_id: Seq<char>,
    created_at: i64,
    inputs: Seq<RunInput>,
    tail: Seq<char>,
)
    requires
        legal(opening(request, response_id, created_at), inputs),
        past_the_end(run(opening(request, response_id, created_at), inputs)) ==> tail.len() == 0,
    ensures
        ({
            let start = StreamView::initial(request, response_id, created_at).response;
            let all = digest(start, text_of_inputs(inputs_of(inputs)) + tail);
            match run(opening(request, response_id, created_at), inputs) {
                Next::Running(view, _) => settled(view) && outlook(view, tail) == all,
                Next::Finished { draft, persist, .. } => comes_to(draft, persist, all),
                Next::Failed(_) => true,
            }
        }),
    decreases inputs.len(),
{
    let opened = opening(request, response_id, created_at);
    let first = StreamView::initial(request, response_id, created_at);
    if inputs.len() == 0 {
        assert(without_ids(first.response.tool_calls) =~= first.response.tool_calls);
        assert(text_of_inputs(inputs_of(inputs)) + tail =~= tail);
        assert(first.unread + tail =~= tail);
    } else {
        let shorter = inputs.drop_last();
        let input = inputs.last().input;
        let brought = text_of_input(input);
        assert(inputs_of(inputs).drop_last() =~= inputs_of(shorter));
        assert(inputs_of(inputs).last() == input);
        if past_the_end(run(opened, shorter)) {
            assert(brought + tail =~= seq![]);
        }
        lemma_run_keeps_outlook(request, response_id, created_at, shorter, brought + tail);
        assert(text_of_inputs(inputs_of(shorter)) + (brought + tail) =~= text_of_inputs(
            inputs_of(inputs),
        ) + tail);
        if let Next::Running(view, _) = run(opened, shorter) {
            lemma_step_keeps_outlook(view, input, inputs.last().fresh, tail);
            if let Next::Finished { draft, persist, .. } = run(opened, inputs) {
                assert(impersonal(view.response) == outlook(view, brought + tail).response);
            }
        }
    }
}

/// A draft says what a digest says, and is to be persisted unless the upstream failed.
pub open spec fn comes_to(draft: DraftView, persist: bool, digest: Digest) -> bool {
    &&& persist == !digest.failed
    &&& exists|response: AccumulatorView|
        #[trigger] impersonal(response) == digest.response && draft == response.draft(
            if digest.failed {
                ResponseStatus::Failed
            } else {
                response.status()
            },
        )
}

/// The response of a stream depends on the text that was read alone, but for the identifiers of
/// its function call items: it is what the whole text digests to, however the body was cut into
/// pieces. It is persisted unless the text reports an upstream error.
pub proof fn law_response_depends_on_the_text_alone(
    request: ResponsesRequest,
    response_id: Seq<char>,
    created_at: i64,
    inputs: Seq<RunInput>,
)
    requires
        legal(opening(request, response_id, created_at), inputs),
    ensures
        run(opening(request, response_id, created_at), inputs) matches Next::Finished {
            draft,
            persist,
            ..
        } ==> comes_to(
            draft,
            persist,
            digest(
                StreamView::initial(request, response_id, created_at).response,
                text_of_inputs(inputs_of(inputs)),
            ),
        ),
{
    lemma_run_keeps_outlook(request, response_id, created_at, inputs, seq![]);
    assert(text_of_inputs(inputs_of(inputs)) + Seq::<char>::empty() =~= text_of_inputs(
        inputs_of(inputs),
    ));
}

} // verus!
