//! What holds of the steps of a stream and of a chat stream, in terms of the text of the body.
use crate::accumulator_laws::counted_reasoning;
use crate::chat::{chunk_content, chunk_decoded, ChatChunkView, ToolCallDeltaView};
use crate::chat_stream::{chat_went, ChatNext, ChatProgress, ChatStageView, ChatStreamView};
use crate::completion::ChatAccumulatorView;
use crate::events::{SlotView, StreamEventView, UsageReport};
use crate::function_calls::slots_needed;
use crate::json::{json_of_text, JsonView};
use crate::responses::{response_content, ResponseStatus};
use crate::sse::{last_data, utf8_lossy};
use crate::sse_laws::{
    is_blank, is_one_record, is_tight, law_data_records_are_read,
    law_other_records_are_passed_over, law_the_end_is_read,
    law_trimming_takes_white_space_off_the_ends, law_unfinished_records_wait,
};
use crate::stream::{
    went, Next, SseRecordOutcome, StageView, StreamActionView, StreamInputView, StreamProgress,
    StreamView,
};
use crate::stream_laws::opening;
use crate::text::{lf_only, trim};
use openai_protocol::responses::ResponsesRequest;
use vstd::prelude::*;

verus! {

/// The text that a stream has to read in a step, where the step reads.
pub open spec fn text_at_hand(view: StreamView, input: StreamInputView) -> Option<Seq<char>> {
    match (view.stage, input) {
        (StageView::Reading, StreamInputView::Bytes(bytes)) => Some(
            view.unread + lf_only(utf8_lossy(bytes)),
        ),
        (
            StageView::Sending { outcome: SseRecordOutcome::Continue, last: false },
            StreamInputView::Delivered,
        ) => Some(view.unread),
        _ => None,
    }
}

/// The pieces of tool calls that the first choice of a chunk carries.
pub open spec fn calls_in(chunk: ChatChunkView) -> Seq<ToolCallDeltaView> {
    if chunk.choices.len() > 0 && chunk.choices[0].tool_calls is Some {
        chunk.choices[0].tool_calls->0
    } else {
        seq![]
    }
}

/// A payload is taken in. A chunk is accumulated and, unless there are function calls to tell of,
/// handed on to the emitter as it came. Any other payload is handed on as it came, without
/// accumulating anything, and ends the stream where it is an object with a member `error`.
pub open spec fn takes_in(
    view: StreamView,
    next: Next,
    payload: Seq<char>,
    rest: Seq<char>,
    last: bool,
    fresh: Seq<Seq<char>>,
) -> bool {
    next matches Next::Running(after, action) && after.unread == rest && after.calls == view.calls
        && match chunk_decoded(payload) {
        Some(outside) => {
            &&& after.response == view.response.after(chunk_content(outside), fresh)
            &&& if calls_in(chunk_content(outside)).len() == 0 && view.calls.keys.len() == 0 {
                &&& action == StreamActionView::Deliver(seq![StreamEventView::Chunk(outside)])
                &&& after.stage == (StageView::Sending {
                    outcome: SseRecordOutcome::Continue,
                    last,
                })
            } else {
                &&& action == StreamActionView::Allocate(
                    slots_needed(view.calls.keys, calls_in(chunk_content(outside))),
                )
                &&& after.stage == (StageView::Allocating { chunk: chunk_content(outside), last })
            }
        },
        None => {
            let is_error = json_of_text(payload) matches Some(JsonView::Object(members))
                && members.contains_key("error"@);
            &&& after.response == view.response
            &&& action == StreamActionView::Deliver(seq![StreamEventView::RawJson(payload)])
            &&& after.stage == (StageView::Sending {
                outcome: if is_error {
                    SseRecordOutcome::UpstreamError
                } else {
                    SseRecordOutcome::Continue
                },
                last,
            })
        },
    }
}

/// The completion is told: with the status of the response and the counts of its usage, and with
/// no reason why it would be incomplete.
pub open spec fn tells_completion(view: StreamView, next: Next) -> bool {
    next matches Next::Running(after, StreamActionView::Deliver(events)) && after.response
        == view.response && after.calls == view.calls && after.stage is Completing && events.len()
        == 1 && match events[0] {
        StreamEventView::Completed { status, usage, incomplete_reason } => {
            &&& status == Some(view.response.status())
            &&& incomplete_reason is None
            &&& match view.response.usage {
                Some(counts) => usage == Some(
                    UsageReport {
                        input_tokens: counts.prompt_tokens,
                        output_tokens: counts.completion_tokens,
                        total_tokens: counts.total_tokens,
                        reasoning_tokens: counted_reasoning(counts),
                    },
                ),
                None => usage is None,
            }
        },
        _ => false,
    }
}

/// A record with data is taken in as soon as it is complete, and what follows it stays unread.
pub proof fn law_records_are_taken_in(
    view: StreamView,
    input: StreamInputView,
    fresh: Seq<Seq<char>>,
    payload: Seq<char>,
    rest: Seq<char>,
)
    requires
        text_at_hand(view, input) == Some("data: "@ + payload + seq!['\n', '\n'] + rest),
        payload.len() > 0,
        is_tight(payload),
        is_one_record(payload),
        payload != "[DONE]"@,
    ensures
        takes_in(view, view.step(input, fresh), payload, rest, false, fresh),
{
    law_data_records_are_read(payload, rest);
}

/// A record without data changes nothing: the step is the one that would come without it.
pub proof fn law_records_without_data_change_nothing(
    view: StreamView,
    fresh: Seq<Seq<char>>,
    record: Seq<char>,
    rest: Seq<char>,
)
    requires
        view.stage == (StageView::Sending { outcome: SseRecordOutcome::Continue, last: false }),
        is_one_record(record),
        trim(record).len() < 6 || trim(record).take(6) != "data: "@,
        view.unread == record + seq!['\n', '\n'] + rest,
    ensures
        view.step(StreamInputView::Delivered, fresh) == (StreamView { unread: rest, ..view }).step(
            StreamInputView::Delivered,
            fresh,
        ),
{
    law_other_records_are_passed_over(record, rest);
}

/// As long as no record is complete, more of the body is read, and nothing is lost.
pub proof fn law_more_is_read_for_a_record(
    view: StreamView,
    input: StreamInputView,
    fresh: Seq<Seq<char>>,
)
    requires
        text_at_hand(view, input) is Some,
        forall|i: int|
            0 <= i < text_at_hand(view, input)->0.len() - 1 ==> !(#[trigger] text_at_hand(
                view,
                input,
            )->0[i] == '\n' && text_at_hand(view, input)->0[i + 1] == '\n'),
    ensures
        view.step(input, fresh) == Next::Running(
            StreamView {
                stage: StageView::Reading,
                unread: text_at_hand(view, input)->0,
                ..view
            },
            StreamActionView::ReadBody,
        ),
{
    law_unfinished_records_wait(text_at_hand(view, input)->0);
}

/// The record that ends a stream does what the end of the body would do in its place.
pub proof fn law_done_ends_the_body(
    view: StreamView,
    input: StreamInputView,
    fresh: Seq<Seq<char>>,
    rest: Seq<char>,
)
    requires
        text_at_hand(view, input) == Some("data: [DONE]"@ + seq!['\n', '\n'] + rest),
    ensures
        view.step(input, fresh) == (StreamView {
            stage: StageView::Reading,
            unread: rest,
            ..view
        }).step(StreamInputView::BodyEnd, fresh),
{
    law_the_end_is_read(rest);
}

/// Where the body ends, data without an end of its record is taken in as the last record.
pub proof fn law_the_last_record_is_taken_in(
    view: StreamView,
    fresh: Seq<Seq<char>>,
    payload: Seq<char>,
)
    requires
        view.stage is Reading,
        view.unread == "data: "@ + payload,
        payload.len() > 0,
        is_tight(payload),
        is_one_record(payload),
        payload != "[DONE]"@,
    ensures
        takes_in(
            view,
            view.step(StreamInputView::BodyEnd, fresh),
            payload,
            seq![],
            true,
            fresh,
        ),
{
    law_data_records_are_read(payload, seq![]);
    assert(last_data(view.unread).rest =~= seq![]);
}

/// Where the body ends and nothing but white space or the end of the stream is left, the completion
/// is told.
pub proof fn law_the_end_of_the_body_completes(view: StreamView, fresh: Seq<Seq<char>>)
    requires
        view.stage is Reading,
        is_blank(view.unread) || view.unread == "data: [DONE]"@,
    ensures
        tells_completion(view, view.step(StreamInputView::BodyEnd, fresh)),
{
    if is_blank(view.unread) {
        lemma_blank_holds_no_record(view.unread);
    } else {
        law_the_end_is_read(seq![]);
    }
}

/// White space holds no record.
proof fn lemma_blank_holds_no_record(s: Seq<char>)
    requires
        is_blank(s),
    ensures
        last_data(s).record is None,
{
    law_trimming_takes_white_space_off_the_ends(s);
    let (head, tail) = choose|head: Seq<char>, tail: Seq<char>| #[trigger]
        is_blank(head) && #[trigger] is_blank(tail) && s == head + trim(s) + tail;
    if trim(s).len() > 0 {
        assert(s[head.len() as int] == trim(s)[0]);
    }
    reveal_strlit("data: [DONE]");
    reveal_strlit("data: ");
    assert(trim(s).len() == 0);
}

/// What was sent decides on how a stream goes on: behind `response.created` comes
/// `response.in_progress` and behind that the body; behind an upstream error comes the end, with a
/// failed response that is not persisted; behind the last record comes the completion, and behind
/// the completion the end, with a response that bears the status told and is persisted.
pub proof fn law_streams_go_on_as_they_should(view: StreamView, fresh: Seq<Seq<char>>)
    ensures
        ({
            let next = view.step(StreamInputView::Delivered, fresh);
            match view.stage {
                StageView::SendingCreated => next == Next::Running(
                    StreamView { stage: StageView::SendingInProgress, ..view },
                    StreamActionView::Deliver(seq![StreamEventView::InProgress]),
                ),
                StageView::SendingInProgress => next == Next::Running(
                    StreamView { stage: StageView::Reading, ..view },
                    StreamActionView::ReadBody,
                ),
                StageView::Sending { outcome: SseRecordOutcome::UpstreamError, .. } => next == (
                Next::Finished {
                    draft: view.response.draft(ResponseStatus::Failed),
                    request: view.response.original_request,
                    persist: false,
                }),
                StageView::Sending { outcome: SseRecordOutcome::Continue, last: true } =>
                    tells_completion(view, next),
                StageView::Completing => next == (Next::Finished {
                    draft: view.response.draft(view.response.status()),
                    request: view.response.original_request,
                    persist: true,
                }),
                _ => true,
            }
        }),
{
}

/// A stream fails where an event cannot be sent or the body cannot be read, and nowhere else. The
/// error says which of the first two events could not be sent, that the body could not be read, or
/// why any other event could not be sent.
pub proof fn law_streams_fail_with_the_reason(
    view: StreamView,
    input: StreamInputView,
    fresh: Seq<Seq<char>>,
)
    requires
        view.expects(input),
    ensures
        match input {
            StreamInputView::DeliveryFailed(reason) => view.step(input, fresh) == Next::Failed(
                if view.stage is SendingCreated {
                    "Failed to send response.created event"@
                } else if view.stage is SendingInProgress {
                    "Failed to send response.in_progress event"@
                } else {
                    reason
                },
            ),
            StreamInputView::BodyFailed(reason) => view.step(input, fresh) == Next::Failed(
                "Stream read error: "@ + reason,
            ),
            _ => !(view.step(input, fresh) is Failed),
        },
{
}

/// The slots that a stream asked for are given to the calls of the chunk, whose events are told;
/// what was accumulated stays as it is.
pub proof fn law_slots_let_the_calls_be_told(
    view: StreamView,
    slots: Seq<SlotView>,
    fresh: Seq<Seq<char>>,
)
    requires
        view.stage is Allocating,
    ensures
        view.step(StreamInputView::Slots(slots), fresh) matches Next::Running(
            after,
            StreamActionView::Deliver(events),
        ) && events == view.calls.told_chunk(view.stage->Allocating_chunk, slots).events
            && after.calls == view.calls.told_chunk(view.stage->Allocating_chunk, slots).calls
            && after.response == view.response && after.unread == view.unread && after.stage == (
        StageView::Sending {
            outcome: SseRecordOutcome::Continue,
            last: view.stage->Allocating_last,
        }),
{
}

/// The text that a chat stream has to read in a step, where the step reads on.
pub open spec fn chat_text_at_hand(view: ChatStreamView, input: StreamInputView) -> Option<
    Seq<char>,
> {
    match (view.stage, input) {
        (ChatStageView::Reading, StreamInputView::Bytes(bytes)) => Some(
            view.unread + lf_only(utf8_lossy(bytes)),
        ),
        (ChatStageView::Sending { last: false, .. }, StreamInputView::Delivered) => Some(
            view.unread,
        ),
        _ => None,
    }
}

/// What a chat stream has accumulated by the end of a step: a chunk counts once it was shown.
pub open spec fn accumulated(view: ChatStreamView) -> ChatAccumulatorView {
    match view.stage {
        ChatStageView::Sending { chunk, .. } => view.completion.after(chunk),
        ChatStageView::Reading => view.completion,
    }
}

/// A chunk of a chat stream is shown as it came, and waits to be accumulated until it was.
pub proof fn law_chat_chunks_are_shown(
    view: ChatStreamView,
    input: StreamInputView,
    payload: Seq<char>,
    rest: Seq<char>,
)
    requires
        chat_text_at_hand(view, input) == Some("data: "@ + payload + seq!['\n', '\n'] + rest),
        payload.len() > 0,
        is_tight(payload),
        is_one_record(payload),
        payload != "[DONE]"@,
        chunk_decoded(payload) is Some,
    ensures
        view.step(input) == ChatNext::Running(
            ChatStreamView {
                stage: ChatStageView::Sending {
                    chunk: chunk_content(chunk_decoded(payload)->0),
                    last: false,
                },
                unread: rest,
                completion: accumulated(view),
            },
            StreamActionView::Deliver(
                seq![StreamEventView::Chunk(chunk_decoded(payload)->0)],
            ),
        ),
{
    law_data_records_are_read(payload, rest);
}

/// Any other payload of a chat stream changes nothing: the step is the one that would come without
/// it.
pub proof fn law_other_payloads_change_no_chat(
    view: ChatStreamView,
    payload: Seq<char>,
    rest: Seq<char>,
)
    requires
        view.stage matches ChatStageView::Sending { last, .. } && !last,
        view.unread == "data: "@ + payload + seq!['\n', '\n'] + rest,
        payload.len() > 0,
        is_tight(payload),
        is_one_record(payload),
        payload != "[DONE]"@,
        chunk_decoded(payload) is None,
    ensures
        view.step(StreamInputView::Delivered) == (ChatStreamView { unread: rest, ..view }).step(
            StreamInputView::Delivered,
        ),
{
    law_data_records_are_read(payload, rest);
}

/// A chat stream ends where the record comes that ends it, with what was accumulated.
pub proof fn law_done_ends_the_chat(
    view: ChatStreamView,
    input: StreamInputView,
    rest: Seq<char>,
)
    requires
        chat_text_at_hand(view, input) == Some("data: [DONE]"@ + seq!['\n', '\n'] + rest),
    ensures
        view.step(input) == ChatNext::Finished(accumulated(view).completion()),
{
    law_the_end_is_read(rest);
}

/// A chat stream ends where its body ends with nothing but white space left, and behind its last
/// chunk, with what was accumulated.
pub proof fn law_the_end_of_the_body_ends_the_chat(view: ChatStreamView)
    ensures
        view.stage is Sending && view.stage->last ==> view.step(StreamInputView::Delivered)
            == ChatNext::Finished(accumulated(view).completion()),
        view.stage is Reading && is_blank(view.unread) ==> view.step(StreamInputView::BodyEnd)
            == ChatNext::Finished(view.completion.completion()),
{
    if is_blank(view.unread) {
        lemma_blank_holds_no_record(view.unread);
    }
}

/// Where the body of a chat stream ends, a chunk without an end of its record is shown as the last.
/// Any other payload ends the stream.
pub proof fn law_the_last_chunk_is_shown(view: ChatStreamView, payload: Seq<char>)
    requires
        view.stage is Reading,
        view.unread == "data: "@ + payload,
        payload.len() > 0,
        is_tight(payload),
        is_one_record(payload),
        payload != "[DONE]"@,
    ensures
        match chunk_decoded(payload) {
            Some(chunk) => view.step(StreamInputView::BodyEnd) matches ChatNext::Running(
                after,
                action,
            ) && after.stage == (ChatStageView::Sending {
                chunk: chunk_content(chunk),
                last: true,
            }) && after.completion == view.completion && action == StreamActionView::Deliver(
                seq![StreamEventView::Chunk(chunk)],
            ),
            None => view.step(StreamInputView::BodyEnd) == ChatNext::Finished(
                view.completion.completion(),
            ),
        },
{
    law_data_records_are_read(payload, seq![]);
}

/// A chat stream fails where a chunk cannot be shown or the body cannot be read, and nowhere else.
pub proof fn law_chats_fail_with_the_reason(view: ChatStreamView, input: StreamInputView)
    requires
        view.expects(input),
    ensures
        match input {
            StreamInputView::DeliveryFailed(reason) => view.step(input) == ChatNext::Failed(reason),
            StreamInputView::BodyFailed(reason) => view.step(input) == ChatNext::Failed(
                "Stream read error: "@ + reason,
            ),
            _ => !(view.step(input) is Failed),
        },
{
}

/// A step of a stream goes as it is described: the state and the action, the response and whether
/// it is persisted, or the error are those that the description names.
pub proof fn law_stream_steps_go_as_described(progress: StreamProgress, next: Next)
    requires
        went(progress, next),
    ensures
        match (progress, next) {
            (StreamProgress::Running(stream, action), Next::Running(view, wanted)) => stream@
                == view && action.deep_view() == wanted,
            (
                StreamProgress::Finished { response, persist },
                Next::Finished { draft, persist: wanted, .. },
            ) => response_content(response).draft == draft && response_content(response).error
                is None && response_content(response).incomplete_details is None && persist
                == wanted,
            (StreamProgress::Failed(error), Next::Failed(wanted)) => error@ == wanted,
            _ => false,
        },
{
}

/// A step of a chat stream goes as it is described.
pub proof fn law_chat_steps_go_as_described(progress: ChatProgress, next: ChatNext)
    requires
        chat_went(progress, next),
    ensures
        match (progress, next) {
            (ChatProgress::Running(stream, action), ChatNext::Running(view, wanted)) => stream@
                == view && action.deep_view() == wanted,
            (ChatProgress::Finished(completion), ChatNext::Finished(wanted)) =>
                completion.deep_view() == wanted,
            (ChatProgress::Failed(error), ChatNext::Failed(wanted)) => error@ == wanted,
            _ => false,
        },
{
}

/// What can come of an action: events are sent or not, the body gives bytes, ends or fails, and
/// there are as many slots as were asked for.
pub open spec fn may_come_of(action: StreamActionView, input: StreamInputView) -> bool {
    match action {
        StreamActionView::Deliver(_) => input is Delivered || input is DeliveryFailed,
        StreamActionView::ReadBody => input is Bytes || input is BodyEnd || input is BodyFailed,
        StreamActionView::Allocate(n) => input is Slots && input->Slots_0.len() == n,
    }
}

/// A stream waits for what can come of its action, all of it and nothing else.
pub proof fn law_streams_wait_for_what_they_asked(
    view: StreamView,
    input: StreamInputView,
    fresh: Seq<Seq<char>>,
    other: StreamInputView,
)
    requires
        view.expects(input),
    ensures
        view.step(input, fresh) matches Next::Running(next, action) ==> (next.expects(other)
            <==> may_come_of(action, other)),
{
}

/// A stream that starts tells of `response.created` and waits for that to be sent, with nothing
/// read, accumulated or told of function calls.
pub proof fn law_streams_start_with_nothing(
    request: ResponsesRequest,
    response_id: Seq<char>,
    created_at: i64,
    other: StreamInputView,
)
    ensures
        opening(request, response_id, created_at) matches Next::Running(view, action) && action
            == StreamActionView::Deliver(seq![StreamEventView::Created]) && (view.expects(other)
            <==> may_come_of(action, other)) && view.unread.len() == 0 && view.calls.keys.len()
            == 0 && view.calls.states.len() == 0 && view.response.content.len() == 0
            && view.response.reasoning.len() == 0 && view.response.tool_calls.len() == 0
            && view.response.finish_reason is None && view.response.usage is None,
{
}

/// A chat stream waits for what can come of its action, all of it and nothing else.
pub proof fn law_chats_wait_for_what_they_asked(
    view: ChatStreamView,
    input: StreamInputView,
    other: StreamInputView,
)
    requires
        view.expects(input),
    ensures
        view.step(input) matches ChatNext::Running(next, action) ==> (next.expects(other)
            <==> may_come_of(action, other)),
        ChatStreamView::initial().expects(other) <==> may_come_of(
            StreamActionView::ReadBody,
            other,
        ),
        ChatStreamView::initial().unread.len() == 0,
        ChatStreamView::initial().completion == ChatAccumulatorView::empty(),
{
}

} // verus!
