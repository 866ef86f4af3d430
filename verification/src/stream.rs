//! A chat completion stream turned into a streamed response, without hosted tools.
//!
//! The stream is advanced step by step: whoever drives it performs the action of a step (sends
//! events, reads from the body, takes output slots from the emitter) and reports what came of it.
use crate::accumulator::{are_call_ids, AccumulatorView, StreamingResponseAccumulator};
use crate::chat::{chunk_content, read_chunk, ChatChunk, ChatChunkView};
use crate::events::{
    detailed_report_of, report_usage, OutputSlot, SlotView, StreamEvent, StreamEventView,
};
use crate::function_calls::{slots_needed, CallsView, FunctionCallEvents};
use crate::ids::{is_response_id, new_response_id, unix_seconds};
use crate::json::{is_upstream_error_payload, json_of_text, reports_error};
use crate::responses::{answers, read_request, request_content, DraftView, ResponseStatus};
use crate::sse::{
    last_data, next_data, record_of, utf8_lossy, RecordText, SseBodyParser, SseDataRecord,
    SseRecordView,
};
use crate::text::{join, lf_only};
use openai_protocol::chat::ChatCompletionStreamResponse;
use openai_protocol::responses::{ResponsesRequest, ResponsesResponse};
use vstd::prelude::*;

verus! {

/// What a record means for the stream.
#[derive(Clone, Copy, Debug, PartialEq, Eq, Structural)]
pub enum SseRecordOutcome {
    /// The stream goes on.
    Continue,
    /// The upstream failed, and its error was passed on.
    UpstreamError,
}

/// Where a stream stands: what it waits for.
pub enum Stage {
    /// That `response.created` is sent.
    SendingCreated,
    /// That `response.in_progress` is sent.
    SendingInProgress,
    /// More of the body.
    Reading,
    /// Output slots for the function calls that a chunk opens. `last` marks what the end of the
    /// body left.
    Allocating { chunk: ChatChunk, last: bool },
    /// That the events of a record are sent.
    Sending { outcome: SseRecordOutcome, last: bool },
    /// That `response.completed` is sent.
    Completing,
}

/// What a [`Stage`] says.
pub enum StageView {
    SendingCreated,
    SendingInProgress,
    Reading,
    Allocating { chunk: ChatChunkView, last: bool },
    Sending { outcome: SseRecordOutcome, last: bool },
    Completing,
}

impl DeepView for Stage {
    type V = StageView;

    open spec fn deep_view(&self) -> StageView {
        match self {
            Stage::SendingCreated => StageView::SendingCreated,
            Stage::SendingInProgress => StageView::SendingInProgress,
            Stage::Reading => StageView::Reading,
            Stage::Allocating { chunk, last } => StageView::Allocating {
                chunk: chunk.deep_view(),
                last: *last,
            },
            Stage::Sending { outcome, last } => StageView::Sending {
                outcome: *outcome,
                last: *last,
            },
            Stage::Completing => StageView::Completing,
        }
    }
}

/// What came of an action.
#[derive(Debug)]
pub enum StreamInput {
    /// All events were sent.
    Delivered,
    /// An event could not be sent, for the given reason, and those behind it were not tried.
    DeliveryFailed(String),
    /// Bytes of the body.
    Bytes(Vec<u8>),
    /// The body could not be read, for the given reason.
    BodyFailed(String),
    /// The end of the body.
    BodyEnd,
    /// The output slots that were asked for.
    Slots(Vec<OutputSlot>),
}

/// What a [`StreamInput`] says.
pub enum StreamInputView {
    Delivered,
    DeliveryFailed(Seq<char>),
    Bytes(Seq<u8>),
    BodyFailed(Seq<char>),
    BodyEnd,
    Slots(Seq<SlotView>),
}

impl DeepView for StreamInput {
    type V = StreamInputView;

    open spec fn deep_view(&self) -> StreamInputView {
        match self {
            StreamInput::Delivered => StreamInputView::Delivered,
            StreamInput::DeliveryFailed(reason) => StreamInputView::DeliveryFailed(reason@),
            StreamInput::Bytes(bytes) => StreamInputView::Bytes(bytes@),
            StreamInput::BodyFailed(reason) => StreamInputView::BodyFailed(reason@),
            StreamInput::BodyEnd => StreamInputView::BodyEnd,
            StreamInput::Slots(slots) => StreamInputView::Slots(slots.deep_view()),
        }
    }
}

/// What to do next.
#[derive(Debug)]
pub enum StreamAction {
    /// Send events in their order, up to the first that fails.
    Deliver(Vec<StreamEvent>),
    /// Read from the body.
    ReadBody,
    /// Take output slots for this many function calls.
    Allocate(usize),
}

/// What a [`StreamAction`] says.
pub enum StreamActionView {
    Deliver(Seq<StreamEventView>),
    ReadBody,
    Allocate(int),
}

impl DeepView for StreamAction {
    type V = StreamActionView;

    open spec fn deep_view(&self) -> StreamActionView {
        match self {
            StreamAction::Deliver(events) => StreamActionView::Deliver(events.deep_view()),
            StreamAction::ReadBody => StreamActionView::ReadBody,
            StreamAction::Allocate(n) => StreamActionView::Allocate(*n as int),
        }
    }
}

/// What is read from the body next.
pub enum Reading {
    /// There is no complete record.
    NeedMore { rest: Seq<char> },
    /// A record. `last` marks the one that the end of the body left.
    Record { record: SseRecordView, rest: Seq<char>, last: bool },
    /// There is nothing more.
    End { rest: Seq<char> },
}

/// What is read once the body has ended.
pub open spec fn read_end(unread: Seq<char>) -> Reading {
    let pull = last_data(unread);
    match pull.record {
        Some(text) => Reading::Record { record: record_of(text), rest: pull.rest, last: true },
        None => Reading::End { rest: pull.rest },
    }
}

/// What is read while the body goes on. The record that ends the stream counts as the end of the
/// body.
pub open spec fn read_on(unread: Seq<char>) -> Reading {
    let pull = next_data(unread);
    match pull.record {
        Some(RecordText::Done) => read_end(pull.rest),
        Some(text) => Reading::Record { record: record_of(text), rest: pull.rest, last: false },
        None => Reading::NeedMore { rest: pull.rest },
    }
}

/// What a [`NonMcpStream`] holds.
pub struct StreamView {
    pub stage: StageView,
    pub unread: Seq<char>,
    pub response: AccumulatorView,
    pub calls: CallsView,
}

/// What becomes of a stream in a step.
pub enum Next {
    /// It goes on, with the given action.
    Running(StreamView, StreamActionView),
    /// It ends with a response that answers the request, which is to be persisted or not.
    Finished { draft: DraftView, request: ResponsesRequest, persist: bool },
    /// It ends with an error.
    Failed(Seq<char>),
}

/// The outcome of a record that is passed on.
pub open spec fn raw_outcome(json: Seq<char>) -> SseRecordOutcome {
    if reports_error(json_of_text(json)) {
        SseRecordOutcome::UpstreamError
    } else {
        SseRecordOutcome::Continue
    }
}

impl StreamView {
    /// The stream as it starts.
    pub open spec fn initial(
        request: ResponsesRequest,
        response_id: Seq<char>,
        created_at: i64,
    ) -> StreamView {
        StreamView {
            stage: StageView::SendingCreated,
            unread: seq![],
            response: AccumulatorView {
                response_id,
                model: request_content(request).model,
                created_at,
                content: seq![],
                reasoning: seq![],
                tool_calls: seq![],
                finish_reason: None,
                usage: None,
                original_request: request,
            },
            calls: CallsView { keys: seq![], states: seq![] },
        }
    }

    /// The inputs that a stage waits for.
    pub open spec fn expects(self, input: StreamInputView) -> bool {
        match self.stage {
            StageView::Reading => {
                ||| input is Bytes
                ||| input is BodyFailed
                ||| input is BodyEnd
            },
            StageView::Allocating { chunk, .. } => match input {
                StreamInputView::Slots(slots) => slots.len() == slots_needed(
                    self.calls.keys,
                    chunk.deltas(),
                ),
                _ => false,
            },
            _ => input is Delivered || input is DeliveryFailed,
        }
    }

    /// The step that tells of the completion.
    pub open spec fn completed(self) -> Next {
        Next::Running(
            StreamView { stage: StageView::Completing, ..self },
            StreamActionView::Deliver(
                seq![
                    StreamEventView::Completed {
                        status: Some(self.response.status()),
                        usage: detailed_report_of(self.response.usage),
                        incomplete_reason: None,
                    },
                ],
            ),
        )
    }

    /// The step that a chunk causes. It is accumulated; its function calls are told where it has
    /// any or there were some before, and else the emitter is told of the chunk.
    pub open spec fn after_chunk(
        self,
        outside: ChatCompletionStreamResponse,
        last: bool,
        fresh: Seq<Seq<char>>,
    ) -> Next {
        let chunk = chunk_content(outside);
        let response = self.response.after(chunk, fresh);
        if chunk.deltas().len() > 0 || self.calls.keys.len() > 0 {
            Next::Running(
                StreamView { stage: StageView::Allocating { chunk, last }, response, ..self },
                StreamActionView::Allocate(slots_needed(self.calls.keys, chunk.deltas())),
            )
        } else {
            Next::Running(
                StreamView {
                    stage: StageView::Sending { outcome: SseRecordOutcome::Continue, last },
                    response,
                    ..self
                },
                StreamActionView::Deliver(seq![StreamEventView::Chunk(outside)]),
            )
        }
    }

    /// The step that any other payload causes: it is passed on.
    pub open spec fn after_raw(self, json: Seq<char>, last: bool) -> Next {
        Next::Running(
            StreamView { stage: StageView::Sending { outcome: raw_outcome(json), last }, ..self },
            StreamActionView::Deliver(seq![StreamEventView::RawJson(json)]),
        )
    }

    /// The step that the end of the body causes: what it left is taken in as the last record.
    pub open spec fn after_end(self, fresh: Seq<Seq<char>>) -> Next {
        let pull = last_data(self.unread);
        let left = StreamView { unread: pull.rest, ..self };
        match pull.record {
            Some(text) => match record_of(text) {
                SseRecordView::ChatChunk(outside) => left.after_chunk(outside, true, fresh),
                SseRecordView::RawJson(json) => left.after_raw(json, true),
                SseRecordView::Done => left.completed(),
            },
            None => left.completed(),
        }
    }

    /// The step that a record causes. The record that ends the stream ends the body with it; as
    /// the last record it has nothing more to end.
    pub open spec fn after_record(
        self,
        record: SseRecordView,
        last: bool,
        fresh: Seq<Seq<char>>,
    ) -> Next {
        match record {
            SseRecordView::ChatChunk(outside) => self.after_chunk(outside, last, fresh),
            SseRecordView::RawJson(json) => self.after_raw(json, last),
            SseRecordView::Done => if last {
                self.completed()
            } else {
                self.after_end(fresh)
            },
        }
    }

    /// The step that reading causes.
    pub open spec fn after_reading(self, reading: Reading, fresh: Seq<Seq<char>>) -> Next {
        match reading {
            Reading::NeedMore { rest } => Next::Running(
                StreamView { stage: StageView::Reading, unread: rest, ..self },
                StreamActionView::ReadBody,
            ),
            Reading::Record { record, rest, last } => StreamView {
                unread: rest,
                ..self
            }.after_record(record, last, fresh),
            Reading::End { rest } => StreamView { unread: rest, ..self }.completed(),
        }
    }

    /// What a step reads from the body, for the steps that read.
    pub open spec fn reading(self, input: StreamInputView) -> Option<Reading> {
        match (self.stage, input) {
            (StageView::Reading, StreamInputView::Bytes(bytes)) => Some(
                read_on(self.unread + lf_only(utf8_lossy(bytes))),
            ),
            (StageView::Reading, StreamInputView::BodyEnd) => Some(read_end(self.unread)),
            (
                StageView::Sending { outcome, last },
                StreamInputView::Delivered,
            ) => if outcome != SseRecordOutcome::UpstreamError && !last {
                Some(read_on(self.unread))
            } else {
                None
            },
            _ => None,
        }
    }

    /// `fresh` are identifiers for the function calls that the response gains in a step.
    pub open spec fn fits(self, input: StreamInputView, fresh: Seq<Seq<char>>) -> bool {
        are_call_ids(fresh) && match self.reading(input) {
            Some(reading) => self.suits(reading, fresh),
            None => fresh.len() == 0,
        }
    }

    /// As many identifiers as the response gains function calls from what is read.
    pub open spec fn suits(self, reading: Reading, fresh: Seq<Seq<char>>) -> bool {
        fresh.len() == match reading {
            Reading::Record { record: SseRecordView::ChatChunk(outside), .. } =>
                self.response.opened_by(chunk_content(outside)),
            _ => 0,
        }
    }

    /// The error of a stream whose events could not be sent.
    pub open spec fn delivery_error(self, reason: Seq<char>) -> Seq<char> {
        match self.stage {
            StageView::SendingCreated => "Failed to send response.created event"@,
            StageView::SendingInProgress => "Failed to send response.in_progress event"@,
            _ => reason,
        }
    }

    /// The step that an input causes, where the response gives the given identifiers to the
    /// function calls that it gains.
    pub open spec fn step(self, input: StreamInputView, fresh: Seq<Seq<char>>) -> Next {
        match self.reading(input) {
            Some(reading) => self.after_reading(reading, fresh),
            None => match input {
                StreamInputView::DeliveryFailed(reason) => Next::Failed(
                    self.delivery_error(reason),
                ),
                StreamInputView::BodyFailed(reason) => Next::Failed(
                    "Stream read error: "@ + reason,
                ),
                _ => self.advanced(input),
            },
        }
    }

    /// The step of a stage that neither reads nor fails.
    pub open spec fn advanced(self, input: StreamInputView) -> Next {
        match self.stage {
            StageView::SendingCreated => Next::Running(
                StreamView { stage: StageView::SendingInProgress, ..self },
                StreamActionView::Deliver(seq![StreamEventView::InProgress]),
            ),
            StageView::SendingInProgress => Next::Running(
                StreamView { stage: StageView::Reading, ..self },
                StreamActionView::ReadBody,
            ),
            StageView::Allocating { chunk, last } => {
                let told = self.calls.told_chunk(chunk, input->Slots_0);
                Next::Running(
                    StreamView {
                        stage: StageView::Sending { outcome: SseRecordOutcome::Continue, last },
                        calls: told.calls,
                        ..self
                    },
                    StreamActionView::Deliver(told.events),
                )
            },
            StageView::Sending { outcome, .. } => if outcome == SseRecordOutcome::UpstreamError {
                Next::Finished {
                    draft: self.response.draft(ResponseStatus::Failed),
                    request: self.response.original_request,
                    persist: false,
                }
            } else {
                self.completed()
            },
            _ => Next::Finished {
                draft: self.response.draft(self.response.status()),
                request: self.response.original_request,
                persist: true,
            },
        }
    }
}

/// A chat completion stream on its way to a response.
pub struct NonMcpStream {
    pub stage: Stage,
    pub parser: SseBodyParser,
    pub accumulator: StreamingResponseAccumulator,
    pub function_call_events: FunctionCallEvents,
}

impl View for NonMcpStream {
    type V = StreamView;

    open spec fn view(&self) -> StreamView {
        StreamView {
            stage: self.stage.deep_view(),
            unread: self.parser.unread(),
            response: self.accumulator@,
            calls: self.function_call_events@,
        }
    }
}

/// What became of a stream in a step.
pub enum StreamProgress {
    /// It goes on, with the given action.
    Running(NonMcpStream, StreamAction),
    /// It ends with a response, which is to be persisted or not.
    Finished { response: ResponsesResponse, persist: bool },
    /// It ends with an error.
    Failed(String),
}

/// A step went as described.
pub open spec fn went(progress: StreamProgress, next: Next) -> bool {
    match (progress, next) {
        (StreamProgress::Running(stream, action), Next::Running(view, wanted)) => {
            &&& stream.valid()
            &&& stream@ == view
            &&& action.deep_view() == wanted
        },
        (
            StreamProgress::Finished { response, persist },
            Next::Finished { draft, request, persist: wanted },
        ) => answers(response, draft, request) && persist == wanted,
        (StreamProgress::Failed(error), Next::Failed(wanted)) => error@ == wanted,
        _ => false,
    }
}

impl NonMcpStream {
    /// The parts of the stream are valid.
    pub open spec fn valid(self) -> bool {
        self.parser.valid() && self.function_call_events@.valid()
    }

    /// A stream that answers a request, with the given identifier and time.
    pub fn start_with(request: &ResponsesRequest, response_id: String, created_at: i64) -> (res: (
        NonMcpStream,
        StreamAction,
    ))
        ensures
            res.0.valid(),
            res.0@ == StreamView::initial(*request, response_id@, created_at),
            res.1.deep_view() == StreamActionView::Deliver(seq![StreamEventView::Created]),
    {
        let facts = read_request(request);
        let stream = NonMcpStream {
            stage: Stage::SendingCreated,
            parser: SseBodyParser::new(),
            accumulator: StreamingResponseAccumulator::new(
                request,
                response_id,
                facts.model,
                created_at,
            ),
            function_call_events: FunctionCallEvents::new(),
        };
        (stream, deliver_one(StreamEvent::Created))
    }

    /// A stream that answers a request, with a fresh identifier and the present time.
    pub fn start(request: &ResponsesRequest) -> (res: (NonMcpStream, StreamAction))
        ensures
            res.0.valid(),
            exists|response_id: Seq<char>, created_at: i64|
                #![trigger StreamView::initial(*request, response_id, created_at)]
                is_response_id(response_id) && res.0@ == StreamView::initial(
                    *request,
                    response_id,
                    created_at,
                ),
            res.1.deep_view() == StreamActionView::Deliver(seq![StreamEventView::Created]),
    {
        let response_id = new_response_id();
        let created_at: i64 = unix_seconds();
        Self::start_with(request, response_id, created_at)
    }

    /// Tells of the completion.
    fn complete(self) -> (res: StreamProgress)
        requires
            self.valid(),
        ensures
            went(res, self@.completed()),
    {
        let event = StreamEvent::Completed {
            status: Some(self.accumulator.response_status()),
            usage: report_usage(&self.accumulator.usage),
            incomplete_reason: None,
        };
        let action = deliver_one(event);
        StreamProgress::Running(NonMcpStream { stage: Stage::Completing, ..self }, action)
    }

    /// Takes a chunk in.
    fn take_chunk(self, outside: ChatCompletionStreamResponse, last: bool) -> (res: StreamProgress)
        requires
            self.valid(),
        ensures
            exists|fresh: Seq<Seq<char>>|
                #![trigger are_call_ids(fresh)]
                are_call_ids(fresh) && fresh.len() == self@.response.opened_by(
                    chunk_content(outside),
                ) && went(res, self@.after_chunk(outside, last, fresh)),
    {
        let chunk = read_chunk(&outside);
        let mut stream = self;
        stream.accumulator.process_chunk(&chunk);
        let ghost fresh = choose|fresh: Seq<Seq<char>>|
            #![trigger are_call_ids(fresh)]
            are_call_ids(fresh) && fresh.len() == self@.response.opened_by(chunk.deep_view())
                && stream.accumulator@ == self@.response.after(chunk.deep_view(), fresh);
        assert(are_call_ids(fresh));
        if chunk.has_tool_call_delta() || !stream.function_call_events.is_empty() {
            let needed: usize = stream.function_call_events.count_slots(&chunk);
            let next = NonMcpStream { stage: Stage::Allocating { chunk, last }, ..stream };
            StreamProgress::Running(next, StreamAction::Allocate(needed))
        } else {
            let next = NonMcpStream {
                stage: Stage::Sending { outcome: SseRecordOutcome::Continue, last },
                ..stream
            };
            StreamProgress::Running(next, deliver_one(StreamEvent::Chunk(outside)))
        }
    }

    /// Passes a payload on.
    fn pass_on(self, json: String, last: bool) -> (res: StreamProgress)
        requires
            self.valid(),
        ensures
            went(res, self@.after_raw(json@, last)),
    {
        let outcome = if is_upstream_error_payload(json.as_str()) {
            SseRecordOutcome::UpstreamError
        } else {
            SseRecordOutcome::Continue
        };
        let next = NonMcpStream { stage: Stage::Sending { outcome, last }, ..self };
        StreamProgress::Running(next, deliver_one(StreamEvent::RawJson(json)))
    }

    /// Reads what the end of the body left.
    fn read_to_end(self) -> (res: StreamProgress)
        requires
            self.valid(),
        ensures
            exists|fresh: Seq<Seq<char>>|
                #![trigger are_call_ids(fresh)]
                are_call_ids(fresh) && self@.suits(read_end(self@.unread), fresh) && went(
                    res,
                    self@.after_end(fresh),
                ),
    {
        let ghost none: Seq<Seq<char>> = seq![];
        proof {
            assert(are_call_ids(none));
        }
        let mut stream = self;
        match stream.parser.flush() {
            Some(SseDataRecord::ChatChunk(outside)) => stream.take_chunk(outside, true),
            Some(SseDataRecord::RawJson(json)) => stream.pass_on(json, true),
            Some(SseDataRecord::Done) => stream.complete(),
            None => stream.complete(),
        }
    }

    /// Takes a complete record in. The one that ends the stream has the text behind it taken in as
    /// a last record.
    fn process_non_mcp_sse_data_record(self, record: SseDataRecord) -> (res: StreamProgress)
        requires
            self.valid(),
        ensures
            exists|fresh: Seq<Seq<char>>|
                #![trigger are_call_ids(fresh)]
                are_call_ids(fresh) && self@.suits(
                    match record.deep_view() {
                        SseRecordView::Done => read_end(self@.unread),
                        other => Reading::Record {
                            record: other,
                            rest: self@.unread,
                            last: false,
                        },
                    },
                    fresh,
                ) && went(res, self@.after_record(record.deep_view(), false, fresh)),
    {
        let ghost none: Seq<Seq<char>> = seq![];
        proof {
            assert(are_call_ids(none));
        }
        match record {
            SseDataRecord::Done => self.read_to_end(),
            SseDataRecord::ChatChunk(outside) => self.take_chunk(outside, false),
            SseDataRecord::RawJson(json) => self.pass_on(json, false),
        }
    }

    /// Reads the next record.
    fn read_next(self) -> (res: StreamProgress)
        requires
            self.valid(),
        ensures
            exists|fresh: Seq<Seq<char>>|
                #![trigger are_call_ids(fresh)]
                are_call_ids(fresh) && self@.suits(read_on(self@.unread), fresh) && went(
                    res,
                    self@.after_reading(read_on(self@.unread), fresh),
                ),
    {
        let ghost none: Seq<Seq<char>> = seq![];
        proof {
            assert(are_call_ids(none));
        }
        let mut stream = self;
        match stream.parser.next_record() {
            Some(record) => stream.process_non_mcp_sse_data_record(record),
            None => {
                let next = NonMcpStream { stage: Stage::Reading, ..stream };
                StreamProgress::Running(next, StreamAction::ReadBody)
            },
        }
    }

    /// Whether the stream waits for an input.
    pub fn awaits(&self, input: &StreamInput) -> (res: bool)
        requires
            self.valid(),
        ensures
            res == self@.expects(input.deep_view()),
    {
        match &self.stage {
            Stage::Reading => match input {
                StreamInput::Bytes(_) => true,
                StreamInput::BodyFailed(_) => true,
                StreamInput::BodyEnd => true,
                _ => false,
            },
            Stage::Allocating { chunk, .. } => match input {
                StreamInput::Slots(slots) => slots.len() == self.function_call_events.count_slots(
                    chunk,
                ),
                _ => false,
            },
            _ => match input {
                StreamInput::Delivered => true,
                StreamInput::DeliveryFailed(_) => true,
                _ => false,
            },
        }
    }

    /// Takes the next step.
    pub fn advance(self, input: StreamInput) -> (res: StreamProgress)
        requires
            self.valid(),
            self@.expects(input.deep_view()),
        ensures
            exists|fresh: Seq<Seq<char>>|
                #![trigger are_call_ids(fresh)]
                self@.fits(input.deep_view(), fresh) && went(
                    res,
                    self@.step(input.deep_view(), fresh),
                ),
    {
        let ghost none: Seq<Seq<char>> = seq![];
        proof {
            assert(are_call_ids(none));
        }
        match input {
            StreamInput::DeliveryFailed(reason) => StreamProgress::Failed(
                match self.stage {
                    Stage::SendingCreated => "Failed to send response.created event".to_owned(),
                    Stage::SendingInProgress => {
                        "Failed to send response.in_progress event".to_owned()
                    },
                    _ => reason,
                },
            ),
            StreamInput::BodyFailed(reason) => StreamProgress::Failed(
                join("Stream read error: ", reason.as_str()),
            ),
            StreamInput::Bytes(bytes) => {
                let mut stream = self;
                stream.parser.push(bytes.as_slice());
                stream.read_next()
            },
            StreamInput::BodyEnd => self.read_to_end(),
            StreamInput::Slots(slots) => match self.stage {
                Stage::Allocating { chunk, last } => {
                    let mut calls = self.function_call_events;
                    let events = calls.process_non_mcp_function_call_chunk(&chunk, &slots);
                    let next = NonMcpStream {
                        stage: Stage::Sending { outcome: SseRecordOutcome::Continue, last },
                        parser: self.parser,
                        accumulator: self.accumulator,
                        function_call_events: calls,
                    };
                    StreamProgress::Running(next, StreamAction::Deliver(events))
                },
                _ => {
                    assert(false);
                    StreamProgress::Failed(String::new())
                },
            },
            StreamInput::Delivered => match self.stage {
                Stage::SendingCreated => {
                    let next = NonMcpStream { stage: Stage::SendingInProgress, ..self };
                    StreamProgress::Running(next, deliver_one(StreamEvent::InProgress))
                },
                Stage::SendingInProgress => {
                    let next = NonMcpStream { stage: Stage::Reading, ..self };
                    StreamProgress::Running(next, StreamAction::ReadBody)
                },
                Stage::Sending { outcome, last } => {
                    if outcome == SseRecordOutcome::UpstreamError {
                        StreamProgress::Finished {
                            response: self.accumulator.finalize_with_status(
                                ResponseStatus::Failed,
                            ),
                            persist: false,
                        }
                    } else if last {
                        self.complete()
                    } else {
                        self.read_next()
                    }
                },
                _ => StreamProgress::Finished {
                    response: self.accumulator.finalize(),
                    persist: true,
                },
            },
        }
    }
}

/// The action that sends one event.
pub fn deliver_one(event: StreamEvent) -> (res: StreamAction)
    ensures
        res.deep_view() == StreamActionView::Deliver(seq![event.deep_view()]),
{
    let mut events: Vec<StreamEvent> = Vec::new();
    events.push(event);
    proof {
        assert(events.deep_view() =~= seq![event.deep_view()]);
    }
    StreamAction::Deliver(events)
}

} // verus!
