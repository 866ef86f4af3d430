//! A chat completion stream that is shown to the client and accumulated at the same time, as one
//! round of a tool loop needs it.
use crate::chat::{chunk_content, read_chunk, ChatChunk, ChatChunkView};
use crate::completion::{ChatAccumulatorView, ChatResponseAccumulator, Completion, CompletionView};
use crate::events::{StreamEvent, StreamEventView};
use crate::sse::{
    last_data, lemma_next_data_shrinks, next_data, record_of, utf8_lossy, SseBodyParser,
    SseDataRecord, SseRecordView,
};
use crate::stream::{
    deliver_one, Reading, StreamAction, StreamActionView, StreamInput, StreamInputView,
};
use crate::text::{join, lf_only};
use openai_protocol::chat::ChatCompletionStreamResponse;
use vstd::prelude::*;

verus! {

/// Where a chat stream stands: what it waits for.
pub enum ChatStage {
    /// More of the body.
    Reading,
    /// That the events of a chunk are sent. `last` marks what the end of the body left.
    Sending { chunk: ChatChunk, last: bool },
}

/// What a [`ChatStage`] says.
pub enum ChatStageView {
    Reading,
    Sending { chunk: ChatChunkView, last: bool },
}

impl DeepView for ChatStage {
    type V = ChatStageView;

    open spec fn deep_view(&self) -> ChatStageView {
        match self {
            ChatStage::Reading => ChatStageView::Reading,
            ChatStage::Sending { chunk, last } => ChatStageView::Sending {
                chunk: chunk.deep_view(),
                last: *last,
            },
        }
    }
}

/// What the next chunk of a body is.
pub enum ChunkPull {
    /// There is no complete record with a chunk.
    NeedMore { rest: Seq<char> },
    /// A chunk.
    Chunk { chunk: ChatCompletionStreamResponse, rest: Seq<char> },
    /// The stream ended.
    Done,
}

/// The next chunk. Records with other payloads are passed over.
pub open spec fn next_chunk(unread: Seq<char>) -> ChunkPull
    decreases unread.len(),
{
    proof {
        lemma_next_data_shrinks(unread);
    }
    let pull = next_data(unread);
    match pull.record {
        Some(text) => match record_of(text) {
            SseRecordView::Done => ChunkPull::Done,
            SseRecordView::ChatChunk(chunk) => ChunkPull::Chunk { chunk, rest: pull.rest },
            SseRecordView::RawJson(_) => next_chunk(pull.rest),
        },
        None => ChunkPull::NeedMore { rest: pull.rest },
    }
}

/// The chunk that the end of the body left.
pub open spec fn last_chunk(unread: Seq<char>) -> Option<ChatCompletionStreamResponse> {
    match last_data(unread).record {
        Some(text) => match record_of(text) {
            SseRecordView::ChatChunk(chunk) => Some(chunk),
            _ => None,
        },
        None => None,
    }
}

/// What a [`ChatStream`] holds.
pub struct ChatStreamView {
    pub stage: ChatStageView,
    pub unread: Seq<char>,
    pub completion: ChatAccumulatorView,
}

/// What becomes of a chat stream in a step.
pub enum ChatNext {
    /// It goes on, with the given action.
    Running(ChatStreamView, StreamActionView),
    /// It ends with a completion.
    Finished(CompletionView),
    /// It ends with an error.
    Failed(Seq<char>),
}

impl ChatStreamView {
    /// The stream as it starts.
    pub open spec fn initial() -> ChatStreamView {
        ChatStreamView {
            stage: ChatStageView::Reading,
            unread: seq![],
            completion: ChatAccumulatorView::empty(),
        }
    }

    /// The inputs that a stage waits for.
    pub open spec fn expects(self, input: StreamInputView) -> bool {
        match self.stage {
            ChatStageView::Reading => {
                ||| input is Bytes
                ||| input is BodyFailed
                ||| input is BodyEnd
            },
            ChatStageView::Sending { .. } => input is Delivered || input is DeliveryFailed,
        }
    }

    /// The step that shows a chunk.
    pub open spec fn shown(self, chunk: ChatCompletionStreamResponse, last: bool) -> ChatNext {
        ChatNext::Running(
            ChatStreamView {
                stage: ChatStageView::Sending { chunk: chunk_content(chunk), last },
                ..self
            },
            StreamActionView::Deliver(seq![StreamEventView::Chunk(chunk)]),
        )
    }

    /// The step that reads on.
    pub open spec fn read_on(self) -> ChatNext {
        match next_chunk(self.unread) {
            ChunkPull::NeedMore { rest } => ChatNext::Running(
                ChatStreamView { stage: ChatStageView::Reading, unread: rest, ..self },
                StreamActionView::ReadBody,
            ),
            ChunkPull::Chunk { chunk, rest } => ChatStreamView { unread: rest, ..self }.shown(
                chunk,
                false,
            ),
            ChunkPull::Done => ChatNext::Finished(self.completion.completion()),
        }
    }

    /// The step that an input causes. A chunk is shown before it is accumulated.
    pub open spec fn step(self, input: StreamInputView) -> ChatNext {
        match (self.stage, input) {
            (ChatStageView::Sending { .. }, StreamInputView::DeliveryFailed(reason)) =>
                ChatNext::Failed(reason),
            (ChatStageView::Sending { chunk, last }, _) => {
                let after = ChatStreamView { completion: self.completion.after(chunk), ..self };
                if last {
                    ChatNext::Finished(after.completion.completion())
                } else {
                    after.read_on()
                }
            },
            (ChatStageView::Reading, StreamInputView::Bytes(bytes)) => ChatStreamView {
                unread: self.unread + lf_only(utf8_lossy(bytes)),
                ..self
            }.read_on(),
            (ChatStageView::Reading, StreamInputView::BodyFailed(reason)) => ChatNext::Failed(
                "Stream read error: "@ + reason,
            ),
            (ChatStageView::Reading, _) => match last_chunk(self.unread) {
                Some(chunk) => ChatStreamView {
                    unread: last_data(self.unread).rest,
                    ..self
                }.shown(chunk, true),
                None => ChatNext::Finished(self.completion.completion()),
            },
        }
    }
}

/// A chat completion stream on its way to a completion.
pub struct ChatStream {
    pub stage: ChatStage,
    pub parser: SseBodyParser,
    pub accumulator: ChatResponseAccumulator,
}

impl View for ChatStream {
    type V = ChatStreamView;

    open spec fn view(&self) -> ChatStreamView {
        ChatStreamView {
            stage: self.stage.deep_view(),
            unread: self.parser.unread(),
            completion: self.accumulator@,
        }
    }
}

/// What became of a chat stream in a step.
pub enum ChatProgress {
    /// It goes on, with the given action.
    Running(ChatStream, StreamAction),
    /// It ends with a completion.
    Finished(Completion),
    /// It ends with an error.
    Failed(String),
}

/// A step went as described.
pub open spec fn chat_went(progress: ChatProgress, next: ChatNext) -> bool {
    match (progress, next) {
        (ChatProgress::Running(stream, action), ChatNext::Running(view, wanted)) => {
            &&& stream.valid()
            &&& stream@ == view
            &&& action.deep_view() == wanted
        },
        (ChatProgress::Finished(completion), ChatNext::Finished(wanted)) =>
            completion.deep_view() == wanted,
        (ChatProgress::Failed(error), ChatNext::Failed(wanted)) => error@ == wanted,
        _ => false,
    }
}

impl ChatStream {
    /// The parts of the stream are valid.
    pub open spec fn valid(self) -> bool {
        self.parser.valid() && self.accumulator@.tool_calls.valid()
    }

    /// A stream of which nothing was read.
    pub fn start() -> (res: (ChatStream, StreamAction))
        ensures
            res.0.valid(),
            res.0@ == ChatStreamView::initial(),
            res.1.deep_view() == StreamActionView::ReadBody,
    {
        let stream = ChatStream {
            stage: ChatStage::Reading,
            parser: SseBodyParser::new(),
            accumulator: ChatResponseAccumulator::new(),
        };
        (stream, StreamAction::ReadBody)
    }

    /// Shows a chunk.
    fn show(self, chunk: ChatCompletionStreamResponse, last: bool) -> (res: ChatProgress)
        requires
            self.valid(),
        ensures
            chat_went(res, self@.shown(chunk, last)),
    {
        let content = read_chunk(&chunk);
        let stage = ChatStage::Sending { chunk: content, last };
        ChatProgress::Running(
            ChatStream { stage, ..self },
            deliver_one(StreamEvent::Chunk(chunk)),
        )
    }

    /// Reads up to the next chunk.
    fn read_on(self) -> (res: ChatProgress)
        requires
            self.valid(),
        ensures
            chat_went(res, self@.read_on()),
    {
        let mut stream = self;
        loop
            invariant
                stream.valid(),
                stream.stage == self.stage,
                stream.accumulator == self.accumulator,
                next_chunk(stream@.unread) == next_chunk(self@.unread),
            decreases stream@.unread.len(),
        {
            proof {
                lemma_next_data_shrinks(stream@.unread);
            }
            match stream.parser.next_record() {
                Some(SseDataRecord::Done) => {
                    return ChatProgress::Finished(stream.accumulator.into_completion());
                },
                Some(SseDataRecord::ChatChunk(chunk)) => {
                    return stream.show(chunk, false);
                },
                Some(SseDataRecord::RawJson(_)) => {},
                None => {
                    let next = ChatStream { stage: ChatStage::Reading, ..stream };
                    return ChatProgress::Running(next, StreamAction::ReadBody);
                },
            }
        }
    }

    /// Whether the stream waits for an input.
    pub fn awaits(&self, input: &StreamInput) -> (res: bool)
        ensures
            res == self@.expects(input.deep_view()),
    {
        match &self.stage {
            ChatStage::Reading => match input {
                StreamInput::Bytes(_) => true,
                StreamInput::BodyFailed(_) => true,
                StreamInput::BodyEnd => true,
                _ => false,
            },
            ChatStage::Sending { .. } => match input {
                StreamInput::Delivered => true,
                StreamInput::DeliveryFailed(_) => true,
                _ => false,
            },
        }
    }

    /// Takes the next step.
    pub fn advance(self, input: StreamInput) -> (res: ChatProgress)
        requires
            self.valid(),
            self@.expects(input.deep_view()),
        ensures
            chat_went(res, self@.step(input.deep_view())),
    {
        match self.stage {
            ChatStage::Sending { chunk, last } => match input {
                StreamInput::DeliveryFailed(reason) => ChatProgress::Failed(reason),
                _ => {
                    let mut accumulator = self.accumulator;
                    accumulator.process_chunk(&chunk);
                    if last {
                        ChatProgress::Finished(accumulator.into_completion())
                    } else {
                        let next = ChatStream {
                            stage: ChatStage::Sending { chunk, last },
                            parser: self.parser,
                            accumulator,
                        };
                        next.read_on()
                    }
                },
            },
            ChatStage::Reading => {
                let mut parser = self.parser;
                match input {
                    StreamInput::Bytes(bytes) => {
                        parser.push(bytes.as_slice());
                        let next = ChatStream {
                            stage: ChatStage::Reading,
                            parser,
                            accumulator: self.accumulator,
                        };
                        next.read_on()
                    },
                    StreamInput::BodyFailed(reason) => ChatProgress::Failed(
                        join("Stream read error: ", reason.as_str()),
                    ),
                    _ => match parser.flush() {
                        Some(SseDataRecord::ChatChunk(chunk)) => {
                            let next = ChatStream {
                                stage: ChatStage::Reading,
                                parser,
                                accumulator: self.accumulator,
                            };
                            next.show(chunk, true)
                        },
                        _ => ChatProgress::Finished(self.accumulator.into_completion()),
                    },
                }
            },
        }
    }
}

} // verus!
