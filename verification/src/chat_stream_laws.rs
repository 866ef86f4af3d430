//! What holds of every run of a chat stream.
use crate::chat::chunk_content;
use crate::chat_stream::{
    last_chunk, next_chunk, ChatNext, ChatStageView, ChatStreamView, ChunkPull,
};
use crate::completion::ChatAccumulatorView;
use crate::sse::{
    lemma_left_text_holds_no_record, lemma_next_data_concat, lemma_next_data_shrinks, next_data,
    record_of, Pull, SseRecordView,
};
use crate::stream::{Reading, StreamActionView, StreamInputView};
use crate::stream_laws::{text_of_input, text_of_inputs};
use vstd::prelude::*;

verus! {

/// What a whole text adds to a completion: its chunks up to the record that ends the stream, or up
/// to its end.
pub open spec fn digest(completion: ChatAccumulatorView, text: Seq<char>) -> ChatAccumulatorView
    decreases text.len(),
{
    proof {
        lemma_next_data_shrinks(text);
    }
    let pull = next_data(text);
    match pull.record {
        Some(record) => match record_of(record) {
            SseRecordView::Done => completion,
            SseRecordView::ChatChunk(chunk) => digest(
                completion.after(chunk_content(chunk)),
                pull.rest,
            ),
            SseRecordView::RawJson(_) => digest(completion, pull.rest),
        },
        None => match last_chunk(pull.rest) {
            Some(chunk) => completion.after(chunk_content(chunk)),
            None => completion,
        },
    }
}

/// What a stream comes to once the text in `tail` follows what it has read.
pub open spec fn outlook(view: ChatStreamView, tail: Seq<char>) -> ChatAccumulatorView {
    match view.stage {
        ChatStageView::Reading => digest(view.completion, view.unread + tail),
        ChatStageView::Sending { chunk, last } => if last {
            view.completion.after(chunk)
        } else {
            digest(view.completion.after(chunk), view.unread + tail)
        },
    }
}

/// Text that follows the part in which no chunk is complete is read with what that part left.
proof fn lemma_digest_goes_on(completion: ChatAccumulatorView, unread: Seq<char>, tail: Seq<char>)
    ensures
        match next_chunk(unread) {
            ChunkPull::NeedMore { rest } => digest(completion, unread + tail) == digest(
                completion,
                rest + tail,
            ),
            ChunkPull::Chunk { chunk, rest } => digest(completion, unread + tail) == digest(
                completion.after(chunk_content(chunk)),
                rest + tail,
            ),
            ChunkPull::Done => digest(completion, unread + tail) == completion,
        },
    decreases unread.len(),
{
    lemma_next_data_shrinks(unread);
    lemma_next_data_concat(unread, tail);
    let pull = next_data(unread);
    match pull.record {
        Some(text) => {
            if let SseRecordView::RawJson(_) = record_of(text) {
                lemma_digest_goes_on(completion, pull.rest, tail);
            }
        },
        None => {
            lemma_digest_same(completion, unread + tail, pull.rest + tail);
        },
    }
}

/// Texts with the same next record digest to the same.
proof fn lemma_digest_same(completion: ChatAccumulatorView, a: Seq<char>, b: Seq<char>)
    requires
        next_data(a) == next_data(b),
    ensures
        digest(completion, a) == digest(completion, b),
{
}

/// A stream that waits for more of the body has read all complete records.
pub open spec fn settled(view: ChatStreamView) -> bool {
    view.stage is Reading ==> next_data(view.unread) == (Pull { record: None, rest: view.unread })
}

/// Where no chunk is complete, the text that is left holds no record.
proof fn lemma_left_text_holds_no_chunk(unread: Seq<char>)
    ensures
        next_chunk(unread) matches ChunkPull::NeedMore { rest } ==> next_data(rest) == (Pull {
            record: None,
            rest,
        }),
    decreases unread.len(),
{
    lemma_next_data_shrinks(unread);
    let pull = next_data(unread);
    match pull.record {
        Some(text) => {
            if let SseRecordView::RawJson(_) = record_of(text) {
                lemma_left_text_holds_no_chunk(pull.rest);
            }
        },
        None => {
            lemma_left_text_holds_no_record(unread);
        },
    }
}

/// A step changes nothing of what a stream comes to. The text that it brings moves from what is to
/// come to what was read, and the end of the body comes when no text is left.
proof fn lemma_step_keeps_outlook(view: ChatStreamView, input: StreamInputView, tail: Seq<char>)
    requires
        settled(view),
        view.expects(input),
        input is BodyEnd ==> tail.len() == 0,
    ensures
        match view.step(input) {
            ChatNext::Running(next, _) => settled(next) && outlook(next, tail) == outlook(
                view,
                text_of_input(input) + tail,
            ),
            ChatNext::Finished(completion) => completion == outlook(
                view,
                text_of_input(input) + tail,
            ).completion(),
            ChatNext::Failed(_) => true,
        },
{
    let brought = text_of_input(input);
    match view.stage {
        ChatStageView::Sending { chunk, last } => {
            assert(brought + tail =~= tail);
            if !last {
                lemma_left_text_holds_no_chunk(view.unread);
                lemma_digest_goes_on(view.completion.after(chunk), view.unread, tail);
            }
        },
        ChatStageView::Reading => {
            match input {
                StreamInputView::Bytes(_) => {
                    let unread = view.unread + brought;
                    lemma_left_text_holds_no_chunk(unread);
                    lemma_digest_goes_on(view.completion, unread, tail);
                    assert(view.unread + (brought + tail) =~= unread + tail);
                },
                StreamInputView::BodyEnd => {
                    assert(brought + tail =~= seq![]);
                    assert(view.unread + (brought + tail) =~= view.unread);
                },
                _ => {},
            }
        },
    }
}

/// Where a chat stream stands after a run.
pub open spec fn chat_run(inputs: Seq<StreamInputView>) -> ChatNext
    decreases inputs.len(),
{
    if inputs.len() == 0 {
        ChatNext::Running(ChatStreamView::initial(), StreamActionView::ReadBody)
    } else {
        match chat_run(inputs.drop_last()) {
            ChatNext::Running(view, _) => view.step(inputs.last()),
            ended => ended,
        }
    }
}

/// Every input of a run was waited for.
pub open spec fn chat_legal(inputs: Seq<StreamInputView>) -> bool
    decreases inputs.len(),
{
    inputs.len() == 0 || {
        &&& chat_legal(inputs.drop_last())
        &&& match chat_run(inputs.drop_last()) {
            ChatNext::Running(view, _) => view.expects(inputs.last()),
            _ => false,
        }
    }
}

/// The end of the body is among the inputs.
pub open spec fn has_end(inputs: Seq<StreamInputView>) -> bool {
    exists|i: int| 0 <= i < inputs.len() && #[trigger] inputs[i] is BodyEnd
}

/// A stream that goes on after the end of the body shows the last chunk.
proof fn lemma_end_shows_the_last_chunk(inputs: Seq<StreamInputView>)
    requires
        chat_legal(inputs),
        has_end(inputs),
    ensures
        chat_run(inputs) matches ChatNext::Running(view, _) ==> (
        view.stage matches ChatStageView::Sending { last, .. } && last),
    decreases inputs.len(),
{
    let shorter = inputs.drop_last();
    if inputs.last() !is BodyEnd {
        let i = choose|i: int| 0 <= i < inputs.len() && #[trigger] inputs[i] is BodyEnd;
        assert(shorter[i] is BodyEnd);
        lemma_end_shows_the_last_chunk(shorter);
    }
}

/// A run keeps what the stream comes to once the text in `tail` follows.
proof fn lemma_run_keeps_outlook(inputs: Seq<StreamInputView>, tail: Seq<char>)
    requires
        chat_legal(inputs),
        has_end(inputs) ==> tail.len() == 0,
    ensures
        match chat_run(inputs) {
            ChatNext::Running(view, _) => settled(view) && outlook(view, tail) == digest(
                ChatAccumulatorView::empty(),
                text_of_inputs(inputs) + tail,
            ),
            ChatNext::Finished(completion) => completion == digest(
                ChatAccumulatorView::empty(),
                text_of_inputs(inputs) + tail,
            ).completion(),
            ChatNext::Failed(_) => true,
        },
    decreases inputs.len(),
{
    if inputs.len() == 0 {
        assert(text_of_inputs(inputs) + tail =~= tail);
        assert(ChatStreamView::initial().unread + tail =~= tail);
    } else {
        let shorter = inputs.drop_last();
        let input = inputs.last();
        let brought = text_of_input(input);
        if has_end(shorter) {
            let i = choose|i: int| 0 <= i < shorter.len() && #[trigger] shorter[i] is BodyEnd;
            assert(inputs[i] is BodyEnd);
            lemma_end_shows_the_last_chunk(shorter);
            assert(brought + tail =~= seq![]);
        }
        assert(inputs[inputs.len() - 1] == input);
        lemma_run_keeps_outlook(shorter, brought + tail);
        assert(text_of_inputs(shorter) + (brought + tail) =~= text_of_inputs(inputs) + tail);
        if let ChatNext::Running(view, _) = chat_run(shorter) {
            lemma_step_keeps_outlook(view, input, tail);
        }
    }
}

/// The completion of a chat stream depends on the text of its body alone: it is what the whole
/// text digests to, however the body was cut into pieces.
pub proof fn law_completion_depends_on_the_text_alone(inputs: Seq<StreamInputView>)
    requires
        chat_legal(inputs),
    ensures
        chat_run(inputs) matches ChatNext::Finished(completion) ==> completion == digest(
            ChatAccumulatorView::empty(),
            text_of_inputs(inputs),
        ).completion(),
{
    lemma_run_keeps_outlook(inputs, seq![]);
    assert(text_of_inputs(inputs) + Seq::<char>::empty() =~= text_of_inputs(inputs));
}

} // verus!
