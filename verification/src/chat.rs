//! Chat completion stream chunks: what the library reads of one, and how one is decoded.
use openai_protocol::chat::ChatCompletionStreamResponse;
use openai_protocol::common::ChatLogProbs;
use vstd::prelude::*;

verus! {

/// A chunk of a chat completion stream, as `openai_protocol` holds it. It is carried through to
/// the event emitter; what the library itself reads of it is a [`ChatChunk`].
#[verifier::external_type_specification]
#[verifier::external_body]
pub struct ExChatCompletionStreamResponse(ChatCompletionStreamResponse);

/// The log probabilities of a text, as `openai_protocol` holds them.
#[verifier::external_type_specification]
#[verifier::external_body]
pub struct ExChatLogProbs(ChatLogProbs);

/// Detail counts of the completion tokens.
#[derive(Clone, Copy, Debug, PartialEq, Eq)]
pub struct CompletionDetails {
    pub reasoning_tokens: Option<u32>,
    pub accepted_prediction_tokens: Option<u32>,
    pub rejected_prediction_tokens: Option<u32>,
}

/// Token counts of one chat completion.
#[derive(Clone, Copy, Debug, PartialEq, Eq)]
pub struct Usage {
    pub prompt_tokens: u32,
    pub completion_tokens: u32,
    pub total_tokens: u32,
    pub cached_tokens: Option<u32>,
    pub completion_details: Option<CompletionDetails>,
}

impl Usage {
    /// The reasoning tokens among the completion tokens, where they are counted.
    pub open spec fn reasoning(self) -> Option<u32> {
        match self.completion_details {
            Some(details) => details.reasoning_tokens,
            None => None,
        }
    }

    /// The reasoning tokens among the completion tokens, where they are counted.
    pub fn reasoning_tokens(&self) -> (res: Option<u32>)
        ensures
            res == self.reasoning(),
    {
        match self.completion_details {
            Some(details) => details.reasoning_tokens,
            None => None,
        }
    }
}

impl DeepView for Usage {
    type V = Usage;

    open spec fn deep_view(&self) -> Usage {
        *self
    }
}

/// A piece of a function call.
#[derive(Debug)]
pub struct FunctionDelta {
    pub name: Option<String>,
    pub arguments: Option<String>,
}

/// What a [`FunctionDelta`] says.
pub struct FunctionDeltaView {
    pub name: Option<Seq<char>>,
    pub arguments: Option<Seq<char>>,
}

impl DeepView for FunctionDelta {
    type V = FunctionDeltaView;

    open spec fn deep_view(&self) -> FunctionDeltaView {
        FunctionDeltaView {
            name: self.name.deep_view(),
            arguments: self.arguments.deep_view(),
        }
    }
}

/// A piece of the tool call with the given index.
#[derive(Debug)]
pub struct ToolCallDelta {
    pub index: u32,
    pub id: Option<String>,
    pub function: Option<FunctionDelta>,
}

/// What a [`ToolCallDelta`] says.
pub struct ToolCallDeltaView {
    pub index: u32,
    pub id: Option<Seq<char>>,
    pub function: Option<FunctionDeltaView>,
}

impl DeepView for ToolCallDelta {
    type V = ToolCallDeltaView;

    open spec fn deep_view(&self) -> ToolCallDeltaView {
        ToolCallDeltaView {
            index: self.index,
            id: self.id.deep_view(),
            function: self.function.deep_view(),
        }
    }
}

/// What one choice of a chunk adds.
#[derive(Debug)]
pub struct ChoiceDelta {
    pub content: Option<String>,
    pub reasoning: Option<String>,
    pub tool_calls: Option<Vec<ToolCallDelta>>,
    pub finish_reason: Option<String>,
}

/// What a [`ChoiceDelta`] says.
pub struct ChoiceDeltaView {
    pub content: Option<Seq<char>>,
    pub reasoning: Option<Seq<char>>,
    pub tool_calls: Option<Seq<ToolCallDeltaView>>,
    pub finish_reason: Option<Seq<char>>,
}

impl DeepView for ChoiceDelta {
    type V = ChoiceDeltaView;

    open spec fn deep_view(&self) -> ChoiceDeltaView {
        ChoiceDeltaView {
            content: self.content.deep_view(),
            reasoning: self.reasoning.deep_view(),
            tool_calls: self.tool_calls.deep_view(),
            finish_reason: self.finish_reason.deep_view(),
        }
    }
}

impl ChoiceDeltaView {
    /// The tool call pieces, none where the choice carries no list of them.
    pub open spec fn deltas(self) -> Seq<ToolCallDeltaView> {
        match self.tool_calls {
            Some(deltas) => deltas,
            None => seq![],
        }
    }
}

/// What the library reads of a chunk.
#[derive(Debug)]
pub struct ChatChunk {
    pub id: String,
    pub created: u64,
    pub model: String,
    pub choices: Vec<ChoiceDelta>,
    pub usage: Option<Usage>,
}

/// What a [`ChatChunk`] says.
pub struct ChatChunkView {
    pub id: Seq<char>,
    pub created: u64,
    pub model: Seq<char>,
    pub choices: Seq<ChoiceDeltaView>,
    pub usage: Option<Usage>,
}

impl DeepView for ChatChunk {
    type V = ChatChunkView;

    open spec fn deep_view(&self) -> ChatChunkView {
        ChatChunkView {
            id: self.id@,
            created: self.created,
            model: self.model@,
            choices: self.choices.deep_view(),
            usage: self.usage,
        }
    }
}

impl ChatChunkView {
    /// The tool call pieces of the first choice.
    pub open spec fn deltas(self) -> Seq<ToolCallDeltaView> {
        if self.choices.len() > 0 {
            self.choices[0].deltas()
        } else {
            seq![]
        }
    }

    /// The finish reason of the first choice.
    pub open spec fn finish_reason(self) -> Option<Seq<char>> {
        if self.choices.len() > 0 {
            self.choices[0].finish_reason
        } else {
            None
        }
    }
}

impl ChatChunk {
    /// Whether the first choice carries pieces of tool calls.
    pub fn has_tool_call_delta(&self) -> (res: bool)
        ensures
            res == (self.deep_view().deltas().len() > 0),
    {
        if self.choices.len() == 0 {
            return false;
        }
        assert(self.deep_view().choices[0] == self.choices@[0].deep_view());
        match &self.choices[0].tool_calls {
            Some(deltas) => deltas.len() > 0,
            None => false,
        }
    }
}

/// What `serde_json::from_str` makes of a JSON text as a chunk; `None` where it fails.
pub uninterp spec fn chunk_decoded(json: Seq<char>) -> Option<ChatCompletionStreamResponse>;

/// The fields of a chunk that the library reads.
pub uninterp spec fn chunk_content(chunk: ChatCompletionStreamResponse) -> ChatChunkView;

/// Calls `serde_json::from_str::<ChatCompletionStreamResponse>` and drops the error. The result
/// depends on the text alone.
#[verifier::external_body]
pub(crate) fn decode_chunk(json: &str) -> (res: Option<ChatCompletionStreamResponse>)
    ensures
        res == chunk_decoded(json@),
{
    serde_json::from_str::<ChatCompletionStreamResponse>(json).ok()
}

/// Reads the fields `id`, `created` and `model` of a `ChatCompletionStreamResponse`.
#[verifier::external_body]
fn chunk_head(chunk: &ChatCompletionStreamResponse) -> (res: (String, u64, String))
    ensures
        res.0@ == chunk_content(*chunk).id,
        res.1 == chunk_content(*chunk).created,
        res.2@ == chunk_content(*chunk).model,
{
    (chunk.id.clone(), chunk.created, chunk.model.clone())
}

/// Reads the field `choices` of a `ChatCompletionStreamResponse`: of each choice the content, the
/// reasoning content, the tool call pieces and the finish reason.
#[verifier::external_body]
fn chunk_choices(chunk: &ChatCompletionStreamResponse) -> (res: Vec<ChoiceDelta>)
    ensures
        res.deep_view() == chunk_content(*chunk).choices,
{
    let choices = chunk.choices.clone().into_iter();
    choices.map(|choice| ChoiceDelta {
        content: choice.delta.content,
        reasoning: choice.delta.reasoning_content,
        tool_calls: choice.delta.tool_calls.map(|calls| calls.into_iter().map(|call| ToolCallDelta {
            index: call.index,
            id: call.id,
            function: call.function.map(|f| FunctionDelta { name: f.name, arguments: f.arguments }),
        }).collect()),
        finish_reason: choice.finish_reason,
    }).collect()
}

/// Reads the field `usage` of a `ChatCompletionStreamResponse` with the detail counts in it.
#[verifier::external_body]
fn chunk_usage(chunk: &ChatCompletionStreamResponse) -> (res: Option<Usage>)
    ensures
        res == chunk_content(*chunk).usage,
{
    chunk.usage.as_ref().map(|usage| Usage {
        prompt_tokens: usage.prompt_tokens,
        completion_tokens: usage.completion_tokens,
        total_tokens: usage.total_tokens,
        cached_tokens: usage.prompt_tokens_details.as_ref().map(|d| d.cached_tokens),
        completion_details: usage.completion_tokens_details.as_ref().map(|d| CompletionDetails {
            reasoning_tokens: d.reasoning_tokens,
            accepted_prediction_tokens: d.accepted_prediction_tokens,
            rejected_prediction_tokens: d.rejected_prediction_tokens,
        }),
    })
}

/// Reads a chunk.
pub fn read_chunk(chunk: &ChatCompletionStreamResponse) -> (res: ChatChunk)
    ensures
        res.deep_view() == chunk_content(*chunk),
{
    let head = chunk_head(chunk);
    let choices = chunk_choices(chunk);
    let usage = chunk_usage(chunk);
    ChatChunk { id: head.0, created: head.1, model: head.2, choices, usage }
}

} // verus!
