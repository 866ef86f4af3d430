//! Requests and responses of the Responses API: what the library reads of a request, and how a
//! response is built.
use crate::chat::Usage;
use crate::json::JsonView;
use openai_protocol::common::{ChatLogProbs, PromptTokenUsageInfo};
use openai_protocol::responses::{
    ResponseContentPart, ResponseInput, ResponseInputOutputItem, ResponseOutputItem,
    ResponseReasoningContent, ResponsesRequest, ResponsesResponse, ResponsesUsage,
};
use vstd::prelude::*;

verus! {

/// A request, as `openai_protocol` holds it.
#[verifier::external_type_specification]
#[verifier::external_body]
pub struct ExResponsesRequest(ResponsesRequest);

/// A response, as `openai_protocol` holds it.
#[verifier::external_type_specification]
#[verifier::external_body]
pub struct ExResponsesResponse(ResponsesResponse);

/// An output item of a response, as `openai_protocol` holds it.
#[verifier::external_type_specification]
#[verifier::external_body]
pub struct ExResponseOutputItem(ResponseOutputItem);

/// The token counts of a response, as `openai_protocol` holds them.
#[verifier::external_type_specification]
#[verifier::external_body]
pub struct ExResponsesUsage(ResponsesUsage);

/// What kind of item an input item is.
#[derive(Clone, Copy, Debug, PartialEq, Eq, Structural)]
pub enum ItemKind {
    FunctionCallOutput,
    Other,
}

impl DeepView for ItemKind {
    type V = ItemKind;

    open spec fn deep_view(&self) -> ItemKind {
        *self
    }
}

/// The shape of a request's input.
#[derive(Debug)]
pub enum InputShape {
    Text,
    Items(Vec<ItemKind>),
}

/// What an [`InputShape`] says.
pub enum InputShapeView {
    Text,
    Items(Seq<ItemKind>),
}

impl DeepView for InputShape {
    type V = InputShapeView;

    open spec fn deep_view(&self) -> InputShapeView {
        match self {
            InputShape::Text => InputShapeView::Text,
            InputShape::Items(items) => InputShapeView::Items(items@),
        }
    }
}

/// What the library reads of a request.
#[derive(Debug)]
pub struct RequestFacts {
    pub model: String,
    pub input: InputShape,
    pub previous_response_id: Option<String>,
    pub conversation: Option<String>,
    pub background: Option<bool>,
    pub stream: Option<bool>,
    pub store: Option<bool>,
    pub max_tool_calls: Option<u32>,
}

/// What [`RequestFacts`] say.
pub struct RequestView {
    pub model: Seq<char>,
    pub input: InputShapeView,
    pub previous_response_id: Option<Seq<char>>,
    pub conversation: Option<Seq<char>>,
    pub background: Option<bool>,
    pub stream: Option<bool>,
    pub store: Option<bool>,
    pub max_tool_calls: Option<u32>,
}

impl DeepView for RequestFacts {
    type V = RequestView;

    open spec fn deep_view(&self) -> RequestView {
        RequestView {
            model: self.model@,
            input: self.input.deep_view(),
            previous_response_id: self.previous_response_id.deep_view(),
            conversation: self.conversation.deep_view(),
            background: self.background,
            stream: self.stream,
            store: self.store,
            max_tool_calls: self.max_tool_calls,
        }
    }
}

impl RequestView {
    /// Whether the response is to be stored: unless the request says no.
    pub open spec fn stores(self) -> bool {
        match self.store {
            Some(store) => store,
            None => true,
        }
    }
}

/// The fields of a request that the library reads.
pub uninterp spec fn request_content(request: ResponsesRequest) -> RequestView;

/// Reads the fields `model`, `input` (its shape), `previous_response_id`, `conversation`,
/// `background`, `stream`, `store` and `max_tool_calls` of a `ResponsesRequest`.
#[verifier::external_body]
pub(crate) fn read_request(request: &ResponsesRequest) -> (res: RequestFacts)
    ensures
        res.deep_view() == request_content(*request),
{
    RequestFacts {
        model: request.model.clone(), background: request.background, stream: request.stream,
        input: match &request.input {
            ResponseInput::Text(_) => InputShape::Text,
            ResponseInput::Items(items) => InputShape::Items(items.iter().map(|item| match item {
                ResponseInputOutputItem::FunctionCallOutput { .. } => ItemKind::FunctionCallOutput,
                _ => ItemKind::Other,
            }).collect()),
        },
        previous_response_id: request.previous_response_id.clone(),
        conversation: request.conversation.clone(),
        store: request.store, max_tool_calls: request.max_tool_calls,
    }
}

/// Calls the `Clone` implementation of `ResponsesRequest`: an equal request.
#[verifier::external_body]
pub(crate) fn clone_request(request: &ResponsesRequest) -> (res: ResponsesRequest)
    ensures
        res == *request,
{
    request.clone()
}

/// Where a response stands.
#[derive(Clone, Copy, Debug, PartialEq, Eq, Structural)]
pub enum ResponseStatus {
    InProgress,
    Completed,
    Failed,
}

/// Token counts as a response reports them.
#[derive(Clone, Copy, Debug, PartialEq, Eq)]
pub struct UsageInfo {
    pub prompt_tokens: u32,
    pub completion_tokens: u32,
    pub total_tokens: u32,
    pub reasoning_tokens: Option<u32>,
    /// The prompt tokens that came from a cache, where details of the prompt tokens are reported.
    pub cached_tokens: Option<u32>,
}

/// Token counts in one of the two forms that a response may report them in.
pub enum UsageView {
    Classic(UsageInfo),
    /// The other form. Its counts are left open.
    Modern,
}

/// The token counts of a chat completion as a response reports them: without details of the prompt
/// tokens.
pub open spec fn usage_info(usage: Usage) -> UsageInfo {
    UsageInfo {
        prompt_tokens: usage.prompt_tokens,
        completion_tokens: usage.completion_tokens,
        total_tokens: usage.total_tokens,
        reasoning_tokens: usage.reasoning(),
        cached_tokens: None,
    }
}

/// A function call of a response.
#[derive(Debug)]
pub struct FunctionCall {
    pub id: String,
    pub call_id: String,
    pub name: String,
    pub arguments: String,
    pub output: Option<String>,
    pub status: String,
}

/// What a [`FunctionCall`] says.
pub struct FunctionCallView {
    pub id: Seq<char>,
    pub call_id: Seq<char>,
    pub name: Seq<char>,
    pub arguments: Seq<char>,
    pub output: Option<Seq<char>>,
    pub status: Seq<char>,
}

impl DeepView for FunctionCall {
    type V = FunctionCallView;

    open spec fn deep_view(&self) -> FunctionCallView {
        FunctionCallView {
            id: self.id@,
            call_id: self.call_id@,
            name: self.name@,
            arguments: self.arguments@,
            output: self.output.deep_view(),
            status: self.status@,
        }
    }
}

/// An output text of a message.
#[derive(Debug)]
pub struct TextPart {
    pub text: String,
    pub annotations: Vec<String>,
    pub logprobs: Option<ChatLogProbs>,
}

/// What a [`TextPart`] says.
pub struct TextPartView {
    pub text: Seq<char>,
    pub annotations: Seq<Seq<char>>,
    pub logprobs: Option<ChatLogProbs>,
}

impl DeepView for TextPart {
    type V = TextPartView;

    open spec fn deep_view(&self) -> TextPartView {
        TextPartView {
            text: self.text@,
            annotations: self.annotations.deep_view(),
            logprobs: self.logprobs,
        }
    }
}

/// An output item of a response.
#[allow(inconsistent_fields)]
#[derive(Debug)]
pub enum OutputItem {
    Message { id: String, role: String, content: Vec<TextPart>, status: String },
    Reasoning { id: String, summary: Vec<String>, content: Vec<String>, status: Option<String> },
    FunctionCall(FunctionCall),
}

/// What an [`OutputItem`] says.
#[allow(inconsistent_fields)]
pub enum OutputItemView {
    Message { id: Seq<char>, role: Seq<char>, content: Seq<TextPartView>, status: Seq<char> },
    Reasoning {
        id: Seq<char>,
        summary: Seq<Seq<char>>,
        content: Seq<Seq<char>>,
        status: Option<Seq<char>>,
    },
    FunctionCall(FunctionCallView),
}

impl DeepView for OutputItem {
    type V = OutputItemView;

    open spec fn deep_view(&self) -> OutputItemView {
        match self {
            OutputItem::Message { id, role, content, status } => OutputItemView::Message {
                id: id@,
                role: role@,
                content: content.deep_view(),
                status: status@,
            },
            OutputItem::Reasoning { id, summary, content, status } => OutputItemView::Reasoning {
                id: id@,
                summary: summary.deep_view(),
                content: content.deep_view(),
                status: status.deep_view(),
            },
            OutputItem::FunctionCall(call) => OutputItemView::FunctionCall(call.deep_view()),
        }
    }
}

/// Everything that goes into a response besides what is copied from its request. Token counts are
/// reported in the classic form.
#[derive(Debug)]
pub struct ResponseDraft {
    pub id: String,
    pub model: String,
    pub created_at: i64,
    pub status: ResponseStatus,
    pub output: Vec<OutputItem>,
    pub usage: Option<UsageInfo>,
}

/// What a [`ResponseDraft`] says.
pub struct DraftView {
    pub id: Seq<char>,
    pub model: Seq<char>,
    pub created_at: i64,
    pub status: ResponseStatus,
    pub output: Seq<OutputItemView>,
    pub usage: Option<UsageView>,
}

impl DeepView for ResponseDraft {
    type V = DraftView;

    open spec fn deep_view(&self) -> DraftView {
        DraftView {
            id: self.id@,
            model: self.model@,
            created_at: self.created_at,
            status: self.status,
            output: self.output.deep_view(),
            usage: match self.usage {
                Some(usage) => Some(UsageView::Classic(usage)),
                None => None,
            },
        }
    }
}

/// What a response says besides what is copied from its request.
pub struct ResponseView {
    pub draft: DraftView,
    pub object: Seq<char>,
    pub error: Option<JsonView>,
    pub incomplete_details: Option<JsonView>,
    pub truncation: Option<Seq<char>>,
    pub safety_identifier: Option<Seq<char>>,
    /// Whether it speaks of how the model reasoned.
    pub has_reasoning: bool,
    /// Whether it speaks of the format of its text.
    pub has_text: bool,
}

/// What a `ResponseOutputItem` says that is a message of output texts, a reasoning item or a
/// function call.
pub uninterp spec fn item_content(item: ResponseOutputItem) -> OutputItemView;

/// What a `ResponsesUsage` says.
pub uninterp spec fn usage_content(usage: ResponsesUsage) -> UsageView;

/// The fields of a response that `copy_from_request` leaves alone.
pub uninterp spec fn response_content(response: ResponsesResponse) -> ResponseView;

/// A response that says what a draft says and nothing more: no error, no reason why it is
/// incomplete, no truncation, no safety identifier, and neither how the model reasoned nor the
/// format of its text.
pub open spec fn plain_response(draft: DraftView) -> ResponseView {
    ResponseView {
        draft,
        object: "response"@,
        error: None,
        incomplete_details: None,
        truncation: None,
        safety_identifier: None,
        has_reasoning: false,
        has_text: false,
    }
}

/// The other fields of a response are those that `copy_from_request` takes over from a request:
/// its instructions, its limit of output tokens, whether tools may be called in parallel, the
/// previous response, whether it is stored, the temperature, the tool choice, the tools, the
/// nucleus mass, the user and the metadata.
pub uninterp spec fn copied_from(response: ResponsesResponse, request: ResponsesRequest) -> bool;

/// A response answers a request with what a draft says.
pub open spec fn answers(
    response: ResponsesResponse,
    draft: DraftView,
    request: ResponsesRequest,
) -> bool {
    response_content(response) == plain_response(draft) && copied_from(response, request)
}

/// The counts of an optional usage.
pub open spec fn usage_content_of(usage: Option<ResponsesUsage>) -> Option<UsageView> {
    match usage {
        Some(usage) => Some(usage_content(usage)),
        None => None,
    }
}

/// Calls `ResponseOutputItem::new_message`: a message of the given output texts.
#[verifier::external_body]
fn make_message(
    id: String,
    role: String,
    content: Vec<TextPart>,
    status: String,
) -> (res: ResponseOutputItem)
    ensures
        item_content(res) == (OutputItemView::Message {
            id: id@,
            role: role@,
            content: content.deep_view(),
            status: status@,
        }),
{
    let content = content.into_iter().map(|part| ResponseContentPart::OutputText {
        text: part.text,
        annotations: part.annotations,
        logprobs: part.logprobs,
    }).collect();
    ResponseOutputItem::new_message(id, role, content, status)
}

/// Calls `ResponseOutputItem::new_reasoning`: a reasoning item of the given texts.
#[verifier::external_body]
fn make_reasoning(
    id: String,
    summary: Vec<String>,
    content: Vec<String>,
    status: Option<String>,
) -> (res: ResponseOutputItem)
    ensures
        item_content(res) == (OutputItemView::Reasoning {
            id: id@,
            summary: summary.deep_view(),
            content: content.deep_view(),
            status: status.deep_view(),
        }),
{
    let content = content.into_iter().map(
        |text| ResponseReasoningContent::ReasoningText { text }).collect();
    ResponseOutputItem::new_reasoning(id, summary, content, status)
}

/// Calls `ResponseOutputItem::new_function_tool_call`: the given function call.
#[verifier::external_body]
fn make_function_call(call: FunctionCall) -> (res: ResponseOutputItem)
    ensures
        item_content(res) == OutputItemView::FunctionCall(call.deep_view()),
{
    ResponseOutputItem::new_function_tool_call(
        call.id, call.call_id, call.name, call.arguments, call.output, call.status)
}

/// The output item as `openai_protocol` holds it.
fn make_item(item: OutputItem) -> (res: ResponseOutputItem)
    ensures
        item_content(res) == item.deep_view(),
{
    match item {
        OutputItem::Message { id, role, content, status } => make_message(
            id,
            role,
            content,
            status,
        ),
        OutputItem::Reasoning { id, summary, content, status } => make_reasoning(
            id,
            summary,
            content,
            status,
        ),
        OutputItem::FunctionCall(call) => make_function_call(call),
    }
}

/// Makes a `ResponsesUsage::Classic` of the given counts.
#[verifier::external_body]
fn make_classic_usage(usage: UsageInfo) -> (res: ResponsesUsage)
    ensures
        usage_content(res) == UsageView::Classic(usage),
{
    ResponsesUsage::Classic(openai_protocol::common::UsageInfo {
        prompt_tokens: usage.prompt_tokens,
        completion_tokens: usage.completion_tokens,
        total_tokens: usage.total_tokens,
        reasoning_tokens: usage.reasoning_tokens,
        prompt_tokens_details: usage.cached_tokens.map(
            |cached_tokens| PromptTokenUsageInfo { cached_tokens }),
    })
}

/// Calls `ResponsesResponse::builder` and on it `copy_from_request`, `created_at`, `status`,
/// `output`, `maybe_usage` and `build`: the response holds the given values, of the fields that the
/// builder copies from a request what the given one says, and for the rest what the builder starts
/// with, which is `response` for the object and nothing for the others.
#[verifier::external_body]
fn make_response(
    id: &str,
    model: &str,
    request: &ResponsesRequest,
    created_at: i64,
    status: ResponseStatus,
    output: Vec<ResponseOutputItem>,
    usage: Option<ResponsesUsage>,
) -> (res: ResponsesResponse)
    ensures
        response_content(res) == plain_response(
            DraftView {
                id: id@,
                model: model@,
                created_at,
                status,
                output: output@.map_values(|item: ResponseOutputItem| item_content(item)),
                usage: usage_content_of(usage),
            },
        ),
        copied_from(res, *request),
{
    let builder = ResponsesResponse::builder(id, model).copy_from_request(request);
    let status = match status {
        ResponseStatus::InProgress => openai_protocol::responses::ResponseStatus::InProgress,
        ResponseStatus::Completed => openai_protocol::responses::ResponseStatus::Completed,
        ResponseStatus::Failed => openai_protocol::responses::ResponseStatus::Failed,
    };
    builder.created_at(created_at).status(status).output(output).maybe_usage(usage).build()
}

/// The response made of a draft and the request it answers.
pub fn build_response(draft: ResponseDraft, request: &ResponsesRequest) -> (res: ResponsesResponse)
    ensures
        answers(res, draft.deep_view(), *request),
{
    let ghost view = draft.deep_view();
    let mut output: Vec<ResponseOutputItem> = Vec::new();
    for item in it: draft.output
        invariant
            it.seq() == draft.output@,
            view.output == draft.output.deep_view(),
            output@.len() == it.index(),
            forall|i: int|
                0 <= i < output@.len() ==> item_content(#[trigger] output@[i]) == view.output[i],
    {
        output.push(make_item(item));
        proof {
            assert(view.output[it.index()] == item.deep_view());
        }
    }
    proof {
        assert(output@.map_values(|item: ResponseOutputItem| item_content(item)) =~= view.output);
    }
    let usage = match draft.usage {
        Some(usage) => Some(make_classic_usage(usage)),
        None => None,
    };
    make_response(
        draft.id.as_str(),
        draft.model.as_str(),
        request,
        draft.created_at,
        draft.status,
        output,
        usage,
    )
}

} // verus!
