//! What the event emitter of a streamed response is told.
use crate::chat::Usage;
use crate::json::{json_content, JsonView};
use crate::responses::ResponseStatus;
use openai_protocol::chat::ChatCompletionStreamResponse;
use serde_json::Value;
use vstd::prelude::*;

verus! {

/// An output item as its events show it.
#[derive(Debug)]
pub struct ItemRecord {
    pub id: String,
    pub item_type: String,
    pub call_id: Option<String>,
    pub name: String,
    pub status: String,
    pub arguments: String,
    pub server_label: Option<String>,
}

/// What an [`ItemRecord`] says.
pub struct ItemView {
    pub id: Seq<char>,
    pub item_type: Seq<char>,
    pub call_id: Option<Seq<char>>,
    pub name: Seq<char>,
    pub status: Seq<char>,
    pub arguments: Seq<char>,
    pub server_label: Option<Seq<char>>,
}

impl DeepView for ItemRecord {
    type V = ItemView;

    open spec fn deep_view(&self) -> ItemView {
        ItemView {
            id: self.id@,
            item_type: self.item_type@,
            call_id: self.call_id.deep_view(),
            name: self.name@,
            status: self.status@,
            arguments: self.arguments@,
            server_label: self.server_label.deep_view(),
        }
    }
}

/// The item of a function call.
pub open spec fn function_item(
    id: Seq<char>,
    call_id: Seq<char>,
    name: Seq<char>,
    status: Seq<char>,
    arguments: Seq<char>,
) -> ItemView {
    ItemView {
        id,
        item_type: "function_call"@,
        call_id: Some(call_id),
        name,
        status,
        arguments,
        server_label: None,
    }
}

/// The item of a function call.
pub fn function_record(id: &str, call_id: &str, name: &str, status: &str, arguments: &str) -> (res:
    ItemRecord)
    ensures
        res.deep_view() == function_item(id@, call_id@, name@, status@, arguments@),
{
    ItemRecord {
        id: id.to_owned(),
        item_type: "function_call".to_owned(),
        call_id: Some(call_id.to_owned()),
        name: name.to_owned(),
        status: status.to_owned(),
        arguments: arguments.to_owned(),
        server_label: None,
    }
}

/// The place that the emitter gave an output item.
#[derive(Debug)]
pub struct OutputSlot {
    pub output_index: usize,
    pub item_id: String,
}

/// What an [`OutputSlot`] says.
pub struct SlotView {
    pub output_index: usize,
    pub item_id: Seq<char>,
}

impl DeepView for OutputSlot {
    type V = SlotView;

    open spec fn deep_view(&self) -> SlotView {
        SlotView { output_index: self.output_index, item_id: self.item_id@ }
    }
}

/// Token counts as the `response.completed` event reports them.
#[derive(Clone, Copy, Debug, PartialEq, Eq)]
pub struct UsageReport {
    pub input_tokens: u32,
    pub output_tokens: u32,
    pub total_tokens: u32,
    pub reasoning_tokens: Option<u32>,
}

/// The counts without detail.
pub open spec fn plain_report(usage: Usage) -> UsageReport {
    UsageReport {
        input_tokens: usage.prompt_tokens,
        output_tokens: usage.completion_tokens,
        total_tokens: usage.total_tokens,
        reasoning_tokens: None,
    }
}

/// The counts with the reasoning tokens, where they are counted.
pub open spec fn detailed_report(usage: Usage) -> UsageReport {
    UsageReport { reasoning_tokens: usage.reasoning(), ..plain_report(usage) }
}

/// The counts of an optional usage, without detail.
pub open spec fn plain_report_of(usage: Option<Usage>) -> Option<UsageReport> {
    match usage {
        Some(usage) => Some(plain_report(usage)),
        None => None,
    }
}

/// The counts of an optional usage, with the reasoning tokens where they are counted.
pub open spec fn detailed_report_of(usage: Option<Usage>) -> Option<UsageReport> {
    match usage {
        Some(usage) => Some(detailed_report(usage)),
        None => None,
    }
}

/// The counts without detail.
pub fn report_plain_usage(usage: &Option<Usage>) -> (res: Option<UsageReport>)
    ensures
        res == plain_report_of(*usage),
{
    match usage {
        Some(usage) => Some(
            UsageReport {
                input_tokens: usage.prompt_tokens,
                output_tokens: usage.completion_tokens,
                total_tokens: usage.total_tokens,
                reasoning_tokens: None,
            },
        ),
        None => None,
    }
}

/// The counts with the reasoning tokens, where they are counted.
pub fn report_usage(usage: &Option<Usage>) -> (res: Option<UsageReport>)
    ensures
        res == detailed_report_of(*usage),
{
    match usage {
        Some(usage) => Some(
            UsageReport {
                input_tokens: usage.prompt_tokens,
                output_tokens: usage.completion_tokens,
                total_tokens: usage.total_tokens,
                reasoning_tokens: usage.reasoning_tokens(),
            },
        ),
        None => None,
    }
}

/// One thing that the event emitter is told while a response is streamed.
#[derive(Debug)]
pub enum StreamEvent {
    /// The `response.created` event.
    Created,
    /// The `response.in_progress` event.
    InProgress,
    /// The events that the emitter derives from a chat chunk.
    Chunk(ChatCompletionStreamResponse),
    /// A payload that is passed on as it came.
    RawJson(String),
    /// An output item that starts.
    OutputItemAdded { output_index: usize, item: ItemRecord },
    /// A piece of the arguments of a function call.
    FunctionCallArgumentsDelta { output_index: usize, item_id: String, delta: String },
    /// The whole arguments of a function call.
    FunctionCallArgumentsDone { output_index: usize, item_id: String, arguments: String },
    /// An output item that is complete.
    OutputItemDone { output_index: usize, item: ItemRecord },
    /// No event: the emitter closes an output item.
    CompleteOutputItem { output_index: usize },
    /// The list of the tools of one MCP server.
    McpListTools { server: usize },
    /// A tool call that starts to run.
    ToolCallInProgress { output_index: usize, item_id: String },
    /// A piece of the arguments of an MCP call.
    McpCallArgumentsDelta { output_index: usize, item_id: String, delta: String },
    /// The whole arguments of an MCP call.
    McpCallArgumentsDone { output_index: usize, item_id: String, arguments: String },
    /// The search event of a tool, for a tool that has one.
    ToolCallSearching { output_index: usize, item_id: String },
    /// A tool call that ended.
    ToolCallCompleted { output_index: usize, item_id: String },
    /// An MCP call that failed.
    McpCallFailed { output_index: usize, item_id: String, error: String },
    /// The output item of a tool call that is complete.
    ToolOutputDone { output_index: usize, output: Value },
    /// A reasoning item.
    ReasoningItem { text: String },
    /// The `response.completed` event; without a status it bears the emitter's own.
    Completed {
        status: Option<ResponseStatus>,
        usage: Option<UsageReport>,
        incomplete_reason: Option<String>,
    },
}

/// What a [`StreamEvent`] says.
pub enum StreamEventView {
    Created,
    InProgress,
    Chunk(ChatCompletionStreamResponse),
    RawJson(Seq<char>),
    OutputItemAdded { output_index: usize, item: ItemView },
    FunctionCallArgumentsDelta { output_index: usize, item_id: Seq<char>, delta: Seq<char> },
    FunctionCallArgumentsDone { output_index: usize, item_id: Seq<char>, arguments: Seq<char> },
    OutputItemDone { output_index: usize, item: ItemView },
    CompleteOutputItem { output_index: usize },
    McpListTools { server: usize },
    ToolCallInProgress { output_index: usize, item_id: Seq<char> },
    McpCallArgumentsDelta { output_index: usize, item_id: Seq<char>, delta: Seq<char> },
    McpCallArgumentsDone { output_index: usize, item_id: Seq<char>, arguments: Seq<char> },
    ToolCallSearching { output_index: usize, item_id: Seq<char> },
    ToolCallCompleted { output_index: usize, item_id: Seq<char> },
    McpCallFailed { output_index: usize, item_id: Seq<char>, error: Seq<char> },
    ToolOutputDone { output_index: usize, output: JsonView },
    ReasoningItem { text: Seq<char> },
    Completed {
        status: Option<ResponseStatus>,
        usage: Option<UsageReport>,
        incomplete_reason: Option<Seq<char>>,
    },
}

impl DeepView for StreamEvent {
    type V = StreamEventView;

    open spec fn deep_view(&self) -> StreamEventView {
        match self {
            StreamEvent::Created => StreamEventView::Created,
            StreamEvent::InProgress => StreamEventView::InProgress,
            StreamEvent::Chunk(value) => StreamEventView::Chunk(*value),
            StreamEvent::RawJson(value) => StreamEventView::RawJson(value@),
            StreamEvent::OutputItemAdded { output_index, item } => {
                StreamEventView::OutputItemAdded {
                    output_index: *output_index,
                    item: item.deep_view(),
                }
            },
            StreamEvent::FunctionCallArgumentsDelta { output_index, item_id, delta } => {
                StreamEventView::FunctionCallArgumentsDelta {
                    output_index: *output_index,
                    item_id: item_id@,
                    delta: delta@,
                }
            },
            StreamEvent::FunctionCallArgumentsDone { output_index, item_id, arguments } => {
                StreamEventView::FunctionCallArgumentsDone {
                    output_index: *output_index,
                    item_id: item_id@,
                    arguments: arguments@,
                }
            },
            StreamEvent::OutputItemDone { output_index, item } => StreamEventView::OutputItemDone {
                output_index: *output_index,
                item: item.deep_view(),
            },
            StreamEvent::CompleteOutputItem { output_index } => {
                StreamEventView::CompleteOutputItem {
                    output_index: *output_index,
                }
            },
            StreamEvent::McpListTools { server } => StreamEventView::McpListTools {
                server: *server,
            },
            StreamEvent::ToolCallInProgress { output_index, item_id } => {
                StreamEventView::ToolCallInProgress {
                    output_index: *output_index,
                    item_id: item_id@,
                }
            },
            StreamEvent::McpCallArgumentsDelta { output_index, item_id, delta } => {
                StreamEventView::McpCallArgumentsDelta {
                    output_index: *output_index,
                    item_id: item_id@,
                    delta: delta@,
                }
            },
            StreamEvent::McpCallArgumentsDone { output_index, item_id, arguments } => {
                StreamEventView::McpCallArgumentsDone {
                    output_index: *output_index,
                    item_id: item_id@,
                    arguments: arguments@,
                }
            },
            StreamEvent::ToolCallSearching { output_index, item_id } => {
                StreamEventView::ToolCallSearching {
                    output_index: *output_index,
                    item_id: item_id@,
                }
            },
            StreamEvent::ToolCallCompleted { output_index, item_id } => {
                StreamEventView::ToolCallCompleted {
                    output_index: *output_index,
                    item_id: item_id@,
                }
            },
            StreamEvent::McpCallFailed { output_index, item_id, error } => {
                StreamEventView::McpCallFailed {
                    output_index: *output_index,
                    item_id: item_id@,
                    error: error@,
                }
            },
            StreamEvent::ToolOutputDone { output_index, output } => {
                StreamEventView::ToolOutputDone {
                    output_index: *output_index,
                    output: json_content(*output),
                }
            },
            StreamEvent::ReasoningItem { text } => StreamEventView::ReasoningItem {
                text: text@,
            },
            StreamEvent::Completed { status, usage, incomplete_reason } => {
                StreamEventView::Completed {
                    status: *status,
                    usage: *usage,
                    incomplete_reason: incomplete_reason.deep_view(),
                }
            },
        }
    }
}

/// The counts that are reported are those of the usage; the reasoning tokens are reported where
/// they are asked for and were counted.
pub proof fn law_reports_bear_the_counts(usage: Usage)
    ensures
        plain_report_of(Some(usage)) == Some(
            UsageReport {
                input_tokens: usage.prompt_tokens,
                output_tokens: usage.completion_tokens,
                total_tokens: usage.total_tokens,
                reasoning_tokens: None,
            },
        ),
        detailed_report_of(Some(usage)) matches Some(report) && report.input_tokens
            == usage.prompt_tokens && report.output_tokens == usage.completion_tokens
            && report.total_tokens == usage.total_tokens && report.reasoning_tokens == (
        if usage.completion_details is Some {
            usage.completion_details->0.reasoning_tokens
        } else {
            None
        }),
        plain_report_of(None) is None,
        detailed_report_of(None) is None,
{
}

/// The item of a function call bears what it is made of, and belongs to no server.
pub proof fn law_function_items_bear_their_parts(
    id: Seq<char>,
    call_id: Seq<char>,
    name: Seq<char>,
    status: Seq<char>,
    arguments: Seq<char>,
)
    ensures
        function_item(id, call_id, name, status, arguments).id == id,
        function_item(id, call_id, name, status, arguments).call_id == Some(call_id),
        function_item(id, call_id, name, status, arguments).name == name,
        function_item(id, call_id, name, status, arguments).status == status,
        function_item(id, call_id, name, status, arguments).arguments == arguments,
        function_item(id, call_id, name, status, arguments).item_type == "function_call"@,
        function_item(id, call_id, name, status, arguments).server_label is None,
{
}

} // verus!
