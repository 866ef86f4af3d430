//! The tool loop: rounds of chat completions, between which the tools of MCP servers are run.
//!
//! The loop is advanced step by step: whoever drives it performs the action of a step and reports
//! what came of it. Function calls that no MCP server takes end the loop; they are left to the
//! client.
use crate::chat::Usage;
use crate::chat_stream::{chat_went, ChatNext, ChatProgress, ChatStream, ChatStreamView};
use crate::completion::{build_completion, completion_content, CompletionView};
use crate::events::{
    function_item, function_record, plain_report_of, report_plain_usage, ItemRecord, ItemView,
    OutputSlot, SlotView, StreamEvent, StreamEventView,
};
use crate::function_calls::emit;
use crate::json::{
    content_of, dispatch_arguments, empty_object, json_content, json_of_text, object_or_empty,
    put_text, JsonView,
};
use crate::responses::{read_request, request_content, ResponseStatus};
use crate::stream::{deliver_one, StreamAction, StreamActionView, StreamInput, StreamInputView};
use crate::text::{decimal, decimal_of, join};
use openai_protocol::chat::ChatCompletionResponse;
use openai_protocol::responses::{ResponsesRequest, ResponsesResponse};
use serde_json::Value;
use vstd::prelude::*;

verus! {

/// A tool call that a completion asks for.
#[derive(Debug)]
pub struct ExtractedToolCall {
    pub call_id: String,
    pub name: String,
    pub arguments: String,
    /// Whether one of the MCP servers offers a tool of that name.
    pub exposed: bool,
}

/// What an [`ExtractedToolCall`] says.
pub struct ExtractedCallView {
    pub call_id: Seq<char>,
    pub name: Seq<char>,
    pub arguments: Seq<char>,
    pub exposed: bool,
}

impl DeepView for ExtractedToolCall {
    type V = ExtractedCallView;

    open spec fn deep_view(&self) -> ExtractedCallView {
        ExtractedCallView {
            call_id: self.call_id@,
            name: self.name@,
            arguments: self.arguments@,
            exposed: self.exposed,
        }
    }
}

/// How the call of an MCP tool is shown.
#[derive(Debug)]
pub struct PreparedCall {
    pub slot: OutputSlot,
    pub item_type: String,
    pub server_label: String,
    /// Whether the call is shown as it is, and not as that of a built-in tool.
    pub passthrough: bool,
}

/// What a [`PreparedCall`] says.
pub struct PreparedView {
    pub slot: SlotView,
    pub item_type: Seq<char>,
    pub server_label: Seq<char>,
    pub passthrough: bool,
}

impl DeepView for PreparedCall {
    type V = PreparedView;

    open spec fn deep_view(&self) -> PreparedView {
        PreparedView {
            slot: self.slot.deep_view(),
            item_type: self.item_type@,
            server_label: self.server_label@,
            passthrough: self.passthrough,
        }
    }
}

/// What a tool returned.
#[derive(Debug)]
pub struct ToolOutcome {
    pub is_error: bool,
    pub error_message: Option<String>,
    pub output: String,
    /// The output item that is made of the output, where it has a JSON form.
    pub item: Option<Value>,
}

/// What a [`ToolOutcome`] says.
pub struct ToolOutcomeView {
    pub is_error: bool,
    pub error_message: Option<Seq<char>>,
    pub output: Seq<char>,
    pub item: Option<JsonView>,
}

impl DeepView for ToolOutcome {
    type V = ToolOutcomeView;

    open spec fn deep_view(&self) -> ToolOutcomeView {
        ToolOutcomeView {
            is_error: self.is_error,
            error_message: self.error_message.deep_view(),
            output: self.output@,
            item: content_of(self.item),
        }
    }
}

impl ToolOutcomeView {
    /// Why the tool failed: what it says of it, or else its output.
    pub open spec fn error_text(self) -> Seq<char> {
        match self.error_message {
            Some(message) => message,
            None => self.output,
        }
    }
}

/// The output item of a tool call as it is told: what is made of the tool's output, or else an item
/// of the given type with nothing but its status. It bears the identifier that it was announced
/// with.
pub open spec fn shown_output(
    item: Option<JsonView>,
    is_error: bool,
    item_id: Seq<char>,
    item_type: Seq<char>,
) -> JsonView {
    let shown = match item {
        Some(item) => item,
        None => JsonView::Object(Map::empty()).with_text("type"@, item_type).with_text(
            "status"@,
            if is_error {
                "failed"@
            } else {
                "completed"@
            },
        ),
    };
    shown.with_text("id"@, item_id)
}

/// What came of an action.
#[derive(Debug)]
pub enum LoopInput {
    /// What came of an action on the event sink, the body of a chat completion or the emitter.
    Stream(StreamInput),
    /// The round was counted.
    Counted,
    /// The chat completion was started.
    ChatStarted,
    /// The request could not be converted for a chat completion, for the given reason.
    ConversionFailed(String),
    /// The tool calls that the completion asks for.
    Calls(Vec<ExtractedToolCall>),
    /// How the call is shown.
    Prepared(PreparedCall),
    /// What the tool returned.
    ToolDone(ToolOutcome),
    /// The call was recorded for the next round.
    Recorded,
    /// The response as the emitter holds it.
    Finalized(ResponsesResponse),
}

/// What a [`LoopInput`] says.
pub enum LoopInputView {
    Stream(StreamInputView),
    Counted,
    ChatStarted,
    ConversionFailed(Seq<char>),
    Calls(Seq<ExtractedCallView>),
    Prepared(PreparedView),
    ToolDone(ToolOutcomeView),
    Recorded,
    Finalized(ResponsesResponse),
}

impl DeepView for LoopInput {
    type V = LoopInputView;

    open spec fn deep_view(&self) -> LoopInputView {
        match self {
            LoopInput::Stream(input) => LoopInputView::Stream(input.deep_view()),
            LoopInput::Counted => LoopInputView::Counted,
            LoopInput::ChatStarted => LoopInputView::ChatStarted,
            LoopInput::ConversionFailed(reason) => LoopInputView::ConversionFailed(reason@),
            LoopInput::Calls(calls) => LoopInputView::Calls(calls.deep_view()),
            LoopInput::Prepared(prepared) => LoopInputView::Prepared(prepared.deep_view()),
            LoopInput::ToolDone(outcome) => LoopInputView::ToolDone(outcome.deep_view()),
            LoopInput::Recorded => LoopInputView::Recorded,
            LoopInput::Finalized(response) => LoopInputView::Finalized(*response),
        }
    }
}

/// What to do next.
#[derive(Debug)]
pub enum LoopAction {
    /// An action on the event sink, the body of a chat completion or the emitter.
    Stream(StreamAction),
    /// Count a round.
    CountRound,
    /// Start a chat completion. Where it continues a round before, its request is built from the
    /// calls that were recorded.
    StartChat { iteration: usize, continues: bool },
    /// Find the tool calls that a completion asks for.
    Extract(ChatCompletionResponse),
    /// Find out how the call of a tool is shown, and take an output slot for it.
    Prepare { name: String },
    /// Run a tool.
    Execute { call_id: String, name: String, arguments: String },
    /// Record the call for the next round.
    Record { success: bool },
    /// Have the emitter make the response, without a status with its own.
    Finalize {
        status: Option<ResponseStatus>,
        usage: Option<Usage>,
        incomplete_reason: Option<String>,
    },
}

/// What a [`LoopAction`] says.
pub enum LoopActionView {
    Stream(StreamActionView),
    CountRound,
    StartChat { iteration: usize, continues: bool },
    Extract(CompletionView),
    Prepare { name: Seq<char> },
    Execute { call_id: Seq<char>, name: Seq<char>, arguments: Seq<char> },
    Record { success: bool },
    Finalize {
        status: Option<ResponseStatus>,
        usage: Option<Usage>,
        incomplete_reason: Option<Seq<char>>,
    },
}

impl DeepView for LoopAction {
    type V = LoopActionView;

    open spec fn deep_view(&self) -> LoopActionView {
        match self {
            LoopAction::Stream(action) => LoopActionView::Stream(action.deep_view()),
            LoopAction::CountRound => LoopActionView::CountRound,
            LoopAction::StartChat { iteration, continues } => LoopActionView::StartChat {
                iteration: *iteration,
                continues: *continues,
            },
            LoopAction::Extract(completion) => LoopActionView::Extract(
                completion_content(*completion),
            ),
            LoopAction::Prepare { name } => LoopActionView::Prepare { name: name@ },
            LoopAction::Execute { call_id, name, arguments } => LoopActionView::Execute {
                call_id: call_id@,
                name: name@,
                arguments: arguments@,
            },
            LoopAction::Record { success } => LoopActionView::Record { success: *success },
            LoopAction::Finalize { status, usage, incomplete_reason } => LoopActionView::Finalize {
                status: *status,
                usage: *usage,
                incomplete_reason: incomplete_reason.deep_view(),
            },
        }
    }
}

/// Where a tool loop stands: what it waits for.
pub enum LoopStage {
    /// That `response.created` is sent.
    SendingCreated,
    /// That `response.in_progress` is sent.
    SendingInProgress,
    /// That a round is counted.
    CountingRound,
    /// That the tools of the servers are listed.
    ListingTools,
    /// That a chat completion starts.
    Starting,
    /// What a chat completion waits for.
    Chatting(ChatStream),
    /// The tool calls of the completion.
    Extracting,
    /// How the next call is shown.
    Preparing,
    /// That the next call is announced.
    Announcing(PreparedCall),
    /// What the tool returns.
    Executing(PreparedCall),
    /// That the end of a call is told.
    Reporting { success: bool },
    /// That a call is recorded.
    Recording,
    /// Output slots for the function calls.
    Allocating,
    /// That the function calls and the completion are told.
    SendingCalls,
    /// That the completion is told.
    SendingFinal,
    /// The response.
    Finalizing,
    /// The response of a loop that reached its limit of tool calls.
    FinalizingLimit,
    /// That the completion of a loop that reached its limit is told.
    SendingLimit(ResponsesResponse),
}

/// What a [`LoopStage`] says.
pub enum LoopStageView {
    SendingCreated,
    SendingInProgress,
    CountingRound,
    ListingTools,
    Starting,
    Chatting(ChatStreamView),
    Extracting,
    Preparing,
    Announcing(PreparedView),
    Executing(PreparedView),
    Reporting { success: bool },
    Recording,
    Allocating,
    SendingCalls,
    SendingFinal,
    Finalizing,
    FinalizingLimit,
    SendingLimit(ResponsesResponse),
}

impl LoopStage {
    /// What the stage says.
    pub open spec fn says(self) -> LoopStageView {
        match self {
            LoopStage::SendingCreated => LoopStageView::SendingCreated,
            LoopStage::SendingInProgress => LoopStageView::SendingInProgress,
            LoopStage::CountingRound => LoopStageView::CountingRound,
            LoopStage::ListingTools => LoopStageView::ListingTools,
            LoopStage::Starting => LoopStageView::Starting,
            LoopStage::Chatting(stream) => LoopStageView::Chatting(stream@),
            LoopStage::Extracting => LoopStageView::Extracting,
            LoopStage::Preparing => LoopStageView::Preparing,
            LoopStage::Announcing(prepared) => LoopStageView::Announcing(prepared.deep_view()),
            LoopStage::Executing(prepared) => LoopStageView::Executing(prepared.deep_view()),
            LoopStage::Reporting { success } => LoopStageView::Reporting { success },
            LoopStage::Recording => LoopStageView::Recording,
            LoopStage::Allocating => LoopStageView::Allocating,
            LoopStage::SendingCalls => LoopStageView::SendingCalls,
            LoopStage::SendingFinal => LoopStageView::SendingFinal,
            LoopStage::Finalizing => LoopStageView::Finalizing,
            LoopStage::FinalizingLimit => LoopStageView::FinalizingLimit,
            LoopStage::SendingLimit(response) => LoopStageView::SendingLimit(response),
        }
    }
}

/// What a tool loop remembers.
pub struct LoopMemo {
    pub max_iterations: usize,
    pub max_tool_calls: Option<u32>,
    pub servers: usize,
    pub iteration: usize,
    pub total_calls: usize,
    pub usage: Option<Usage>,
    pub reasoning: Option<String>,
    pub mcp_calls: Vec<ExtractedToolCall>,
    pub function_calls: Vec<ExtractedToolCall>,
}

/// What a [`LoopMemo`] says.
pub struct MemoView {
    pub max_iterations: usize,
    pub max_tool_calls: Option<u32>,
    pub servers: usize,
    /// The round that runs, counted from one.
    pub iteration: usize,
    /// The tool calls that were begun.
    pub total_calls: usize,
    /// The usage of the last completion.
    pub usage: Option<Usage>,
    /// The reasoning of the last completion.
    pub reasoning: Option<Seq<char>>,
    /// The calls of MCP tools that are not done yet.
    pub mcp_calls: Seq<ExtractedCallView>,
    /// The calls that are left to the client.
    pub function_calls: Seq<ExtractedCallView>,
}

impl View for LoopMemo {
    type V = MemoView;

    open spec fn view(&self) -> MemoView {
        MemoView {
            max_iterations: self.max_iterations,
            max_tool_calls: self.max_tool_calls,
            servers: self.servers,
            iteration: self.iteration,
            total_calls: self.total_calls,
            usage: self.usage,
            reasoning: self.reasoning.deep_view(),
            mcp_calls: self.mcp_calls.deep_view(),
            function_calls: self.function_calls.deep_view(),
        }
    }
}

/// A tool loop.
pub struct ToolLoop {
    pub stage: LoopStage,
    pub memo: LoopMemo,
}

/// What a [`ToolLoop`] holds.
pub struct LoopView {
    pub stage: LoopStageView,
    pub memo: MemoView,
}

impl View for ToolLoop {
    type V = LoopView;

    open spec fn view(&self) -> LoopView {
        LoopView { stage: self.stage.says(), memo: self.memo@ }
    }
}

/// What becomes of a tool loop in a step.
pub enum LoopNext {
    /// It goes on, with the given action.
    Running(LoopView, LoopActionView),
    /// It ends with a response, which is to be persisted.
    Finished(ResponsesResponse),
    /// It ends with an error.
    Failed(Seq<char>),
}

/// What became of a tool loop in a step.
pub enum LoopProgress {
    /// It goes on, with the given action.
    Running(ToolLoop, LoopAction),
    /// It ends with a response, which is to be persisted.
    Finished(ResponsesResponse),
    /// It ends with an error.
    Failed(String),
}

/// A step went as described.
pub open spec fn loop_went(progress: LoopProgress, next: LoopNext) -> bool {
    match (progress, next) {
        (LoopProgress::Running(tool_loop, action), LoopNext::Running(view, wanted)) => {
            &&& tool_loop.valid()
            &&& tool_loop@ == view
            &&& action.deep_view() == wanted
        },
        (LoopProgress::Finished(response), LoopNext::Finished(wanted)) => response == wanted,
        (LoopProgress::Failed(error), LoopNext::Failed(wanted)) => error@ == wanted,
        _ => false,
    }
}

/// The action that sends events.
pub open spec fn deliver(events: Seq<StreamEventView>) -> LoopActionView {
    LoopActionView::Stream(StreamActionView::Deliver(events))
}

/// The item that announces the call of an MCP tool.
pub open spec fn tool_item(prepared: PreparedView, name: Seq<char>) -> ItemView {
    ItemView {
        id: prepared.slot.item_id,
        item_type: prepared.item_type,
        call_id: None,
        name,
        status: "in_progress"@,
        arguments: ""@,
        server_label: Some(prepared.server_label),
    }
}

/// What is told before a tool runs.
pub open spec fn announcing_events(
    prepared: PreparedView,
    call: ExtractedCallView,
) -> Seq<StreamEventView> {
    let output_index = prepared.slot.output_index;
    let item_id = prepared.slot.item_id;
    let argued = if prepared.passthrough {
        seq![
            StreamEventView::McpCallArgumentsDelta { output_index, item_id, delta: call.arguments },
            StreamEventView::McpCallArgumentsDone {
                output_index,
                item_id,
                arguments: call.arguments,
            },
        ]
    } else {
        seq![]
    };
    seq![
        StreamEventView::OutputItemAdded { output_index, item: tool_item(prepared, call.name) },
        StreamEventView::ToolCallInProgress { output_index, item_id },
    ] + argued + seq![StreamEventView::ToolCallSearching { output_index, item_id }]
}

/// What is told after a tool ran. Only a call that is shown as it is is told to have failed.
pub open spec fn reporting_events(
    prepared: PreparedView,
    outcome: ToolOutcomeView,
) -> Seq<StreamEventView> {
    let output_index = prepared.slot.output_index;
    let item_id = prepared.slot.item_id;
    seq![
        if outcome.is_error && prepared.passthrough {
            StreamEventView::McpCallFailed { output_index, item_id, error: outcome.error_text() }
        } else {
            StreamEventView::ToolCallCompleted { output_index, item_id }
        },
        StreamEventView::ToolOutputDone {
            output_index,
            output: shown_output(outcome.item, outcome.is_error, item_id, prepared.item_type),
        },
        StreamEventView::CompleteOutputItem { output_index },
    ]
}

/// What is told of a function call that is left to the client.
pub open spec fn call_events(call: ExtractedCallView, slot: SlotView) -> Seq<StreamEventView> {
    let output_index = slot.output_index;
    let item_id = slot.item_id;
    seq![
        StreamEventView::OutputItemAdded {
            output_index,
            item: function_item(item_id, call.call_id, call.name, "in_progress"@, ""@),
        },
        StreamEventView::FunctionCallArgumentsDelta {
            output_index,
            item_id,
            delta: call.arguments,
        },
        StreamEventView::FunctionCallArgumentsDone {
            output_index,
            item_id,
            arguments: call.arguments,
        },
        StreamEventView::OutputItemDone {
            output_index,
            item: function_item(item_id, call.call_id, call.name, "completed"@, call.arguments),
        },
        StreamEventView::CompleteOutputItem { output_index },
    ]
}

/// What is told of several function calls, one after the other.
pub open spec fn all_call_events(
    calls: Seq<ExtractedCallView>,
    slots: Seq<SlotView>,
) -> Seq<StreamEventView>
    decreases calls.len(),
{
    if calls.len() == 0 {
        seq![]
    } else {
        all_call_events(calls.drop_last(), slots) + call_events(
            calls.last(),
            slots[calls.len() - 1],
        )
    }
}

/// The list of the tools of every server, in order.
pub open spec fn list_events(servers: usize) -> Seq<StreamEventView> {
    Seq::new(servers as nat, |i: int| StreamEventView::McpListTools { server: i as usize })
}

impl MemoView {
    /// How many tool calls may be made.
    pub open spec fn limit(self) -> int {
        match self.max_tool_calls {
            Some(max) => if max <= self.max_iterations {
                max as int
            } else {
                self.max_iterations as int
            },
            None => self.max_iterations as int,
        }
    }

    /// The loop is within its limits.
    pub open spec fn within(self) -> bool {
        self.iteration <= self.max_iterations && self.total_calls <= self.limit()
    }

    /// The event that tells of the completion.
    pub open spec fn completed_event(
        self,
        status: Option<ResponseStatus>,
        incomplete_reason: Option<Seq<char>>,
    ) -> StreamEventView {
        StreamEventView::Completed { status, usage: plain_report_of(self.usage), incomplete_reason }
    }

    /// The step to the next round. It is counted first, even where it is one too many.
    pub open spec fn next_round(self) -> LoopNext {
        LoopNext::Running(
            LoopView { stage: LoopStageView::CountingRound, memo: self },
            LoopActionView::CountRound,
        )
    }

    /// The step that starts a round, or fails where there were too many. The tools are listed in
    /// the first.
    pub open spec fn start_round(self) -> LoopNext {
        if self.iteration >= self.max_iterations {
            LoopNext::Failed(
                "Tool loop exceeded maximum iterations ("@ + decimal(self.max_iterations as nat)
                    + ")"@,
            )
        } else {
            let memo = MemoView { iteration: (self.iteration + 1) as usize, ..self };
            if self.iteration == 0 {
                LoopNext::Running(
                    LoopView { stage: LoopStageView::ListingTools, memo },
                    deliver(list_events(self.servers)),
                )
            } else {
                memo.start_chat()
            }
        }
    }

    /// The step that starts a chat completion.
    pub open spec fn start_chat(self) -> LoopNext {
        LoopNext::Running(
            LoopView { stage: LoopStageView::Starting, memo: self },
            LoopActionView::StartChat {
                iteration: self.iteration,
                continues: self.iteration > 1,
            },
        )
    }

    /// The step that follows a step of the chat completion.
    pub open spec fn chatted(self, next: ChatNext) -> LoopNext {
        match next {
            ChatNext::Running(stream, action) => LoopNext::Running(
                LoopView { stage: LoopStageView::Chatting(stream), memo: self },
                LoopActionView::Stream(action),
            ),
            ChatNext::Finished(completion) => LoopNext::Running(
                LoopView {
                    stage: LoopStageView::Extracting,
                    memo: MemoView {
                        usage: completion.usage,
                        reasoning: completion.reasoning(),
                        ..self
                    },
                },
                LoopActionView::Extract(completion),
            ),
            ChatNext::Failed(error) => LoopNext::Failed(error),
        }
    }

    /// The step that the tool calls of a completion cause. Without any the loop ends; too many of
    /// MCP tools end it too.
    pub open spec fn called(self, calls: Seq<ExtractedCallView>) -> LoopNext {
        let mcp_calls = calls.filter(|call: ExtractedCallView| call.exposed);
        if calls.len() == 0 {
            let reasoned = match self.reasoning {
                Some(text) => if text.len() > 0 {
                    seq![StreamEventView::ReasoningItem { text }]
                } else {
                    seq![]
                },
                None => seq![],
            };
            LoopNext::Running(
                LoopView { stage: LoopStageView::SendingFinal, memo: self },
                deliver(reasoned + seq![self.completed_event(None, None)]),
            )
        } else if self.total_calls + mcp_calls.len() > self.limit() {
            LoopNext::Running(
                LoopView { stage: LoopStageView::FinalizingLimit, memo: self },
                LoopActionView::Finalize {
                    status: Some(ResponseStatus::Completed),
                    usage: self.usage,
                    incomplete_reason: Some("max_tool_calls"@),
                },
            )
        } else {
            MemoView {
                mcp_calls,
                function_calls: calls.filter(|call: ExtractedCallView| !call.exposed),
                ..self
            }.next_call()
        }
    }

    /// The step to the next tool call. After the last one the function calls are told, and without
    /// any the next round starts.
    pub open spec fn next_call(self) -> LoopNext {
        if self.mcp_calls.len() > 0 {
            LoopNext::Running(
                LoopView {
                    stage: LoopStageView::Preparing,
                    memo: MemoView { total_calls: (self.total_calls + 1) as usize, ..self },
                },
                LoopActionView::Prepare { name: self.mcp_calls[0].name },
            )
        } else if self.function_calls.len() > 0 {
            LoopNext::Running(
                LoopView { stage: LoopStageView::Allocating, memo: self },
                LoopActionView::Stream(
                    StreamActionView::Allocate(self.function_calls.len() as int),
                ),
            )
        } else {
            self.next_round()
        }
    }

    /// The step that has the emitter make the response.
    pub open spec fn finalize(self, status: Option<ResponseStatus>) -> LoopNext {
        LoopNext::Running(
            LoopView { stage: LoopStageView::Finalizing, memo: self },
            LoopActionView::Finalize { status, usage: self.usage, incomplete_reason: None },
        )
    }
}

impl LoopView {
    /// The loop as it starts.
    pub open spec fn initial(
        max_iterations: usize,
        max_tool_calls: Option<u32>,
        servers: usize,
    ) -> LoopView {
        LoopView {
            stage: LoopStageView::SendingCreated,
            memo: MemoView {
                max_iterations,
                max_tool_calls,
                servers,
                iteration: 0,
                total_calls: 0,
                usage: None,
                reasoning: None,
                mcp_calls: seq![],
                function_calls: seq![],
            },
        }
    }

    /// A round has begun once the first was counted. The calls that are not done yet are within the
    /// limit, and there is one wherever a stage deals with it.
    pub open spec fn sound(self) -> bool {
        &&& self.memo.within()
        &&& self.stage is SendingCreated || self.stage is SendingInProgress ==> self.memo.iteration
            == 0
        &&& self.memo.iteration == 0 ==> self.stage is SendingCreated
            || self.stage is SendingInProgress || self.stage is CountingRound
        &&& match self.stage {
            LoopStageView::Preparing | LoopStageView::Announcing(_) | LoopStageView::Executing(_)
            | LoopStageView::Reporting { .. } | LoopStageView::Recording => {
                &&& self.memo.mcp_calls.len() > 0
                &&& self.memo.total_calls > 0
                &&& self.memo.total_calls + self.memo.mcp_calls.len() - 1 <= self.memo.limit()
            },
            _ => true,
        }
    }

    /// The inputs that a stage waits for.
    pub open spec fn expects(self, input: LoopInputView) -> bool {
        match self.stage {
            LoopStageView::CountingRound => input is Counted,
            LoopStageView::Starting => input is ChatStarted || input is ConversionFailed,
            LoopStageView::Chatting(stream) => input matches LoopInputView::Stream(input)
                && stream.expects(input),
            LoopStageView::Extracting => input is Calls,
            LoopStageView::Preparing => input is Prepared,
            LoopStageView::Executing(_) => input is ToolDone,
            LoopStageView::Recording => input is Recorded,
            LoopStageView::Allocating => input matches LoopInputView::Stream(
                StreamInputView::Slots(slots),
            ) && slots.len() == self.memo.function_calls.len(),
            LoopStageView::Finalizing | LoopStageView::FinalizingLimit => input is Finalized,
            _ => input matches LoopInputView::Stream(input) && (input is Delivered
                || input is DeliveryFailed),
        }
    }

    /// The step of a stage whose events were sent.
    pub open spec fn delivered(self) -> LoopNext {
        match self.stage {
            LoopStageView::SendingCreated => LoopNext::Running(
                LoopView { stage: LoopStageView::SendingInProgress, memo: self.memo },
                deliver(seq![StreamEventView::InProgress]),
            ),
            LoopStageView::SendingInProgress => self.memo.next_round(),
            LoopStageView::ListingTools => self.memo.start_chat(),
            LoopStageView::Announcing(prepared) => LoopNext::Running(
                LoopView { stage: LoopStageView::Executing(prepared), memo: self.memo },
                LoopActionView::Execute {
                    call_id: self.memo.mcp_calls[0].call_id,
                    name: self.memo.mcp_calls[0].name,
                    arguments: object_or_empty(
                        self.memo.mcp_calls[0].arguments,
                        json_of_text(self.memo.mcp_calls[0].arguments),
                    ),
                },
            ),
            LoopStageView::Reporting { success } => LoopNext::Running(
                LoopView { stage: LoopStageView::Recording, memo: self.memo },
                LoopActionView::Record { success },
            ),
            LoopStageView::SendingCalls => self.memo.finalize(Some(ResponseStatus::InProgress)),
            LoopStageView::SendingFinal => self.memo.finalize(None),
            LoopStageView::SendingLimit(response) => LoopNext::Finished(response),
            _ => LoopNext::Failed(seq![]),
        }
    }

    /// The step that an input causes.
    pub open spec fn step(self, input: LoopInputView) -> LoopNext {
        match (self.stage, input) {
            (LoopStageView::Chatting(stream), LoopInputView::Stream(input)) => self.memo.chatted(
                stream.step(input),
            ),
            (_, LoopInputView::Stream(StreamInputView::Slots(slots))) => LoopNext::Running(
                LoopView { stage: LoopStageView::SendingCalls, memo: self.memo },
                deliver(
                    all_call_events(self.memo.function_calls, slots).push(
                        self.memo.completed_event(Some(ResponseStatus::InProgress), None),
                    ),
                ),
            ),
            (_, LoopInputView::Stream(StreamInputView::DeliveryFailed(reason))) =>
                LoopNext::Failed(reason),
            (_, LoopInputView::Stream(_)) => self.delivered(),
            (_, LoopInputView::Counted) => self.memo.start_round(),
            (_, LoopInputView::ChatStarted) => self.memo.chatted(
                ChatNext::Running(ChatStreamView::initial(), StreamActionView::ReadBody),
            ),
            (_, LoopInputView::ConversionFailed(reason)) => LoopNext::Failed(
                "Failed to convert request: "@ + reason,
            ),
            (_, LoopInputView::Calls(calls)) => self.memo.called(calls),
            (_, LoopInputView::Prepared(prepared)) => LoopNext::Running(
                LoopView { stage: LoopStageView::Announcing(prepared), memo: self.memo },
                deliver(announcing_events(prepared, self.memo.mcp_calls[0])),
            ),
            (LoopStageView::Executing(prepared), LoopInputView::ToolDone(outcome)) =>
                LoopNext::Running(
                    LoopView {
                        stage: LoopStageView::Reporting { success: !outcome.is_error },
                        memo: self.memo,
                    },
                    deliver(reporting_events(prepared, outcome)),
                ),
            (_, LoopInputView::Recorded) => MemoView {
                mcp_calls: self.memo.mcp_calls.skip(1),
                ..self.memo
            }.next_call(),
            (LoopStageView::Finalizing, LoopInputView::Finalized(response)) => LoopNext::Finished(
                response,
            ),
            (_, LoopInputView::Finalized(response)) => LoopNext::Running(
                LoopView { stage: LoopStageView::SendingLimit(response), memo: self.memo },
                deliver(seq![self.memo.completed_event(None, Some("max_tool_calls"@))]),
            ),
            _ => LoopNext::Failed(seq![]),
        }
    }
}

/// The action that sends events.
fn send(events: Vec<StreamEvent>) -> (res: LoopAction)
    ensures
        res.deep_view() == deliver(events.deep_view()),
{
    LoopAction::Stream(StreamAction::Deliver(events))
}

/// Parts the calls that an MCP server takes from the others, each in their order.
pub fn partition_calls(calls: Vec<ExtractedToolCall>) -> (res: (
    Vec<ExtractedToolCall>,
    Vec<ExtractedToolCall>,
))
    ensures
        res.0.deep_view() == calls.deep_view().filter(|call: ExtractedCallView| call.exposed),
        res.1.deep_view() == calls.deep_view().filter(|call: ExtractedCallView| !call.exposed),
{
    let ghost all = calls.deep_view();
    let mut exposed: Vec<ExtractedToolCall> = Vec::new();
    let mut others: Vec<ExtractedToolCall> = Vec::new();
    proof {
        reveal(Seq::filter);
        assert(exposed.deep_view() =~= all.take(0).filter(|call: ExtractedCallView| call.exposed));
        assert(others.deep_view() =~= all.take(0).filter(|call: ExtractedCallView| !call.exposed));
    }
    for call in it: calls
        invariant
            it.seq() == calls@,
            all == calls.deep_view(),
            exposed.deep_view() == all.take(it.index()).filter(
                |call: ExtractedCallView| call.exposed,
            ),
            others.deep_view() == all.take(it.index()).filter(
                |call: ExtractedCallView| !call.exposed,
            ),
    {
        let ghost before = exposed.deep_view();
        let ghost apart = others.deep_view();
        let ghost view = call.deep_view();
        proof {
            reveal(Seq::filter);
            assert(all.take(it.index() + 1).drop_last() =~= all.take(it.index()));
            assert(all.take(it.index() + 1).last() == view);
        }
        if call.exposed {
            exposed.push(call);
            proof {
                assert(exposed.deep_view() =~= before.push(view));
            }
        } else {
            others.push(call);
            proof {
                assert(others.deep_view() =~= apart.push(view));
            }
        }
    }
    proof {
        assert(all.take(all.len() as int) =~= all);
    }
    (exposed, others)
}

/// What is told before a tool runs.
fn announce(prepared: &PreparedCall, call: &ExtractedToolCall) -> (res: Vec<StreamEvent>)
    ensures
        res.deep_view() == announcing_events(prepared.deep_view(), call.deep_view()),
{
    let mut events: Vec<StreamEvent> = Vec::new();
    let output_index: usize = prepared.slot.output_index;
    proof {
        assert(events.deep_view() =~= seq![]);
    }
    let item = ItemRecord {
        id: prepared.slot.item_id.clone(),
        item_type: prepared.item_type.clone(),
        call_id: None,
        name: call.name.clone(),
        status: "in_progress".to_owned(),
        arguments: "".to_owned(),
        server_label: Some(prepared.server_label.clone()),
    };
    emit(&mut events, StreamEvent::OutputItemAdded { output_index, item });
    emit(
        &mut events,
        StreamEvent::ToolCallInProgress { output_index, item_id: prepared.slot.item_id.clone() },
    );
    if prepared.passthrough {
        emit(
            &mut events,
            StreamEvent::McpCallArgumentsDelta {
                output_index,
                item_id: prepared.slot.item_id.clone(),
                delta: call.arguments.clone(),
            },
        );
        emit(
            &mut events,
            StreamEvent::McpCallArgumentsDone {
                output_index,
                item_id: prepared.slot.item_id.clone(),
                arguments: call.arguments.clone(),
            },
        );
    }
    emit(
        &mut events,
        StreamEvent::ToolCallSearching { output_index, item_id: prepared.slot.item_id.clone() },
    );
    proof {
        assert(events.deep_view() =~= announcing_events(prepared.deep_view(), call.deep_view()));
    }
    events
}

/// The output item of a tool call as it is told.
pub fn show_output(
    item: Option<Value>,
    is_error: bool,
    item_id: &str,
    item_type: &str,
) -> (res: Value)
    ensures
        json_content(res) == shown_output(content_of(item), is_error, item_id@, item_type@),
{
    let mut value = match item {
        Some(value) => value,
        None => {
            let mut value = empty_object();
            put_text(&mut value, "type", item_type);
            put_text(
                &mut value,
                "status",
                if is_error {
                    "failed"
                } else {
                    "completed"
                },
            );
            value
        },
    };
    put_text(&mut value, "id", item_id);
    value
}

/// What is told after a tool ran.
fn report(prepared: PreparedCall, outcome: ToolOutcome) -> (res: Vec<StreamEvent>)
    ensures
        res.deep_view() == reporting_events(prepared.deep_view(), outcome.deep_view()),
{
    let mut events: Vec<StreamEvent> = Vec::new();
    let output_index: usize = prepared.slot.output_index;
    proof {
        assert(events.deep_view() =~= seq![]);
    }
    let item_id = prepared.slot.item_id.clone();
    if outcome.is_error && prepared.passthrough {
        let error = match outcome.error_message {
            Some(message) => message,
            None => outcome.output,
        };
        emit(&mut events, StreamEvent::McpCallFailed { output_index, item_id, error });
    } else {
        emit(&mut events, StreamEvent::ToolCallCompleted { output_index, item_id });
    }
    let output = show_output(
        outcome.item,
        outcome.is_error,
        prepared.slot.item_id.as_str(),
        prepared.item_type.as_str(),
    );
    emit(&mut events, StreamEvent::ToolOutputDone { output_index, output });
    emit(&mut events, StreamEvent::CompleteOutputItem { output_index });
    proof {
        assert(events.deep_view() =~= reporting_events(prepared.deep_view(), outcome.deep_view()));
    }
    events
}

/// Tells of a function call that is left to the client.
fn tell_call(events: &mut Vec<StreamEvent>, call: &ExtractedToolCall, slot: &OutputSlot)
    ensures
        final(events).deep_view() == old(events).deep_view() + call_events(
            call.deep_view(),
            slot.deep_view(),
        ),
{
    let ghost before = events.deep_view();
    let output_index: usize = slot.output_index;
    let item = function_record(
        slot.item_id.as_str(),
        call.call_id.as_str(),
        call.name.as_str(),
        "in_progress",
        "",
    );
    emit(events, StreamEvent::OutputItemAdded { output_index, item });
    emit(
        events,
        StreamEvent::FunctionCallArgumentsDelta {
            output_index,
            item_id: slot.item_id.clone(),
            delta: call.arguments.clone(),
        },
    );
    emit(
        events,
        StreamEvent::FunctionCallArgumentsDone {
            output_index,
            item_id: slot.item_id.clone(),
            arguments: call.arguments.clone(),
        },
    );
    let item = function_record(
        slot.item_id.as_str(),
        call.call_id.as_str(),
        call.name.as_str(),
        "completed",
        call.arguments.as_str(),
    );
    emit(events, StreamEvent::OutputItemDone { output_index, item });
    emit(events, StreamEvent::CompleteOutputItem { output_index });
    proof {
        assert(events.deep_view() =~= before + call_events(call.deep_view(), slot.deep_view()));
    }
}

/// What is told of the function calls that are left to the client.
fn tell_calls(calls: &Vec<ExtractedToolCall>, slots: &Vec<OutputSlot>) -> (res: Vec<StreamEvent>)
    requires
        slots@.len() == calls@.len(),
    ensures
        res.deep_view() == all_call_events(calls.deep_view(), slots.deep_view()),
{
    let ghost all = calls.deep_view();
    let ghost places = slots.deep_view();
    let mut events: Vec<StreamEvent> = Vec::new();
    proof {
        assert(events.deep_view() =~= all_call_events(all.take(0), places));
    }
    let n = calls.len();
    let mut i: usize = 0;
    while i < n
        invariant
            n == calls@.len(),
            n == slots@.len(),
            i <= n,
            all == calls.deep_view(),
            places == slots.deep_view(),
            events.deep_view() == all_call_events(all.take(i as int), places),
        decreases n - i,
    {
        tell_call(&mut events, &calls[i], &slots[i]);
        proof {
            assert(all.take(i + 1).drop_last() =~= all.take(i as int));
            assert(all.take(i + 1).last() == calls@[i as int].deep_view());
            assert(places[i as int] == slots@[i as int].deep_view());
        }
        i += 1;
    }
    proof {
        assert(all.take(n as int) =~= all);
    }
    events
}

/// The list of the tools of every server, in order.
fn list_tools(servers: usize) -> (res: Vec<StreamEvent>)
    ensures
        res.deep_view() == list_events(servers),
{
    let mut events: Vec<StreamEvent> = Vec::new();
    let mut i: usize = 0;
    proof {
        assert(events.deep_view() =~= list_events(0));
    }
    while i < servers
        invariant
            i <= servers,
            events.deep_view() == list_events(i),
        decreases servers - i,
    {
        emit(&mut events, StreamEvent::McpListTools { server: i });
        i += 1;
        proof {
            assert(events.deep_view() =~= list_events(i));
        }
    }
    events
}

impl LoopMemo {
    /// The event that tells of the completion.
    fn completed_event(
        &self,
        status: Option<ResponseStatus>,
        incomplete_reason: Option<String>,
    ) -> (res: StreamEvent)
        ensures
            res.deep_view() == self@.completed_event(status, incomplete_reason.deep_view()),
    {
        StreamEvent::Completed { status, usage: report_plain_usage(&self.usage), incomplete_reason }
    }

    /// How many tool calls may be made.
    pub fn limit(&self) -> (res: usize)
        ensures
            res == self@.limit(),
    {
        match self.max_tool_calls {
            Some(max) => if max as usize <= self.max_iterations {
                max as usize
            } else {
                self.max_iterations
            },
            None => self.max_iterations,
        }
    }

    /// Starts a chat completion.
    fn start_chat(self) -> (res: LoopProgress)
        requires
            self@.within(),
            self@.iteration > 0,
        ensures
            loop_went(res, self@.start_chat()),
    {
        let iteration: usize = self.iteration;
        LoopProgress::Running(
            ToolLoop { stage: LoopStage::Starting, memo: self },
            LoopAction::StartChat { iteration, continues: iteration > 1 },
        )
    }

    /// Goes on to the next round.
    fn next_round(self) -> (res: LoopProgress)
        requires
            self@.within(),
        ensures
            loop_went(res, self@.next_round()),
    {
        LoopProgress::Running(
            ToolLoop { stage: LoopStage::CountingRound, memo: self },
            LoopAction::CountRound,
        )
    }

    /// Starts a round.
    fn start_round(self) -> (res: LoopProgress)
        requires
            self@.within(),
        ensures
            loop_went(res, self@.start_round()),
    {
        if self.iteration >= self.max_iterations {
            let count = decimal_of(self.max_iterations);
            let head = join("Tool loop exceeded maximum iterations (", count.as_str());
            return LoopProgress::Failed(join(head.as_str(), ")"));
        }
        let first = self.iteration == 0;
        let servers: usize = self.servers;
        let memo = LoopMemo { iteration: self.iteration + 1, ..self };
        if first {
            LoopProgress::Running(
                ToolLoop { stage: LoopStage::ListingTools, memo },
                send(list_tools(servers)),
            )
        } else {
            memo.start_chat()
        }
    }

    /// Follows a step of the chat completion.
    fn chatted(self, progress: ChatProgress, Ghost(next): Ghost<ChatNext>) -> (res: LoopProgress)
        requires
            self@.within(),
            self@.iteration > 0,
            chat_went(progress, next),
        ensures
            loop_went(res, self@.chatted(next)),
    {
        match progress {
            ChatProgress::Running(stream, action) => LoopProgress::Running(
                ToolLoop { stage: LoopStage::Chatting(stream), memo: self },
                LoopAction::Stream(action),
            ),
            ChatProgress::Finished(completion) => {
                let reasoning = completion.reasoning();
                let memo = LoopMemo { usage: completion.usage, reasoning, ..self };
                LoopProgress::Running(
                    ToolLoop { stage: LoopStage::Extracting, memo },
                    LoopAction::Extract(build_completion(completion)),
                )
            },
            ChatProgress::Failed(error) => LoopProgress::Failed(error),
        }
    }

    /// Goes on to the next tool call.
    fn next_call(self) -> (res: LoopProgress)
        requires
            self@.within(),
            self@.iteration > 0,
            self@.total_calls + self@.mcp_calls.len() <= self@.limit(),
        ensures
            loop_went(res, self@.next_call()),
    {
        if self.mcp_calls.len() > 0 {
            assert(self@.mcp_calls[0] == self.mcp_calls@[0].deep_view());
            let name = self.mcp_calls[0].name.clone();
            let memo = LoopMemo { total_calls: self.total_calls + 1, ..self };
            LoopProgress::Running(
                ToolLoop { stage: LoopStage::Preparing, memo },
                LoopAction::Prepare { name },
            )
        } else if self.function_calls.len() > 0 {
            let n: usize = self.function_calls.len();
            LoopProgress::Running(
                ToolLoop { stage: LoopStage::Allocating, memo: self },
                LoopAction::Stream(StreamAction::Allocate(n)),
            )
        } else {
            self.next_round()
        }
    }

    /// Deals with the tool calls of a completion.
    fn called(self, calls: Vec<ExtractedToolCall>) -> (res: LoopProgress)
        requires
            self@.within(),
            self@.iteration > 0,
        ensures
            loop_went(res, self@.called(calls.deep_view())),
    {
        if calls.len() == 0 {
            let mut events: Vec<StreamEvent> = Vec::new();
            proof {
                assert(events.deep_view() =~= seq![]);
            }
            match &self.reasoning {
                Some(text) => {
                    if !text.as_str().is_empty() {
                        emit(&mut events, StreamEvent::ReasoningItem { text: text.clone() });
                    }
                },
                None => {},
            }
            let ghost reasoned = events.deep_view();
            emit(&mut events, self.completed_event(None, None));
            proof {
                assert(events.deep_view() =~= reasoned + seq![self@.completed_event(None, None)]);
                assert(reasoned =~= (match self@.reasoning {
                    Some(text) => if text.len() > 0 {
                        seq![StreamEventView::ReasoningItem { text }]
                    } else {
                        seq![]
                    },
                    None => seq![],
                }));
            }
            return LoopProgress::Running(
                ToolLoop { stage: LoopStage::SendingFinal, memo: self },
                send(events),
            );
        }
        let parts = partition_calls(calls);
        let limit: usize = self.limit();
        if parts.0.len() > limit - self.total_calls {
            let usage = self.usage;
            return LoopProgress::Running(
                ToolLoop { stage: LoopStage::FinalizingLimit, memo: self },
                LoopAction::Finalize {
                    status: Some(ResponseStatus::Completed),
                    usage,
                    incomplete_reason: Some("max_tool_calls".to_owned()),
                },
            );
        }
        let memo = LoopMemo { mcp_calls: parts.0, function_calls: parts.1, ..self };
        memo.next_call()
    }

    /// Has the emitter make the response.
    fn finalize(self, status: Option<ResponseStatus>) -> (res: LoopProgress)
        requires
            self@.within(),
            self@.iteration > 0,
        ensures
            loop_went(res, self@.finalize(status)),
    {
        let usage = self.usage;
        LoopProgress::Running(
            ToolLoop { stage: LoopStage::Finalizing, memo: self },
            LoopAction::Finalize { status, usage, incomplete_reason: None },
        )
    }

    /// Runs the next tool.
    fn execute(self, prepared: PreparedCall) -> (res: LoopProgress)
        requires
            (LoopView {
                stage: LoopStageView::Announcing(prepared.deep_view()),
                memo: self@,
            }).sound(),
        ensures
            loop_went(
                res,
                (LoopView {
                    stage: LoopStageView::Announcing(prepared.deep_view()),
                    memo: self@,
                }).delivered(),
            ),
    {
        assert(self@.mcp_calls[0] == self.mcp_calls@[0].deep_view());
        let call = &self.mcp_calls[0];
        let action = LoopAction::Execute {
            call_id: call.call_id.clone(),
            name: call.name.clone(),
            arguments: dispatch_arguments(call.arguments.as_str()),
        };
        LoopProgress::Running(
            ToolLoop { stage: LoopStage::Executing(prepared), memo: self },
            action,
        )
    }
}

impl ToolLoop {
    /// The loop is within its limits, and its parts are valid.
    pub open spec fn valid(self) -> bool {
        self@.sound() && (self.stage matches LoopStage::Chatting(stream) ==> stream.valid())
    }

    /// A loop over the given number of servers for a request, with at most the given number of
    /// rounds.
    pub fn start(request: &ResponsesRequest, servers: usize, max_iterations: usize) -> (res: (
        ToolLoop,
        LoopAction,
    ))
        ensures
            res.0.valid(),
            res.0@ == LoopView::initial(
                max_iterations,
                request_content(*request).max_tool_calls,
                servers,
            ),
            res.1.deep_view() == deliver(seq![StreamEventView::Created]),
    {
        let facts = read_request(request);
        let memo = LoopMemo {
            max_iterations,
            max_tool_calls: facts.max_tool_calls,
            servers,
            iteration: 0,
            total_calls: 0,
            usage: None,
            reasoning: None,
            mcp_calls: Vec::new(),
            function_calls: Vec::new(),
        };
        let res = ToolLoop { stage: LoopStage::SendingCreated, memo };
        proof {
            assert(res@.memo.mcp_calls =~= seq![]);
            assert(res@.memo.function_calls =~= seq![]);
        }
        (res, LoopAction::Stream(deliver_one(StreamEvent::Created)))
    }

    /// Whether the loop waits for an input.
    pub fn awaits(&self, input: &LoopInput) -> (res: bool)
        ensures
            res == self@.expects(input.deep_view()),
    {
        match &self.stage {
            LoopStage::CountingRound => match input {
                LoopInput::Counted => true,
                _ => false,
            },
            LoopStage::Starting => match input {
                LoopInput::ChatStarted => true,
                LoopInput::ConversionFailed(_) => true,
                _ => false,
            },
            LoopStage::Chatting(stream) => match input {
                LoopInput::Stream(input) => stream.awaits(input),
                _ => false,
            },
            LoopStage::Extracting => match input {
                LoopInput::Calls(_) => true,
                _ => false,
            },
            LoopStage::Preparing => match input {
                LoopInput::Prepared(_) => true,
                _ => false,
            },
            LoopStage::Executing(_) => match input {
                LoopInput::ToolDone(_) => true,
                _ => false,
            },
            LoopStage::Recording => match input {
                LoopInput::Recorded => true,
                _ => false,
            },
            LoopStage::Allocating => match input {
                LoopInput::Stream(StreamInput::Slots(slots)) => slots.len()
                    == self.memo.function_calls.len(),
                _ => false,
            },
            LoopStage::Finalizing => match input {
                LoopInput::Finalized(_) => true,
                _ => false,
            },
            LoopStage::FinalizingLimit => match input {
                LoopInput::Finalized(_) => true,
                _ => false,
            },
            _ => match input {
                LoopInput::Stream(StreamInput::Delivered) => true,
                LoopInput::Stream(StreamInput::DeliveryFailed(_)) => true,
                _ => false,
            },
        }
    }

    /// Goes on once the events of a stage were sent.
    fn delivered(self) -> (res: LoopProgress)
        requires
            self.valid(),
            self@.expects(LoopInputView::Stream(StreamInputView::Delivered)),
            !(self.stage is Chatting),
        ensures
            loop_went(res, self@.delivered()),
    {
        let memo = self.memo;
        match self.stage {
            LoopStage::SendingCreated => LoopProgress::Running(
                ToolLoop { stage: LoopStage::SendingInProgress, memo },
                LoopAction::Stream(deliver_one(StreamEvent::InProgress)),
            ),
            LoopStage::SendingInProgress => memo.next_round(),
            LoopStage::ListingTools => memo.start_chat(),
            LoopStage::Announcing(prepared) => memo.execute(prepared),
            LoopStage::Reporting { success } => LoopProgress::Running(
                ToolLoop { stage: LoopStage::Recording, memo },
                LoopAction::Record { success },
            ),
            LoopStage::SendingCalls => memo.finalize(Some(ResponseStatus::InProgress)),
            LoopStage::SendingFinal => memo.finalize(None),
            LoopStage::SendingLimit(response) => LoopProgress::Finished(response),
            _ => {
                assert(false);
                LoopProgress::Failed(String::new())
            },
        }
    }

    /// Takes the next step.
    pub fn advance(self, input: LoopInput) -> (res: LoopProgress)
        requires
            self.valid(),
            self@.expects(input.deep_view()),
        ensures
            loop_went(res, self@.step(input.deep_view())),
    {
        match input {
            LoopInput::Stream(input) => match self.stage {
                LoopStage::Chatting(stream) => {
                    let ghost next = stream@.step(input.deep_view());
                    let progress = stream.advance(input);
                    self.memo.chatted(progress, Ghost(next))
                },
                stage => match input {
                    StreamInput::Slots(slots) => {
                        let memo = self.memo;
                        let mut events = tell_calls(&memo.function_calls, &slots);
                        emit(
                            &mut events,
                            memo.completed_event(Some(ResponseStatus::InProgress), None),
                        );
                        LoopProgress::Running(
                            ToolLoop { stage: LoopStage::SendingCalls, memo },
                            send(events),
                        )
                    },
                    StreamInput::DeliveryFailed(reason) => LoopProgress::Failed(reason),
                    _ => {
                        let next = ToolLoop { stage, memo: self.memo };
                        next.delivered()
                    },
                },
            },
            LoopInput::Counted => self.memo.start_round(),
            LoopInput::ChatStarted => {
                let started = ChatStream::start();
                self.memo.chatted(
                    ChatProgress::Running(started.0, started.1),
                    Ghost(
                        ChatNext::Running(ChatStreamView::initial(), StreamActionView::ReadBody),
                    ),
                )
            },
            LoopInput::ConversionFailed(reason) => LoopProgress::Failed(
                join("Failed to convert request: ", reason.as_str()),
            ),
            LoopInput::Calls(calls) => self.memo.called(calls),
            LoopInput::Prepared(prepared) => {
                let memo = self.memo;
                assert(memo@.mcp_calls[0] == memo.mcp_calls@[0].deep_view());
                let events = announce(&prepared, &memo.mcp_calls[0]);
                LoopProgress::Running(
                    ToolLoop { stage: LoopStage::Announcing(prepared), memo },
                    send(events),
                )
            },
            LoopInput::ToolDone(outcome) => match self.stage {
                LoopStage::Executing(prepared) => {
                    let success = !outcome.is_error;
                    LoopProgress::Running(
                        ToolLoop { stage: LoopStage::Reporting { success }, memo: self.memo },
                        send(report(prepared, outcome)),
                    )
                },
                _ => {
                    assert(false);
                    LoopProgress::Failed(String::new())
                },
            },
            LoopInput::Recorded => {
                let mut memo = self.memo;
                let ghost before = memo@;
                memo.mcp_calls.remove(0);
                proof {
                    assert(memo@.mcp_calls =~= before.mcp_calls.skip(1));
                }
                memo.next_call()
            },
            LoopInput::Finalized(response) => match self.stage {
                LoopStage::Finalizing => LoopProgress::Finished(response),
                _ => {
                    let memo = self.memo;
                    let event = memo.completed_event(None, Some("max_tool_calls".to_owned()));
                    LoopProgress::Running(
                        ToolLoop { stage: LoopStage::SendingLimit(response), memo },
                        LoopAction::Stream(deliver_one(event)),
                    )
                },
            },
        }
    }
}

} // verus!
