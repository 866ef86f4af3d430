//! Accumulation of a chat completion stream into one response.
use crate::chat::{ChatChunk, ChatChunkView, ToolCallDelta, ToolCallDeltaView, Usage};
use crate::ids::{generate_item_id, is_item_id};
use crate::responses::{
    answers, build_response, clone_request, usage_info, DraftView, FunctionCall, FunctionCallView,
    OutputItem, OutputItemView, ResponseDraft, ResponseStatus, TextPart, TextPartView, UsageInfo,
    UsageView,
};
use crate::text::{join, same_text};
use openai_protocol::responses::{ResponsesRequest, ResponsesResponse};
use vstd::prelude::*;

verus! {

/// A text that may be missing, read as an empty one where it is.
pub open spec fn text_or_empty(text: Option<Seq<char>>) -> Seq<char> {
    match text {
        Some(text) => text,
        None => seq![],
    }
}

/// The function name that a piece adds.
pub open spec fn name_piece(delta: ToolCallDeltaView) -> Seq<char> {
    match delta.function {
        Some(function) => text_or_empty(function.name),
        None => seq![],
    }
}

/// The arguments that a piece adds.
pub open spec fn arguments_piece(delta: ToolCallDeltaView) -> Seq<char> {
    match delta.function {
        Some(function) => text_or_empty(function.arguments),
        None => seq![],
    }
}

/// The call identifier after a piece: the first that is not empty stays.
pub open spec fn kept_call_id(call_id: Seq<char>, delta: ToolCallDeltaView) -> Seq<char> {
    if call_id.len() == 0 {
        text_or_empty(delta.id)
    } else {
        call_id
    }
}

/// A function call with nothing in it but its identifier.
pub open spec fn blank_call(id: Seq<char>) -> FunctionCallView {
    FunctionCallView {
        id,
        call_id: seq![],
        name: seq![],
        arguments: seq![],
        output: None,
        status: "in_progress"@,
    }
}

/// A function call after one more piece.
pub open spec fn extended_call(
    call: FunctionCallView,
    delta: ToolCallDeltaView,
) -> FunctionCallView {
    FunctionCallView {
        id: call.id,
        call_id: kept_call_id(call.call_id, delta),
        name: call.name + name_piece(delta),
        arguments: call.arguments + arguments_piece(delta),
        output: call.output,
        status: call.status,
    }
}

/// How many function calls there are once each of the pieces has its place.
pub open spec fn calls_needed(len: nat, deltas: Seq<ToolCallDeltaView>) -> nat
    decreases deltas.len(),
{
    if deltas.len() == 0 {
        len
    } else {
        let before = calls_needed(len, deltas.drop_last());
        if deltas.last().index < before {
            before
        } else {
            (deltas.last().index + 1) as nat
        }
    }
}

/// The function calls after the given pieces, each of which has its place.
pub open spec fn extended_calls(
    calls: Seq<FunctionCallView>,
    deltas: Seq<ToolCallDeltaView>,
) -> Seq<FunctionCallView>
    decreases deltas.len(),
{
    if deltas.len() == 0 {
        calls
    } else {
        let before = extended_calls(calls, deltas.drop_last());
        let i = deltas.last().index as int;
        before.update(i, extended_call(before[i], deltas.last()))
    }
}

/// What a [`StreamingResponseAccumulator`] holds.
pub struct AccumulatorView {
    pub response_id: Seq<char>,
    pub model: Seq<char>,
    pub created_at: i64,
    pub content: Seq<char>,
    pub reasoning: Seq<char>,
    pub tool_calls: Seq<FunctionCallView>,
    pub finish_reason: Option<Seq<char>>,
    pub usage: Option<Usage>,
    pub original_request: ResponsesRequest,
}

/// What the identity of a response is after a chunk: a response without an identifier takes over
/// the chunk's.
pub open spec fn identified(view: AccumulatorView, chunk: ChatChunkView) -> AccumulatorView {
    if view.response_id.len() == 0 {
        AccumulatorView {
            response_id: chunk.id,
            model: chunk.model,
            created_at: chunk.created as i64,
            ..view
        }
    } else {
        view
    }
}

/// The message of a response: one output text, without annotations and log probabilities.
pub open spec fn message_item(response_id: Seq<char>, text: Seq<char>) -> OutputItemView {
    OutputItemView::Message {
        id: "msg_"@ + response_id,
        role: "assistant"@,
        content: seq![TextPartView { text, annotations: seq![], logprobs: None }],
        status: "completed"@,
    }
}

/// The reasoning of a response: one text, without a summary.
pub open spec fn reasoning_item(response_id: Seq<char>, text: Seq<char>) -> OutputItemView {
    OutputItemView::Reasoning {
        id: "reasoning_"@ + response_id,
        summary: seq![],
        content: seq![text],
        status: Some("completed"@),
    }
}

impl AccumulatorView {
    /// What is accumulated after a chunk, where `fresh` are the identifiers of the function calls
    /// that the chunk opens. Only the first choice counts. Content is dropped once there is a
    /// function call; it is read before the function calls of its own chunk.
    pub open spec fn after(self, chunk: ChatChunkView, fresh: Seq<Seq<char>>) -> AccumulatorView {
        let named = identified(self, chunk);
        let usage = if chunk.usage is Some {
            chunk.usage
        } else {
            self.usage
        };
        if chunk.choices.len() == 0 {
            AccumulatorView { usage, ..named }
        } else {
            let choice = chunk.choices[0];
            AccumulatorView {
                content: if self.tool_calls.len() == 0 {
                    self.content + text_or_empty(choice.content)
                } else {
                    self.content
                },
                reasoning: self.reasoning + text_or_empty(choice.reasoning),
                tool_calls: extended_calls(
                    self.tool_calls + fresh.map_values(|id: Seq<char>| blank_call(id)),
                    choice.deltas(),
                ),
                finish_reason: if choice.finish_reason is Some {
                    choice.finish_reason
                } else {
                    self.finish_reason
                },
                usage,
                ..named
            }
        }
    }

    /// How many function calls a chunk opens.
    pub open spec fn opened_by(self, chunk: ChatChunkView) -> nat {
        (calls_needed(self.tool_calls.len(), chunk.deltas()) - self.tool_calls.len()) as nat
    }

    /// The status that the finish reason stands for.
    pub open spec fn status(self) -> ResponseStatus {
        match self.finish_reason {
            Some(reason) => if reason == "tool_calls"@ {
                ResponseStatus::InProgress
            } else if reason == "failed"@ || reason == "error"@ {
                ResponseStatus::Failed
            } else {
                ResponseStatus::Completed
            },
            None => ResponseStatus::Completed,
        }
    }

    /// The output items: the message where there is content, the reasoning where there is some,
    /// and the function calls.
    pub open spec fn output(self) -> Seq<OutputItemView> {
        let message = if self.content.len() > 0 {
            seq![message_item(self.response_id, self.content)]
        } else {
            seq![]
        };
        let reasoning = if self.reasoning.len() > 0 {
            seq![reasoning_item(self.response_id, self.reasoning)]
        } else {
            seq![]
        };
        message + reasoning + self.tool_calls.map_values(
            |call: FunctionCallView| OutputItemView::FunctionCall(call),
        )
    }

    /// The draft of the response with the given status.
    pub open spec fn draft(self, status: ResponseStatus) -> DraftView {
        DraftView {
            id: self.response_id,
            model: self.model,
            created_at: self.created_at,
            status,
            output: self.output(),
            usage: match self.usage {
                Some(usage) => Some(UsageView::Classic(usage_info(usage))),
                None => None,
            },
        }
    }
}

/// All of `fresh` are identifiers of function call items.
pub open spec fn are_call_ids(fresh: Seq<Seq<char>>) -> bool {
    forall|i: int| 0 <= i < fresh.len() ==> is_item_id("fc"@, #[trigger] fresh[i])
}

/// Accumulates the chunks of a chat completion stream into a response.
#[derive(Debug)]
pub struct StreamingResponseAccumulator {
    pub response_id: String,
    pub model: String,
    pub created_at: i64,
    pub content_buffer: String,
    pub reasoning_buffer: String,
    pub tool_calls: Vec<FunctionCall>,
    pub finish_reason: Option<String>,
    pub usage: Option<Usage>,
    pub original_request: ResponsesRequest,
}

impl View for StreamingResponseAccumulator {
    type V = AccumulatorView;

    open spec fn view(&self) -> AccumulatorView {
        AccumulatorView {
            response_id: self.response_id@,
            model: self.model@,
            created_at: self.created_at,
            content: self.content_buffer@,
            reasoning: self.reasoning_buffer@,
            tool_calls: self.tool_calls.deep_view(),
            finish_reason: self.finish_reason.deep_view(),
            usage: self.usage,
            original_request: self.original_request,
        }
    }
}

/// Appends a text that may be missing.
pub fn append_text(buffer: &mut String, text: &Option<String>)
    ensures
        final(buffer)@ == old(buffer)@ + text_or_empty(text.deep_view()),
{
    match text {
        Some(text) => buffer.append(text.as_str()),
        None => {
            proof {
                assert(buffer@ + Seq::<char>::empty() =~= buffer@);
            }
        },
    }
}

/// Keeps a call identifier, or takes over that of a piece where it is still empty.
pub fn keep_call_id(call_id: &mut String, delta: &ToolCallDelta)
    ensures
        final(call_id)@ == kept_call_id(old(call_id)@, delta.deep_view()),
{
    if call_id.as_str().is_empty() {
        match &delta.id {
            Some(id) => {
                *call_id = id.clone();
            },
            None => {
                proof {
                    assert(call_id@ =~= Seq::<char>::empty());
                }
            },
        }
    }
}

/// Opens a function call with the given identifier.
pub fn open_call(calls: &mut Vec<FunctionCall>, id: String)
    ensures
        final(calls).deep_view() == old(calls).deep_view().push(blank_call(id@)),
{
    let call = FunctionCall {
        id,
        call_id: String::new(),
        name: String::new(),
        arguments: String::new(),
        output: None,
        status: "in_progress".to_owned(),
    };
    calls.push(call);
    proof {
        assert(calls.deep_view() =~= old(calls).deep_view().push(blank_call(id@)));
    }
}

/// Adds a piece to a function call.
pub fn extend_call(call: &mut FunctionCall, delta: &ToolCallDelta)
    ensures
        final(call).deep_view() == extended_call(old(call).deep_view(), delta.deep_view()),
{
    keep_call_id(&mut call.call_id, delta);
    match &delta.function {
        Some(function) => {
            append_text(&mut call.name, &function.name);
            append_text(&mut call.arguments, &function.arguments);
        },
        None => {
            proof {
                assert(call.name@ + Seq::<char>::empty() =~= call.name@);
                assert(call.arguments@ + Seq::<char>::empty() =~= call.arguments@);
            }
        },
    }
}

/// Every piece has its place among the calls that are needed.
pub proof fn lemma_calls_needed(len: nat, deltas: Seq<ToolCallDeltaView>)
    ensures
        len <= calls_needed(len, deltas),
        forall|j: int|
            0 <= j < deltas.len() ==> (#[trigger] deltas[j]).index < calls_needed(len, deltas),
    decreases deltas.len(),
{
    if deltas.len() > 0 {
        lemma_calls_needed(len, deltas.drop_last());
        assert forall|j: int| 0 <= j < deltas.len() implies (#[trigger] deltas[j]).index
            < calls_needed(len, deltas) by {
            if j < deltas.len() - 1 {
                assert(deltas.drop_last()[j] == deltas[j]);
            }
        }
    }
}

/// Opens function calls until each piece has its place.
fn open_calls(calls: &mut Vec<FunctionCall>, deltas: &Vec<ToolCallDelta>)
    ensures
        exists|fresh: Seq<Seq<char>>|
            #![trigger are_call_ids(fresh)]
            are_call_ids(fresh) && fresh.len() == calls_needed(
                old(calls)@.len(),
                deltas.deep_view(),
            ) - old(calls)@.len() && final(calls).deep_view() == old(calls).deep_view()
                + fresh.map_values(|id: Seq<char>| blank_call(id)),
{
    let ghost before = calls.deep_view();
    let ghost pieces = deltas.deep_view();
    let ghost mut fresh: Seq<Seq<char>> = seq![];
    let n = deltas.len();
    let mut j: usize = 0;
    proof {
        assert(calls.deep_view() =~= before + fresh.map_values(|id: Seq<char>| blank_call(id)));
    }
    while j < n
        invariant
            n == deltas@.len(),
            j <= n,
            pieces == deltas.deep_view(),
            before == old(calls).deep_view(),
            are_call_ids(fresh),
            calls@.len() == calls_needed(before.len(), pieces.take(j as int)),
            fresh.len() == calls@.len() - before.len(),
            calls.deep_view() == before + fresh.map_values(|id: Seq<char>| blank_call(id)),
        decreases n - j,
    {
        let index: usize = deltas[j].index as usize;
        let ghost start = calls@.len();
        while calls.len() <= index
            invariant
                start <= calls@.len(),
                calls@.len() == start || calls@.len() <= index + 1,
                are_call_ids(fresh),
                fresh.len() == calls@.len() - before.len(),
                calls.deep_view() == before + fresh.map_values(|id: Seq<char>| blank_call(id)),
            decreases index + 1 - calls@.len(),
        {
            let id = generate_item_id("fc");
            proof {
                fresh = fresh.push(id@);
            }
            open_call(calls, id);
            proof {
                assert(calls.deep_view() =~= before + fresh.map_values(
                    |id: Seq<char>| blank_call(id),
                ));
            }
        }
        proof {
            assert(pieces.take(j + 1).drop_last() =~= pieces.take(j as int));
            assert(pieces.take(j + 1).last() == deltas@[j as int].deep_view());
        }
        j += 1;
    }
    proof {
        assert(pieces.take(n as int) =~= pieces);
    }
}

/// Adds pieces to the function calls at their places.
fn extend_calls(calls: &mut Vec<FunctionCall>, deltas: &Vec<ToolCallDelta>)
    requires
        forall|j: int|
            0 <= j < deltas@.len() ==> (#[trigger] deltas.deep_view()[j]).index < old(calls)@.len(),
    ensures
        final(calls).deep_view() == extended_calls(old(calls).deep_view(), deltas.deep_view()),
{
    let ghost before = calls.deep_view();
    let ghost pieces = deltas.deep_view();
    let n = deltas.len();
    let mut j: usize = 0;
    while j < n
        invariant
            n == deltas@.len(),
            j <= n,
            pieces == deltas.deep_view(),
            calls@.len() == before.len(),
            forall|j: int| 0 <= j < pieces.len() ==> (#[trigger] pieces[j]).index < before.len(),
            calls.deep_view() == extended_calls(before, pieces.take(j as int)),
        decreases n - j,
    {
        assert(pieces[j as int].index < before.len());
        let index: usize = deltas[j].index as usize;
        let ghost old_calls = calls.deep_view();
        extend_call(&mut calls[index], &deltas[j]);
        proof {
            assert(pieces.take(j + 1).drop_last() =~= pieces.take(j as int));
            assert(pieces.take(j + 1).last() == pieces[j as int]);
            assert(calls.deep_view() =~= old_calls.update(
                index as int,
                extended_call(old_calls[index as int], pieces[j as int]),
            ));
        }
        j += 1;
    }
    proof {
        assert(pieces.take(n as int) =~= pieces);
    }
}

/// The message of a response.
fn message_of(response_id: &str, text: String) -> (res: OutputItem)
    ensures
        res.deep_view() == message_item(response_id@, text@),
{
    let annotations: Vec<String> = Vec::new();
    let ghost none = annotations.deep_view();
    let content = vec![TextPart { text, annotations, logprobs: None }];
    proof {
        assert(none =~= seq![]);
        assert(content.deep_view() =~= seq![
            TextPartView { text: text@, annotations: seq![], logprobs: None },
        ]);
    }
    OutputItem::Message {
        id: join("msg_", response_id),
        role: "assistant".to_owned(),
        content,
        status: "completed".to_owned(),
    }
}

/// The reasoning of a response.
fn reasoning_of(response_id: &str, text: String) -> (res: OutputItem)
    ensures
        res.deep_view() == reasoning_item(response_id@, text@),
{
    let summary: Vec<String> = Vec::new();
    let content = vec![text];
    proof {
        assert(summary.deep_view() =~= seq![]);
        assert(content.deep_view() =~= seq![text@]);
    }
    OutputItem::Reasoning {
        id: join("reasoning_", response_id),
        summary,
        content,
        status: Some("completed".to_owned()),
    }
}

impl StreamingResponseAccumulator {
    /// An accumulator that has seen no chunk.
    pub fn new(
        original_request: &ResponsesRequest,
        response_id: String,
        model: String,
        created_at: i64,
    ) -> (res: Self)
        ensures
            res@ == (AccumulatorView {
                response_id: response_id@,
                model: model@,
                created_at,
                content: seq![],
                reasoning: seq![],
                tool_calls: seq![],
                finish_reason: None,
                usage: None,
                original_request: *original_request,
            }),
    {
        let res = StreamingResponseAccumulator {
            response_id,
            model,
            created_at,
            content_buffer: String::new(),
            reasoning_buffer: String::new(),
            tool_calls: Vec::new(),
            finish_reason: None,
            usage: None,
            original_request: clone_request(original_request),
        };
        proof {
            assert(res@.tool_calls =~= seq![]);
        }
        res
    }

    /// Takes in a chunk.
    pub fn process_chunk(&mut self, chunk: &ChatChunk)
        ensures
            exists|fresh: Seq<Seq<char>>|
                #![trigger are_call_ids(fresh)]
                are_call_ids(fresh) && fresh.len() == old(self)@.opened_by(chunk.deep_view())
                    && final(self)@ == old(self)@.after(chunk.deep_view(), fresh),
    {
        let ghost before = self@;
        let ghost view = chunk.deep_view();
        let ghost mut given: Seq<Seq<char>> = seq![];
        if self.response_id.as_str().is_empty() {
            self.response_id = chunk.id.clone();
            self.model = chunk.model.clone();
            self.created_at = chunk.created as i64;
        }
        proof {
            assert(self@ =~= identified(before, view));
            assert(are_call_ids(given));
        }
        if chunk.choices.len() > 0 {
            let choice = &chunk.choices[0];
            assert(view.choices[0] == choice.deep_view());
            if self.tool_calls.len() == 0 {
                append_text(&mut self.content_buffer, &choice.content);
            }
            append_text(&mut self.reasoning_buffer, &choice.reasoning);
            match &choice.tool_calls {
                Some(deltas) => {
                    open_calls(&mut self.tool_calls, deltas);
                    let ghost fresh = choose|fresh: Seq<Seq<char>>|
                        #![trigger are_call_ids(fresh)]
                        are_call_ids(fresh) && fresh.len() == calls_needed(
                            before.tool_calls.len(),
                            deltas.deep_view(),
                        ) - before.tool_calls.len() && self.tool_calls.deep_view()
                            == before.tool_calls + fresh.map_values(
                            |id: Seq<char>| blank_call(id),
                        );
                    proof {
                        lemma_calls_needed(before.tool_calls.len(), deltas.deep_view());
                        assert(self.tool_calls.deep_view().len() == calls_needed(
                            before.tool_calls.len(),
                            deltas.deep_view(),
                        ));
                    }
                    extend_calls(&mut self.tool_calls, deltas);
                    proof {
                        assert(are_call_ids(fresh));
                        assert(view.deltas() == deltas.deep_view());
                        assert(self@.tool_calls == before.after(view, fresh).tool_calls);
                        given = fresh;
                    }
                },
                None => {
                    proof {
                        assert(view.deltas() =~= seq![]);
                        assert(before.tool_calls + given.map_values(
                            |id: Seq<char>| blank_call(id),
                        ) =~= before.tool_calls);
                        assert(self@.tool_calls == before.after(view, given).tool_calls);
                    }
                },
            }
            match &choice.finish_reason {
                Some(reason) => {
                    self.finish_reason = Some(reason.clone());
                },
                None => {},
            }
        }
        match &chunk.usage {
            Some(usage) => {
                self.usage = Some(*usage);
            },
            None => {},
        }
        proof {
            assert(self@ =~= before.after(view, given));
        }
    }

    /// The status that the finish reason stands for.
    pub fn response_status(&self) -> (res: ResponseStatus)
        ensures
            res == self@.status(),
    {
        match &self.finish_reason {
            Some(reason) => {
                if same_text(reason.as_str(), "tool_calls") {
                    ResponseStatus::InProgress
                } else if same_text(reason.as_str(), "failed") || same_text(
                    reason.as_str(),
                    "error",
                ) {
                    ResponseStatus::Failed
                } else {
                    ResponseStatus::Completed
                }
            },
            None => ResponseStatus::Completed,
        }
    }

    /// The draft of the response with the given status.
    pub fn into_draft(self, status: ResponseStatus) -> (res: ResponseDraft)
        ensures
            res.deep_view() == self@.draft(status),
    {
        let ghost view = self@;
        let mut output: Vec<OutputItem> = Vec::new();
        if !self.content_buffer.as_str().is_empty() {
            output.push(message_of(self.response_id.as_str(), self.content_buffer));
        }
        if !self.reasoning_buffer.as_str().is_empty() {
            output.push(reasoning_of(self.response_id.as_str(), self.reasoning_buffer));
        }
        let ghost head = output.deep_view();
        let ghost wanted = view.tool_calls.map_values(
            |call: FunctionCallView| OutputItemView::FunctionCall(call),
        );
        proof {
            assert(head + wanted =~= view.output());
            assert(output.deep_view() =~= head + wanted.take(0));
        }
        for call in it: self.tool_calls
            invariant
                it.seq() == self.tool_calls@,
                view.tool_calls == self.tool_calls.deep_view(),
                wanted == view.tool_calls.map_values(
                    |call: FunctionCallView| OutputItemView::FunctionCall(call),
                ),
                output.deep_view() == head + wanted.take(it.index()),
        {
            let ghost done = output.deep_view();
            output.push(OutputItem::FunctionCall(call));
            proof {
                assert(view.tool_calls[it.index()] == call.deep_view());
                assert(output.deep_view() =~= done.push(
                    OutputItemView::FunctionCall(call.deep_view()),
                ));
                assert(done.push(OutputItemView::FunctionCall(call.deep_view())) =~= head
                    + wanted.take(it.index() + 1));
            }
        }
        proof {
            assert(wanted.take(wanted.len() as int) =~= wanted);
        }
        let usage = match self.usage {
            Some(usage) => Some(
                UsageInfo {
                    prompt_tokens: usage.prompt_tokens,
                    completion_tokens: usage.completion_tokens,
                    total_tokens: usage.total_tokens,
                    reasoning_tokens: usage.reasoning_tokens(),
                    cached_tokens: None,
                },
            ),
            None => None,
        };
        ResponseDraft {
            id: self.response_id,
            model: self.model,
            created_at: self.created_at,
            status,
            output,
            usage,
        }
    }

    /// The response, with the status that the finish reason stands for.
    pub fn finalize(self) -> (res: ResponsesResponse)
        ensures
            answers(res, self@.draft(self@.status()), self@.original_request),
    {
        let status = self.response_status();
        self.finalize_with_status(status)
    }

    /// The response with the given status.
    pub fn finalize_with_status(self, status: ResponseStatus) -> (res: ResponsesResponse)
        ensures
            answers(res, self@.draft(status), self@.original_request),
    {
        let request = clone_request(&self.original_request);
        let draft = self.into_draft(status);
        build_response(draft, &request)
    }
}

/// The arguments that the pieces for one function call add, in order.
pub open spec fn arguments_for(deltas: Seq<ToolCallDeltaView>, index: int) -> Seq<char>
    decreases deltas.len(),
{
    if deltas.len() == 0 {
        seq![]
    } else if deltas.last().index == index {
        arguments_for(deltas.drop_last(), index) + arguments_piece(deltas.last())
    } else {
        arguments_for(deltas.drop_last(), index)
    }
}

/// The name that the pieces for one function call add, in order.
pub open spec fn name_for(deltas: Seq<ToolCallDeltaView>, index: int) -> Seq<char>
    decreases deltas.len(),
{
    if deltas.len() == 0 {
        seq![]
    } else if deltas.last().index == index {
        name_for(deltas.drop_last(), index) + name_piece(deltas.last())
    } else {
        name_for(deltas.drop_last(), index)
    }
}

/// The call identifier that the pieces for one function call leave.
pub open spec fn call_id_for(
    call_id: Seq<char>,
    deltas: Seq<ToolCallDeltaView>,
    index: int,
) -> Seq<char>
    decreases deltas.len(),
{
    if deltas.len() == 0 {
        call_id
    } else if deltas.last().index == index {
        kept_call_id(call_id_for(call_id, deltas.drop_last(), index), deltas.last())
    } else {
        call_id_for(call_id, deltas.drop_last(), index)
    }
}

/// A call identifier that is not empty stays.
pub proof fn lemma_call_id_stays(
    call_id: Seq<char>,
    deltas: Seq<ToolCallDeltaView>,
    index: int,
)
    requires
        call_id.len() > 0,
    ensures
        call_id_for(call_id, deltas, index) == call_id,
    decreases deltas.len(),
{
    if deltas.len() > 0 {
        lemma_call_id_stays(call_id, deltas.drop_last(), index);
    }
}

/// Each function call is extended by its own pieces and by nothing else.
pub proof fn lemma_extended_calls(calls: Seq<FunctionCallView>, deltas: Seq<ToolCallDeltaView>)
    requires
        forall|j: int| 0 <= j < deltas.len() ==> (#[trigger] deltas[j]).index < calls.len(),
    ensures
        extended_calls(calls, deltas).len() == calls.len(),
        forall|i: int|
            0 <= i < calls.len() ==> #[trigger] extended_calls(calls, deltas)[i] == (
            FunctionCallView {
                id: calls[i].id,
                call_id: call_id_for(calls[i].call_id, deltas, i),
                name: calls[i].name + name_for(deltas, i),
                arguments: calls[i].arguments + arguments_for(deltas, i),
                output: calls[i].output,
                status: calls[i].status,
            }),
    decreases deltas.len(),
{
    if deltas.len() == 0 {
        assert forall|i: int| 0 <= i < calls.len() implies #[trigger] extended_calls(
            calls,
            deltas,
        )[i] == (FunctionCallView {
            id: calls[i].id,
            call_id: call_id_for(calls[i].call_id, deltas, i),
            name: calls[i].name + name_for(deltas, i),
            arguments: calls[i].arguments + arguments_for(deltas, i),
            output: calls[i].output,
            status: calls[i].status,
        }) by {
            assert(calls[i].name + name_for(deltas, i) =~= calls[i].name);
            assert(calls[i].arguments + arguments_for(deltas, i) =~= calls[i].arguments);
        }
    } else {
        let shorter = deltas.drop_last();
        assert forall|j: int| 0 <= j < shorter.len() implies (#[trigger] shorter[j]).index
            < calls.len() by {
            assert(shorter[j] == deltas[j]);
        }
        lemma_extended_calls(calls, shorter);
        let before = extended_calls(calls, shorter);
        let k = deltas.last().index as int;
        assert(deltas[deltas.len() - 1].index < calls.len());
        assert forall|i: int| 0 <= i < calls.len() implies #[trigger] extended_calls(
            calls,
            deltas,
        )[i] == (FunctionCallView {
            id: calls[i].id,
            call_id: call_id_for(calls[i].call_id, deltas, i),
            name: calls[i].name + name_for(deltas, i),
            arguments: calls[i].arguments + arguments_for(deltas, i),
            output: calls[i].output,
            status: calls[i].status,
        }) by {
            assert(before[i].id == calls[i].id);
            if i == k {
                assert(calls[i].name + name_for(deltas, i) =~= calls[i].name + name_for(shorter, i)
                    + name_piece(deltas.last()));
                assert(calls[i].arguments + arguments_for(deltas, i) =~= calls[i].arguments
                    + arguments_for(shorter, i) + arguments_piece(deltas.last()));
            }
        }
    }
}

/// A chunk leaves the function calls that are there in their places. The identifier, the output and
/// the status of each stay; a call identifier that is not empty stays; the name and the arguments
/// grow by the pieces that carry the call's index, in their order.
pub proof fn law_calls_grow_by_their_own_pieces(
    view: AccumulatorView,
    chunk: ChatChunkView,
    fresh: Seq<Seq<char>>,
)
    requires
        fresh.len() == view.opened_by(chunk),
    ensures
        view.after(chunk, fresh).tool_calls.len() == view.tool_calls.len() + view.opened_by(chunk),
        forall|i: int|
            0 <= i < view.tool_calls.len() ==> {
                let before = view.tool_calls[i];
                let after = #[trigger] view.after(chunk, fresh).tool_calls[i];
                &&& after.id == before.id
                &&& after.output == before.output
                &&& after.status == before.status
                &&& before.call_id.len() > 0 ==> after.call_id == before.call_id
                &&& after.name == before.name + name_for(chunk.deltas(), i)
                &&& after.arguments == before.arguments + arguments_for(chunk.deltas(), i)
            },
{
    let blanks = fresh.map_values(|id: Seq<char>| blank_call(id));
    let calls = view.tool_calls + blanks;
    lemma_calls_needed(view.tool_calls.len(), chunk.deltas());
    lemma_extended_calls(calls, chunk.deltas());
    if chunk.choices.len() == 0 {
        assert forall|i: int| 0 <= i < view.tool_calls.len() implies {
            let before = view.tool_calls[i];
            let after = #[trigger] view.after(chunk, fresh).tool_calls[i];
            &&& after.name == before.name + name_for(chunk.deltas(), i)
            &&& after.arguments == before.arguments + arguments_for(chunk.deltas(), i)
        } by {
            assert(view.tool_calls[i].name + name_for(chunk.deltas(), i)
                =~= view.tool_calls[i].name);
            assert(view.tool_calls[i].arguments + arguments_for(chunk.deltas(), i)
                =~= view.tool_calls[i].arguments);
        }
    } else {
        assert forall|i: int| 0 <= i < view.tool_calls.len() implies {
            let before = view.tool_calls[i];
            let after = #[trigger] view.after(chunk, fresh).tool_calls[i];
            &&& after.id == before.id
            &&& after.output == before.output
            &&& after.status == before.status
            &&& before.call_id.len() > 0 ==> after.call_id == before.call_id
            &&& after.name == before.name + name_for(chunk.deltas(), i)
            &&& after.arguments == before.arguments + arguments_for(chunk.deltas(), i)
        } by {
            assert(calls[i] == view.tool_calls[i]);
            assert(view.after(chunk, fresh).tool_calls[i] == extended_calls(
                calls,
                chunk.deltas(),
            )[i]);
            if view.tool_calls[i].call_id.len() > 0 {
                lemma_call_id_stays(view.tool_calls[i].call_id, chunk.deltas(), i);
            }
        }
    }
}

/// Once there is a function call, content is no longer taken in.
pub proof fn law_content_stops_at_the_first_call(
    view: AccumulatorView,
    chunk: ChatChunkView,
    fresh: Seq<Seq<char>>,
)
    requires
        view.tool_calls.len() > 0,
    ensures
        view.after(chunk, fresh).content == view.content,
{
}

} // verus!
