//! Accumulation of a chat completion stream into one chat completion.
use crate::accumulator::{append_text, arguments_piece, text_or_empty};
use crate::chat::{ChatChunk, ChatChunkView, ToolCallDelta, ToolCallDeltaView, Usage};
use crate::json::{content_of, JsonView};
use crate::order::{
    in_key_order, increasing, keys_in_order, lemma_key_order, lemma_key_order_insert, lemma_ordered,
    lemma_ordered_is, lemma_rank, lemma_with_key, ordered, orders, rank, with_key,
};
use openai_protocol::chat::{ChatChoice, ChatCompletionMessage, ChatCompletionResponse};
use openai_protocol::common::{
    ChatLogProbs, CompletionTokensDetails, FunctionCallResponse, PromptTokenUsageInfo, ToolCall,
    Usage as ChatUsage,
};
use serde_json::Value;
use std::collections::BTreeMap;
use vstd::prelude::*;

verus! {

/// A chat completion, as `openai_protocol` holds it.
#[verifier::external_type_specification]
#[verifier::external_body]
pub struct ExChatCompletionResponse(ChatCompletionResponse);

/// The token counts of a chat completion, as `openai_protocol` holds them.
#[verifier::external_type_specification]
#[verifier::external_body]
pub struct ExChatUsage(ChatUsage);

/// A choice of a chat completion, as `openai_protocol` holds it.
#[verifier::external_type_specification]
#[verifier::external_body]
pub struct ExChatChoice(ChatChoice);

/// A tool call of a chat completion.
#[derive(Debug)]
pub struct CompletionCall {
    pub id: String,
    pub call_type: String,
    pub name: String,
    pub arguments: Option<String>,
}

/// What a [`CompletionCall`] says.
pub struct CompletionCallView {
    pub id: Seq<char>,
    pub call_type: Seq<char>,
    pub name: Seq<char>,
    pub arguments: Option<Seq<char>>,
}

impl DeepView for CompletionCall {
    type V = CompletionCallView;

    open spec fn deep_view(&self) -> CompletionCallView {
        CompletionCallView {
            id: self.id@,
            call_type: self.call_type@,
            name: self.name@,
            arguments: self.arguments.deep_view(),
        }
    }
}

/// A choice of a chat completion. It has no hidden states.
#[derive(Debug)]
pub struct CompletionChoice {
    pub index: u32,
    pub role: String,
    pub content: Option<String>,
    pub tool_calls: Option<Vec<CompletionCall>>,
    pub reasoning: Option<String>,
    pub finish_reason: Option<String>,
    pub logprobs: Option<ChatLogProbs>,
    pub matched_stop: Option<Value>,
}

/// What a [`CompletionChoice`] says.
pub struct ChoiceView {
    pub index: u32,
    pub role: Seq<char>,
    pub content: Option<Seq<char>>,
    pub tool_calls: Option<Seq<CompletionCallView>>,
    pub reasoning: Option<Seq<char>>,
    pub finish_reason: Option<Seq<char>>,
    pub logprobs: Option<ChatLogProbs>,
    pub matched_stop: Option<JsonView>,
    /// Whether it comes with hidden states of the model.
    pub has_hidden_states: bool,
}

impl DeepView for CompletionChoice {
    type V = ChoiceView;

    open spec fn deep_view(&self) -> ChoiceView {
        ChoiceView {
            index: self.index,
            role: self.role@,
            content: self.content.deep_view(),
            tool_calls: self.tool_calls.deep_view(),
            reasoning: self.reasoning.deep_view(),
            finish_reason: self.finish_reason.deep_view(),
            logprobs: self.logprobs,
            matched_stop: content_of(self.matched_stop),
            has_hidden_states: false,
        }
    }
}

/// A chat completion. It names no fingerprint of the system.
#[derive(Debug)]
pub struct Completion {
    pub id: String,
    pub model: String,
    pub choices: Vec<CompletionChoice>,
    pub usage: Option<Usage>,
}

/// What a [`Completion`] says.
pub struct CompletionView {
    pub id: Seq<char>,
    pub object: Seq<char>,
    pub model: Seq<char>,
    pub choices: Seq<ChoiceView>,
    pub usage: Option<Usage>,
    pub system_fingerprint: Option<Seq<char>>,
}

impl CompletionView {
    /// The reasoning of the first choice.
    pub open spec fn reasoning(self) -> Option<Seq<char>> {
        if self.choices.len() > 0 {
            self.choices[0].reasoning
        } else {
            None
        }
    }
}

impl DeepView for Completion {
    type V = CompletionView;

    open spec fn deep_view(&self) -> CompletionView {
        CompletionView {
            id: self.id@,
            object: "chat.completion"@,
            model: self.model@,
            choices: self.choices.deep_view(),
            usage: self.usage,
            system_fingerprint: None,
        }
    }
}

impl Completion {
    /// The reasoning of the first choice.
    pub fn reasoning(&self) -> (res: Option<String>)
        ensures
            res.deep_view() == self.deep_view().reasoning(),
    {
        if self.choices.len() > 0 {
            assert(self.deep_view().choices[0] == self.choices@[0].deep_view());
            match &self.choices[0].reasoning {
                Some(text) => Some(text.clone()),
                None => None,
            }
        } else {
            None
        }
    }
}

/// What a `ChatCompletionResponse` says besides its creation time.
pub uninterp spec fn completion_content(response: ChatCompletionResponse) -> CompletionView;

/// What a `ChatChoice` says.
pub uninterp spec fn choice_content(choice: ChatChoice) -> ChoiceView;

/// The counts of an `openai_protocol` usage.
pub uninterp spec fn chat_usage_content(usage: ChatUsage) -> Usage;

/// The counts of an optional usage.
pub open spec fn chat_usage_content_of(usage: Option<ChatUsage>) -> Option<
    Usage,
> {
    match usage {
        Some(usage) => Some(chat_usage_content(usage)),
        None => None,
    }
}

/// Makes an `openai_protocol` usage of the given counts.
#[verifier::external_body]
fn make_chat_usage(usage: Usage) -> (res: ChatUsage)
    ensures
        chat_usage_content(res) == usage,
{
    ChatUsage {
        prompt_tokens: usage.prompt_tokens,
        completion_tokens: usage.completion_tokens,
        total_tokens: usage.total_tokens,
        prompt_tokens_details: usage.cached_tokens.map(
            |cached_tokens| PromptTokenUsageInfo { cached_tokens }),
        completion_tokens_details: usage.completion_details.map(|d| CompletionTokensDetails {
            reasoning_tokens: d.reasoning_tokens,
            accepted_prediction_tokens: d.accepted_prediction_tokens,
            rejected_prediction_tokens: d.rejected_prediction_tokens,
        }),
    }
}

/// Makes a `ChatChoice` of the given values, without hidden states.
#[verifier::external_body]
fn make_choice(choice: CompletionChoice) -> (res: ChatChoice)
    ensures
        choice_content(res) == choice.deep_view(),
{
    let tool_calls = choice.tool_calls.map(|calls| calls.into_iter().map(|call| ToolCall {
        id: call.id, tool_type: call.call_type,
        function: FunctionCallResponse { name: call.name, arguments: call.arguments },
    }).collect());
    ChatChoice {
        index: choice.index, finish_reason: choice.finish_reason, logprobs: choice.logprobs,
        matched_stop: choice.matched_stop, hidden_states: None,
        message: ChatCompletionMessage {
            role: choice.role, content: choice.content,
            tool_calls, reasoning_content: choice.reasoning,
        },
    }
}

/// Calls `ChatCompletionResponse::builder` and on it `choices`, `maybe_usage` and `build`: the
/// completion holds the given values, the object `chat.completion` and no fingerprint of the
/// system. Its creation time, which the builder takes from the clock, is left open.
#[verifier::external_body]
fn make_completion(
    id: &str,
    model: &str,
    choices: Vec<ChatChoice>,
    usage: Option<ChatUsage>,
) -> (res: ChatCompletionResponse)
    ensures
        completion_content(res) == (CompletionView {
            id: id@,
            object: "chat.completion"@,
            model: model@,
            choices: choices@.map_values(|choice: ChatChoice| choice_content(choice)),
            usage: chat_usage_content_of(usage),
            system_fingerprint: None,
        }),
{
    ChatCompletionResponse::builder(id, model).choices(choices).maybe_usage(usage).build()
}

/// The completion as `openai_protocol` holds it.
pub fn build_completion(completion: Completion) -> (res: ChatCompletionResponse)
    ensures
        completion_content(res) == completion.deep_view(),
{
    let ghost view = completion.deep_view();
    let mut choices: Vec<ChatChoice> = Vec::new();
    for choice in it: completion.choices
        invariant
            it.seq() == completion.choices@,
            view.choices == completion.choices.deep_view(),
            choices@.len() == it.index(),
            forall|i: int|
                0 <= i < choices@.len() ==> choice_content(#[trigger] choices@[i])
                    == view.choices[i],
    {
        choices.push(make_choice(choice));
        proof {
            assert(view.choices[it.index()] == choice.deep_view());
        }
    }
    proof {
        assert(choices@.map_values(|choice: ChatChoice| choice_content(choice)) =~= view.choices);
    }
    let usage = match completion.usage {
        Some(usage) => Some(make_chat_usage(usage)),
        None => None,
    };
    make_completion(completion.id.as_str(), completion.model.as_str(), choices, usage)
}

/// A tool call with nothing in it.
pub open spec fn empty_call() -> CompletionCallView {
    CompletionCallView {
        id: seq![],
        call_type: "function"@,
        name: seq![],
        arguments: Some(seq![]),
    }
}

/// A tool call after one more piece: an identifier or a name in it replaces the one before, and
/// arguments are appended.
pub open spec fn updated_call(
    call: CompletionCallView,
    delta: ToolCallDeltaView,
) -> CompletionCallView {
    CompletionCallView {
        id: match delta.id {
            Some(id) => id,
            None => call.id,
        },
        call_type: call.call_type,
        name: match delta.function {
            Some(function) => match function.name {
                Some(name) => name,
                None => call.name,
            },
            None => call.name,
        },
        arguments: match call.arguments {
            Some(arguments) => Some(arguments + arguments_piece(delta)),
            None => None,
        },
    }
}

/// Tool calls by their index, in increasing order.
pub struct IndexedCalls {
    pub keys: Seq<u32>,
    pub calls: Seq<CompletionCallView>,
}

impl IndexedCalls {
    /// Every key has its call, and the keys increase.
    pub open spec fn valid(self) -> bool {
        self.keys.len() == self.calls.len() && increasing(self.keys)
    }

    /// The calls with one for the given key.
    pub open spec fn opened(self, key: u32) -> IndexedCalls {
        if self.keys.contains(key) {
            self
        } else {
            IndexedCalls {
                keys: with_key(self.keys, key),
                calls: self.calls.insert(rank(self.keys, key), empty_call()),
            }
        }
    }

    /// One piece taken in.
    pub open spec fn with_piece(self, delta: ToolCallDeltaView) -> IndexedCalls {
        let open = self.opened(delta.index);
        let r = rank(open.keys, delta.index);
        IndexedCalls {
            keys: open.keys,
            calls: open.calls.update(r, updated_call(open.calls[r], delta)),
        }
    }

    /// All pieces taken in, one after the other.
    pub open spec fn with_pieces(self, deltas: Seq<ToolCallDeltaView>) -> IndexedCalls
        decreases deltas.len(),
    {
        if deltas.len() == 0 {
            self
        } else {
            self.with_pieces(deltas.drop_last()).with_piece(deltas.last())
        }
    }
}

/// What a [`ChatResponseAccumulator`] holds.
pub struct ChatAccumulatorView {
    pub id: Seq<char>,
    pub model: Seq<char>,
    pub content: Seq<char>,
    pub reasoning: Option<Seq<char>>,
    pub tool_calls: IndexedCalls,
    pub finish_reason: Option<Seq<char>>,
    pub usage: Option<Usage>,
}

impl ChatAccumulatorView {
    /// Nothing accumulated.
    pub open spec fn empty() -> ChatAccumulatorView {
        ChatAccumulatorView {
            id: seq![],
            model: seq![],
            content: seq![],
            reasoning: None,
            tool_calls: IndexedCalls { keys: seq![], calls: seq![] },
            finish_reason: None,
            usage: None,
        }
    }

    /// What is accumulated after a chunk. Only the first choice counts.
    pub open spec fn after(self, chunk: ChatChunkView) -> ChatAccumulatorView {
        let named = ChatAccumulatorView {
            id: if chunk.id.len() > 0 {
                chunk.id
            } else {
                self.id
            },
            model: if chunk.model.len() > 0 {
                chunk.model
            } else {
                self.model
            },
            usage: if chunk.usage is Some {
                chunk.usage
            } else {
                self.usage
            },
            ..self
        };
        if chunk.choices.len() == 0 {
            named
        } else {
            let choice = chunk.choices[0];
            ChatAccumulatorView {
                content: self.content + text_or_empty(choice.content),
                reasoning: match choice.reasoning {
                    Some(piece) => Some(text_or_empty(self.reasoning) + piece),
                    None => self.reasoning,
                },
                tool_calls: self.tool_calls.with_pieces(choice.deltas()),
                finish_reason: if choice.finish_reason is Some {
                    choice.finish_reason
                } else {
                    self.finish_reason
                },
                ..named
            }
        }
    }

    /// What is accumulated after several chunks.
    pub open spec fn after_all(self, chunks: Seq<ChatChunkView>) -> ChatAccumulatorView
        decreases chunks.len(),
    {
        if chunks.len() == 0 {
            self
        } else {
            self.after_all(chunks.drop_last()).after(chunks.last())
        }
    }

    /// The only choice of the completion. Empty content counts as none, and so does an empty list
    /// of tool calls; tool calls stand in the order of their index.
    pub open spec fn choice(self) -> ChoiceView {
        ChoiceView {
            index: 0,
            role: "assistant"@,
            content: if self.content.len() == 0 {
                None
            } else {
                Some(self.content)
            },
            tool_calls: if self.tool_calls.calls.len() == 0 {
                None
            } else {
                Some(self.tool_calls.calls)
            },
            reasoning: self.reasoning,
            finish_reason: self.finish_reason,
            logprobs: None,
            matched_stop: None,
            has_hidden_states: false,
        }
    }

    /// The completion.
    pub open spec fn completion(self) -> CompletionView {
        CompletionView {
            id: self.id,
            object: "chat.completion"@,
            model: self.model,
            choices: seq![self.choice()],
            usage: self.usage,
            system_fingerprint: None,
        }
    }
}

/// Accumulates the chunks of a chat completion stream into a chat completion.
#[derive(Debug)]
pub struct ChatResponseAccumulator {
    pub id: String,
    pub model: String,
    pub content: String,
    pub reasoning_content: Option<String>,
    pub tool_calls: BTreeMap<u32, CompletionCall>,
    pub finish_reason: Option<String>,
    pub usage: Option<Usage>,
}

impl View for ChatResponseAccumulator {
    type V = ChatAccumulatorView;

    open spec fn view(&self) -> ChatAccumulatorView {
        ChatAccumulatorView {
            id: self.id@,
            model: self.model@,
            content: self.content@,
            reasoning: self.reasoning_content.deep_view(),
            tool_calls: IndexedCalls {
                keys: ordered(self.tool_calls@.dom()),
                calls: in_key_order(self.tool_calls@),
            },
            finish_reason: self.finish_reason.deep_view(),
            usage: self.usage,
        }
    }
}

/// Adds a piece to a tool call.
pub fn update_call(call: &mut CompletionCall, delta: &ToolCallDelta)
    ensures
        final(call).deep_view() == updated_call(old(call).deep_view(), delta.deep_view()),
{
    match &delta.id {
        Some(id) => {
            call.id = id.clone();
        },
        None => {},
    }
    match &delta.function {
        Some(function) => {
            match &function.name {
                Some(name) => {
                    call.name = name.clone();
                },
                None => {},
            }
            match &mut call.arguments {
                Some(arguments) => append_text(arguments, &function.arguments),
                None => {},
            }
        },
        None => {
            proof {
                if let Some(arguments) = call.deep_view().arguments {
                    assert(arguments + Seq::<char>::empty() =~= arguments);
                }
            }
        },
    }
}

impl ChatResponseAccumulator {
    /// An accumulator that has seen no chunk.
    pub fn new() -> (res: Self)
        ensures
            res@ == ChatAccumulatorView::empty(),
            res@.tool_calls.valid(),
    {
        let res = ChatResponseAccumulator {
            id: String::new(),
            model: String::new(),
            content: String::new(),
            reasoning_content: None,
            tool_calls: BTreeMap::new(),
            finish_reason: None,
            usage: None,
        };
        proof {
            lemma_ordered_is(seq![], res.tool_calls@.dom());
            assert(res@.tool_calls.calls =~= seq![]);
        }
        res
    }

    /// Takes one piece in.
    fn take_piece(&mut self, delta: &ToolCallDelta)
        requires
            old(self)@.tool_calls.valid(),
        ensures
            final(self)@ == (ChatAccumulatorView {
                tool_calls: old(self)@.tool_calls.with_piece(delta.deep_view()),
                ..old(self)@
            }),
            final(self)@.tool_calls.valid(),
    {
        let ghost before = self@.tool_calls;
        let ghost held = self.tool_calls@;
        let key: u32 = delta.index;
        proof {
            lemma_key_order(held, key);
            lemma_rank(before.keys, key);
            lemma_with_key(before.keys, key);
        }
        let mut call = match self.tool_calls.remove(&key) {
            Some(call) => call,
            None => CompletionCall {
                id: String::new(),
                call_type: "function".to_owned(),
                name: String::new(),
                arguments: Some(String::new()),
            },
        };
        let ghost open = before.opened(key);
        let ghost r = rank(before.keys, key);
        proof {
            assert(call.deep_view() == open.calls[r]);
        }
        update_call(&mut call, delta);
        self.tool_calls.insert(key, call);
        proof {
            lemma_key_order_insert(held, key, call);
            assert(self.tool_calls@ =~= held.insert(key, call));
            assert(self@.tool_calls.calls =~= open.calls.update(r, call.deep_view()));
        }
    }

    /// Takes in a chunk.
    pub fn process_chunk(&mut self, chunk: &ChatChunk)
        requires
            old(self)@.tool_calls.valid(),
        ensures
            final(self)@ == old(self)@.after(chunk.deep_view()),
            final(self)@.tool_calls.valid(),
    {
        let ghost before = self@;
        let ghost view = chunk.deep_view();
        if !chunk.id.as_str().is_empty() {
            self.id = chunk.id.clone();
        }
        if !chunk.model.as_str().is_empty() {
            self.model = chunk.model.clone();
        }
        if chunk.choices.len() > 0 {
            let choice = &chunk.choices[0];
            assert(view.choices[0] == choice.deep_view());
            append_text(&mut self.content, &choice.content);
            match &choice.reasoning {
                Some(piece) => {
                    let mut text = match &self.reasoning_content {
                        Some(text) => text.clone(),
                        None => String::new(),
                    };
                    text.append(piece.as_str());
                    self.reasoning_content = Some(text);
                    proof {
                        assert(self.reasoning_content.deep_view() == Some(
                            text_or_empty(before.reasoning) + piece@,
                        ));
                    }
                },
                None => {},
            }
            match &choice.tool_calls {
                Some(deltas) => {
                    let ghost pieces = deltas.deep_view();
                    let ghost started = self@;
                    let n = deltas.len();
                    let mut j: usize = 0;
                    proof {
                        assert(pieces.take(0) =~= seq![]);
                    }
                    while j < n
                        invariant
                            n == deltas@.len(),
                            j <= n,
                            pieces == deltas.deep_view(),
                            self@.tool_calls.valid(),
                            self@ == (ChatAccumulatorView {
                                tool_calls: started.tool_calls.with_pieces(pieces.take(j as int)),
                                ..started
                            }),
                        decreases n - j,
                    {
                        self.take_piece(&deltas[j]);
                        proof {
                            assert(pieces.take(j + 1).drop_last() =~= pieces.take(j as int));
                            assert(pieces.take(j + 1).last() == deltas@[j as int].deep_view());
                        }
                        j += 1;
                    }
                    proof {
                        assert(pieces.take(n as int) =~= pieces);
                    }
                },
                None => {},
            }
            match &choice.finish_reason {
                Some(reason) => {
                    self.finish_reason = Some(reason.clone());
                },
                None => {},
            }
        }
        match &chunk.usage {
            Some(usage) => {
                self.usage = Some(*usage);
            },
            None => {},
        }
        proof {
            assert(self@ =~= before.after(view));
        }
    }

    /// The tool calls in the order of their index.
    fn take_calls(&mut self) -> (res: Vec<CompletionCall>)
        ensures
            res.deep_view() == old(self)@.tool_calls.calls,
            final(self)@ == (ChatAccumulatorView {
                tool_calls: final(self)@.tool_calls,
                ..old(self)@
            }),
    {
        let ghost held = self.tool_calls@;
        let ghost rest = self@;
        let ghost wanted = in_key_order(held);
        let keys = keys_in_order(&self.tool_calls);
        let n = keys.len();
        let mut calls: Vec<CompletionCall> = Vec::new();
        let mut i: usize = 0;
        proof {
            lemma_ordered(held.dom());
            assert(calls.deep_view() =~= wanted.take(0));
            assert forall|j: int| 0 <= j < keys@.len() implies held.contains_key(
                #[trigger] keys@[j],
            ) by {
                assert(keys@.contains(keys@[j]));
            }
        }
        while i < n
            invariant
                n == keys@.len(),
                i <= n,
                keys@ == ordered(held.dom()),
                orders(keys@, held.dom()),
                wanted == in_key_order(held),
                self@ == (ChatAccumulatorView { tool_calls: self@.tool_calls, ..rest }),
                forall|j: int|
                    i <= j < n ==> self.tool_calls@.contains_key(#[trigger] keys@[j])
                        && self.tool_calls@[keys@[j]] == held[keys@[j]],
                calls.deep_view() == wanted.take(i as int),
            decreases n - i,
        {
            let key: u32 = keys[i];
            let ghost done = calls.deep_view();
            match self.tool_calls.remove(&key) {
                Some(call) => {
                    calls.push(call);
                    proof {
                        assert(call.deep_view() == wanted[i as int]);
                        assert(calls.deep_view() =~= done.push(call.deep_view()));
                        assert(wanted.take(i + 1) =~= done.push(wanted[i as int]));
                    }
                },
                None => {},
            }
            proof {
                assert forall|j: int| i + 1 <= j < n implies self.tool_calls@.contains_key(
                    #[trigger] keys@[j],
                ) && self.tool_calls@[keys@[j]] == held[keys@[j]] by {
                    assert(keys@[i as int] < keys@[j]);
                }
            }
            i += 1;
        }
        proof {
            assert(wanted.take(n as int) =~= wanted);
        }
        calls
    }

    /// The completion.
    pub fn into_completion(self) -> (res: Completion)
        ensures
            res.deep_view() == self@.completion(),
    {
        let mut accumulator = self;
        let calls = accumulator.take_calls();
        let content = if accumulator.content.as_str().is_empty() {
            None
        } else {
            Some(accumulator.content)
        };
        let tool_calls = if calls.len() == 0 {
            None
        } else {
            Some(calls)
        };
        let choice = CompletionChoice {
            index: 0,
            role: "assistant".to_owned(),
            content,
            tool_calls,
            reasoning: accumulator.reasoning_content,
            finish_reason: accumulator.finish_reason,
            logprobs: None,
            matched_stop: None,
        };
        let choices = vec![choice];
        proof {
            assert(choices.deep_view() =~= seq![choice.deep_view()]);
        }
        Completion {
            id: accumulator.id,
            model: accumulator.model,
            choices,
            usage: accumulator.usage,
        }
    }

    /// The completion as `openai_protocol` holds it.
    pub fn finalize(self) -> (res: ChatCompletionResponse)
        ensures
            completion_content(res) == self@.completion(),
    {
        build_completion(self.into_completion())
    }
}

/// The content that a chunk adds.
pub open spec fn content_piece(chunk: ChatChunkView) -> Seq<char> {
    if chunk.choices.len() > 0 {
        text_or_empty(chunk.choices[0].content)
    } else {
        seq![]
    }
}

/// The content that several chunks add, joined.
pub open spec fn joined_content(chunks: Seq<ChatChunkView>) -> Seq<char>
    decreases chunks.len(),
{
    if chunks.len() == 0 {
        seq![]
    } else {
        joined_content(chunks.drop_last()) + content_piece(chunks.last())
    }
}

/// The content of the completion is the content of all chunks, joined in their order.
pub proof fn law_content_is_joined(view: ChatAccumulatorView, chunks: Seq<ChatChunkView>)
    ensures
        view.after_all(chunks).content == view.content + joined_content(chunks),
    decreases chunks.len(),
{
    if chunks.len() == 0 {
        assert(view.content + joined_content(chunks) =~= view.content);
    } else {
        law_content_is_joined(view, chunks.drop_last());
        assert(view.after_all(chunks).content =~= view.content + joined_content(chunks));
    }
}

/// Tool calls come out in the order of their index, whatever the order in which their pieces
/// arrived: the keys stay increasing, with a call for each.
pub proof fn law_calls_stay_in_order(calls: IndexedCalls, deltas: Seq<ToolCallDeltaView>)
    requires
        calls.valid(),
    ensures
        calls.with_pieces(deltas).valid(),
        forall|j: int|
            0 <= j < deltas.len() ==> calls.with_pieces(deltas).keys.contains(
                (#[trigger] deltas[j]).index,
            ),
        forall|key: u32|
            calls.keys.contains(key) ==> #[trigger] calls.with_pieces(deltas).keys.contains(key),
    decreases deltas.len(),
{
    if deltas.len() > 0 {
        let shorter = deltas.drop_last();
        law_calls_stay_in_order(calls, shorter);
        let before = calls.with_pieces(shorter);
        lemma_with_key(before.keys, deltas.last().index);
        lemma_rank(before.keys, deltas.last().index);
        let after = calls.with_pieces(deltas);
        assert(after.keys == with_key(before.keys, deltas.last().index));
        assert forall|j: int| 0 <= j < deltas.len() implies after.keys.contains(
            (#[trigger] deltas[j]).index,
        ) by {
            if j < shorter.len() {
                assert(shorter[j] == deltas[j]);
            }
        }
    }
}

} // verus!
