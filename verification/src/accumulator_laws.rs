//! What holds of a response that is accumulated from the chunks of a chat completion stream.
use crate::accumulator::{
    blank_call, calls_needed, extended_calls, lemma_calls_needed, lemma_extended_calls,
    AccumulatorView,
};
use crate::chat::{ChatChunkView, ToolCallDeltaView, Usage};
use crate::responses::{FunctionCallView, OutputItemView, ResponseStatus, UsageView};
use vstd::prelude::*;

verus! {

/// A chunk that is taken in, with the identifiers of the function calls that it opens.
pub struct ChunkIn {
    pub chunk: ChatChunkView,
    pub fresh: Seq<Seq<char>>,
}

/// What is accumulated after several chunks.
pub open spec fn after_all(view: AccumulatorView, taken: Seq<ChunkIn>) -> AccumulatorView
    decreases taken.len(),
{
    if taken.len() == 0 {
        view
    } else {
        after_all(view, taken.drop_last()).after(taken.last().chunk, taken.last().fresh)
    }
}

/// The reasoning of the first choice of all chunks, joined in their order.
pub open spec fn reasoning_of_all(taken: Seq<ChunkIn>) -> Seq<char>
    decreases taken.len(),
{
    if taken.len() == 0 {
        seq![]
    } else {
        let before = reasoning_of_all(taken.drop_last());
        let choices = taken.last().chunk.choices;
        if choices.len() > 0 && choices[0].reasoning is Some {
            before + choices[0].reasoning->0
        } else {
            before
        }
    }
}

/// The content of the first choice of all chunks, joined in their order.
pub open spec fn content_of_all(taken: Seq<ChunkIn>) -> Seq<char>
    decreases taken.len(),
{
    if taken.len() == 0 {
        seq![]
    } else {
        let before = content_of_all(taken.drop_last());
        let choices = taken.last().chunk.choices;
        if choices.len() > 0 && choices[0].content is Some {
            before + choices[0].content->0
        } else {
            before
        }
    }
}

/// The first choice of a chunk carries pieces of tool calls.
pub open spec fn has_pieces(chunk: ChatChunkView) -> bool {
    chunk.choices.len() > 0 && chunk.choices[0].tool_calls is Some
        && chunk.choices[0].tool_calls->0.len() > 0
}

/// The reasoning of a response is the reasoning before the chunks followed by that of all chunks,
/// joined in their order.
pub proof fn law_reasoning_is_joined(view: AccumulatorView, taken: Seq<ChunkIn>)
    ensures
        after_all(view, taken).reasoning == view.reasoning + reasoning_of_all(taken),
    decreases taken.len(),
{
    if taken.len() > 0 {
        law_reasoning_is_joined(view, taken.drop_last());
    }
    assert(after_all(view, taken).reasoning =~= view.reasoning + reasoning_of_all(taken));
}

/// Chunks without pieces of tool calls open no function call.
proof fn lemma_no_pieces_no_calls(view: AccumulatorView, taken: Seq<ChunkIn>)
    requires
        view.tool_calls.len() == 0,
        forall|i: int| 0 <= i < taken.len() ==> !has_pieces((#[trigger] taken[i]).chunk),
        forall|i: int| 0 <= i < taken.len() ==> (#[trigger] taken[i]).fresh.len() == 0,
    ensures
        after_all(view, taken).tool_calls.len() == 0,
    decreases taken.len(),
{
    if taken.len() > 0 {
        let shorter = taken.drop_last();
        assert forall|i: int| 0 <= i < shorter.len() implies !has_pieces(
            (#[trigger] shorter[i]).chunk,
        ) && shorter[i].fresh.len() == 0 by {
            assert(shorter[i] == taken[i]);
        }
        lemma_no_pieces_no_calls(view, shorter);
        assert(!has_pieces(taken[taken.len() - 1].chunk));
        let before = after_all(view, shorter);
        let fresh = taken.last().fresh;
        assert(fresh.map_values(
            |id: Seq<char>| blank_call(id),
        ) =~= seq![]);
        assert(before.tool_calls + Seq::<FunctionCallView>::empty() =~= seq![]);
    }
}

/// The message of a response is the content of all chunks, joined in their order, up to and with
/// the first that carries pieces of a tool call.
pub proof fn law_content_is_joined_up_to_the_first_call(
    view: AccumulatorView,
    taken: Seq<ChunkIn>,
)
    requires
        view.tool_calls.len() == 0,
        forall|i: int| 0 <= i < taken.len() - 1 ==> !has_pieces((#[trigger] taken[i]).chunk),
        forall|i: int| 0 <= i < taken.len() - 1 ==> (#[trigger] taken[i]).fresh.len() == 0,
    ensures
        after_all(view, taken).content == view.content + content_of_all(taken),
    decreases taken.len(),
{
    if taken.len() > 0 {
        let shorter = taken.drop_last();
        assert forall|i: int| 0 <= i < shorter.len() implies !has_pieces(
            (#[trigger] shorter[i]).chunk,
        ) && shorter[i].fresh.len() == 0 by {
            assert(shorter[i] == taken[i]);
        }
        lemma_no_pieces_no_calls(view, shorter);
        law_content_is_joined_up_to_the_first_call(view, shorter);
    }
    assert(after_all(view, taken).content =~= view.content + content_of_all(taken));
}

/// Once there is a function call, chunks add nothing to the message.
pub proof fn law_content_stays_behind_a_call(view: AccumulatorView, taken: Seq<ChunkIn>)
    requires
        view.tool_calls.len() > 0,
        forall|i: int|
            0 <= i < taken.len() ==> (#[trigger] taken[i]).fresh.len() == after_all(
                view,
                taken.take(i),
            ).opened_by(taken[i].chunk),
    ensures
        after_all(view, taken).content == view.content,
        after_all(view, taken).tool_calls.len() >= view.tool_calls.len(),
    decreases taken.len(),
{
    if taken.len() > 0 {
        let shorter = taken.drop_last();
        assert forall|i: int| 0 <= i < shorter.len() implies (#[trigger] shorter[i]).fresh.len()
            == after_all(view, shorter.take(i)).opened_by(shorter[i].chunk) by {
            assert(shorter[i] == taken[i]);
            assert(shorter.take(i) =~= taken.take(i));
        }
        law_content_stays_behind_a_call(view, shorter);
        let before = after_all(view, shorter);
        let last = taken.last();
        assert(taken.take(taken.len() - 1) =~= shorter);
        assert(taken[taken.len() - 1].fresh.len() == before.opened_by(last.chunk));
        if last.chunk.choices.len() > 0 {
            let calls = before.tool_calls + last.fresh.map_values(
                |id: Seq<char>| blank_call(id),
            );
            lemma_calls_needed(before.tool_calls.len(), last.chunk.deltas());
            lemma_extended_calls(calls, last.chunk.deltas());
        }
    }
}

/// The finish reason is that of the last chunk whose first choice gives one, and stays where none
/// does.
pub proof fn law_last_finish_reason_counts(view: AccumulatorView, taken: Seq<ChunkIn>, j: int)
    requires
        -1 <= j < taken.len(),
        j >= 0 ==> taken[j].chunk.choices.len() > 0 && taken[j].chunk.choices[0].finish_reason
            is Some,
        forall|k: int|
            j < k < taken.len() && (#[trigger] taken[k]).chunk.choices.len() > 0 ==>
                taken[k].chunk.choices[0].finish_reason is None,
    ensures
        after_all(view, taken).finish_reason == if j >= 0 {
            taken[j].chunk.choices[0].finish_reason
        } else {
            view.finish_reason
        },
    decreases taken.len(),
{
    if taken.len() > 0 {
        let shorter = taken.drop_last();
        if j < taken.len() - 1 {
            assert forall|k: int|
                j < k < shorter.len() && (#[trigger] shorter[k]).chunk.choices.len() > 0 implies
                shorter[k].chunk.choices[0].finish_reason is None by {
                assert(shorter[k] == taken[k]);
            }
            law_last_finish_reason_counts(view, shorter, j);
            let last = taken[taken.len() - 1];
            assert(last.chunk.choices.len() > 0 ==> last.chunk.choices[0].finish_reason is None);
        }
    }
}

/// The usage is that of the last chunk that gives one, and stays where none does.
pub proof fn law_last_usage_counts(view: AccumulatorView, taken: Seq<ChunkIn>, j: int)
    requires
        -1 <= j < taken.len(),
        j >= 0 ==> taken[j].chunk.usage is Some,
        forall|k: int| j < k < taken.len() ==> (#[trigger] taken[k]).chunk.usage is None,
    ensures
        after_all(view, taken).usage == if j >= 0 {
            taken[j].chunk.usage
        } else {
            view.usage
        },
    decreases taken.len(),
{
    if taken.len() > 0 {
        let shorter = taken.drop_last();
        if j < taken.len() - 1 {
            assert forall|k: int| j < k < shorter.len() implies (
            #[trigger] shorter[k]).chunk.usage is None by {
                assert(shorter[k] == taken[k]);
            }
            law_last_usage_counts(view, shorter, j);
            assert(taken[taken.len() - 1].chunk.usage is None);
        }
    }
}

/// A response that has an identifier keeps it, with its model and its creation time; one without
/// takes over those of the chunk. The request that it answers stays in any case.
pub proof fn law_identity_is_kept(
    view: AccumulatorView,
    chunk: ChatChunkView,
    fresh: Seq<Seq<char>>,
)
    ensures
        view.response_id.len() > 0 ==> {
            &&& view.after(chunk, fresh).response_id == view.response_id
            &&& view.after(chunk, fresh).model == view.model
            &&& view.after(chunk, fresh).created_at == view.created_at
        },
        view.response_id.len() == 0 ==> {
            &&& view.after(chunk, fresh).response_id == chunk.id
            &&& view.after(chunk, fresh).model == chunk.model
            &&& view.after(chunk, fresh).created_at == chunk.created as i64
        },
        view.after(chunk, fresh).original_request == view.original_request,
{
}

/// The names that the pieces with an index carry, joined in their order.
pub open spec fn names_at(deltas: Seq<ToolCallDeltaView>, index: int) -> Seq<char>
    decreases deltas.len(),
{
    if deltas.len() == 0 {
        seq![]
    } else {
        let before = names_at(deltas.drop_last(), index);
        let delta = deltas.last();
        if delta.index == index && delta.function is Some && delta.function->0.name is Some {
            before + delta.function->0.name->0
        } else {
            before
        }
    }
}

/// The arguments that the pieces with an index carry, joined in their order.
pub open spec fn arguments_at(deltas: Seq<ToolCallDeltaView>, index: int) -> Seq<char>
    decreases deltas.len(),
{
    if deltas.len() == 0 {
        seq![]
    } else {
        let before = arguments_at(deltas.drop_last(), index);
        let delta = deltas.last();
        if delta.index == index && delta.function is Some && delta.function->0.arguments is Some {
            before + delta.function->0.arguments->0
        } else {
            before
        }
    }
}

/// A piece with an index carries a call identifier that is not empty.
pub open spec fn gives_id(delta: ToolCallDeltaView, index: int) -> bool {
    delta.index == index && delta.id is Some && delta.id->0.len() > 0
}

/// Each function call grows by the pieces with its index and by no others: its name and its
/// arguments by theirs, joined in their order. Its call identifier is the first that is not empty.
/// Its item identifier, its output and its status stay.
pub proof fn law_pieces_reach_their_own_call(
    calls: Seq<FunctionCallView>,
    deltas: Seq<ToolCallDeltaView>,
    i: int,
)
    requires
        forall|j: int| 0 <= j < deltas.len() ==> (#[trigger] deltas[j]).index < calls.len(),
        0 <= i < calls.len(),
    ensures
        extended_calls(calls, deltas).len() == calls.len(),
        extended_calls(calls, deltas)[i].name == calls[i].name + names_at(deltas, i),
        extended_calls(calls, deltas)[i].arguments == calls[i].arguments + arguments_at(deltas, i),
        extended_calls(calls, deltas)[i].id == calls[i].id,
        extended_calls(calls, deltas)[i].output == calls[i].output,
        extended_calls(calls, deltas)[i].status == calls[i].status,
        calls[i].call_id.len() > 0 ==> extended_calls(calls, deltas)[i].call_id
            == calls[i].call_id,
        calls[i].call_id.len() == 0 ==> forall|j: int|
            0 <= j < deltas.len() && gives_id(#[trigger] deltas[j], i) && (forall|k: int|
                0 <= k < j ==> !gives_id(#[trigger] deltas[k], i)) ==> extended_calls(
                calls,
                deltas,
            )[i].call_id == deltas[j].id->0,
        calls[i].call_id.len() == 0 && (forall|j: int|
            0 <= j < deltas.len() ==> !gives_id(#[trigger] deltas[j], i)) ==> extended_calls(
            calls,
            deltas,
        )[i].call_id.len() == 0,
    decreases deltas.len(),
{
    if deltas.len() == 0 {
        assert(calls[i].name + names_at(deltas, i) =~= calls[i].name);
        assert(calls[i].arguments + arguments_at(deltas, i) =~= calls[i].arguments);
    } else {
        let shorter = deltas.drop_last();
        let last = deltas.last();
        assert forall|j: int| 0 <= j < shorter.len() implies (#[trigger] shorter[j]).index
            < calls.len() by {
            assert(shorter[j] == deltas[j]);
        }
        assert(deltas[deltas.len() - 1].index < calls.len());
        law_pieces_reach_their_own_call(calls, shorter, i);
        let before = extended_calls(calls, shorter)[i];
        let after = extended_calls(calls, deltas)[i];
        assert(after.name =~= calls[i].name + names_at(deltas, i));
        assert(after.arguments =~= calls[i].arguments + arguments_at(deltas, i));
        if calls[i].call_id.len() == 0 {
            assert forall|j: int|
                0 <= j < deltas.len() && gives_id(#[trigger] deltas[j], i) && (forall|k: int|
                    0 <= k < j ==> !gives_id(#[trigger] deltas[k], i)) implies after.call_id
                == deltas[j].id->0 by {
                assert forall|k: int| 0 <= k < j implies !gives_id(#[trigger] shorter[k], i) by {
                    assert(!gives_id(deltas[k], i));
                }
                if j < shorter.len() {
                    assert(gives_id(shorter[j], i));
                    assert(before.call_id == deltas[j].id->0);
                } else {
                    assert(before.call_id.len() == 0);
                }
            }
            if forall|j: int| 0 <= j < deltas.len() ==> !gives_id(#[trigger] deltas[j], i) {
                assert forall|j: int| 0 <= j < shorter.len() implies !gives_id(
                    #[trigger] shorter[j],
                    i,
                ) by {
                    assert(!gives_id(deltas[j], i));
                }
                assert(!gives_id(deltas[deltas.len() - 1], i));
            }
        }
    }
}

/// A chunk opens function calls up to the largest index of its pieces and no further. A call that
/// it opens has the item identifier that it was given, is in progress and has no output. All calls
/// grow by the pieces of the chunk.
pub proof fn law_chunks_open_the_calls_of_their_pieces(
    view: AccumulatorView,
    chunk: ChatChunkView,
    fresh: Seq<Seq<char>>,
)
    requires
        chunk.choices.len() > 0,
        chunk.choices[0].tool_calls is Some,
        fresh.len() == view.opened_by(chunk),
    ensures
        ({
            let deltas = chunk.choices[0].tool_calls->0;
            let after = view.after(chunk, fresh).tool_calls;
            let old = view.tool_calls.len();
            &&& after.len() == old + fresh.len()
            &&& forall|j: int| 0 <= j < deltas.len() ==> (#[trigger] deltas[j]).index < after.len()
            &&& after.len() > old ==> exists|j: int|
                0 <= j < deltas.len() && (#[trigger] deltas[j]).index == after.len() - 1
            &&& forall|i: int|
                0 <= i < old ==> {
                    &&& (#[trigger] after[i]).id == view.tool_calls[i].id
                    &&& after[i].name == view.tool_calls[i].name + names_at(deltas, i)
                    &&& after[i].arguments == view.tool_calls[i].arguments + arguments_at(
                        deltas,
                        i,
                    )
                }
            &&& forall|i: int|
                old <= i < after.len() ==> {
                    &&& (#[trigger] after[i]).id == fresh[i - old]
                    &&& after[i].name == names_at(deltas, i)
                    &&& after[i].arguments == arguments_at(deltas, i)
                    &&& after[i].status == "in_progress"@
                    &&& after[i].output is None
                }
        }),
{
    let deltas = chunk.choices[0].tool_calls->0;
    let blanks = fresh.map_values(|id: Seq<char>| blank_call(id));
    let calls = view.tool_calls + blanks;
    let after = view.after(chunk, fresh).tool_calls;
    let old = view.tool_calls.len();
    lemma_calls_needed(old, deltas);
    lemma_largest_index(old, deltas);
    assert(chunk.deltas() == deltas);
    lemma_extended_calls(calls, deltas);
    assert forall|i: int| 0 <= i < old implies {
        &&& (#[trigger] after[i]).id == view.tool_calls[i].id
        &&& after[i].name == view.tool_calls[i].name + names_at(deltas, i)
        &&& after[i].arguments == view.tool_calls[i].arguments + arguments_at(deltas, i)
    } by {
        assert(calls[i] == view.tool_calls[i]);
        law_pieces_reach_their_own_call(calls, deltas, i);
    }
    assert forall|i: int| old <= i < after.len() implies {
        &&& (#[trigger] after[i]).id == fresh[i - old]
        &&& after[i].name == names_at(deltas, i)
        &&& after[i].arguments == arguments_at(deltas, i)
        &&& after[i].status == "in_progress"@
        &&& after[i].output is None
    } by {
        assert(calls[i] == blanks[i - old]);
        law_pieces_reach_their_own_call(calls, deltas, i);
        assert(calls[i].name + names_at(deltas, i) =~= names_at(deltas, i));
        assert(calls[i].arguments + arguments_at(deltas, i) =~= arguments_at(deltas, i));
    }
}

/// As many calls are needed as the largest index asks for.
proof fn lemma_largest_index(len: nat, deltas: Seq<ToolCallDeltaView>)
    ensures
        calls_needed(len, deltas) > len ==> exists|j: int|
            0 <= j < deltas.len() && (#[trigger] deltas[j]).index == calls_needed(len, deltas) - 1,
    decreases deltas.len(),
{
    if deltas.len() > 0 {
        let shorter = deltas.drop_last();
        lemma_largest_index(len, shorter);
        let before = calls_needed(len, shorter);
        if deltas.last().index < before {
            if before > len {
                let j = choose|j: int|
                    0 <= j < shorter.len() && (#[trigger] shorter[j]).index == before - 1;
                assert(deltas[j].index == before - 1);
            }
        } else {
            assert(deltas[deltas.len() - 1].index == calls_needed(len, deltas) - 1);
        }
    }
}

/// A response is in progress where tool calls ended the completion, has failed where the finish
/// reason says `failed` or `error`, and is completed in every other case.
pub proof fn law_status_follows_the_finish_reason(view: AccumulatorView)
    ensures
        view.status() == ResponseStatus::InProgress <==> view.finish_reason == Some(
            "tool_calls"@,
        ),
        view.status() == ResponseStatus::Failed <==> view.finish_reason == Some("failed"@)
            || view.finish_reason == Some("error"@),
        view.finish_reason is None ==> view.status() == ResponseStatus::Completed,
{
    reveal_strlit("tool_calls");
    reveal_strlit("failed");
    reveal_strlit("error");
    assert("tool_calls"@.len() != "failed"@.len());
    assert("tool_calls"@.len() != "error"@.len());
}

/// The output of a response is its message, where it has content, then its reasoning, where it has
/// some, and then its function calls in their order.
pub proof fn law_output_shows_what_was_accumulated(view: AccumulatorView, status: ResponseStatus)
    ensures
        ({
            let output = view.draft(status).output;
            let r: int = if view.content.len() > 0 {
                1
            } else {
                0
            };
            let c: int = if view.reasoning.len() > 0 {
                r + 1
            } else {
                r
            };
            &&& output.len() == c + view.tool_calls.len()
            &&& view.content.len() > 0 ==> (output[0] matches OutputItemView::Message {
                id,
                role,
                content,
                status,
            } && id == "msg_"@ + view.response_id && role == "assistant"@ && content.len() == 1
                && content[0].text == view.content && content[0].annotations.len() == 0
                && content[0].logprobs is None && status == "completed"@)
            &&& view.reasoning.len() > 0 ==> (output[r] matches OutputItemView::Reasoning {
                id,
                summary,
                content,
                status,
            } && id == "reasoning_"@ + view.response_id && summary.len() == 0 && content == seq![
                view.reasoning,
            ] && status == Some("completed"@))
            &&& forall|i: int|
                0 <= i < view.tool_calls.len() ==> #[trigger] output[c + i]
                    == OutputItemView::FunctionCall(view.tool_calls[i])
        }),
{
}

/// A response bears the identifier, the model and the creation time that were accumulated, the
/// status that it is given and the counts of the usage, with the reasoning tokens where they are
/// counted.
pub proof fn law_draft_bears_what_was_accumulated(view: AccumulatorView, status: ResponseStatus)
    ensures
        view.draft(status).id == view.response_id,
        view.draft(status).model == view.model,
        view.draft(status).created_at == view.created_at,
        view.draft(status).status == status,
        view.usage is None <==> view.draft(status).usage is None,
        view.usage matches Some(usage) ==> (view.draft(status).usage matches Some(
            UsageView::Classic(info),
        ) && info.prompt_tokens == usage.prompt_tokens && info.completion_tokens
            == usage.completion_tokens && info.total_tokens == usage.total_tokens
            && info.cached_tokens is None && info.reasoning_tokens == counted_reasoning(usage)),
{
}

/// The reasoning tokens that a usage counts.
pub open spec fn counted_reasoning(usage: Usage) -> Option<u32> {
    if usage.completion_details is Some {
        usage.completion_details->0.reasoning_tokens
    } else {
        None
    }
}

} // verus!
