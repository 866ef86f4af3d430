//! What holds of a chat completion that is accumulated from the chunks of its stream.
use crate::accumulator_laws::arguments_at;
use crate::chat::{ChatChunkView, ToolCallDeltaView};
use crate::completion::{
    law_calls_stay_in_order, ChatAccumulatorView, CompletionCallView, IndexedCalls,
};
use crate::order::{increasing, lemma_rank, lemma_with_key, rank};
use vstd::prelude::*;

verus! {

/// The tool call with an index.
pub open spec fn call_at(calls: IndexedCalls, index: u32) -> Option<CompletionCallView> {
    if calls.keys.contains(index) {
        Some(calls.calls[calls.keys.index_of(index)])
    } else {
        None
    }
}

/// A piece belongs to the tool call with an index and carries a name.
pub open spec fn gives_name(delta: ToolCallDeltaView, index: u32) -> bool {
    delta.index == index && delta.function is Some && delta.function->0.name is Some
}

/// A piece belongs to the tool call with an index and carries an identifier.
pub open spec fn gives_call_id(delta: ToolCallDeltaView, index: u32) -> bool {
    delta.index == index && delta.id is Some
}

/// One of the pieces belongs to the tool call with an index.
pub open spec fn reached(deltas: Seq<ToolCallDeltaView>, index: u32) -> bool {
    exists|j: int| 0 <= j < deltas.len() && (#[trigger] deltas[j]).index == index
}

/// An increasing list holds a key at the place of the key.
proof fn lemma_index_of(keys: Seq<u32>, key: u32)
    requires
        increasing(keys),
        keys.contains(key),
    ensures
        keys.index_of(key) == rank(keys, key),
        0 <= rank(keys, key) < keys.len(),
        keys[rank(keys, key)] == key,
{
    lemma_rank(keys, key);
    let i = keys.index_of(key);
    let r = rank(keys, key);
    assert(0 <= i < keys.len() && keys[i] == key);
    if i < r {
        assert(keys[i] < keys[r]);
    } else if r < i {
        assert(keys[r] < keys[i]);
    }
}

/// What one piece does to the tool calls.
proof fn lemma_one_piece(calls: IndexedCalls, delta: ToolCallDeltaView, index: u32)
    requires
        calls.valid(),
    ensures
        calls.with_piece(delta).valid(),
        index != delta.index ==> call_at(calls.with_piece(delta), index) == call_at(calls, index),
        call_at(calls.with_piece(delta), delta.index) is Some,
        ({
            let before = call_at(calls, delta.index);
            let after = call_at(calls.with_piece(delta), delta.index)->0;
            let name = if before is Some {
                before->0.name
            } else {
                seq![]
            };
            let id = if before is Some {
                before->0.id
            } else {
                seq![]
            };
            let arguments = if before is Some {
                before->0.arguments
            } else {
                Some(Seq::<char>::empty())
            };
            &&& after.name == if gives_name(delta, delta.index) {
                delta.function->0.name->0
            } else {
                name
            }
            &&& after.id == if gives_call_id(delta, delta.index) {
                delta.id->0
            } else {
                id
            }
            &&& after.arguments is Some <==> arguments is Some
            &&& arguments is Some ==> after.arguments->0 == arguments->0 + arguments_at(
                seq![delta],
                delta.index as int,
            )
            &&& after.call_type == if before is Some {
                before->0.call_type
            } else {
                "function"@
            }
        }),
{
    let after = calls.with_piece(delta);
    let key = delta.index;
    let r = rank(calls.keys, key);
    lemma_with_key(calls.keys, key);
    lemma_rank(calls.keys, key);
    lemma_index_of(after.keys, key);
    if calls.keys.contains(key) {
        lemma_index_of(calls.keys, key);
    }
    assert(seq![delta].drop_last() =~= Seq::<ToolCallDeltaView>::empty());
    assert(seq![delta].last() == delta);
    let one = arguments_at(seq![delta], key as int);
    assert(arguments_at(seq![delta].drop_last(), key as int) =~= Seq::<char>::empty());
    if delta.function is Some && delta.function->0.arguments is Some {
        assert(one =~= delta.function->0.arguments->0);
    } else {
        assert(one =~= Seq::<char>::empty());
    }
    if index != key {
        assert(after.keys.contains(index) <==> calls.keys.contains(index));
        if calls.keys.contains(index) {
            lemma_index_of(calls.keys, index);
            lemma_index_of(after.keys, index);
            let was = rank(calls.keys, index);
            let now = rank(after.keys, index);
            if !calls.keys.contains(key) {
                let shifted = if was < r {
                    was
                } else {
                    was + 1
                };
                assert(after.keys[shifted] == index);
                assert(now == shifted) by {
                    if now < shifted {
                        assert(after.keys[now] < after.keys[shifted]);
                    } else if now > shifted {
                        assert(after.keys[shifted] < after.keys[now]);
                    }
                }
            }
        }
    }
}

/// There is a tool call for an index once a piece belongs to it, and not before. It is of the type
/// `function`.
pub proof fn law_calls_are_those_of_the_pieces(
    calls: IndexedCalls,
    deltas: Seq<ToolCallDeltaView>,
    index: u32,
)
    requires
        calls.valid(),
    ensures
        call_at(calls.with_pieces(deltas), index) is Some <==> call_at(calls, index) is Some
            || reached(deltas, index),
        call_at(calls, index) is None && reached(deltas, index) ==> call_at(
            calls.with_pieces(deltas),
            index,
        )->0.call_type == "function"@,
        call_at(calls, index) is Some ==> call_at(calls.with_pieces(deltas), index)->0.call_type
            == call_at(calls, index)->0.call_type,
        !reached(deltas, index) ==> call_at(calls.with_pieces(deltas), index) == call_at(
            calls,
            index,
        ),
    decreases deltas.len(),
{
    if deltas.len() > 0 {
        let shorter = deltas.drop_last();
        let last = deltas.last();
        law_calls_stay_in_order(calls, shorter);
        law_calls_are_those_of_the_pieces(calls, shorter, index);
        lemma_one_piece(calls.with_pieces(shorter), last, index);
        if reached(shorter, index) {
            let j = choose|j: int|
                0 <= j < shorter.len() && (#[trigger] shorter[j]).index == index;
            assert(deltas[j].index == index);
        }
        if reached(deltas, index) {
            let j = choose|j: int| 0 <= j < deltas.len() && (#[trigger] deltas[j]).index == index;
            if j < shorter.len() {
                assert(shorter[j].index == index);
            }
        }
        assert(deltas[deltas.len() - 1] == last);
    }
}

/// The name of a tool call is the name in the last piece for it that carries one. Pieces without a
/// name and pieces for other calls leave it as it was, which is empty for a call that is new.
pub proof fn law_last_name_counts(
    calls: IndexedCalls,
    deltas: Seq<ToolCallDeltaView>,
    index: u32,
    j: int,
)
    requires
        calls.valid(),
        call_at(calls.with_pieces(deltas), index) is Some,
        -1 <= j < deltas.len(),
        j >= 0 ==> gives_name(deltas[j], index),
        forall|k: int| j < k < deltas.len() ==> !gives_name(#[trigger] deltas[k], index),
    ensures
        j >= 0 ==> call_at(calls.with_pieces(deltas), index)->0.name
            == deltas[j].function->0.name->0,
        j < 0 ==> call_at(calls.with_pieces(deltas), index)->0.name == if call_at(
            calls,
            index,
        ) is Some {
            call_at(calls, index)->0.name
        } else {
            seq![]
        },
    decreases deltas.len(),
{
    if deltas.len() > 0 {
        let shorter = deltas.drop_last();
        law_calls_stay_in_order(calls, shorter);
        law_calls_are_those_of_the_pieces(calls, shorter, index);
        lemma_one_piece(calls.with_pieces(shorter), deltas.last(), index);
        if j < shorter.len() {
            assert(!gives_name(deltas[deltas.len() - 1], index));
            assert forall|k: int| j < k < shorter.len() implies !gives_name(
                #[trigger] shorter[k],
                index,
            ) by {
                assert(!gives_name(deltas[k], index));
            }
            if j >= 0 {
                assert(shorter[j].index == index);
                assert(reached(shorter, index));
            }
            if call_at(calls.with_pieces(shorter), index) is Some {
                law_last_name_counts(calls, shorter, index, j);
            }
        }
    }
}

/// The identifier of a tool call is that in the last piece for it that carries one. Pieces without
/// one and pieces for other calls leave it as it was, which is empty for a call that is new.
pub proof fn law_last_identifier_counts(
    calls: IndexedCalls,
    deltas: Seq<ToolCallDeltaView>,
    index: u32,
    j: int,
)
    requires
        calls.valid(),
        call_at(calls.with_pieces(deltas), index) is Some,
        -1 <= j < deltas.len(),
        j >= 0 ==> gives_call_id(deltas[j], index),
        forall|k: int| j < k < deltas.len() ==> !gives_call_id(#[trigger] deltas[k], index),
    ensures
        j >= 0 ==> call_at(calls.with_pieces(deltas), index)->0.id == deltas[j].id->0,
        j < 0 ==> call_at(calls.with_pieces(deltas), index)->0.id == if call_at(
            calls,
            index,
        ) is Some {
            call_at(calls, index)->0.id
        } else {
            seq![]
        },
    decreases deltas.len(),
{
    if deltas.len() > 0 {
        let shorter = deltas.drop_last();
        law_calls_stay_in_order(calls, shorter);
        law_calls_are_those_of_the_pieces(calls, shorter, index);
        lemma_one_piece(calls.with_pieces(shorter), deltas.last(), index);
        if j < shorter.len() {
            assert(!gives_call_id(deltas[deltas.len() - 1], index));
            assert forall|k: int| j < k < shorter.len() implies !gives_call_id(
                #[trigger] shorter[k],
                index,
            ) by {
                assert(!gives_call_id(deltas[k], index));
            }
            if j >= 0 {
                assert(shorter[j].index == index);
                assert(reached(shorter, index));
            }
            if call_at(calls.with_pieces(shorter), index) is Some {
                law_last_identifier_counts(calls, shorter, index, j);
            }
        }
    }
}

/// The arguments of a tool call are those of the pieces for it, joined in their order, behind the
/// ones that it had.
pub proof fn law_arguments_are_joined(
    calls: IndexedCalls,
    deltas: Seq<ToolCallDeltaView>,
    index: u32,
)
    requires
        calls.valid(),
        call_at(calls, index) is Some ==> call_at(calls, index)->0.arguments is Some,
        call_at(calls.with_pieces(deltas), index) is Some,
    ensures
        call_at(calls.with_pieces(deltas), index)->0.arguments is Some,
        call_at(calls.with_pieces(deltas), index)->0.arguments->0 == (if call_at(
            calls,
            index,
        ) is Some {
            call_at(calls, index)->0.arguments->0
        } else {
            seq![]
        }) + arguments_at(deltas, index as int),
    decreases deltas.len(),
{
    let had = if call_at(calls, index) is Some {
        call_at(calls, index)->0.arguments->0
    } else {
        seq![]
    };
    if deltas.len() == 0 {
        assert(had + arguments_at(deltas, index as int) =~= had);
    } else {
        let shorter = deltas.drop_last();
        let last = deltas.last();
        law_calls_stay_in_order(calls, shorter);
        law_calls_are_those_of_the_pieces(calls, shorter, index);
        let before = calls.with_pieces(shorter);
        lemma_one_piece(before, last, index);
        let one = arguments_at(seq![last], index as int);
        assert(seq![last].drop_last() =~= Seq::<ToolCallDeltaView>::empty());
        assert(seq![last].last() == last);
        assert(arguments_at(seq![last].drop_last(), index as int) =~= Seq::<char>::empty());
        assert(arguments_at(deltas, index as int) =~= arguments_at(shorter, index as int) + one);
        let now = call_at(calls.with_pieces(deltas), index)->0.arguments;
        if call_at(before, index) is Some {
            law_arguments_are_joined(calls, shorter, index);
            let was = call_at(before, index)->0.arguments->0;
            if last.index != index {
                assert(one =~= Seq::<char>::empty());
            }
            assert(now->0 =~= was + one);
        } else {
            lemma_no_arguments(shorter, index);
            assert(now->0 =~= Seq::<char>::empty() + one);
        }
        assert(now->0 =~= had + arguments_at(deltas, index as int));
    }
}

/// Pieces for other calls carry no arguments for a call.
proof fn lemma_no_arguments(deltas: Seq<ToolCallDeltaView>, index: u32)
    requires
        !reached(deltas, index),
    ensures
        arguments_at(deltas, index as int) == Seq::<char>::empty(),
    decreases deltas.len(),
{
    if deltas.len() > 0 {
        let shorter = deltas.drop_last();
        if reached(shorter, index) {
            let j = choose|j: int|
                0 <= j < shorter.len() && (#[trigger] shorter[j]).index == index;
            assert(deltas[j].index == index);
        }
        lemma_no_arguments(shorter, index);
        assert(deltas[deltas.len() - 1].index != index);
    }
}

/// The reasoning of the first choice of all chunks, joined in their order.
pub open spec fn joined_reasoning(chunks: Seq<ChatChunkView>) -> Seq<char>
    decreases chunks.len(),
{
    if chunks.len() == 0 {
        seq![]
    } else {
        let before = joined_reasoning(chunks.drop_last());
        let choices = chunks.last().choices;
        if choices.len() > 0 && choices[0].reasoning is Some {
            before + choices[0].reasoning->0
        } else {
            before
        }
    }
}

/// The content of the first choice of all chunks, joined in their order.
pub open spec fn joined_text(chunks: Seq<ChatChunkView>) -> Seq<char>
    decreases chunks.len(),
{
    if chunks.len() == 0 {
        seq![]
    } else {
        let before = joined_text(chunks.drop_last());
        let choices = chunks.last().choices;
        if choices.len() > 0 && choices[0].content is Some {
            before + choices[0].content->0
        } else {
            before
        }
    }
}

/// The pieces of the tool calls of the first choice of all chunks, in their order.
pub open spec fn all_pieces(chunks: Seq<ChatChunkView>) -> Seq<ToolCallDeltaView>
    decreases chunks.len(),
{
    if chunks.len() == 0 {
        seq![]
    } else {
        let before = all_pieces(chunks.drop_last());
        let choices = chunks.last().choices;
        if choices.len() > 0 && choices[0].tool_calls is Some {
            before + choices[0].tool_calls->0
        } else {
            before
        }
    }
}

/// A chunk whose first choice carries reasoning, be it empty.
pub open spec fn reasons(chunk: ChatChunkView) -> bool {
    chunk.choices.len() > 0 && chunk.choices[0].reasoning is Some
}

/// The content and the reasoning are those of all chunks, joined in their order. There is
/// reasoning where there was some or a chunk carries some, be it empty.
pub proof fn law_texts_are_joined(view: ChatAccumulatorView, chunks: Seq<ChatChunkView>)
    ensures
        view.after_all(chunks).content == view.content + joined_text(chunks),
        view.after_all(chunks).reasoning is Some <==> view.reasoning is Some || exists|i: int|
            0 <= i < chunks.len() && reasons(#[trigger] chunks[i]),
        view.after_all(chunks).reasoning is Some ==> view.after_all(chunks).reasoning->0 == (
        if view.reasoning is Some {
            view.reasoning->0
        } else {
            seq![]
        }) + joined_reasoning(chunks),
        view.after_all(chunks).reasoning is None ==> joined_reasoning(chunks) == Seq::<
            char,
        >::empty(),
    decreases chunks.len(),
{
    let after = view.after_all(chunks);
    let had = if view.reasoning is Some {
        view.reasoning->0
    } else {
        seq![]
    };
    if chunks.len() > 0 {
        let shorter = chunks.drop_last();
        law_texts_are_joined(view, shorter);
        if reasons(chunks.last()) {
            assert(reasons(chunks[chunks.len() - 1]));
        }
        if exists|i: int| 0 <= i < shorter.len() && reasons(#[trigger] shorter[i]) {
            let i = choose|i: int| 0 <= i < shorter.len() && reasons(#[trigger] shorter[i]);
            assert(reasons(chunks[i]));
        }
        if exists|i: int| 0 <= i < chunks.len() && reasons(#[trigger] chunks[i]) {
            let i = choose|i: int| 0 <= i < chunks.len() && reasons(#[trigger] chunks[i]);
            if i < shorter.len() {
                assert(reasons(shorter[i]));
            }
        }
    }
    assert(after.content =~= view.content + joined_text(chunks));
    if after.reasoning is Some {
        assert(after.reasoning->0 =~= had + joined_reasoning(chunks));
    }
}

/// Pieces are taken in one after the other.
proof fn lemma_pieces_concat(
    calls: IndexedCalls,
    a: Seq<ToolCallDeltaView>,
    b: Seq<ToolCallDeltaView>,
)
    ensures
        calls.with_pieces(a + b) == calls.with_pieces(a).with_pieces(b),
    decreases b.len(),
{
    if b.len() == 0 {
        assert(a + b =~= a);
    } else {
        assert((a + b).drop_last() =~= a + b.drop_last());
        assert((a + b).last() == b.last());
        lemma_pieces_concat(calls, a, b.drop_last());
    }
}

/// The tool calls are made of the pieces of all chunks, in their order.
pub proof fn law_calls_are_made_of_all_pieces(
    view: ChatAccumulatorView,
    chunks: Seq<ChatChunkView>,
)
    ensures
        view.after_all(chunks).tool_calls == view.tool_calls.with_pieces(all_pieces(chunks)),
    decreases chunks.len(),
{
    if chunks.len() > 0 {
        let shorter = chunks.drop_last();
        law_calls_are_made_of_all_pieces(view, shorter);
        let choices = chunks.last().choices;
        if choices.len() > 0 && choices[0].tool_calls is Some {
            lemma_pieces_concat(view.tool_calls, all_pieces(shorter), choices[0].tool_calls->0);
        }
    }
}

/// Of the identifiers and the models that chunks carry, the last that is not empty counts. Of the
/// finish reasons of their first choices and of their usages, the last that is there counts.
pub proof fn law_last_values_count(view: ChatAccumulatorView, chunk: ChatChunkView)
    ensures
        chunk.id.len() > 0 ==> view.after(chunk).id == chunk.id,
        chunk.id.len() == 0 ==> view.after(chunk).id == view.id,
        chunk.model.len() > 0 ==> view.after(chunk).model == chunk.model,
        chunk.model.len() == 0 ==> view.after(chunk).model == view.model,
        chunk.usage is Some ==> view.after(chunk).usage == chunk.usage,
        chunk.usage is None ==> view.after(chunk).usage == view.usage,
        chunk.choices.len() > 0 && chunk.choices[0].finish_reason is Some ==> view.after(
            chunk,
        ).finish_reason == chunk.choices[0].finish_reason,
        chunk.choices.len() == 0 || chunk.choices[0].finish_reason is None ==> view.after(
            chunk,
        ).finish_reason == view.finish_reason,
{
}

/// A completion has one choice, of index zero, by the assistant. It bears what was accumulated,
/// where empty content and an empty list of tool calls count as none.
pub proof fn law_completion_shows_what_was_accumulated(view: ChatAccumulatorView)
    ensures
        ({
            let completion = view.completion();
            let choice = completion.choices[0];
            &&& completion.id == view.id
            &&& completion.model == view.model
            &&& completion.usage == view.usage
            &&& completion.choices.len() == 1
            &&& choice.index == 0
            &&& choice.role == "assistant"@
            &&& choice.finish_reason == view.finish_reason
            &&& choice.reasoning == view.reasoning
            &&& choice.content is None <==> view.content.len() == 0
            &&& choice.content is Some ==> choice.content->0 == view.content
            &&& choice.tool_calls is None <==> view.tool_calls.calls.len() == 0
            &&& choice.tool_calls is Some ==> choice.tool_calls->0 == view.tool_calls.calls
            &&& completion.reasoning() == view.reasoning
        }),
{
}

/// An accumulator that has seen no chunk holds nothing.
pub proof fn law_nothing_is_accumulated_at_first()
    ensures
        ChatAccumulatorView::empty().id.len() == 0,
        ChatAccumulatorView::empty().model.len() == 0,
        ChatAccumulatorView::empty().content.len() == 0,
        ChatAccumulatorView::empty().reasoning is None,
        ChatAccumulatorView::empty().finish_reason is None,
        ChatAccumulatorView::empty().usage is None,
        ChatAccumulatorView::empty().tool_calls.keys.len() == 0,
        ChatAccumulatorView::empty().tool_calls.calls.len() == 0,
{
}

} // verus!
