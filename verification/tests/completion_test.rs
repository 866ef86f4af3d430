use responses_stream::chat::{
    ChatChunk, ChoiceDelta, CompletionDetails, FunctionDelta, ToolCallDelta, Usage,
};
use responses_stream::completion::ChatResponseAccumulator;

fn chunk(id: &str, model: &str, choice: Option<ChoiceDelta>) -> ChatChunk {
    ChatChunk {
        id: id.to_string(),
        created: 1,
        model: model.to_string(),
        choices: choice.into_iter().collect(),
        usage: None,
    }
}

fn delta(content: Option<&str>, reasoning: Option<&str>) -> ChoiceDelta {
    ChoiceDelta {
        content: content.map(str::to_string),
        reasoning: reasoning.map(str::to_string),
        tool_calls: None,
        finish_reason: None,
    }
}

fn piece(index: u32, id: Option<&str>, name: Option<&str>, arguments: Option<&str>) -> ToolCallDelta {
    ToolCallDelta {
        index,
        id: id.map(str::to_string),
        function: Some(FunctionDelta {
            name: name.map(str::to_string),
            arguments: arguments.map(str::to_string),
        }),
    }
}

fn calls(pieces: Vec<ToolCallDelta>) -> ChoiceDelta {
    ChoiceDelta { tool_calls: Some(pieces), ..delta(None, None) }
}

#[test]
fn an_empty_stream_makes_an_empty_completion() {
    let completion = ChatResponseAccumulator::new().finalize();
    assert_eq!(completion.id, "");
    assert_eq!(completion.model, "");
    assert_eq!(completion.object, "chat.completion");
    assert_eq!(completion.choices.len(), 1);
    let choice = &completion.choices[0];
    assert_eq!(choice.index, 0);
    assert_eq!(choice.message.role, "assistant");
    assert!(choice.message.content.is_none());
    assert!(choice.message.tool_calls.is_none());
    assert!(choice.message.reasoning_content.is_none());
    assert!(choice.finish_reason.is_none());
    assert!(choice.logprobs.is_none());
    assert!(choice.matched_stop.is_none());
    assert!(choice.hidden_states.is_none());
    assert!(completion.usage.is_none());
    assert!(completion.system_fingerprint.is_none());
}

#[test]
fn names_are_replaced_by_those_that_are_not_empty() {
    let mut accumulator = ChatResponseAccumulator::new();
    accumulator.process_chunk(&chunk("a", "m", None));
    accumulator.process_chunk(&chunk("", "n", None));
    accumulator.process_chunk(&chunk("b", "", None));
    let completion = accumulator.finalize();
    assert_eq!((completion.id.as_str(), completion.model.as_str()), ("b", "n"));
}

#[test]
fn content_and_reasoning_are_joined() {
    let mut accumulator = ChatResponseAccumulator::new();
    accumulator.process_chunk(&chunk("a", "m", Some(delta(Some("hel"), None))));
    accumulator.process_chunk(&chunk("a", "m", Some(delta(Some("lo"), Some("")))));
    accumulator.process_chunk(&chunk("a", "m", Some(delta(None, Some("why")))));
    let completion = accumulator.finalize();
    let message = &completion.choices[0].message;
    assert_eq!(message.content.as_deref(), Some("hello"));
    assert_eq!(message.reasoning_content.as_deref(), Some("why"));
}

#[test]
fn empty_reasoning_is_kept() {
    let mut accumulator = ChatResponseAccumulator::new();
    accumulator.process_chunk(&chunk("a", "m", Some(delta(Some(""), Some("")))));
    let completion = accumulator.into_completion();
    assert_eq!(completion.choices.len(), 1);
    assert_eq!(completion.choices[0].content, None);
    assert_eq!(completion.choices[0].reasoning.as_deref(), Some(""));
    assert_eq!(completion.reasoning().as_deref(), Some(""));
}

#[test]
fn tool_calls_come_out_in_the_order_of_their_index() {
    let mut accumulator = ChatResponseAccumulator::new();
    accumulator.process_chunk(&chunk("a", "m", Some(calls(vec![
        piece(7, Some("late"), Some("seven"), Some("{")),
        piece(2, Some("early"), Some("two"), None),
    ]))));
    accumulator.process_chunk(&chunk("a", "m", Some(calls(vec![
        piece(7, Some("later"), Some("renamed"), Some("}")),
        ToolCallDelta { index: 4, id: None, function: None },
    ]))));
    let completion = accumulator.finalize();
    let calls = completion.choices[0].message.tool_calls.as_ref().unwrap();
    let seen: Vec<_> = calls
        .iter()
        .map(|call| {
            (
                call.id.as_str(),
                call.tool_type.as_str(),
                call.function.name.as_str(),
                call.function.arguments.as_deref(),
            )
        })
        .collect();
    assert_eq!(
        seen,
        vec![
            ("early", "function", "two", Some("")),
            ("", "function", "", Some("")),
            ("later", "function", "renamed", Some("{}")),
        ]
    );
}

#[test]
fn the_usage_keeps_its_details() {
    let mut accumulator = ChatResponseAccumulator::new();
    accumulator.process_chunk(&ChatChunk {
        usage: Some(Usage {
            prompt_tokens: 1,
            completion_tokens: 2,
            total_tokens: 3,
            cached_tokens: Some(4),
            completion_details: Some(CompletionDetails {
                reasoning_tokens: Some(5),
                accepted_prediction_tokens: Some(6),
                rejected_prediction_tokens: None,
            }),
        }),
        ..chunk("a", "m", Some(ChoiceDelta {
            finish_reason: Some("stop".to_string()),
            ..delta(None, None)
        }))
    });
    let completion = accumulator.finalize();
    assert_eq!(completion.choices[0].finish_reason.as_deref(), Some("stop"));
    let usage = completion.usage.unwrap();
    assert_eq!((usage.prompt_tokens, usage.completion_tokens, usage.total_tokens), (1, 2, 3));
    assert_eq!(usage.prompt_tokens_details.unwrap().cached_tokens, 4);
    let details = usage.completion_tokens_details.unwrap();
    assert_eq!(details.reasoning_tokens, Some(5));
    assert_eq!(details.accepted_prediction_tokens, Some(6));
    assert_eq!(details.rejected_prediction_tokens, None);
}
