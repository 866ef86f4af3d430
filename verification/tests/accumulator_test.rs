use openai_protocol::responses::{
    ResponseContentPart, ResponseInput, ResponseOutputItem, ResponseReasoningContent,
    ResponsesRequest, ResponsesUsage,
};
use responses_stream::accumulator::StreamingResponseAccumulator;
use responses_stream::chat::{ChatChunk, ChoiceDelta, FunctionDelta, ToolCallDelta, Usage};
use responses_stream::responses::{OutputItem, ResponseStatus};

fn accumulator(id: &str) -> StreamingResponseAccumulator {
    let request = ResponsesRequest {
        model: "mock-model".to_string(),
        input: ResponseInput::Text("hello".to_string()),
        instructions: Some("be brief".to_string()),
        ..Default::default()
    };
    StreamingResponseAccumulator::new(&request, id.to_string(), "mock-model".to_string(), 5)
}

fn chunk(choices: Vec<ChoiceDelta>) -> ChatChunk {
    ChatChunk {
        id: "chunk".to_string(),
        created: 11,
        model: "chunk-model".to_string(),
        choices,
        usage: None,
    }
}

fn text(content: &str) -> ChoiceDelta {
    ChoiceDelta {
        content: Some(content.to_string()),
        reasoning: None,
        tool_calls: None,
        finish_reason: None,
    }
}

fn piece(index: u32, id: Option<&str>, name: Option<&str>, arguments: Option<&str>) -> ToolCallDelta {
    ToolCallDelta {
        index,
        id: id.map(str::to_string),
        function: Some(FunctionDelta {
            name: name.map(str::to_string),
            arguments: arguments.map(str::to_string),
        }),
    }
}

fn calls(pieces: Vec<ToolCallDelta>) -> ChoiceDelta {
    ChoiceDelta {
        content: None,
        reasoning: None,
        tool_calls: Some(pieces),
        finish_reason: None,
    }
}

fn finish(reason: &str) -> ChoiceDelta {
    ChoiceDelta {
        content: None,
        reasoning: None,
        tool_calls: None,
        finish_reason: Some(reason.to_string()),
    }
}

#[test]
fn identity_comes_from_a_chunk_only_where_it_is_missing() {
    let mut named = accumulator("resp_1");
    named.process_chunk(&chunk(vec![]));
    assert_eq!((named.response_id.as_str(), named.created_at), ("resp_1", 5));

    let mut unnamed = accumulator("");
    unnamed.process_chunk(&chunk(vec![]));
    assert_eq!(unnamed.response_id, "chunk");
    assert_eq!(unnamed.model, "chunk-model");
    assert_eq!(unnamed.created_at, 11);
}

#[test]
fn content_is_dropped_once_there_is_a_call() {
    let mut accumulator = accumulator("resp_1");
    accumulator.process_chunk(&chunk(vec![text("a"), text("ignored")]));
    let mut both = calls(vec![piece(0, None, None, None)]);
    both.content = Some("b".to_string());
    both.reasoning = Some("r".to_string());
    accumulator.process_chunk(&chunk(vec![both]));
    accumulator.process_chunk(&chunk(vec![text("c")]));
    assert_eq!(accumulator.content_buffer, "ab");
    assert_eq!(accumulator.reasoning_buffer, "r");
    assert_eq!(accumulator.tool_calls.len(), 1);
}

#[test]
fn calls_grow_by_their_own_pieces() {
    let mut accumulator = accumulator("resp_1");
    accumulator.process_chunk(&chunk(vec![calls(vec![
        piece(2, Some("call_c"), Some("get_"), Some("{")),
        piece(0, Some(""), None, None),
    ])]));
    accumulator.process_chunk(&chunk(vec![calls(vec![
        piece(2, Some("other"), Some("time"), Some("}")),
        piece(0, Some("call_a"), Some("now"), None),
    ])]));
    assert_eq!(accumulator.tool_calls.len(), 3);
    let c = &accumulator.tool_calls[2];
    assert_eq!((c.call_id.as_str(), c.name.as_str(), c.arguments.as_str()), ("call_c", "get_time", "{}"));
    let a = &accumulator.tool_calls[0];
    assert_eq!((a.call_id.as_str(), a.name.as_str(), a.arguments.as_str()), ("call_a", "now", ""));
    let blank = &accumulator.tool_calls[1];
    assert_eq!((blank.call_id.as_str(), blank.name.as_str(), blank.status.as_str()), ("", "", "in_progress"));
    for call in &accumulator.tool_calls {
        assert!(call.id.starts_with("fc_"));
        assert_eq!(call.id.len(), 35);
    }
}

#[test]
fn finish_reasons_stand_for_a_status() {
    let status_of = |reason: Option<&str>| {
        let mut accumulator = accumulator("resp_1");
        if let Some(reason) = reason {
            accumulator.process_chunk(&chunk(vec![finish(reason)]));
        }
        accumulator.response_status()
    };
    assert_eq!(status_of(None), ResponseStatus::Completed);
    assert_eq!(status_of(Some("stop")), ResponseStatus::Completed);
    assert_eq!(status_of(Some("length")), ResponseStatus::Completed);
    assert_eq!(status_of(Some("tool_calls")), ResponseStatus::InProgress);
    assert_eq!(status_of(Some("failed")), ResponseStatus::Failed);
    assert_eq!(status_of(Some("error")), ResponseStatus::Failed);
    assert_eq!(status_of(Some("content_filter")), ResponseStatus::Completed);
}

#[test]
fn the_last_finish_reason_and_usage_count() {
    let mut accumulator = accumulator("resp_1");
    accumulator.process_chunk(&chunk(vec![finish("tool_calls")]));
    accumulator.process_chunk(&ChatChunk {
        usage: Some(Usage {
            prompt_tokens: 3,
            completion_tokens: 4,
            total_tokens: 7,
            cached_tokens: Some(1),
            completion_details: None,
        }),
        ..chunk(vec![finish("stop")])
    });
    accumulator.process_chunk(&chunk(vec![]));
    let draft = accumulator.into_draft(ResponseStatus::Failed);
    assert_eq!(draft.status, ResponseStatus::Failed);
    let usage = draft.usage.unwrap();
    assert_eq!((usage.prompt_tokens, usage.completion_tokens, usage.total_tokens), (3, 4, 7));
    assert_eq!(usage.reasoning_tokens, None);
    assert_eq!(usage.cached_tokens, None);
}

#[test]
fn the_output_is_the_message_the_reasoning_and_the_calls() {
    let mut accumulator = accumulator("resp_1");
    let mut choice = calls(vec![piece(0, Some("call_a"), Some("now"), Some("{}"))]);
    choice.content = Some("text".to_string());
    choice.reasoning = Some("why".to_string());
    accumulator.process_chunk(&chunk(vec![choice]));
    let draft = accumulator.into_draft(ResponseStatus::Completed);
    assert_eq!(draft.output.len(), 3);
    match &draft.output[0] {
        OutputItem::Message { id, role, content, status } => {
            assert_eq!((id.as_str(), role.as_str()), ("msg_resp_1", "assistant"));
            assert_eq!(status, "completed");
            assert_eq!(content.len(), 1);
            assert_eq!(content[0].text, "text");
            assert!(content[0].annotations.is_empty());
            assert!(content[0].logprobs.is_none());
        }
        _ => panic!("the message comes first"),
    }
    match &draft.output[1] {
        OutputItem::Reasoning { id, summary, content, status } => {
            assert_eq!(id, "reasoning_resp_1");
            assert!(summary.is_empty());
            assert_eq!(*content, vec!["why"]);
            assert_eq!(status.as_deref(), Some("completed"));
        }
        _ => panic!("the reasoning comes second"),
    }
    match &draft.output[2] {
        OutputItem::FunctionCall(call) => {
            assert_eq!(call.call_id, "call_a");
            assert_eq!(call.output, None);
        }
        _ => panic!("the calls come last"),
    }
}

#[test]
fn a_built_response_holds_its_items_and_nothing_more() {
    let mut accumulator = accumulator("resp_1");
    let mut choice = calls(vec![piece(0, Some("call_a"), Some("now"), Some("{}"))]);
    choice.content = Some("text".to_string());
    choice.reasoning = Some("why".to_string());
    accumulator.process_chunk(&ChatChunk {
        usage: Some(Usage {
            prompt_tokens: 3,
            completion_tokens: 4,
            total_tokens: 7,
            cached_tokens: Some(2),
            completion_details: None,
        }),
        ..chunk(vec![choice])
    });
    let response = accumulator.finalize_with_status(ResponseStatus::Completed);
    match &response.output[0] {
        ResponseOutputItem::Message { id, role, content, status } => {
            assert_eq!(id, "msg_resp_1");
            assert_eq!((role.as_str(), status.as_str()), ("assistant", "completed"));
            assert_eq!(content.len(), 1);
            match &content[0] {
                ResponseContentPart::OutputText { text, annotations, logprobs } => {
                    assert_eq!(text, "text");
                    assert!(annotations.is_empty());
                    assert!(logprobs.is_none());
                }
                _ => panic!("the message holds an output text"),
            }
        }
        _ => panic!("the message comes first"),
    }
    match &response.output[1] {
        ResponseOutputItem::Reasoning { id, summary, content, status } => {
            assert_eq!(id, "reasoning_resp_1");
            assert!(summary.is_empty());
            assert_eq!(content.len(), 1);
            let ResponseReasoningContent::ReasoningText { text } = &content[0];
            assert_eq!(text, "why");
            assert_eq!(status.as_deref(), Some("completed"));
        }
        _ => panic!("the reasoning comes second"),
    }
    match &response.output[2] {
        ResponseOutputItem::FunctionToolCall { call_id, name, arguments, output, status, .. } => {
            assert_eq!((call_id.as_str(), name.as_str()), ("call_a", "now"));
            assert_eq!((arguments.as_str(), status.as_str()), ("{}", "in_progress"));
            assert!(output.is_none());
        }
        _ => panic!("the calls come last"),
    }
    match response.usage.unwrap() {
        ResponsesUsage::Classic(usage) => {
            assert_eq!(usage.total_tokens, 7);
            assert!(usage.prompt_tokens_details.is_none());
        }
        ResponsesUsage::Modern(_) => panic!("the usage has the classic form"),
    }
    assert_eq!(response.object, "response");
    assert!(response.error.is_none());
    assert!(response.incomplete_details.is_none());
    assert!(response.reasoning.is_none());
    assert!(response.text.is_none());
    assert!(response.truncation.is_none());
    assert!(response.safety_identifier.is_none());
}

#[test]
fn the_response_copies_from_the_request() {
    let mut accumulator = accumulator("resp_1");
    accumulator.process_chunk(&chunk(vec![finish("tool_calls")]));
    let response = accumulator.finalize();
    assert_eq!(response.status, openai_protocol::responses::ResponseStatus::InProgress);
    assert_eq!(response.id, "resp_1");
    assert_eq!(response.instructions.as_deref(), Some("be brief"));
    assert!(response.output.is_empty());
}
