use openai_protocol::responses::{
    ResponseInput, ResponseStatus, ResponsesRequest, ResponsesResponse, ResponsesUsage, Truncation,
};
use responses_stream::events::{OutputSlot, StreamEvent};
use responses_stream::stream::{NonMcpStream, StreamAction, StreamInput, StreamProgress};
use serde_json::Value;

fn test_responses_request() -> ResponsesRequest {
    ResponsesRequest {
        background: Some(false),
        input: ResponseInput::Text("trigger upstream error".to_string()),
        max_output_tokens: Some(64),
        model: "mock-model".to_string(),
        parallel_tool_calls: Some(true),
        store: Some(true),
        stream: Some(true),
        temperature: Some(0.0),
        top_logprobs: Some(0),
        truncation: Some(Truncation::Disabled),
        request_id: Some("resp_stream_upstream_error".to_string()),
        frequency_penalty: Some(0.0),
        presence_penalty: Some(0.0),
        ..ResponsesRequest::default()
    }
}

struct Run {
    events: Vec<StreamEvent>,
    result: Result<(ResponsesResponse, bool), String>,
}

/// Drives a stream over the given pieces of a body. `fail_at` is the number of the event that
/// cannot be sent.
fn drive_from(
    started: (NonMcpStream, StreamAction),
    pieces: &[&str],
    read_error: Option<&str>,
    fail_at: Option<usize>,
) -> Run {
    let mut events = Vec::new();
    let mut sent = 0;
    let mut slots = 0;
    let mut next_piece = 0;
    let (mut stream, mut action) = started;
    loop {
        let input = match action {
            StreamAction::Deliver(told) => {
                let mut failure = None;
                for event in told {
                    if fail_at == Some(sent) {
                        failure = Some("Client disconnected".to_string());
                        break;
                    }
                    sent += 1;
                    events.push(event);
                }
                match failure {
                    Some(reason) => StreamInput::DeliveryFailed(reason),
                    None => StreamInput::Delivered,
                }
            }
            StreamAction::ReadBody => {
                next_piece += 1;
                match pieces.get(next_piece - 1) {
                    Some(piece) => StreamInput::Bytes(piece.as_bytes().to_vec()),
                    None => match read_error {
                        Some(reason) => StreamInput::BodyFailed(reason.to_string()),
                        None => StreamInput::BodyEnd,
                    },
                }
            }
            StreamAction::Allocate(n) => {
                let mut given = Vec::new();
                for _ in 0..n {
                    given.push(OutputSlot {
                        output_index: slots,
                        item_id: format!("fc_{slots}"),
                    });
                    slots += 1;
                }
                StreamInput::Slots(given)
            }
        };
        assert!(stream.awaits(&input));
        match stream.advance(input) {
            StreamProgress::Running(next, wanted) => {
                stream = next;
                action = wanted;
            }
            StreamProgress::Finished { response, persist } => {
                return Run { events, result: Ok((response, persist)) };
            }
            StreamProgress::Failed(error) => return Run { events, result: Err(error) },
        }
    }
}

fn drive(pieces: &[&str]) -> Run {
    drive_from(NonMcpStream::start(&test_responses_request()), pieces, None, None)
}

fn event_type(event: &StreamEvent) -> Option<&'static str> {
    match event {
        StreamEvent::Created => Some("response.created"),
        StreamEvent::InProgress => Some("response.in_progress"),
        StreamEvent::OutputItemAdded { .. } => Some("response.output_item.added"),
        StreamEvent::FunctionCallArgumentsDelta { .. } => {
            Some("response.function_call_arguments.delta")
        }
        StreamEvent::FunctionCallArgumentsDone { .. } => {
            Some("response.function_call_arguments.done")
        }
        StreamEvent::OutputItemDone { .. } => Some("response.output_item.done"),
        StreamEvent::Completed { .. } => Some("response.completed"),
        _ => None,
    }
}

fn event_types(events: &[StreamEvent]) -> Vec<&'static str> {
    events.iter().filter_map(event_type).collect()
}

fn completed_status(events: &[StreamEvent]) -> Option<responses_stream::responses::ResponseStatus> {
    match events.last() {
        Some(StreamEvent::Completed { status, .. }) => *status,
        _ => panic!("the last event is not the completion"),
    }
}

#[test]
fn test_process_and_transform_stream_does_not_emit_completed_after_upstream_error() {
    let run = drive(&[
        "data: {\"error\":{\"message\":\"upstream exploded\",\"type\":\"internal_error\"}}\n\n",
        "data: [DONE]\n\n",
    ]);
    let (final_response, persist) = run
        .result
        .expect("stream processing should succeed after forwarding upstream error");

    assert_eq!(
        event_types(&run.events),
        vec!["response.created", "response.in_progress"],
        "only the synthetic start events should be emitted before the upstream error",
    );
    assert!(
        run.events.iter().any(|event| match event {
            StreamEvent::RawJson(json) => {
                let value: Value = serde_json::from_str(json).unwrap();
                value
                    .get("error")
                    .and_then(|error| error.get("message"))
                    .and_then(|value| value.as_str())
                    == Some("upstream exploded")
            }
            _ => false,
        }),
        "the upstream error payload should be forwarded as-is",
    );
    assert_eq!(final_response.status, ResponseStatus::Failed);
    assert!(!persist, "failed upstream streams should not be persisted");
}

#[test]
fn test_process_and_transform_stream_emits_function_call_events_for_non_mcp_streams() {
    let run = drive(&[
        "data: {\"id\":\"chatcmpl_test\",\"object\":\"chat.completion.chunk\",\"created\":1,\"model\":\"mock-model\",\"choices\":[{\"index\":0,\"delta\":{\"tool_calls\":[{\"index\":0,\"id\":\"call_test\",\"function\":{\"name\":\"get_weather\"},\"type\":\"function\"}]},\"finish_reason\":null}]}\n\n",
        "data: {\"id\":\"chatcmpl_test\",\"object\":\"chat.completion.chunk\",\"created\":1,\"model\":\"mock-model\",\"choices\":[{\"index\":0,\"delta\":{\"tool_calls\":[{\"index\":0,\"function\":{\"arguments\":\"{\\\"location\\\":\\\"Berlin\\\"}\"}}]},\"finish_reason\":null}]}\n\n",
        "data: {\"id\":\"chatcmpl_test\",\"object\":\"chat.completion.chunk\",\"created\":1,\"model\":\"mock-model\",\"choices\":[{\"index\":0,\"delta\":{},\"finish_reason\":\"tool_calls\"}],\"usage\":{\"prompt_tokens\":12,\"completion_tokens\":7,\"total_tokens\":19}}\n\n",
        "data: [DONE]\n\n",
    ]);
    let (final_response, persist) =
        run.result.expect("tool-call stream processing should succeed");
    let events = run.events;

    assert_eq!(
        event_types(&events),
        vec![
            "response.created",
            "response.in_progress",
            "response.output_item.added",
            "response.function_call_arguments.delta",
            "response.function_call_arguments.done",
            "response.output_item.done",
            "response.completed",
        ],
    );
    match &events[2] {
        StreamEvent::OutputItemAdded { item, .. } => {
            assert_eq!(item.item_type, "function_call");
            assert_eq!(item.call_id.as_deref(), Some("call_test"));
            assert_eq!(item.name, "get_weather");
            assert_eq!(item.status, "in_progress");
            assert_eq!(item.arguments, "");
        }
        _ => panic!("the function call should be announced"),
    }
    match &events[3] {
        StreamEvent::FunctionCallArgumentsDelta { delta, item_id, .. } => {
            assert_eq!(delta, "{\"location\":\"Berlin\"}");
            assert_eq!(item_id, "fc_0");
        }
        _ => panic!("the arguments should be streamed"),
    }
    match &events[5] {
        StreamEvent::OutputItemDone { item, .. } => {
            assert_eq!(item.item_type, "function_call");
            assert_eq!(item.call_id.as_deref(), Some("call_test"));
            assert_eq!(item.arguments, "{\"location\":\"Berlin\"}");
        }
        _ => panic!("the function call should be told to be done"),
    }
    assert_eq!(
        completed_status(&events),
        Some(responses_stream::responses::ResponseStatus::InProgress)
    );
    match events.last() {
        Some(StreamEvent::Completed { usage: Some(usage), incomplete_reason, .. }) => {
            assert_eq!(usage.input_tokens, 12);
            assert_eq!(usage.output_tokens, 7);
            assert_eq!(usage.total_tokens, 19);
            assert_eq!(usage.reasoning_tokens, None);
            assert_eq!(*incomplete_reason, None);
        }
        _ => panic!("the completion should report the usage"),
    }

    assert!(persist);
    assert_eq!(final_response.status, ResponseStatus::InProgress);
    assert_eq!(final_response.output.len(), 1);
    let serialized_output = serde_json::to_value(&final_response.output[0]).unwrap();
    assert_eq!(serialized_output["type"], "function_call");
    assert_eq!(serialized_output["call_id"], "call_test");
    assert_eq!(serialized_output["arguments"], "{\"location\":\"Berlin\"}");
}

#[test]
fn test_process_and_transform_stream_keeps_function_call_id_stable_across_repeated_deltas() {
    let run = drive(&[
        "data: {\"id\":\"chatcmpl_test\",\"object\":\"chat.completion.chunk\",\"created\":1,\"model\":\"mock-model\",\"choices\":[{\"index\":0,\"delta\":{\"tool_calls\":[{\"index\":0,\"id\":\"call_test\",\"function\":{\"name\":\"get_weather\",\"arguments\":\"{\"},\"type\":\"function\"}]},\"finish_reason\":null}]}\n\n",
        "data: {\"id\":\"chatcmpl_test\",\"object\":\"chat.completion.chunk\",\"created\":1,\"model\":\"mock-model\",\"choices\":[{\"index\":0,\"delta\":{\"tool_calls\":[{\"index\":0,\"id\":\"call_test\",\"function\":{\"arguments\":\"\\\"location\\\":\\\"Berlin\\\"}\"}}]},\"finish_reason\":null}]}\n\n",
        "data: {\"id\":\"chatcmpl_test\",\"object\":\"chat.completion.chunk\",\"created\":1,\"model\":\"mock-model\",\"choices\":[{\"index\":0,\"delta\":{},\"finish_reason\":\"tool_calls\"}],\"usage\":{\"prompt_tokens\":12,\"completion_tokens\":7,\"total_tokens\":19}}\n\n",
        "data: [DONE]\n\n",
    ]);
    let (final_response, _) = run.result.expect("tool-call stream processing should succeed");

    match &run.events[2] {
        StreamEvent::OutputItemAdded { item, .. } => {
            assert_eq!(item.call_id.as_deref(), Some("call_test"));
        }
        _ => panic!("the function call should be announced"),
    }
    let done: Vec<_> = run
        .events
        .iter()
        .filter_map(|event| match event {
            StreamEvent::OutputItemDone { item, .. } => Some(item),
            _ => None,
        })
        .collect();
    assert_eq!(done.len(), 1);
    assert_eq!(done[0].call_id.as_deref(), Some("call_test"));

    let serialized_output = serde_json::to_value(&final_response.output[0]).unwrap();
    assert_eq!(serialized_output["call_id"], "call_test");
    assert_eq!(serialized_output["arguments"], "{\"location\":\"Berlin\"}");
}

#[test]
fn test_process_and_transform_stream_emits_added_for_zero_argument_function_calls() {
    let run = drive(&[
        "data: {\"id\":\"chatcmpl_test\",\"object\":\"chat.completion.chunk\",\"created\":1,\"model\":\"mock-model\",\"choices\":[{\"index\":0,\"delta\":{\"tool_calls\":[{\"index\":0,\"id\":\"call_zero\",\"function\":{\"name\":\"ping\"},\"type\":\"function\"}]},\"finish_reason\":null}]}\n\n",
        "data: {\"id\":\"chatcmpl_test\",\"object\":\"chat.completion.chunk\",\"created\":1,\"model\":\"mock-model\",\"choices\":[{\"index\":0,\"delta\":{},\"finish_reason\":\"tool_calls\"}],\"usage\":{\"prompt_tokens\":8,\"completion_tokens\":1,\"total_tokens\":9}}\n\n",
        "data: [DONE]\n\n",
    ]);
    let (final_response, _) =
        run.result.expect("zero-arg tool-call stream processing should succeed");
    let events: Vec<_> = run
        .events
        .into_iter()
        .filter(|event| event_type(event).is_some())
        .collect();

    assert_eq!(
        event_types(&events),
        vec![
            "response.created",
            "response.in_progress",
            "response.output_item.added",
            "response.function_call_arguments.done",
            "response.output_item.done",
            "response.completed",
        ],
    );
    match &events[2] {
        StreamEvent::OutputItemAdded { item, .. } => {
            assert_eq!(item.call_id.as_deref(), Some("call_zero"));
            assert_eq!(item.name, "ping");
        }
        _ => panic!("the function call should be announced"),
    }
    match &events[3] {
        StreamEvent::FunctionCallArgumentsDone { arguments, .. } => assert_eq!(arguments, ""),
        _ => panic!("the arguments should be done"),
    }
    match &events[4] {
        StreamEvent::OutputItemDone { item, .. } => assert_eq!(item.arguments, ""),
        _ => panic!("the function call should be done"),
    }

    let serialized_output = serde_json::to_value(&final_response.output[0]).unwrap();
    assert_eq!(serialized_output["call_id"], "call_zero");
    assert_eq!(serialized_output["name"], "ping");
    assert_eq!(serialized_output["arguments"], "");
}

const CONTENT: &str = "data: {\"id\":\"c\",\"object\":\"chat.completion.chunk\",\"created\":1,\"model\":\"m\",\"choices\":[{\"index\":0,\"delta\":{\"content\":\"hello\",\"reasoning_content\":\"hm\"},\"finish_reason\":\"stop\"}],\"usage\":{\"prompt_tokens\":1,\"completion_tokens\":2,\"total_tokens\":3,\"completion_tokens_details\":{\"reasoning_tokens\":2}}}\n\n";

#[test]
fn a_text_stream_becomes_a_message_and_a_reasoning_item() {
    let request = test_responses_request();
    let started = NonMcpStream::start_with(&request, "resp_1".to_string(), 77);
    let run = drive_from(started, &[CONTENT, "data: [DONE]\n\n"], None, None);
    let (response, persist) = run.result.unwrap();
    assert!(persist);
    assert_eq!(response.id, "resp_1");
    assert_eq!(response.model, "mock-model");
    assert_eq!(response.created_at, 77);
    assert_eq!(response.status, ResponseStatus::Completed);
    assert_eq!(response.max_output_tokens, Some(64));
    assert!(response.store);
    let output = serde_json::to_value(&response.output).unwrap();
    assert_eq!(output[0]["type"], "message");
    assert_eq!(output[0]["id"], "msg_resp_1");
    assert_eq!(output[0]["role"], "assistant");
    assert_eq!(output[0]["status"], "completed");
    assert_eq!(output[0]["content"][0]["type"], "output_text");
    assert_eq!(output[0]["content"][0]["text"], "hello");
    assert_eq!(output[1]["type"], "reasoning");
    assert_eq!(output[1]["id"], "reasoning_resp_1");
    assert_eq!(output[1]["content"][0]["text"], "hm");
    match response.usage {
        Some(ResponsesUsage::Classic(usage)) => {
            assert_eq!(usage.prompt_tokens, 1);
            assert_eq!(usage.completion_tokens, 2);
            assert_eq!(usage.total_tokens, 3);
            assert_eq!(usage.reasoning_tokens, Some(2));
            assert!(usage.prompt_tokens_details.is_none());
        }
        _ => panic!("the usage should be classic"),
    }
    match &run.events[2] {
        StreamEvent::Chunk(chunk) => {
            assert_eq!(chunk.choices[0].delta.content.as_deref(), Some("hello"));
        }
        _ => panic!("the emitter should be told of the chunk"),
    }
    match run.events.last() {
        Some(StreamEvent::Completed { usage: Some(usage), .. }) => {
            assert_eq!(usage.reasoning_tokens, Some(2));
        }
        _ => panic!("the completion should report the usage"),
    }
}

#[test]
fn a_started_stream_has_a_fresh_identifier() {
    let request = test_responses_request();
    let (first, _) = NonMcpStream::start(&request);
    let (second, _) = NonMcpStream::start(&request);
    assert!(first.accumulator.response_id.starts_with("resp_"));
    assert_eq!(first.accumulator.response_id.len(), 41);
    assert_ne!(first.accumulator.response_id, second.accumulator.response_id);
    assert!(first.accumulator.created_at > 1_600_000_000);
}

#[test]
fn the_response_keeps_the_identity_of_its_start() {
    let request = test_responses_request();
    let started = NonMcpStream::start_with(&request, "resp_own".to_string(), 17);
    let run = drive_from(started, &[CONTENT, "data: [DONE]\n\n"], None, None);
    let (response, _) = run.result.unwrap();
    assert_eq!((response.id.as_str(), response.model.as_str()), ("resp_own", "mock-model"));
    assert_eq!(response.created_at, 17);
    assert_eq!(response.max_output_tokens, Some(64));
}

#[test]
fn what_the_end_of_the_body_left_is_taken_in() {
    let unfinished = CONTENT.trim_end();
    let run = drive(&[unfinished]);
    let (response, persist) = run.result.unwrap();
    assert!(persist);
    assert_eq!(response.output.len(), 2);
}

#[test]
fn text_behind_the_end_of_the_stream_is_taken_in_as_a_last_record() {
    let run = drive(&["data: [DONE]\n\ndata: {\"error\":1}"]);
    let (response, persist) = run.result.unwrap();
    assert_eq!(response.status, ResponseStatus::Failed);
    assert!(!persist);
    assert_eq!(event_types(&run.events), vec!["response.created", "response.in_progress"]);
}

#[test]
fn a_chunk_behind_the_end_of_the_stream_adds_to_the_response() {
    let late = format!("data: [DONE]\n\n{}", CONTENT.trim_end());
    let run = drive(&[late.as_str(), "data: {\"error\":1}\n\n"]);
    let (response, persist) = run.result.unwrap();
    assert!(persist);
    assert_eq!(response.status, ResponseStatus::Completed);
    assert_eq!(response.output.len(), 2);
    assert_eq!(
        event_types(&run.events),
        vec!["response.created", "response.in_progress", "response.completed"]
    );
}

#[test]
fn other_payloads_are_passed_on_and_the_stream_goes_on() {
    let run = drive(&["data: {\"note\":1}\n\n", "data: not json\n\n", CONTENT]);
    let (response, persist) = run.result.unwrap();
    assert!(persist);
    assert_eq!(response.status, ResponseStatus::Completed);
    let raw: Vec<_> = run
        .events
        .iter()
        .filter_map(|event| match event {
            StreamEvent::RawJson(json) => Some(json.as_str()),
            _ => None,
        })
        .collect();
    assert_eq!(raw, vec!["{\"note\":1}", "not json"]);
}

#[test]
fn an_empty_body_completes_with_an_empty_response() {
    let run = drive(&[]);
    let (response, persist) = run.result.unwrap();
    assert!(persist);
    assert!(response.output.is_empty());
    assert!(response.usage.is_none());
    assert_eq!(
        event_types(&run.events),
        vec!["response.created", "response.in_progress", "response.completed"]
    );
}

#[test]
fn failures_end_the_stream_with_their_messages() {
    let request = test_responses_request();
    let failed = |pieces: &[&str], read_error: Option<&str>, fail_at: Option<usize>| {
        drive_from(NonMcpStream::start(&request), pieces, read_error, fail_at)
            .result
            .unwrap_err()
    };
    assert_eq!(failed(&[], None, Some(0)), "Failed to send response.created event");
    assert_eq!(failed(&[], None, Some(1)), "Failed to send response.in_progress event");
    assert_eq!(failed(&[CONTENT], None, Some(2)), "Client disconnected");
    assert_eq!(failed(&[CONTENT], None, Some(3)), "Client disconnected");
    assert_eq!(failed(&[CONTENT], Some("reset"), None), "Stream read error: reset");
}

#[test]
fn a_chunk_behind_function_calls_is_told_as_one_of_theirs() {
    let call = "data: {\"id\":\"c\",\"object\":\"o\",\"created\":1,\"model\":\"m\",\"choices\":[{\"index\":0,\"delta\":{\"tool_calls\":[{\"index\":1,\"id\":\"b\",\"function\":{\"name\":\"two\",\"arguments\":\"2\"}},{\"index\":0,\"id\":\"a\",\"function\":{\"name\":\"one\",\"arguments\":\"1\"}}]},\"finish_reason\":null}]}\n\n";
    let text = "data: {\"id\":\"c\",\"object\":\"o\",\"created\":1,\"model\":\"m\",\"choices\":[{\"index\":0,\"delta\":{\"content\":\"late\"},\"finish_reason\":\"tool_calls\"}]}\n\n";
    let run = drive(&[call, text]);
    let (response, _) = run.result.unwrap();
    assert!(!run.events.iter().any(|event| matches!(event, StreamEvent::Chunk(_))));
    let done: Vec<_> = run
        .events
        .iter()
        .filter_map(|event| match event {
            StreamEvent::OutputItemDone { item, output_index } => {
                Some((item.name.as_str(), *output_index))
            }
            _ => None,
        })
        .collect();
    assert_eq!(done, vec![("one", 1), ("two", 0)]);
    let output = serde_json::to_value(&response.output).unwrap();
    assert_eq!(response.output.len(), 2);
    assert_eq!(output[0]["name"], "one");
    assert_eq!(output[1]["name"], "two");
}

#[test]
fn inputs_out_of_turn_are_not_awaited() {
    let (stream, _) = NonMcpStream::start(&test_responses_request());
    assert!(stream.awaits(&StreamInput::Delivered));
    assert!(!stream.awaits(&StreamInput::BodyEnd));
    assert!(!stream.awaits(&StreamInput::Slots(vec![])));
}

const CALLS: [&str; 3] = [
    "data: {\"id\":\"c\",\"object\":\"o\",\"created\":1,\"model\":\"m\",\"choices\":[{\"index\":0,\"delta\":{\"content\":\"let me see\",\"tool_calls\":[{\"index\":1,\"id\":\"b\",\"function\":{\"name\":\"two\",\"arguments\":\"{\\\"x\\\"\"}},{\"index\":0,\"id\":\"a\",\"function\":{\"name\":\"one\"}}]},\"finish_reason\":null}]}\n\n",
    "data: {\"id\":\"c\",\"object\":\"o\",\"created\":1,\"model\":\"m\",\"choices\":[{\"index\":0,\"delta\":{\"tool_calls\":[{\"index\":0,\"function\":{\"arguments\":\"[]\"}},{\"index\":1,\"function\":{\"arguments\":\":1}\"}}]},\"finish_reason\":null}]}\n\n",
    "data: {\"id\":\"c\",\"object\":\"o\",\"created\":1,\"model\":\"m\",\"choices\":[{\"index\":0,\"delta\":{},\"finish_reason\":\"tool_calls\"}]}\n\n",
];

fn without_item_ids(response: &ResponsesResponse) -> Vec<Value> {
    response
        .output
        .iter()
        .map(|item| {
            let mut value = serde_json::to_value(item).unwrap();
            value.as_object_mut().unwrap().remove("id");
            value
        })
        .collect()
}

#[test]
fn the_response_does_not_depend_on_where_the_body_is_cut() {
    let whole = CALLS.concat();
    let (expected, _) = drive(&[&whole]).result.unwrap();
    let expected = without_item_ids(&expected);
    assert_eq!(expected.len(), 3);
    for cut in 0..=whole.len() {
        let run = drive(&[&whole[..cut], &whole[cut..]]);
        let (response, persist) = run.result.unwrap();
        assert!(persist);
        assert_eq!(without_item_ids(&response), expected);
    }
}

#[test]
fn the_streamed_arguments_are_those_of_the_response() {
    let run = drive(&CALLS);
    let (response, _) = run.result.unwrap();
    let output = without_item_ids(&response);
    for (slot, name, arguments) in [(0, "two", "{\"x\":1}"), (1, "one", "[]")] {
        let mut streamed = String::new();
        let mut announced = 0;
        let mut done = 0;
        for event in &run.events {
            match event {
                StreamEvent::OutputItemAdded { output_index, item } if *output_index == slot => {
                    assert_eq!(item.name, name);
                    announced += 1;
                }
                StreamEvent::FunctionCallArgumentsDelta { output_index, delta, .. }
                    if *output_index == slot =>
                {
                    streamed.push_str(delta);
                }
                StreamEvent::OutputItemDone { output_index, item } if *output_index == slot => {
                    assert_eq!(item.arguments, arguments);
                    done += 1;
                }
                _ => {}
            }
        }
        assert_eq!((announced, done), (1, 1));
        assert_eq!(streamed, arguments);
        let item = output.iter().find(|item| item["name"] == name).unwrap();
        assert_eq!(item["arguments"], arguments);
    }
}
