use openai_protocol::responses::{ResponseInput, ResponsesRequest, ResponsesResponse};
use responses_stream::events::{OutputSlot, StreamEvent};
use responses_stream::responses::ResponseStatus;
use responses_stream::stream::{StreamAction, StreamInput};
use responses_stream::tool_loop::{
    partition_calls, show_output, ExtractedToolCall, LoopAction, LoopInput, LoopProgress,
    PreparedCall, ToolLoop, ToolOutcome,
};
use serde_json::Value;

struct Setup {
    max_tool_calls: Option<u32>,
    max_iterations: usize,
    servers: usize,
    bodies: Vec<String>,
    exposed: Vec<&'static str>,
    passthrough: bool,
    tool_fails: bool,
    fail_at: Option<usize>,
    conversion_error: Option<&'static str>,
}

fn setup(bodies: Vec<String>) -> Setup {
    Setup {
        max_tool_calls: None,
        max_iterations: 10,
        servers: 2,
        bodies,
        exposed: vec!["search"],
        passthrough: true,
        tool_fails: false,
        fail_at: None,
        conversion_error: None,
    }
}

struct Outcome {
    log: Vec<String>,
    rounds: usize,
    result: Result<ResponsesResponse, String>,
}

fn shown(event: StreamEvent) -> String {
    match event {
        StreamEvent::Created => "created".to_string(),
        StreamEvent::InProgress => "in_progress".to_string(),
        StreamEvent::Chunk(_) => "chunk".to_string(),
        StreamEvent::McpListTools { server } => format!("list {server}"),
        StreamEvent::OutputItemAdded { output_index, item } => format!(
            "added {output_index} {} {} {:?} {:?}",
            item.item_type, item.name, item.call_id, item.server_label
        ),
        StreamEvent::ToolCallInProgress { output_index, .. } => format!("running {output_index}"),
        StreamEvent::McpCallArgumentsDelta { delta, .. } => format!("mcp delta {delta}"),
        StreamEvent::McpCallArgumentsDone { arguments, .. } => format!("mcp arguments {arguments}"),
        StreamEvent::ToolCallSearching { output_index, .. } => format!("searching {output_index}"),
        StreamEvent::ToolCallCompleted { output_index, .. } => format!("completed {output_index}"),
        StreamEvent::McpCallFailed { error, .. } => format!("failed {error}"),
        StreamEvent::ToolOutputDone { output_index, output } => {
            assert_eq!(output["id"], format!("i{output_index}"));
            let part = |key: &str| output[key].as_str().unwrap_or_default().to_string();
            format!("output {} {}", part("type"), part("status"))
        }
        StreamEvent::CompleteOutputItem { output_index } => format!("complete {output_index}"),
        StreamEvent::FunctionCallArgumentsDelta { delta, .. } => format!("delta {delta}"),
        StreamEvent::FunctionCallArgumentsDone { arguments, .. } => format!("arguments {arguments}"),
        StreamEvent::OutputItemDone { item, .. } => format!("done {} {}", item.status, item.arguments),
        StreamEvent::ReasoningItem { text } => format!("reasoning {text}"),
        StreamEvent::RawJson(json) => format!("raw {json}"),
        StreamEvent::Completed { status, usage, incomplete_reason } => format!(
            "response.completed {status:?} {:?} {incomplete_reason:?}",
            usage.map(|usage| (usage.total_tokens, usage.reasoning_tokens))
        ),
    }
}

fn drive(setup: Setup) -> Outcome {
    let request = ResponsesRequest {
        model: "mock-model".to_string(),
        input: ResponseInput::Text("hello".to_string()),
        max_tool_calls: setup.max_tool_calls,
        ..Default::default()
    };
    let mut log = Vec::new();
    let mut sent = 0;
    let mut slots = 0;
    let mut round = 0;
    let mut rounds = 0;
    let mut read = false;
    let (mut tool_loop, mut action) = ToolLoop::start(&request, setup.servers, setup.max_iterations);
    loop {
        let input = match action {
            LoopAction::Stream(StreamAction::Deliver(events)) => {
                let mut failure = None;
                for event in events {
                    if setup.fail_at == Some(sent) {
                        failure = Some("Client disconnected".to_string());
                        break;
                    }
                    sent += 1;
                    log.push(shown(event));
                }
                LoopInput::Stream(match failure {
                    Some(reason) => StreamInput::DeliveryFailed(reason),
                    None => StreamInput::Delivered,
                })
            }
            LoopAction::Stream(StreamAction::ReadBody) => {
                let end = read;
                read = true;
                LoopInput::Stream(if end {
                    StreamInput::BodyEnd
                } else {
                    StreamInput::Bytes(setup.bodies[round - 1].as_bytes().to_vec())
                })
            }
            LoopAction::Stream(StreamAction::Allocate(n)) => {
                let given = (slots..slots + n)
                    .map(|output_index| OutputSlot { output_index, item_id: format!("i{output_index}") })
                    .collect();
                slots += n;
                LoopInput::Stream(StreamInput::Slots(given))
            }
            LoopAction::CountRound => {
                rounds += 1;
                LoopInput::Counted
            }
            LoopAction::StartChat { iteration, continues } => {
                round += 1;
                read = false;
                assert_eq!(iteration, round);
                assert_eq!(rounds, round);
                assert_eq!(continues, round > 1);
                log.push(format!("chat {iteration}"));
                match setup.conversion_error {
                    Some(reason) => LoopInput::ConversionFailed(reason.to_string()),
                    None => LoopInput::ChatStarted,
                }
            }
            LoopAction::Extract(completion) => {
                let calls = completion.choices[0].message.tool_calls.clone().unwrap_or_default();
                LoopInput::Calls(
                    calls
                        .into_iter()
                        .map(|call| ExtractedToolCall {
                            call_id: call.id,
                            exposed: setup.exposed.contains(&call.function.name.as_str()),
                            name: call.function.name,
                            arguments: call.function.arguments.unwrap_or_default(),
                        })
                        .collect(),
                )
            }
            LoopAction::Prepare { name } => {
                log.push(format!("prepare {name}"));
                slots += 1;
                LoopInput::Prepared(PreparedCall {
                    slot: OutputSlot { output_index: slots - 1, item_id: format!("i{}", slots - 1) },
                    item_type: "mcp_call".to_string(),
                    server_label: "server".to_string(),
                    passthrough: setup.passthrough,
                })
            }
            LoopAction::Execute { call_id, name, arguments } => {
                log.push(format!("execute {call_id} {name} {arguments}"));
                LoopInput::ToolDone(ToolOutcome {
                    is_error: setup.tool_fails,
                    error_message: None,
                    output: "result".to_string(),
                    item: None,
                })
            }
            LoopAction::Record { success } => {
                log.push(format!("record {success}"));
                LoopInput::Recorded
            }
            LoopAction::Finalize { status, usage, incomplete_reason } => {
                log.push(format!(
                    "finalize {status:?} {:?} {incomplete_reason:?}",
                    usage.map(|usage| usage.total_tokens)
                ));
                LoopInput::Finalized(ResponsesResponse::builder("resp_1", "mock-model").build())
            }
        };
        assert!(tool_loop.awaits(&input));
        match tool_loop.advance(input) {
            LoopProgress::Running(next, wanted) => {
                tool_loop = next;
                action = wanted;
            }
            LoopProgress::Finished(response) => {
                return Outcome { log, rounds, result: Ok(response) };
            }
            LoopProgress::Failed(error) => return Outcome { log, rounds, result: Err(error) },
        }
    }
}

fn body(delta: &str) -> String {
    format!("data: {{\"id\":\"c\",\"object\":\"o\",\"created\":1,\"model\":\"m\",\"choices\":[{{\"index\":0,\"delta\":{delta},\"finish_reason\":null}}],\"usage\":{{\"prompt_tokens\":1,\"completion_tokens\":2,\"total_tokens\":3,\"completion_tokens_details\":{{\"reasoning_tokens\":1}}}}}}\n\ndata: [DONE]\n\n")
}

fn calls(names: &[&str]) -> String {
    let list: Vec<String> = names
        .iter()
        .enumerate()
        .map(|(index, name)| {
            format!("{{\"index\":{index},\"id\":\"call_{index}\",\"function\":{{\"name\":\"{name}\",\"arguments\":\"[1]\"}}}}")
        })
        .collect();
    body(&format!("{{\"tool_calls\":[{}]}}", list.join(",")))
}

#[test]
fn a_round_without_calls_ends_the_loop() {
    let outcome = drive(setup(vec![body("{\"content\":\"hi\",\"reasoning_content\":\"why\"}")]));
    assert_eq!(outcome.result.unwrap().id, "resp_1");
    assert_eq!(
        outcome.log,
        vec![
            "created",
            "in_progress",
            "list 0",
            "list 1",
            "chat 1",
            "chunk",
            "reasoning why",
            "response.completed None Some((3, None)) None",
            "finalize None Some(3) None",
        ]
    );
}

#[test]
fn empty_reasoning_is_not_told() {
    let outcome = drive(setup(vec![body("{\"content\":\"hi\",\"reasoning_content\":\"\"}")]));
    assert!(!outcome.log.iter().any(|line| line.starts_with("reasoning")));
}

#[test]
fn exposed_tools_run_and_the_next_round_follows() {
    let outcome = drive(setup(vec![calls(&["search"]), body("{\"content\":\"hi\"}")]));
    assert!(outcome.result.is_ok());
    assert_eq!(
        outcome.log[5..],
        [
            "chunk",
            "prepare search",
            "added 0 mcp_call search None Some(\"server\")",
            "running 0",
            "mcp delta [1]",
            "mcp arguments [1]",
            "searching 0",
            "execute call_0 search {}",
            "completed 0",
            "output mcp_call completed",
            "complete 0",
            "record true",
            "chat 2",
            "chunk",
            "response.completed None Some((3, None)) None",
            "finalize None Some(3) None",
        ]
    );
}

#[test]
fn built_in_tools_show_neither_arguments_nor_failures() {
    let outcome = drive(Setup {
        passthrough: false,
        tool_fails: true,
        ..setup(vec![calls(&["search"]), body("{}")])
    });
    assert_eq!(
        outcome.log[7..14],
        [
            "added 0 mcp_call search None Some(\"server\")",
            "running 0",
            "searching 0",
            "execute call_0 search {}",
            "completed 0",
            "output mcp_call failed",
            "complete 0",
        ]
    );
    assert_eq!(outcome.log[14], "record false");
}

#[test]
fn failures_of_plain_tools_are_told() {
    let outcome = drive(Setup { tool_fails: true, ..setup(vec![calls(&["search"]), body("{}")]) });
    assert!(outcome.log.contains(&"failed result".to_string()));
    assert!(outcome.log.contains(&"record false".to_string()));
    assert!(outcome.result.is_ok());
}

#[test]
fn function_calls_are_left_to_the_client() {
    let outcome = drive(setup(vec![calls(&["mine", "search", "yours"])]));
    assert!(outcome.result.is_ok());
    let after = outcome.log.iter().position(|line| line.starts_with("record")).unwrap() + 1;
    assert_eq!(
        outcome.log[after..],
        [
            "added 1 function_call mine Some(\"call_0\") None",
            "delta [1]",
            "arguments [1]",
            "done completed [1]",
            "complete 1",
            "added 2 function_call yours Some(\"call_2\") None",
            "delta [1]",
            "arguments [1]",
            "done completed [1]",
            "complete 2",
            "response.completed Some(InProgress) Some((3, None)) None",
            "finalize Some(InProgress) Some(3) None",
        ]
    );
}

#[test]
fn too_many_tool_calls_end_the_loop_early() {
    let outcome = drive(Setup {
        max_tool_calls: Some(2),
        ..setup(vec![calls(&["search"]), calls(&["search", "search"])])
    });
    assert!(outcome.result.is_ok());
    let executed = outcome.log.iter().filter(|line| line.starts_with("execute")).count();
    assert_eq!(executed, 1);
    let n = outcome.log.len();
    assert_eq!(
        outcome.log[n - 2..],
        [
            "finalize Some(Completed) Some(3) Some(\"max_tool_calls\")",
            "response.completed None Some((3, None)) Some(\"max_tool_calls\")",
        ]
    );
}

#[test]
fn the_loop_has_its_own_limit_of_tool_calls() {
    let outcome = drive(Setup {
        max_tool_calls: Some(100),
        max_iterations: 1,
        ..setup(vec![calls(&["search", "search"])])
    });
    assert!(outcome.log.iter().any(|line| line.contains("max_tool_calls")));
    assert!(!outcome.log.iter().any(|line| line.starts_with("execute")));
}

#[test]
fn too_many_rounds_fail() {
    let rounds = vec![calls(&["search"]), calls(&["search"])];
    let outcome = drive(Setup { max_iterations: 2, ..setup(rounds) });
    assert_eq!(outcome.result.unwrap_err(), "Tool loop exceeded maximum iterations (2)");
    let outcome = drive(Setup { max_iterations: 0, ..setup(vec![]) });
    assert_eq!(outcome.result.unwrap_err(), "Tool loop exceeded maximum iterations (0)");
}

#[test]
fn a_loop_opens_with_its_listings() {
    let rounds = vec![calls(&["search"]), calls(&["search", "mine"])];
    for fail_at in [None, Some(1), Some(3), Some(5)] {
        let outcome = drive(Setup { servers: 3, fail_at, ..setup(rounds.clone()) });
        let opening = ["created", "in_progress", "list 0", "list 1", "list 2", "chat 1"];
        let told = outcome.log.len().min(opening.len());
        assert_eq!(outcome.log[..told], opening[..told]);
        assert!(outcome.log[told..].iter().all(|line| !line.starts_with("list")
            && line != "created"
            && line != "in_progress"
            && line != "chat 1"));
    }
}

#[test]
fn tools_are_listed_once() {
    let outcome = drive(setup(vec![calls(&["search"]), calls(&["search"]), body("{}")]));
    let lists: Vec<_> = outcome.log.iter().filter(|line| line.starts_with("list")).collect();
    assert_eq!(lists, vec!["list 0", "list 1"]);
}

#[test]
fn failures_end_the_loop_with_their_messages() {
    for fail_at in 0..6 {
        let outcome = drive(Setup { fail_at: Some(fail_at), ..setup(vec![body("{\"content\":\"x\"}")]) });
        assert_eq!(outcome.result.unwrap_err(), "Client disconnected");
    }
    let outcome = drive(Setup { conversion_error: Some("bad"), ..setup(vec![]) });
    assert_eq!(outcome.result.unwrap_err(), "Failed to convert request: bad");
}

#[test]
fn a_status_is_told_only_where_the_loop_sets_one() {
    let outcome = drive(setup(vec![calls(&["mine"])]));
    assert!(outcome.log.contains(&format!(
        "response.completed {:?} Some((3, None)) None",
        Some(ResponseStatus::InProgress)
    )));
}

#[test]
fn a_failed_loop_tells_of_no_completion() {
    let rounds = vec![calls(&["search"]), body("{\"content\":\"x\"}")];
    let whole = drive(setup(rounds.clone()));
    let events = whole.log.iter().filter(|line| {
        !["chat", "prepare", "execute", "record", "finalize"]
            .iter()
            .any(|word| line.starts_with(word))
    });
    let sent = events.count();
    for fail_at in 0..sent {
        let outcome = drive(Setup { fail_at: Some(fail_at), ..setup(rounds.clone()) });
        assert_eq!(outcome.result.unwrap_err(), "Client disconnected");
        assert!(!outcome.log.iter().any(|line| line.starts_with("response.completed")));
    }
    let outcome = drive(Setup { max_iterations: 1, ..setup(rounds) });
    assert!(outcome.result.is_err());
    assert!(!outcome.log.iter().any(|line| line.starts_with("response.completed")));
}

#[test]
fn every_round_is_counted() {
    let rounds = vec![calls(&["search"]), calls(&["search"]), body("{}")];
    let outcome = drive(setup(rounds.clone()));
    assert!(outcome.result.is_ok());
    assert_eq!(outcome.rounds, 3);
    let outcome = drive(Setup { max_iterations: 2, ..setup(rounds) });
    assert!(outcome.result.is_err());
    assert_eq!(outcome.rounds, 3);
    let outcome = drive(Setup { max_iterations: 0, ..setup(vec![]) });
    assert_eq!(outcome.rounds, 1);
    assert_eq!(outcome.log, vec!["created", "in_progress"]);
}

#[test]
fn an_output_item_bears_the_identifier_that_was_announced() {
    let parse = |text: &str| -> Value { serde_json::from_str(text).unwrap() };
    let made = parse("{\"id\":\"other\",\"type\":\"mcp_call\",\"output\":\"x\"}");
    assert_eq!(
        show_output(Some(made), true, "i1", "mcp_call"),
        parse("{\"id\":\"i1\",\"type\":\"mcp_call\",\"output\":\"x\"}")
    );
    assert_eq!(show_output(Some(parse("[1]")), false, "i1", "mcp_call"), parse("[1]"));
    assert_eq!(
        show_output(None, true, "i1", "web_search_call"),
        parse("{\"id\":\"i1\",\"type\":\"web_search_call\",\"status\":\"failed\"}")
    );
    assert_eq!(
        show_output(None, false, "i2", "mcp_call"),
        parse("{\"id\":\"i2\",\"type\":\"mcp_call\",\"status\":\"completed\"}")
    );
}

#[test]
fn calls_are_parted_in_their_order() {
    let call = |name: &str, exposed: bool| ExtractedToolCall {
        call_id: String::new(),
        name: name.to_string(),
        arguments: String::new(),
        exposed,
    };
    let (mcp, others) =
        partition_calls(vec![call("a", true), call("b", false), call("c", true), call("d", false)]);
    let names = |calls: Vec<ExtractedToolCall>| -> Vec<String> {
        calls.into_iter().map(|call| call.name).collect()
    };
    assert_eq!(names(mcp), vec!["a", "c"]);
    assert_eq!(names(others), vec!["b", "d"]);
}

#[test]
fn every_tool_that_ran_is_recorded() {
    let outcome = drive(setup(vec![calls(&["search", "search"]), body("{}")]));
    assert!(outcome.result.is_ok());
    let count = |word: &str| outcome.log.iter().filter(|line| line.starts_with(word)).count();
    assert_eq!(count("execute"), 2);
    assert_eq!(count("record"), 2);
}
