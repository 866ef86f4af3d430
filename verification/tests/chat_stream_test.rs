use responses_stream::chat_stream::{ChatProgress, ChatStream};
use responses_stream::completion::{build_completion, Completion};
use responses_stream::events::StreamEvent;
use responses_stream::stream::{StreamAction, StreamInput};

fn drive(
    pieces: &[&str],
    read_error: Option<&str>,
    fail_at: Option<usize>,
) -> (Vec<String>, Result<Completion, String>) {
    let mut deltas = Vec::new();
    let mut told = 0;
    let mut next_piece = 0;
    let (mut stream, mut action) = ChatStream::start();
    loop {
        let input = match action {
            StreamAction::Deliver(events) => {
                told += 1;
                if fail_at == Some(told) {
                    StreamInput::DeliveryFailed("outbound buffer full".to_string())
                } else {
                    for event in events {
                        match event {
                            StreamEvent::Chunk(chunk) => {
                                deltas.extend(chunk.choices.into_iter().filter_map(|c| c.delta.content));
                            }
                            _ => panic!("only chunks are shown"),
                        }
                    }
                    StreamInput::Delivered
                }
            }
            StreamAction::ReadBody => {
                next_piece += 1;
                match pieces.get(next_piece - 1) {
                    Some(piece) => StreamInput::Bytes(piece.as_bytes().to_vec()),
                    None => match read_error {
                        Some(reason) => StreamInput::BodyFailed(reason.to_string()),
                        None => StreamInput::BodyEnd,
                    },
                }
            }
            StreamAction::Allocate(_) => panic!("a chat stream takes no slots"),
        };
        assert!(stream.awaits(&input));
        match stream.advance(input) {
            ChatProgress::Running(next, wanted) => {
                stream = next;
                action = wanted;
            }
            ChatProgress::Finished(completion) => return (deltas, Ok(completion)),
            ChatProgress::Failed(error) => return (deltas, Err(error)),
        }
    }
}

#[test]
fn test_convert_and_accumulate_stream_handles_coalesced_sse_records() {
    let (text_deltas, result) = drive(
        &[concat_records().as_str()],
        None,
        None,
    );
    let result = build_completion(result.expect("coalesced MCP stream should succeed"));

    assert_eq!(result.choices[0].message.content.as_deref(), Some("hello"));
    assert!(result.usage.is_some());
    assert_eq!(text_deltas, vec!["hel", "lo"]);
}

fn concat_records() -> String {
    [
        "data: {\"id\":\"chatcmpl_mcp\",\"object\":\"chat.completion.chunk\",\"created\":1,\"model\":\"mock-model\",\"choices\":[{\"index\":0,\"delta\":{\"content\":\"hel\"},\"finish_reason\":null}]}\n\n",
        "data: {\"id\":\"chatcmpl_mcp\",\"object\":\"chat.completion.chunk\",\"created\":1,\"model\":\"mock-model\",\"choices\":[{\"index\":0,\"delta\":{\"content\":\"lo\"},\"finish_reason\":null}]}\n\n",
        "data: {\"id\":\"chatcmpl_mcp\",\"object\":\"chat.completion.chunk\",\"created\":1,\"model\":\"mock-model\",\"choices\":[{\"index\":0,\"delta\":{},\"finish_reason\":\"stop\"}],\"usage\":{\"prompt_tokens\":5,\"completion_tokens\":2,\"total_tokens\":7}}\n\n",
        "data: [DONE]\n\n",
    ]
    .concat()
}

#[test]
fn test_convert_and_accumulate_stream_handles_split_sse_records() {
    let first_half = "data: {\"id\":\"chatcmpl_split\",\"object\":\"chat.completion.chunk\",";
    let second_half = "\"created\":1,\"model\":\"mock-model\",\"choices\":[{\"index\":0,\"delta\":{\"content\":\"split\"},\"finish_reason\":null}]}\n\n\
                       data: {\"id\":\"chatcmpl_split\",\"object\":\"chat.completion.chunk\",\"created\":1,\"model\":\"mock-model\",\"choices\":[{\"index\":0,\"delta\":{},\"finish_reason\":\"stop\"}]}\n\n\
                       data: [DONE]\n\n";

    let (text_deltas, result) = drive(&[first_half, second_half], None, None);
    let result = build_completion(result.expect("split MCP stream should succeed"));

    assert_eq!(result.choices[0].message.content.as_deref(), Some("split"));
    assert_eq!(text_deltas, vec!["split"]);
}

#[test]
fn the_completion_does_not_depend_on_where_the_body_is_cut() {
    let whole = concat_records();
    for cut in 0..=whole.len() {
        let (deltas, result) = drive(&[&whole[..cut], &whole[cut..]], None, None);
        let completion = result.unwrap();
        assert_eq!(deltas, vec!["hel", "lo"]);
        assert_eq!(completion.choices[0].content.as_deref(), Some("hello"));
        assert_eq!(completion.id, "chatcmpl_mcp");
        assert_eq!(completion.choices[0].finish_reason.as_deref(), Some("stop"));
        assert_eq!(completion.usage.unwrap().total_tokens, 7);
    }
}

#[test]
fn nothing_behind_the_end_of_the_stream_is_read() {
    let mut whole = concat_records();
    whole.push_str("data: {\"id\":\"late\",\"object\":\"o\",\"created\":1,\"model\":\"m\",\"choices\":[]}\n\n");
    let (_, result) = drive(&[&whole], None, None);
    assert_eq!(result.unwrap().id, "chatcmpl_mcp");
}

#[test]
fn other_payloads_are_passed_over() {
    let (deltas, result) = drive(&["data: {\"error\":{}}\n\n", &concat_records()], None, None);
    assert_eq!(deltas, vec!["hel", "lo"]);
    assert!(result.is_ok());
}

#[test]
fn the_last_chunk_may_lack_its_empty_line() {
    let records = concat_records();
    let first = records.split("\n\n").next().unwrap();
    let (deltas, result) = drive(&[first], None, None);
    assert_eq!(deltas, vec!["hel"]);
    assert_eq!(result.unwrap().choices[0].content.as_deref(), Some("hel"));

    let (deltas, result) = drive(&["data: {\"error\":1}"], None, None);
    assert!(deltas.is_empty());
    assert_eq!(result.unwrap().choices[0].content, None);
}

#[test]
fn failures_end_the_chat_stream_with_their_messages() {
    let records = concat_records();
    let first = records.split_inclusive("\n\n").next().unwrap();
    let (_, result) = drive(&[first], Some("reset"), None);
    assert_eq!(result.unwrap_err(), "Stream read error: reset");
    let (_, result) = drive(&[&records], None, Some(2));
    assert_eq!(result.unwrap_err(), "outbound buffer full");
}
