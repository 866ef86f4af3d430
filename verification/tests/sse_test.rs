use responses_stream::chat::read_chunk;
use responses_stream::sse::{classify_data, SseBodyParser, SseDataRecord};

const CHUNK: &str = "{\"id\":\"c1\",\"object\":\"chat.completion.chunk\",\"created\":9,\"model\":\"m1\",\"choices\":[{\"index\":0,\"delta\":{\"content\":\"hi\"},\"finish_reason\":null}]}";

fn raw(record: Option<SseDataRecord>) -> String {
    match record {
        Some(SseDataRecord::RawJson(json)) => json,
        _ => panic!("expected a raw record"),
    }
}

#[test]
fn parser_reads_raw_records() {
    let mut parser = SseBodyParser::new();
    parser.push(b"data: {\"error\":1}\r\n\r\ndata: [DONE]\n\n");
    assert_eq!(raw(parser.next_record()), "{\"error\":1}");
    assert!(matches!(parser.next_record(), Some(SseDataRecord::Done)));
    assert!(parser.next_record().is_none());
}

#[test]
fn parser_reads_chunks() {
    let mut parser = SseBodyParser::new();
    parser.push(format!("data:   {CHUNK}  \n\n").as_bytes());
    match parser.next_record() {
        Some(SseDataRecord::ChatChunk(chunk)) => {
            let content = read_chunk(&chunk);
            assert_eq!(content.id, "c1");
            assert_eq!(content.created, 9);
            assert_eq!(content.model, "m1");
            assert_eq!(content.choices.len(), 1);
            assert_eq!(content.choices[0].content.as_deref(), Some("hi"));
            assert_eq!(content.choices[0].finish_reason, None);
            assert!(content.usage.is_none());
            assert!(!content.has_tool_call_delta());
        }
        _ => panic!("expected a chunk"),
    }
}

#[test]
fn parser_passes_over_records_without_data() {
    let mut parser = SseBodyParser::new();
    parser.push(b"\n\n: comment\n\nevent: ping\n\n \t \n\ndata:x\n\ndata: y\n\n");
    assert_eq!(raw(parser.next_record()), "y");
    assert!(parser.next_record().is_none());
}

#[test]
fn parser_waits_for_the_empty_line() {
    let mut parser = SseBodyParser::new();
    parser.push(b"data: a");
    assert!(parser.next_record().is_none());
    parser.push(b"b\n");
    assert!(parser.next_record().is_none());
    parser.push(b"\ndata: c\n\nrest");
    assert_eq!(raw(parser.next_record()), "ab");
    assert_eq!(raw(parser.next_record()), "c");
    assert!(parser.next_record().is_none());
}

#[test]
fn flush_takes_what_is_left_once() {
    let mut parser = SseBodyParser::new();
    parser.push(b"data: a\n\n data: left \n");
    assert_eq!(raw(parser.next_record()), "a");
    assert_eq!(raw(parser.flush()), "left");
    assert!(parser.flush().is_none());
}

#[test]
fn flush_takes_neither_the_end_nor_what_is_no_data() {
    let mut parser = SseBodyParser::new();
    assert!(parser.flush().is_none());
    parser.push(b" data: [DONE] ");
    assert!(parser.flush().is_none());
    let mut parser = SseBodyParser::new();
    parser.push(b"event: x");
    assert!(parser.flush().is_none());
}

#[test]
fn records_do_not_depend_on_where_the_body_is_cut() {
    let body = format!("data: one\n\n: note\n\ndata: {CHUNK}\n\ndata: [DONE]\n\ndata: tail");
    for cut in 0..=body.len() {
        let mut parser = SseBodyParser::new();
        let mut seen = Vec::new();
        for piece in [&body[..cut], &body[cut..]] {
            parser.push(piece.as_bytes());
            while let Some(record) = parser.next_record() {
                seen.push(match record {
                    SseDataRecord::ChatChunk(chunk) => chunk.id,
                    SseDataRecord::RawJson(json) => json,
                    SseDataRecord::Done => "done".to_string(),
                });
            }
        }
        assert_eq!(seen, vec!["one", "c1", "done"]);
        assert_eq!(raw(parser.flush()), "tail");
    }
}

#[test]
fn a_line_ending_cut_in_two_keeps_its_carriage_return() {
    let mut whole = SseBodyParser::new();
    whole.push(b"data: a\r\n\r\n");
    assert_eq!(raw(whole.next_record()), "a");
    let mut cut = SseBodyParser::new();
    cut.push(b"data: a\r\n\r");
    cut.push(b"\n");
    assert!(cut.next_record().is_none());
    assert_eq!(raw(cut.flush()), "a");
}

#[test]
fn invalid_bytes_are_replaced() {
    let mut parser = SseBodyParser::new();
    parser.push(b"data: \xff\xc3\xa9\n\n");
    assert_eq!(raw(parser.next_record()), "\u{fffd}\u{e9}");
}

#[test]
fn payloads_are_classified_by_what_they_decode_to() {
    assert_eq!(raw(Some(classify_data("x".to_string(), None))), "x");
    let chunk = serde_json::from_str(CHUNK).unwrap();
    assert!(matches!(
        classify_data(CHUNK.to_string(), Some(chunk)),
        SseDataRecord::ChatChunk(_)
    ));
}
