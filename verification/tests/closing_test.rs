use responses_stream::closing::{close_stream, close_tool_loop, ClosingStep};

fn shown(steps: Vec<ClosingStep>) -> Vec<String> {
    steps
        .into_iter()
        .map(|step| match step {
            ClosingStep::Error { message, error_type } => format!("{error_type}: {message}"),
            ClosingStep::Done => "done".to_string(),
        })
        .collect()
}

#[test]
fn streams_close_with_an_error_only_where_they_failed() {
    assert_eq!(shown(close_stream(None)), vec!["done"]);
    assert_eq!(shown(close_tool_loop(None)), vec!["done"]);
    assert_eq!(shown(close_stream(Some("x".to_string()))), vec!["stream_error: x", "done"]);
    assert_eq!(
        shown(close_tool_loop(Some("x".to_string()))),
        vec!["tool_loop_error: x", "done"]
    );
}
