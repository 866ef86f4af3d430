use openai_protocol::responses::{
    ResponseInput, ResponseStatus, ResponsesRequest, ResponsesResponse,
};
use responses_stream::websocket::{
    check_supported, prepare_request, CreateAction, CreateInput, CreateProgress,
    GrpcWsResponsesExecutor, ResponseCreate,
};
use responses_stream::ws_error::{
    explain_failure, outbound_failure, read_header, response_to_ws_error, stream_error_to_ws_error,
    HttpFailure, WsClientError, BODY_LIMIT,
};
use std::sync::Arc;

fn failure(status: u16, code: &str, body: &str) -> HttpFailure {
    HttpFailure {
        status,
        header_code: Some(code.as_bytes().to_vec()),
        body: Some(body.as_bytes().to_vec()),
    }
}

#[test]
fn response_to_ws_error_preserves_router_error_body_message() {
    let err = response_to_ws_error(&failure(
        404,
        "previous_response_not_found",
        "{\"error\":{\"type\":\"Not Found\",\"code\":\"previous_response_not_found\",\"message\":\"Previous response 'resp_missing' was not found in the current session or durable storage.\"}}",
    ));

    assert_eq!(err.code, "previous_response_not_found");
    assert_eq!(
        err.message,
        "Previous response 'resp_missing' was not found in the current session or durable storage."
    );
    assert_eq!(err.status, Some(404));
    assert_eq!(err.param.as_deref(), Some("previous_response_id"));
}

#[test]
fn response_to_ws_error_falls_back_for_non_json_error_body() {
    let err = response_to_ws_error(&failure(400, "responses_ws_error", "plain text error"));

    assert_eq!(err.code, "responses_ws_error");
    assert_eq!(
        err.message,
        "WebSocket Responses request failed with status 400 Bad Request"
    );
    assert_eq!(err.status, Some(400));
    assert_eq!(err.param, None);
}

#[test]
fn a_header_code_stands_in_for_a_missing_one() {
    let err = response_to_ws_error(&failure(503, "no_workers", "{\"error\":{\"message\":7}}"));
    assert_eq!(err.code, "no_workers");
    assert_eq!(
        err.message,
        "WebSocket Responses request failed with status 503 Service Unavailable"
    );

    let bare = HttpFailure { status: 599, header_code: None, body: None };
    let err = response_to_ws_error(&bare);
    assert_eq!(err.code, "responses_ws_error");
    assert_eq!(
        err.message,
        "WebSocket Responses request failed with status 599 <unknown status code>"
    );

    let broken = HttpFailure { status: 500, header_code: Some(vec![104, 200]), body: None };
    assert_eq!(response_to_ws_error(&broken).code, "responses_ws_error");

    let coded = failure(404, "previous_response_not_found", "");
    assert_eq!(response_to_ws_error(&coded).param.as_deref(), Some("previous_response_id"));
}

#[test]
fn a_failure_is_explained_by_its_parsed_body() {
    let value: serde_json::Value =
        serde_json::from_str("{\"error\":{\"code\":\"c\",\"message\":\"m\"}}").unwrap();
    let err = explain_failure(&failure(400, "h", ""), &Some(value));
    assert_eq!((err.code.as_str(), err.message.as_str()), ("c", "m"));
    let err = explain_failure(&failure(400, "h", ""), &None);
    assert_eq!(err.code, "h");
}

#[test]
fn headers_read_as_visible_text() {
    assert_eq!(read_header(b"a b\t~").as_deref(), Some("a b\t~"));
    assert_eq!(read_header(b"").as_deref(), Some(""));
    for byte in 0..=255u8 {
        let expected = (32..127).contains(&byte) || byte == 9;
        assert_eq!(read_header(&[byte]).is_some(), expected);
        let value = axum::http::HeaderValue::from_bytes(&[byte]);
        if let Ok(value) = value {
            assert_eq!(read_header(&[byte]), value.to_str().ok().map(str::to_string));
        }
    }
}

#[test]
fn stream_failures_are_told_by_their_reason() {
    for reason in ["Client disconnected", "x outbound buffer full y"] {
        let err = stream_error_to_ws_error(reason.to_string());
        assert_eq!(err.code, "client_disconnected");
        assert_eq!(
            err.message,
            "WebSocket client disconnected or could not keep up with streamed events."
        );
        assert_eq!(err.status, Some(499));
    }
    let err = stream_error_to_ws_error("Stream read error: x".to_string());
    assert_eq!(err.code, "stream_execution_failed");
    assert_eq!(err.message, "Stream read error: x");
    assert_eq!(err.status, Some(502));
    assert_eq!(err.param, None);
}

#[test]
fn unsent_messages_are_told_as_a_disconnect() {
    let err = outbound_failure();
    assert_eq!(err.code, "client_disconnected");
    assert_eq!(err.message, "WebSocket client disconnected or outbound buffer full.");
    assert_eq!(err.status, Some(499));
    assert_eq!(BODY_LIMIT, 1_048_576);
}

#[test]
fn errors_are_built_part_by_part() {
    let err = WsClientError::new("c", "m");
    assert_eq!((err.status, err.param.clone()), (None, None));
    let err = err.with_status(400).with_param("p");
    assert_eq!((err.code.as_str(), err.message.as_str()), ("c", "m"));
    assert_eq!(err.status, Some(400));
    assert_eq!(err.param.as_deref(), Some("p"));
}

fn request() -> ResponsesRequest {
    ResponsesRequest {
        model: "mock-model".to_string(),
        input: ResponseInput::Text("hello".to_string()),
        background: Some(true),
        stream: Some(false),
        store: None,
        instructions: Some("be brief".to_string()),
        ..Default::default()
    }
}

#[test]
fn requests_are_prepared_for_streaming() {
    let mut prepared = request();
    assert!(prepare_request(&mut prepared).is_ok());
    assert_eq!(prepared.stream, Some(true));
    assert_eq!(prepared.background, Some(false));
    assert_eq!(prepared.store, Some(true));
    assert_eq!(prepared.model, "mock-model");
    assert_eq!(prepared.instructions.as_deref(), Some("be brief"));
}

#[test]
fn invalid_requests_are_refused() {
    let mut invalid = ResponsesRequest { input: ResponseInput::Text(String::new()), ..request() };
    let err = prepare_request(&mut invalid).unwrap_err();
    assert_eq!(err.code, "invalid_request");
    assert!(err.message.contains("Input text cannot be empty"));
    assert_eq!(err.status, None);
}

#[test]
fn conversations_are_refused() {
    let mut with_conversation =
        ResponsesRequest { conversation: Some("conv_123".to_string()), ..request() };
    let err = prepare_request(&mut with_conversation).unwrap_err();
    assert_eq!(err.code, "unsupported_parameter");
    assert_eq!(
        err.message,
        "The `conversation` field is not supported in WebSocket Responses V1."
    );
}

#[test]
fn background_requests_are_refused() {
    let err = check_supported(&request()).unwrap_err();
    assert_eq!(err.code, "unsupported_parameter");
    assert_eq!(
        err.message,
        "Background mode is not supported. Please set 'background' to false or omit it."
    );
    assert!(check_supported(&ResponsesRequest { background: None, ..request() }).is_ok());
}

#[test]
fn stream_and_background_play_no_part() {
    let modes = [None, Some(true), Some(false)];
    let mut expected = request();
    prepare_request(&mut expected).unwrap();
    let expected = serde_json::to_value(&expected).unwrap();
    for stream in modes {
        for background in modes {
            let asked = ResponsesRequest { stream, background, ..request() };
            let mut prepared = asked.clone();
            assert!(prepare_request(&mut prepared).is_ok());
            assert_eq!(serde_json::to_value(&prepared).unwrap(), expected);
            let (create, action) = running(ResponseCreate::start(asked.clone(), None));
            assert_eq!(serde_json::to_value(&create.request).unwrap(), expected);
            assert!(matches!(action, CreateAction::CheckWorkers { .. }));

            let invalid = ResponsesRequest { input: ResponseInput::Text(String::new()), ..asked };
            let err = failed(ResponseCreate::start(invalid, None));
            assert_eq!(err.code, "invalid_request");
            assert!(err.message.contains("Input text cannot be empty"));
        }
    }
}

fn running(progress: CreateProgress) -> (ResponseCreate, CreateAction) {
    match progress {
        CreateProgress::Running(create, action) => (create, action),
        CreateProgress::Finished { .. } => panic!("the execution finished"),
        CreateProgress::Failed(error) => panic!("the execution failed: {}", error.message),
    }
}

fn failed(progress: CreateProgress) -> WsClientError {
    match progress {
        CreateProgress::Failed(error) => error,
        _ => panic!("the execution did not fail"),
    }
}

fn loaded(generate: Option<bool>, store: Option<bool>) -> ResponseCreate {
    let started = ResponseCreate::start(ResponsesRequest { store, ..request() }, generate);
    let (create, action) = running(started);
    match action {
        CreateAction::CheckWorkers { model } => assert_eq!(model, "mock-model"),
        _ => panic!("the workers are checked first"),
    }
    let (create, action) = running(create.advance(CreateInput::WorkersChecked(None)));
    match action {
        CreateAction::CheckHarmony { model } => assert_eq!(model, "mock-model"),
        _ => panic!("the kind of the model is checked second"),
    }
    let (create, action) = running(create.advance(CreateInput::HarmonyChecked(false)));
    assert!(matches!(action, CreateAction::LoadHistory));
    assert!(create.awaits(&CreateInput::HistoryLoaded(None)));
    assert!(!create.awaits(&CreateInput::Converted));
    create
}

#[test]
fn requests_run_through_the_stream() {
    let create = loaded(None, None);
    let (create, action) = running(create.advance(CreateInput::HistoryLoaded(None)));
    assert!(matches!(action, CreateAction::ConnectMcp));
    let (create, action) =
        running(create.advance(CreateInput::Connected { has_mcp_tools: false }));
    assert!(matches!(action, CreateAction::Convert));
    let (create, action) = running(create.advance(CreateInput::Converted));
    assert!(matches!(action, CreateAction::RunStream));
    let response = ResponsesResponse::builder("resp_9", "mock-model").build();
    match create.advance(CreateInput::Streamed(response)) {
        CreateProgress::Finished { response, persist } => {
            assert_eq!(response.id, "resp_9");
            assert!(!persist);
        }
        _ => panic!("the execution should finish"),
    }
}

#[test]
fn requests_with_mcp_tools_run_through_the_tool_loop() {
    let create = loaded(Some(true), None);
    let (create, _) = running(create.advance(CreateInput::HistoryLoaded(None)));
    let (create, action) = running(create.advance(CreateInput::Connected { has_mcp_tools: true }));
    assert!(matches!(action, CreateAction::RunToolLoop));
    let error = failed(create.advance(CreateInput::StreamFailed("Client disconnected".to_string())));
    assert_eq!(error.code, "client_disconnected");
}

#[test]
fn each_failure_is_told() {
    let (create, _) = running(ResponseCreate::start(request(), None));
    let error = failed(create.advance(CreateInput::WorkersChecked(Some(failure(503, "none", "")))));
    assert_eq!((error.code.as_str(), error.status), ("none", Some(503)));

    let (create, _) = running(ResponseCreate::start(request(), None));
    let (create, _) = running(create.advance(CreateInput::WorkersChecked(None)));
    let error = failed(create.advance(CreateInput::HarmonyChecked(true)));
    assert_eq!(error.code, "unsupported_model");
    assert_eq!(
        error.message,
        "Harmony-backed Responses are not supported on the WebSocket path in V1."
    );

    let error = failed(loaded(None, None).advance(CreateInput::HistoryLoaded(Some(failure(
        404,
        "previous_response_not_found",
        "",
    )))));
    assert_eq!(error.param.as_deref(), Some("previous_response_id"));

    let (create, _) = running(loaded(None, None).advance(CreateInput::HistoryLoaded(None)));
    let error = failed(create.advance(CreateInput::ConnectionFailed(failure(424, "mcp", ""))));
    assert_eq!((error.code.as_str(), error.status), ("mcp", Some(424)));

    let (create, _) = running(loaded(None, None).advance(CreateInput::HistoryLoaded(None)));
    let (create, _) = running(create.advance(CreateInput::Connected { has_mcp_tools: false }));
    let error = failed(create.advance(CreateInput::ConversionFailed("odd".to_string())));
    assert_eq!((error.code.as_str(), error.message.as_str()), ("convert_request_failed", "odd"));

    let refused = ResponsesRequest { conversation: Some("conv_1".to_string()), ..request() };
    assert_eq!(failed(ResponseCreate::start(refused, None)).code, "unsupported_parameter");
}

fn sent(action: CreateAction) -> (String, ResponsesResponse) {
    match action {
        CreateAction::Send { message_type, response } => (message_type, response),
        _ => panic!("a message should be sent"),
    }
}

#[test]
fn warmups_tell_of_an_empty_response() {
    for (store, persisted) in [(None, true), (Some(true), true), (Some(false), false)] {
        let create = loaded(Some(false), store);
        let (create, action) = running(create.advance(CreateInput::HistoryLoaded(None)));
        let (message_type, created) = sent(action);
        assert_eq!(message_type, "response.created");
        assert_eq!(created.status, ResponseStatus::InProgress);
        assert!(created.id.starts_with("resp_"));
        assert_eq!(created.id.len(), 55);
        assert_eq!(created.model, "mock-model");
        assert_eq!(created.instructions.as_deref(), Some("be brief"));
        assert!(created.output.is_empty());
        assert!(created.created_at > 1_600_000_000);
        let (create, action) = running(create.advance(CreateInput::Sent(true)));
        let (message_type, completed) = sent(action);
        assert_eq!(message_type, "response.completed");
        assert_eq!(completed.status, ResponseStatus::Completed);
        assert_eq!(completed.id, created.id);
        match create.advance(CreateInput::Sent(true)) {
            CreateProgress::Finished { response, persist } => {
                assert_eq!(response.id, created.id);
                assert_eq!(response.status, ResponseStatus::Completed);
                assert_eq!(persist, persisted);
            }
            _ => panic!("the warmup should finish"),
        }
    }
}

#[test]
fn warmups_with_given_identifiers_are_exact() {
    let create = loaded(Some(false), None);
    let (create, action) = running(create.warm_up_with("resp_x", 3, 2));
    let (_, created) = sent(action);
    assert_eq!((created.id.as_str(), created.created_at), ("resp_x", 3));
    let (_, action) = running(create.advance(CreateInput::Sent(true)));
    let (_, completed) = sent(action);
    assert_eq!((completed.id.as_str(), completed.created_at), ("resp_x", 2));
}

#[test]
fn a_warmup_whose_messages_are_not_sent_fails() {
    let (create, _) = running(loaded(Some(false), None).advance(CreateInput::HistoryLoaded(None)));
    assert_eq!(failed(create.advance(CreateInput::Sent(false))).code, "client_disconnected");
    let (create, _) = running(loaded(Some(false), None).advance(CreateInput::HistoryLoaded(None)));
    let (create, _) = running(create.advance(CreateInput::Sent(true)));
    assert_eq!(
        failed(create.advance(CreateInput::Sent(false))).message,
        "WebSocket client disconnected or outbound buffer full."
    );
}

#[test]
fn an_executor_holds_what_it_is_given() {
    let registry = Arc::new("registry");
    let executor = GrpcWsResponsesExecutor::new(registry.clone(), 5, "tenant");
    assert!(Arc::ptr_eq(&executor.worker_registry, &registry));
    assert_eq!(executor.responses_context, 5);
    assert_eq!(executor.tenant_meta, "tenant");
    let copy = executor.clone();
    assert!(Arc::ptr_eq(&copy.worker_registry, &registry));
    assert_eq!((copy.responses_context, copy.tenant_meta), (5, "tenant"));
}
