use openai_protocol::responses::{ResponseInput, ResponseInputOutputItem, ResponsesRequest};
use responses_stream::validation::{
    allows_function_call_output_only_continuation, judge, normalize_and_validate_responses_request,
};
use validator::{ValidationError, ValidationErrors};

fn output_item(output: &str) -> ResponseInputOutputItem {
    ResponseInputOutputItem::FunctionCallOutput {
        id: None,
        call_id: "call_123".to_string(),
        output: output.to_string(),
        status: None,
    }
}

fn continuation() -> ResponsesRequest {
    ResponsesRequest {
        model: "mock-model".to_string(),
        previous_response_id: Some("resp_prev".to_string()),
        input: ResponseInput::Items(vec![output_item("{}")]),
        ..Default::default()
    }
}

fn errors_of(entries: Vec<(&'static str, &'static str)>) -> ValidationErrors {
    let mut errors = ValidationErrors::new();
    for (field, code) in entries {
        errors.add(field, ValidationError::new(code));
    }
    errors
}

#[test]
fn allows_function_call_output_only_continuation_with_previous_response_id() {
    let mut request = ResponsesRequest {
        model: "mock-model".to_string(),
        previous_response_id: Some("resp_prev".to_string()),
        input: ResponseInput::Items(vec![ResponseInputOutputItem::FunctionCallOutput {
            id: None,
            call_id: "call_123".to_string(),
            output: r#"{"result":345}"#.to_string(),
            status: None,
        }]),
        ..Default::default()
    };

    assert!(normalize_and_validate_responses_request(&mut request).is_ok());
}

#[test]
fn still_rejects_function_call_output_only_without_previous_response_id() {
    let mut request = ResponsesRequest {
        model: "mock-model".to_string(),
        input: ResponseInput::Items(vec![ResponseInputOutputItem::FunctionCallOutput {
            id: None,
            call_id: "call_123".to_string(),
            output: r#"{"result":345}"#.to_string(),
            status: None,
        }]),
        ..Default::default()
    };

    let error = normalize_and_validate_responses_request(&mut request).unwrap_err();
    assert!(error
        .to_string()
        .contains("Input items must contain at least one message"));
}

#[test]
fn still_rejects_other_validation_errors_for_continuations() {
    let mut request = ResponsesRequest {
        model: "mock-model".to_string(),
        previous_response_id: Some("resp_prev".to_string()),
        input: ResponseInput::Items(vec![ResponseInputOutputItem::FunctionCallOutput {
            id: None,
            call_id: "call_123".to_string(),
            output: String::new(),
            status: None,
        }]),
        ..Default::default()
    };

    let error = normalize_and_validate_responses_request(&mut request).unwrap_err();
    assert!(error
        .to_string()
        .contains("Function call output cannot be empty"));
}

#[test]
fn text_requests_pass_and_are_stored_by_default() {
    let mut request = ResponsesRequest {
        model: "mock-model".to_string(),
        input: ResponseInput::Text("hello".to_string()),
        store: None,
        ..Default::default()
    };
    assert!(normalize_and_validate_responses_request(&mut request).is_ok());
    assert_eq!(request.store, Some(true));
    assert_eq!(request.model, "mock-model");
    assert_eq!(request.conversation, None);
}

#[test]
fn an_explicit_store_setting_is_kept() {
    let mut request = ResponsesRequest {
        model: "mock-model".to_string(),
        input: ResponseInput::Text("hello".to_string()),
        store: Some(false),
        ..Default::default()
    };
    assert!(normalize_and_validate_responses_request(&mut request).is_ok());
    assert_eq!(request.store, Some(false));
}

#[test]
fn an_empty_text_is_refused_even_for_a_continuation() {
    let mut request = ResponsesRequest {
        input: ResponseInput::Text(String::new()),
        ..continuation()
    };
    assert!(normalize_and_validate_responses_request(&mut request).is_err());
}

#[test]
fn a_conversation_beside_a_previous_response_is_refused() {
    let mut request = ResponsesRequest {
        conversation: Some("conv_1".to_string()),
        ..continuation()
    };
    assert!(normalize_and_validate_responses_request(&mut request).is_err());
}

#[test]
fn only_the_missing_message_is_forgiven() {
    let request = continuation();
    let forgiven = errors_of(vec![("__all__", "input_missing_user_message")]);
    assert!(allows_function_call_output_only_continuation(&request, &forgiven));

    let other_code = errors_of(vec![("__all__", "mutually_exclusive_parameters")]);
    assert!(!allows_function_call_output_only_continuation(&request, &other_code));

    let other_field = errors_of(vec![("input", "input_missing_user_message")]);
    assert!(!allows_function_call_output_only_continuation(&request, &other_field));

    let two_fields = errors_of(vec![
        ("__all__", "input_missing_user_message"),
        ("input", "function_output_empty"),
    ]);
    assert!(!allows_function_call_output_only_continuation(&request, &two_fields));

    let two_codes = errors_of(vec![
        ("__all__", "input_missing_user_message"),
        ("__all__", "input_missing_user_message"),
    ]);
    assert!(!allows_function_call_output_only_continuation(&request, &two_codes));

    let nothing = ValidationErrors::new();
    assert!(!allows_function_call_output_only_continuation(&request, &nothing));
}

#[test]
fn only_outputs_of_function_calls_are_forgiven() {
    let errors = errors_of(vec![("__all__", "input_missing_user_message")]);
    let empty = ResponsesRequest {
        input: ResponseInput::Items(vec![]),
        ..continuation()
    };
    assert!(!allows_function_call_output_only_continuation(&empty, &errors));

    let text = ResponsesRequest {
        input: ResponseInput::Text("hello".to_string()),
        ..continuation()
    };
    assert!(!allows_function_call_output_only_continuation(&text, &errors));

    let mixed = ResponsesRequest {
        input: ResponseInput::Items(vec![
            output_item("{}"),
            ResponseInputOutputItem::FunctionToolCall {
                id: "fc_1".to_string(),
                call_id: "call_1".to_string(),
                name: "ping".to_string(),
                arguments: "{}".to_string(),
                output: None,
                status: None,
            },
        ]),
        ..continuation()
    };
    assert!(!allows_function_call_output_only_continuation(&mixed, &errors));

    let several = ResponsesRequest {
        input: ResponseInput::Items(vec![output_item("{}"), output_item("[]")]),
        ..continuation()
    };
    assert!(allows_function_call_output_only_continuation(&several, &errors));
}

#[test]
fn judging_keeps_the_errors_it_does_not_forgive() {
    let request = continuation();
    assert!(judge(&request, Ok(())).is_ok());
    assert!(judge(&request, Err(errors_of(vec![("__all__", "input_missing_user_message")]))).is_ok());
    let errors = errors_of(vec![("model", "length")]);
    assert_eq!(judge(&request, Err(errors.clone())), Err(errors));
}
