use responses_stream::json::{
    coerce_arguments, dispatch_arguments, is_upstream_error_payload, value_reports_error,
};

#[test]
fn objects_with_an_error_report_one() {
    assert!(is_upstream_error_payload("{\"error\":{\"message\":\"x\"}}"));
    assert!(is_upstream_error_payload("{\"error\":null}"));
    assert!(!is_upstream_error_payload("{\"errors\":1}"));
    assert!(!is_upstream_error_payload("[{\"error\":1}]"));
    assert!(!is_upstream_error_payload("\"error\""));
    assert!(!is_upstream_error_payload("{\"error\":"));
    assert!(!is_upstream_error_payload(""));
}

#[test]
fn parsed_payloads_are_judged_alike() {
    let value: serde_json::Value = serde_json::from_str("{\"error\":1}").unwrap();
    assert!(value_reports_error(&Some(value)));
    assert!(!value_reports_error(&Some(serde_json::Value::Null)));
    assert!(!value_reports_error(&None));
}

#[test]
fn tools_are_called_with_an_object() {
    assert_eq!(dispatch_arguments("{\"a\": 1}"), "{\"a\": 1}");
    assert_eq!(dispatch_arguments("{}"), "{}");
    for other in ["[1]", "null", "3", "\"{}\"", "{", ""] {
        assert_eq!(dispatch_arguments(other), "{}");
    }
    let object: serde_json::Value = serde_json::from_str("{\"a\":1}").unwrap();
    assert_eq!(coerce_arguments("text", &Some(object)), "text");
    assert_eq!(coerce_arguments("text", &Some(serde_json::Value::Null)), "{}");
    assert_eq!(coerce_arguments("text", &None), "{}");
}
