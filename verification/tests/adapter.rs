use iroh_http::adapter::{
    core_error_to_json, format_error_json, validate_bounded_string, validate_header_rows,
    AdapterInputError, MAX_HEADER_COUNT, MAX_HEADER_NAME_LEN, MAX_HEADER_VALUE_LEN,
};
use iroh_http::error::{CoreError, ErrorCode};

#[test]
fn core_error_display() {
    let e = CoreError::timeout("30s elapsed");
    assert!(e.to_string().contains("Timeout"));
    assert!(e.to_string().contains("30s elapsed"));
    assert_eq!(e.code, ErrorCode::Timeout);
}

#[test]
fn core_error_to_json_timeout() {
    let e = CoreError::timeout("timed out");
    let json = core_error_to_json(&e);
    assert!(json.contains("\"code\":\"TIMEOUT\""));
    assert!(json.contains("timed out"));
}

#[test]
fn internal_error_maps_to_internal_code() {
    let e = CoreError::internal("something broke");
    let json = core_error_to_json(&e);
    assert!(json.contains("\"code\":\"INTERNAL\""));
    assert!(json.contains("something broke"));
}

#[test]
fn format_error_json_escapes_message() {
    let json = format_error_json("INVALID_INPUT", "bad \"chars\"");
    let v: serde_json::Value = serde_json::from_str(&json).unwrap();
    assert_eq!(v["code"].as_str().unwrap(), "INVALID_INPUT");
    assert_eq!(v["message"].as_str().unwrap(), "bad \"chars\"");
}

#[test]
fn every_error_code_has_its_json_name() {
    let all = vec![
        (CoreError::invalid_input("x"), "INVALID_INPUT"),
        (CoreError::connection_failed("x"), "REFUSED"),
        (CoreError::timeout("x"), "TIMEOUT"),
        (CoreError::body_too_large("x"), "BODY_TOO_LARGE"),
        (CoreError::header_too_large("x"), "HEADER_TOO_LARGE"),
        (CoreError::peer_rejected("x"), "PEER_REJECTED"),
        (CoreError::cancelled(), "CANCELLED"),
        (CoreError::internal("x"), "INTERNAL"),
    ];
    for (e, name) in all {
        let json = core_error_to_json(&e);
        let v: serde_json::Value = serde_json::from_str(&json).unwrap();
        assert_eq!(v["code"].as_str().unwrap(), name);
        assert_eq!(v["message"].as_str().unwrap(), e.message);
    }
}

#[test]
fn validate_header_rows_accepts_valid_rows() {
    let rows = vec![vec!["content-type".to_string(), "text/plain".to_string()]];
    assert_eq!(
        validate_header_rows(rows),
        Ok(vec![("content-type".to_string(), "text/plain".to_string())])
    );
}

#[test]
fn validate_header_rows_rejects_malformed_pair() {
    let result = validate_header_rows(vec![vec!["x".to_string()]]);
    assert!(matches!(
        result,
        Err(AdapterInputError::InvalidArgument { field: "headers", .. })
    ));
}

#[test]
fn validate_header_rows_rejects_too_many_rows() {
    let rows = vec![vec!["x".to_string(), "y".to_string()]; MAX_HEADER_COUNT + 1];
    assert!(matches!(
        validate_header_rows(rows),
        Err(AdapterInputError::InputTooLarge {
            field: "headers",
            max: MAX_HEADER_COUNT,
            got
        }) if got == MAX_HEADER_COUNT + 1
    ));
}

#[test]
fn validate_header_rows_rejects_overlong_name_and_value() {
    let long_name = "x".repeat(MAX_HEADER_NAME_LEN + 1);
    let name_result = validate_header_rows(vec![vec![long_name, "y".to_string()]]);
    assert!(matches!(
        name_result,
        Err(AdapterInputError::InputTooLarge {
            field: "headerName",
            max: MAX_HEADER_NAME_LEN,
            ..
        })
    ));

    let long_value = "y".repeat(MAX_HEADER_VALUE_LEN + 1);
    let value_result = validate_header_rows(vec![vec!["x".to_string(), long_value]]);
    assert!(matches!(
        value_result,
        Err(AdapterInputError::InputTooLarge {
            field: "headerValue",
            max: MAX_HEADER_VALUE_LEN,
            ..
        })
    ));
}

#[test]
fn validate_header_rows_rejects_empty_and_null_bytes() {
    let empty_result = validate_header_rows(vec![vec!["".to_string(), "y".to_string()]]);
    assert!(matches!(
        empty_result,
        Err(AdapterInputError::InvalidArgument { field: "headerName", .. })
    ));

    let null_result = validate_header_rows(vec![vec!["x\0".to_string(), "y".to_string()]]);
    assert!(matches!(
        null_result,
        Err(AdapterInputError::InvalidEncoding { field: "headerName" })
    ));
}

#[test]
fn bounded_strings_are_measured_in_bytes() {
    assert!(validate_bounded_string("name", "aé", 3).is_ok());
    let over = validate_bounded_string("name", "éé", 3).unwrap_err();
    assert_eq!(over, AdapterInputError::InputTooLarge { field: "name", max: 3, got: 4 });
}

#[test]
fn input_errors_travel_in_the_json_envelope() {
    let e = AdapterInputError::InputTooLarge { field: "headers", max: 100, got: 101 };
    assert_eq!(e.code(), "INPUT_TOO_LARGE");
    assert_eq!(
        e.to_json(),
        "{\"code\":\"INPUT_TOO_LARGE\",\"message\":\"headers exceeds max size 100 (got 101)\"}"
    );
    let e = AdapterInputError::InvalidEncoding { field: "name" };
    assert_eq!(e.message(), "name contains invalid encoding");
    assert_eq!(e.code(), "INVALID_ENCODING");
    let e = AdapterInputError::InvalidArgument { field: "a", reason: "b".to_string() };
    assert_eq!(e.message(), "a: b");
    assert_eq!(e.code(), "INVALID_ARGUMENT");
}

#[test]
fn an_envelope_reads_back_as_its_code_and_message() {
    let reason = "a \"quoted\" C:\\path\n\r\t\u{8}\u{c}\u{1}\u{1f}/\u{7f}\u{e9}\u{1f600}";
    let e = AdapterInputError::InvalidArgument { field: "url", reason: reason.to_string() };
    assert_eq!(e.to_json(), format_error_json(e.code(), &e.message()));
    let v: serde_json::Value = serde_json::from_str(&e.to_json()).unwrap();
    let members = v.as_object().unwrap();
    assert_eq!(members.len(), 2);
    assert_eq!(members["code"].as_str().unwrap(), "INVALID_ARGUMENT");
    assert_eq!(members["message"].as_str().unwrap(), format!("url: {reason}"));
    assert_eq!(
        format_error_json("TIMEOUT", "\u{1}\u{1f}\n"),
        "{\"code\":\"TIMEOUT\",\"message\":\"\\u0001\\u001f\\n\"}"
    );
}
