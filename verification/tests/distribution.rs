//! Tests for the distribution error payloads.

use oci_spec::distribution::{
    ErrorCode, ErrorInfo, ErrorInfoBuilder, ErrorResponse, ErrorResponseBuilder, ERR_REGISTRY,
};

#[test]
fn error_response_success() {
    let response = ErrorResponseBuilder::default().errors(vec![]).build().unwrap();
    assert!(response.detail().is_empty());
    assert_eq!(response.display_text(), ERR_REGISTRY);
}

#[test]
fn error_response_failure() {
    assert!(ErrorResponseBuilder::default().build().is_err());
}

#[test]
fn error_info_success() {
    let info = ErrorInfoBuilder::default()
        .code(ErrorCode::BlobUnknown)
        .build()
        .unwrap();
    assert_eq!(info.code(), &ErrorCode::BlobUnknown);
    assert!(info.message().is_none());
    assert!(info.detail().is_none());
}

#[test]
fn error_info_failure() {
    assert!(ErrorInfoBuilder::default().build().is_err());
}

#[test]
fn builder_error_names_missing_field() {
    let err = ErrorResponseBuilder::default().build().unwrap_err();
    assert!(err.is_builder());
    assert!(err.message().contains("errors"));
}

#[test]
fn too_many_requests_literal() {
    let info = ErrorInfo {
        code: ErrorCode::TooManyRequests,
        message: None,
        detail: None,
    };
    assert_eq!(info.encode(false), "{\"code\":\"TOOMANYREQUESTS\"}");
    let back = ErrorInfo::decode("{\"code\":\"TOOMANYREQUESTS\"}").unwrap();
    assert_eq!(back.code(), &ErrorCode::TooManyRequests);
}

#[test]
fn unknown_code_literal_fails() {
    assert!(ErrorInfo::decode("{\"code\":\"TOO_MANY_REQUESTS\"}").is_err());
    assert!(ErrorInfo::decode("{\"code\":\"NO_SUCH_CODE\"}").is_err());
}

#[test]
fn error_info_omission() {
    let bare = ErrorInfo {
        code: ErrorCode::Denied,
        message: None,
        detail: None,
    };
    assert_eq!(bare.encode(false), "{\"code\":\"DENIED\"}");
    let full = ErrorInfo {
        code: ErrorCode::Denied,
        message: Some("no access".to_string()),
        detail: Some("ask an operator".to_string()),
    };
    assert_eq!(
        full.encode(false),
        "{\"code\":\"DENIED\",\"message\":\"no access\",\"detail\":\"ask an operator\"}"
    );
}

#[test]
fn error_info_round_trip() {
    let info = ErrorInfoBuilder::default()
        .code(ErrorCode::NameInvalid)
        .message("bad \"name\"\n")
        .build()
        .unwrap();
    let compact = info.encode(false);
    let pretty = info.encode(true);
    assert_eq!(ErrorInfo::decode(&compact).unwrap(), info);
    assert_eq!(ErrorInfo::decode(&pretty).unwrap(), info);
    // canonical idempotence: re-encoding the decoded value is byte-exact
    assert_eq!(ErrorInfo::decode(&compact).unwrap().encode(false), compact);
    assert_eq!(ErrorInfo::decode(&pretty).unwrap().encode(true), pretty);
}

#[test]
fn error_response_round_trip() {
    let response = ErrorResponseBuilder::default()
        .errors(vec![
            ErrorInfo {
                code: ErrorCode::ManifestUnknown,
                message: Some("gone".to_string()),
                detail: None,
            },
            ErrorInfo {
                code: ErrorCode::Unauthorized,
                message: None,
                detail: None,
            },
        ])
        .build()
        .unwrap();
    let compact = response.encode(false);
    let pretty = response.encode(true);
    assert_eq!(ErrorResponse::decode(&compact).unwrap(), response);
    assert_eq!(ErrorResponse::decode(&pretty).unwrap(), response);
    assert_eq!(ErrorResponse::decode(&compact).unwrap().encode(false), compact);
    assert_eq!(ErrorResponse::decode(&pretty).unwrap().encode(true), pretty);
}

#[test]
fn empty_errors_response_encodes_empty_array() {
    let response = ErrorResponse { errors: vec![] };
    assert_eq!(response.encode(false), "{\"errors\":[]}");
    assert_eq!(response.encode(true), "{\n  \"errors\": []\n}\n");
}

#[test]
fn decode_rejects_malformed_input() {
    assert!(ErrorResponse::decode("").is_err());
    assert!(ErrorResponse::decode("{").is_err());
    assert!(ErrorResponse::decode("{}").is_err());
    assert!(ErrorResponse::decode("{\"errors\":}").is_err());
    assert!(ErrorResponse::decode("{\"errors\":[]} trailing").is_err());
    assert!(ErrorInfo::decode("{\"code\":17}").is_err());
}

#[test]
fn decode_ignores_unknown_fields() {
    let text = "{\"code\":\"DENIED\",\"future\":{\"deep\":[1,2,{\"x\":null}]},\"message\":\"m\"}";
    let info = ErrorInfo::decode(text).unwrap();
    assert_eq!(info.code(), &ErrorCode::Denied);
    assert_eq!(info.message().as_deref(), Some("m"));
}

#[test]
fn decode_unescapes_strings() {
    let info = ErrorInfo::decode("{\"code\":\"DENIED\",\"message\":\"a\\u0041\\n\\t\\\\\"}").unwrap();
    assert_eq!(info.message().as_deref(), Some("aA\n\t\\"));
}

#[test]
fn encode_escapes_strings() {
    let info = ErrorInfo {
        code: ErrorCode::Denied,
        message: Some("a\"b\\c\n\u{1}".to_string()),
        detail: None,
    };
    assert_eq!(
        info.encode(false),
        "{\"code\":\"DENIED\",\"message\":\"a\\\"b\\\\c\\n\\u0001\"}"
    );
    let back = ErrorInfo::decode(&info.encode(false)).unwrap();
    assert_eq!(back, info);
}
