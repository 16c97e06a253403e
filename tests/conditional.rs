use axo_drive::error::ApiError;
use axo_drive::etag::{check_preconditions, etag_from_metadata, etag_matches, evaluate_preconditions};
use axum::http::{HeaderMap, HeaderValue};

fn failed(r: Result<(), ApiError>) -> bool {
    matches!(r, Err(ApiError::PreconditionFailed(ref m)) if m == "precondition failed")
}

#[test]
fn etag_format() {
    assert_eq!(etag_from_metadata(10, Some((1700000000, 5))), "W/\"10-1700000000-5\"");
    assert_eq!(etag_from_metadata(0, None), "W/\"0\"");
}

#[test]
fn etag_list_matching() {
    let tag = "W/\"3-1-2\"";
    assert!(etag_matches("W/\"3-1-2\"", Some(tag)));
    assert!(etag_matches(" \"x\" , W/\"3-1-2\" ", Some(tag)));
    assert!(!etag_matches("W/\"3-1-20\"", Some(tag)));
    assert!(!etag_matches("W/\"3-1-2\"", None));
    assert!(!etag_matches("", Some(tag)));
}

#[test]
fn if_match_rules() {
    let tag = Some("W/\"1\"");
    assert!(evaluate_preconditions(Some("*"), None, tag, true).is_ok());
    assert!(failed(evaluate_preconditions(Some(" * "), None, None, false)));
    assert!(evaluate_preconditions(Some("W/\"1\""), None, tag, true).is_ok());
    assert!(failed(evaluate_preconditions(Some("W/\"2\""), None, tag, true)));
}

#[test]
fn if_none_match_rules() {
    let tag = Some("W/\"1\"");
    assert!(evaluate_preconditions(None, Some("*"), None, false).is_ok());
    assert!(failed(evaluate_preconditions(None, Some("*"), tag, true)));
    assert!(failed(evaluate_preconditions(None, Some("W/\"1\""), tag, true)));
    assert!(evaluate_preconditions(None, Some("W/\"2\""), tag, true).is_ok());
    assert!(evaluate_preconditions(None, None, None, false).is_ok());
}

#[test]
fn header_map_preconditions() {
    let mut headers = HeaderMap::new();
    assert!(check_preconditions(&headers, Some("W/\"1\""), true).is_ok());
    headers.insert("if-none-match", HeaderValue::from_static("*"));
    assert!(failed(check_preconditions(&headers, Some("W/\"1\""), true)));
    assert!(check_preconditions(&headers, None, false).is_ok());
    let mut other = HeaderMap::new();
    other.insert("If-Match", HeaderValue::from_static("W/\"9\""));
    assert!(failed(check_preconditions(&other, Some("W/\"1\""), true)));
}
