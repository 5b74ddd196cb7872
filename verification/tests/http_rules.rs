use octoget::http::{
    after_head, after_plain_get, after_range_probe, after_ranged_get, backoff_delay_ms, check_bearer, describe_body,
    endpoint_url, is_owner_token, parse_content_range_total, AuthError,
};

#[test]
fn head_then_probe() {
    assert_eq!(after_head(true, Some(10)), Some(10));
    assert_eq!(after_head(true, Some(0)), None);
    assert_eq!(after_head(false, Some(10)), None);
    assert_eq!(after_head(true, None), None);
    let r = after_range_probe(Some(206), "http://f".to_string(), 10);
    assert!(r.support_range);
    assert_eq!((r.final_url.as_str(), r.file_size), ("http://f", 10));
    assert!(!after_range_probe(Some(200), "u".to_string(), 10).support_range);
    assert!(!after_range_probe(None, "u".to_string(), 10).support_range);
}

#[test]
fn ranged_and_plain_gets() {
    assert_eq!(parse_content_range_total("bytes 0-0/1234"), Some(1234));
    assert_eq!(parse_content_range_total("bytes 0-0/*"), None);
    assert_eq!(parse_content_range_total("777"), Some(777));
    let r = after_ranged_get(206, "bytes 0-0/5000", None, "u".to_string()).unwrap();
    assert_eq!((r.file_size, r.support_range), (5000, true));
    assert!(after_ranged_get(206, "bytes */x", Some(5), "u".to_string()).is_none());
    let r = after_ranged_get(200, "", Some(42), "u".to_string()).unwrap();
    assert_eq!((r.file_size, r.support_range), (42, false));
    assert!(after_ranged_get(200, "", Some(0), "u".to_string()).is_none());
    assert!(after_ranged_get(404, "bytes 0-0/5", Some(5), "u".to_string()).is_none());
    let r = after_plain_get(true, Some(9), "v".to_string()).unwrap();
    assert_eq!((r.final_url.as_str(), r.file_size, r.support_range), ("v", 9, false));
    assert!(after_plain_get(false, Some(9), "v".to_string()).is_none());
}

#[test]
fn backoff_doubles_up_to_thirty_seconds() {
    assert_eq!(backoff_delay_ms(0, 500), Some(500));
    assert_eq!(backoff_delay_ms(3, 1000), Some(8000));
    assert_eq!(backoff_delay_ms(6, 500), Some(30000));
    assert_eq!(backoff_delay_ms(10, 500), Some(30000));
    assert_eq!(backoff_delay_ms(63, 1), Some(30000));
    assert_eq!(backoff_delay_ms(64, 1), None);
    assert_eq!(backoff_delay_ms(63, 2), None);
}

#[test]
fn body_descriptions() {
    assert_eq!(describe_body("application/json", b""), "<empty>");
    assert_eq!(describe_body("application/json; charset=utf-8", b"{\"a\":1}"), "{\"a\":1}");
    assert_eq!(describe_body("text/plain", b"hi\xff"), "hi\u{fffd}");
    assert_eq!(describe_body("image/png", &[1, 2, 3]), "<binary data, size: 3 bytes>");
    assert_eq!(describe_body("", b"x"), "<binary data, size: 1 bytes>");
}

#[test]
fn bearer_tokens() {
    assert_eq!(check_bearer(Some("Bearer s3cret"), "s3cret"), Ok(()));
    assert_eq!(check_bearer(Some("Bearer nope"), "s3cret"), Err(AuthError::Invalid));
    assert_eq!(check_bearer(Some(""), "s3cret"), Err(AuthError::Invalid));
    assert_eq!(check_bearer(None, "s3cret"), Err(AuthError::Missing));
    assert!(is_owner_token("Bearer s3cret", "s3cret"));
    assert!(is_owner_token("s3cret", "s3cret"));
    assert!(!is_owner_token("", "s3cret"));
    assert!(is_owner_token("", ""));
}

#[test]
fn endpoint_addresses() {
    assert_eq!(endpoint_url("10.0.0.1:50051//", true), "http://10.0.0.1:50051");
    assert_eq!(endpoint_url("10.0.0.1:50051/", false), "http://10.0.0.1:50051/");
    assert_eq!(endpoint_url("", true), "http://");
}
