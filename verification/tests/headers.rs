use dns_cache::headers::{replace_headers, Headers};

#[test]
fn test_replace_headers_overrides_all_values() {
    let mut dst = Headers::new();
    dst.append("accept".to_string(), b"text/html".to_vec());
    dst.append("accept".to_string(), b"text/plain".to_vec());
    dst.append("x-keep".to_string(), b"kept".to_vec());

    let mut src = Headers::new();
    src.append("accept".to_string(), b"application/json".to_vec());
    src.append("accept".to_string(), b"application/xml".to_vec());

    replace_headers(&mut dst, src);

    // Every value dst had for "accept" was dropped; src's values stand.
    let accept = dst.get_values(&"accept".to_string()).unwrap();
    assert_eq!(accept, vec![b"application/json".to_vec(), b"application/xml".to_vec()]);

    // A name absent from src keeps its values.
    let kept = dst.get_values(&"x-keep".to_string()).unwrap();
    assert_eq!(kept, vec![b"kept".to_vec()]);
}

#[test]
fn test_replace_headers_empty_source_changes_nothing() {
    let mut dst = Headers::new();
    dst.append("host".to_string(), b"example.com".to_vec());

    replace_headers(&mut dst, Headers::new());

    let host = dst.get_values(&"host".to_string()).unwrap();
    assert_eq!(host, vec![b"example.com".to_vec()]);
}

#[test]
fn test_replace_headers_adds_new_name() {
    let mut dst = Headers::new();
    let mut src = Headers::new();
    src.append("user-agent".to_string(), b"fetcher/1.0".to_vec());

    replace_headers(&mut dst, src);

    let ua = dst.get_values(&"user-agent".to_string()).unwrap();
    assert_eq!(ua, vec![b"fetcher/1.0".to_vec()]);
}

#[test]
fn test_get_values_absent_name() {
    let headers = Headers::new();
    assert!(headers.get_values(&"absent".to_string()).is_none());
}
