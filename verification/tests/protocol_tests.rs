use kvstore::protocol::{read_raw_line, Response, StatusInfo};

#[test]
fn raw_line_strips_line_endings() {
    assert_eq!(read_raw_line("abc\n".to_string()), Some("abc".to_string()));
    assert_eq!(read_raw_line("abc\r\n".to_string()), Some("abc".to_string()));
    assert_eq!(read_raw_line("abc".to_string()), Some("abc".to_string()));
    assert_eq!(read_raw_line("abc\r".to_string()), Some("abc\r".to_string()));
    assert_eq!(read_raw_line("\n".to_string()), Some(String::new()));
    assert_eq!(read_raw_line("\r\r\n".to_string()), Some("\r".to_string()));
}

#[test]
fn raw_line_empty_read_is_end_of_stream() {
    assert_eq!(read_raw_line(String::new()), None);
}

#[test]
fn response_builders() {
    let r = Response::ok();
    assert!(r.ok && r.error.is_none() && r.value.is_none() && r.keys.is_none() && r.status.is_none());
    let r = Response::err("x".to_string());
    assert!(!r.ok);
    assert_eq!(r.error.as_deref(), Some("x"));
    let r = Response::ok().with_value("v".to_string()).with_keys(vec!["k".to_string()]);
    assert_eq!(r.value.as_deref(), Some("v"));
    assert_eq!(r.keys, Some(vec!["k".to_string()]));
    let st = StatusInfo { key_count: 1, client_count: 2, listen_addr: "a".into(), data_file: "f".into() };
    let r = Response::ok().with_status(st.clone());
    assert_eq!(r.status, Some(st));
}
