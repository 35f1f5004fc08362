use rozed_core::lsp::{content_length, extract_lsp_id, lsp_frame, lsp_output, lsp_reply, lsp_response, LspReply};

#[test]
fn header_line_gives_length() {
    assert_eq!(content_length("Content-Length: 42\r\n"), Some(42));
    assert_eq!(content_length("Content-Length:7"), Some(7));
    assert_eq!(content_length("Content-Length: +9 \n"), Some(9));
    assert_eq!(content_length("Content-Type: utf-8\r\n"), None);
    assert_eq!(content_length("Content-Length: -1\r\n"), None);
    assert_eq!(content_length("Content-Length: \r\n"), None);
    assert_eq!(content_length("Content-Length: 1x\r\n"), None);
    assert_eq!(content_length("  Content-Length: 3\r\n"), None);
    assert_eq!(content_length("Content-Length: 99999999999999999999999\r\n"), None);
}

#[test]
fn id_is_found_after_key() {
    assert_eq!(extract_lsp_id(r#"{"jsonrpc":"2.0","id":17,"method":"initialize"}"#), Some(17));
    assert_eq!(extract_lsp_id(r#"{"id" : 3}"#), Some(3));
    assert_eq!(extract_lsp_id(r#"{"id":-5}"#), Some(-5));
    assert_eq!(extract_lsp_id(r#"{"id":"abc"}"#), None);
    assert_eq!(extract_lsp_id(r#"{"method":"x"}"#), None);
    assert_eq!(extract_lsp_id(r#"{"id":1-2}"#), None);
    assert_eq!(extract_lsp_id(r#"{"id":-9223372036854775808}"#), Some(i64::MIN));
    assert_eq!(extract_lsp_id(r#"{"id":9223372036854775808}"#), None);
}

#[test]
fn replies_follow_the_method() {
    assert_eq!(lsp_reply(r#"{"id":4,"method":"initialize"}"#), LspReply::Initialize { id: 4 });
    assert_eq!(lsp_reply(r#"{"method":"initialize"}"#), LspReply::Initialize { id: 1 });
    assert_eq!(lsp_reply(r#"{"id":9,"method":"shutdown"}"#), LspReply::Shutdown { id: 9 });
    assert_eq!(lsp_reply(r#"{"method":"initialized"}"#), LspReply::Ignore);
}

#[test]
fn responses_carry_the_id() {
    assert_eq!(
        lsp_response(&LspReply::Initialize { id: 4 }).unwrap(),
        r#"{"jsonrpc":"2.0","id":4,"result":{"capabilities":{}}}"#
    );
    assert_eq!(lsp_response(&LspReply::Shutdown { id: -12 }).unwrap(), r#"{"jsonrpc":"2.0","id":-12,"result":null}"#);
    assert_eq!(lsp_response(&LspReply::Ignore), None);
}

#[test]
fn frame_counts_bytes() {
    assert_eq!(lsp_frame("{}"), "Content-Length: 2\r\n\r\n{}");
    assert_eq!(lsp_frame("é"), "Content-Length: 2\r\n\r\né");
    assert_eq!(lsp_frame(""), "Content-Length: 0\r\n\r\n");
}

#[test]
fn output_frames_replies_and_stops_on_shutdown() {
    let init = lsp_output(r#"{"jsonrpc":"2.0","id":2,"method":"initialize","params":{}}"#);
    let body = r#"{"jsonrpc":"2.0","id":2,"result":{"capabilities":{}}}"#;
    assert_eq!(init.frame.unwrap(), format!("Content-Length: {}\r\n\r\n{}", body.len(), body));
    assert!(!init.stop);
    let down = lsp_output(r#"{"jsonrpc":"2.0","id":3,"method":"shutdown"}"#);
    assert_eq!(down.frame.unwrap(), "Content-Length: 38\r\n\r\n{\"jsonrpc\":\"2.0\",\"id\":3,\"result\":null}");
    assert!(down.stop);
    let other = lsp_output(r#"{"jsonrpc":"2.0","method":"initialized"}"#);
    assert!(other.frame.is_none());
    assert!(!other.stop);
}
