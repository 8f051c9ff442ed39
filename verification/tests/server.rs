use moe_680m::generation::{collect, with_bos, Generation};
use moe_680m::server::{
    apply_chat_template, closing_events, delta_event, delta_event_from, json_response, most_tokens,
    not_found, opening_events, parse_request, reply_body, reply_body_from, sse_event, stream_head, Message,
    Request, Server,
};

#[test]
fn replies_have_a_default_length() {
    assert_eq!(most_tokens(None), 4096);
    assert_eq!(most_tokens(Some(7)), 7);
}

fn buffer(text: &str) -> (Vec<u8>, usize) {
    let mut b = text.as_bytes().to_vec();
    let n = b.len();
    b.resize(65536, 0);
    (b, n)
}

#[test]
fn server_address() {
    let s = Server::new("127.0.0.1", 8080);
    assert_eq!(s.host, "127.0.0.1");
    assert_eq!(s.port, 8080);
    assert_eq!(s.address(), "127.0.0.1:8080");
}

#[test]
fn request_with_a_body() {
    let (b, n) = buffer("POST /v1/messages HTTP/1.1\r\nHost: x\r\nCONTENT-Length:  5 \r\n\r\nhello!");
    let r = parse_request(&b, n);
    match r {
        Ok(Request::Messages { start, end }) => assert_eq!(&b[start..end], b"hello"),
        other => panic!("{:?}", other),
    }
}

#[test]
fn request_without_a_length_has_no_body() {
    let (b, n) = buffer("POST /v1/messages HTTP/1.1\r\n\r\nhello");
    let start = 30;
    assert_eq!(parse_request(&b, n), Ok(Request::Messages { start, end: start }));
    let (b, n) = buffer("POST /v1/messages HTTP/1.1\r\nContent-Length: x\r\n\r\nhello");
    assert_eq!(parse_request(&b, n), Ok(Request::Messages { start: 49, end: 49 }));
}

#[test]
fn body_stops_at_the_end_of_the_buffer() {
    let (b, n) = buffer("POST /v1/messages HTTP/1.1\r\nContent-Length: 999999\r\n\r\nhi");
    assert_eq!(parse_request(&b, n), Ok(Request::Messages { start: 54, end: 65536 }));
}

#[test]
fn length_header_ends_at_a_second_colon() {
    let (b, n) = buffer("POST /v1/messages\r\nContent-Length: 2:9\r\n\r\nhello");
    assert_eq!(parse_request(&b, n), Ok(Request::Messages { start: 42, end: 44 }));
}

#[test]
fn other_requests() {
    let (b, _) = buffer("");
    assert_eq!(parse_request(&b, 0), Ok(Request::Empty));
    let (b, n) = buffer("GET / HTTP/1.1\r\n\r\n");
    assert_eq!(parse_request(&b, n), Ok(Request::NotFound));
    let (b, n) = buffer("POST /v1/messages HTTP/1.1\r\n");
    assert_eq!(parse_request(&b, n), Err("No headers".to_string()));
    assert_eq!(parse_request(&[0xff, 0xfe, 0, 0], 2), Err("Invalid UTF-8".to_string()));
}

#[test]
fn prompt_of_a_conversation() {
    let ms = vec![
        Message { role: "user".to_string(), content: "Hi".to_string() },
        Message { role: "assistant".to_string(), content: "Hello".to_string() },
        Message { role: "tool".to_string(), content: "x".to_string() },
    ];
    assert_eq!(
        apply_chat_template(&ms, Some("Be brief")),
        "<|im_start|>system\nBe brief\n<|im_end|>\n<|im_start|>user\nHi\n<|im_end|>\n\
         <|im_start|>assistant\nHello\n<|im_end|>\n<|im_start|>user\nx\n<|im_end|>\n\
         <|im_start|>assistant\n"
    );
    assert_eq!(apply_chat_template(&[], None), "<|im_start|>assistant\n");
}

#[test]
fn events_of_a_stream() {
    assert_eq!(sse_event("a", "b"), "event: a\ndata: b\n\n");
    assert!(stream_head().starts_with("HTTP/1.1 200 OK\r\nContent-Type: text/event-stream\r\n"));
    let open = opening_events(12);
    assert_eq!(open.len(), 2);
    assert!(open[0].starts_with("event: message_start\ndata: {\"type\":\"message_start\""));
    assert!(open[0].contains("\"usage\":{\"input_tokens\":12,\"output_tokens\":0}}}"));
    assert!(open[1].starts_with("event: content_block_start\n"));
    let close = closing_events(3);
    assert_eq!(close.len(), 3);
    assert!(close[1].contains("\"usage\":{\"output_tokens\":3}}"));
    assert_eq!(close[2], "event: message_stop\ndata: {\"type\":\"message_stop\"}\n\n");
}

#[test]
fn deltas_carry_json_strings() {
    assert_eq!(
        delta_event("say \"hi\"\n"),
        "event: content_block_delta\ndata: {\"type\":\"content_block_delta\",\"index\":0,\
         \"delta\":{\"type\":\"text_delta\",\"text\":\"say \\\"hi\\\"\\n\"}}\n\n"
    );
    assert_eq!(delta_event_from("\"x\""), delta_event("x"));
}

#[test]
fn events_hold_json() {
    for e in opening_events(7).into_iter().chain(closing_events(9)).chain([delta_event("a\"b")]) {
        let data = e.split("data: ").nth(1).unwrap();
        let v: serde_json::Value = serde_json::from_str(data.trim_end()).unwrap();
        assert_eq!(Some(v["type"].as_str().unwrap()), e[7..].split('\n').next());
    }
}

#[test]
fn reply_is_json() {
    let body = reply_body("a\"b", 5, 2);
    let v: serde_json::Value = serde_json::from_str(&body).unwrap();
    assert_eq!(v["id"], "msg_000000000000002a");
    assert_eq!(v["content"][0]["text"], "a\"b");
    assert_eq!(v["usage"]["input_tokens"], 5);
    assert_eq!(v["usage"]["output_tokens"], 2);
    assert_eq!(v["stop_reason"], "end_turn");
    assert_eq!(reply_body_from("\"x\"", 1, 1), reply_body("x", 1, 1));
}

#[test]
fn responses_count_bytes() {
    assert_eq!(
        json_response(200, "\"é\""),
        "HTTP/1.1 200 OK\r\nContent-Type: application/json\r\nContent-Length: 4\r\n\r\n\"é\""
    );
    assert_eq!(
        not_found(),
        "HTTP/1.1 404 Error\r\nContent-Type: application/json\r\nContent-Length: 21\r\n\r\n\
         {\"error\":\"not found\"}"
    );
}

#[test]
fn generation_stops_at_the_end_of_text() {
    let mut g = Generation::new(5, 2);
    assert!(g.wants_token());
    g.accept(7);
    assert!(g.wants_token());
    g.accept(2);
    assert!(!g.wants_token());
    assert_eq!(g.output, vec![7, 2]);
}

#[test]
fn generation_stops_at_the_limit_or_a_failure() {
    let mut g = Generation::new(1, 2);
    g.accept(7);
    assert!(!g.wants_token());
    assert!(!g.stopped);
    let mut g = Generation::new(4, 2);
    g.accept(7);
    g.fail();
    assert!(!g.wants_token());
    assert_eq!(g.output, vec![7]);
}

#[test]
fn replies_are_collected() {
    assert_eq!(collect(&[Some(1), Some(9), Some(3)], 10, 9), vec![1, 9]);
    assert_eq!(collect(&[Some(1), None, Some(3)], 10, 9), vec![1]);
    assert_eq!(collect(&[Some(1), Some(2), Some(3)], 2, 9), vec![1, 2]);
    assert_eq!(collect(&[], 2, 9), Vec::<u32>::new());
}

#[test]
fn prompts_start_with_bos() {
    assert_eq!(with_bos(1, &[5, 6]), vec![1, 5, 6]);
    assert_eq!(with_bos(1, &[]), vec![1]);
}

#[test]
fn every_character_is_escaped_on_one_line() {
    for n in 0..0x80u32 {
        let c = char::from_u32(n).unwrap();
        let event = delta_event(&c.to_string());
        assert_eq!(event.matches('\n').count(), 3);
        let json = event.split("\"text\":").nth(1).unwrap().trim_end();
        let text: String = serde_json::from_str(json.strip_suffix("}}").unwrap()).unwrap();
        assert_eq!(text, c.to_string());
    }
    assert!(delta_event("\u{1}\u{1f}\u{8}\u{c}").contains("\"\\u0001\\u001f\\b\\f\""));
}

#[test]
fn prompts_grow_by_a_turn() {
    let one = vec![Message { role: "user".to_string(), content: "Hi".to_string() }];
    let two = vec![
        Message { role: "user".to_string(), content: "Hi".to_string() },
        Message { role: "assistant".to_string(), content: "Yo".to_string() },
    ];
    let tail = "<|im_start|>assistant\n";
    let before = apply_chat_template(&one, None);
    let after = apply_chat_template(&two, None);
    assert_eq!(
        after,
        format!(
            "{}<|im_start|>assistant\nYo\n<|im_end|>\n{}",
            before.strip_suffix(tail).unwrap(),
            tail
        )
    );
}
