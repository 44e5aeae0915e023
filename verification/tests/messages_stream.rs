use vulcano::message::{Message, DEFAULT_SYSTEM_PROMPT};
use vulcano::stream::{
    classify_line, Delta, FunctionDelta, SseLine, StreamAssembler, StreamChoice, StreamChunk,
    ToolCallDelta,
};

fn text_chunk(t: &str) -> StreamChunk {
    StreamChunk {
        choices: vec![StreamChoice { delta: Delta { content: Some(t.to_string()), tool_calls: None } }],
    }
}

fn call_chunk(index: usize, id: Option<&str>, name: Option<&str>, args: Option<&str>) -> StreamChunk {
    StreamChunk {
        choices: vec![StreamChoice {
            delta: Delta {
                content: None,
                tool_calls: Some(vec![ToolCallDelta {
                    index,
                    id: id.map(|s| s.to_string()),
                    function: Some(FunctionDelta {
                        name: name.map(|s| s.to_string()),
                        arguments: args.map(|s| s.to_string()),
                    }),
                }]),
            },
        }],
    }
}

#[test]
fn message_constructors() {
    let m = Message::tool("call_1", "42");
    assert_eq!(m.role, "tool");
    assert_eq!(m.content.as_deref(), Some("42"));
    assert_eq!(m.tool_call_id.as_deref(), Some("call_1"));
    assert!(m.tool_calls.is_none());
    assert_eq!(Message::system(DEFAULT_SYSTEM_PROMPT).role, "system");
    assert_eq!(Message::user("oi").text(), "oi");
    assert_eq!(Message::assistant("x").role, "assistant");
}

#[test]
fn text_of_message_without_content_is_empty() {
    let m = Message { role: "assistant".into(), content: None, tool_calls: None, tool_call_id: None };
    assert_eq!(m.text(), "");
}

#[test]
fn lines_are_classified() {
    assert!(matches!(classify_line(b"data: [DONE]"), SseLine::Done));
    assert!(matches!(classify_line(b"data: [DONE]  \r"), SseLine::Done));
    match classify_line(b"data: {\"a\":1}\r") {
        SseLine::Data(d) => assert_eq!(d, "{\"a\":1}"),
        _ => panic!("expected data"),
    }
    assert!(matches!(classify_line(b": keep-alive"), SseLine::Skip));
    assert!(matches!(classify_line(b"data:[DONE]"), SseLine::Skip));
}

#[test]
fn invalid_utf8_is_replaced() {
    match classify_line(b"data: a\xffb") {
        SseLine::Data(d) => assert_eq!(d, "a\u{fffd}b"),
        _ => panic!("expected data"),
    }
}

#[test]
fn bytes_are_cut_into_lines_across_chunks() {
    let mut a = StreamAssembler::new();
    a.feed(b"data: one\nda");
    let ev = a.next_events();
    assert_eq!(ev.len(), 1);
    assert!(matches!(&ev[0], SseLine::Data(d) if d == "one"));
    assert!(a.next_events().is_empty());
    a.feed(b"ta: [DONE]\n");
    let ev = a.next_events();
    assert_eq!(ev.len(), 1);
    assert!(matches!(ev[0], SseLine::Done));
    a.feed(b"data: later\n");
    assert!(a.next_events().is_empty());
}

fn events_by(chunks: &[&[u8]]) -> Vec<String> {
    let mut a = StreamAssembler::new();
    let mut out = Vec::new();
    for c in chunks {
        a.feed(c);
        for e in a.next_events() {
            out.push(match e {
                SseLine::Data(d) => format!("data {d}"),
                SseLine::Done => "done".to_string(),
                SseLine::Skip => "skip".to_string(),
            });
        }
    }
    out
}

#[test]
fn split_does_not_matter() {
    let whole: &[u8] = "data: ol\u{e1}\n: ping\ndata: b\ndata: [DONE]\ndata: x\n".as_bytes();
    let expected = vec!["data olá".to_string(), "data b".to_string(), "done".to_string()];
    assert_eq!(events_by(&[whole]), expected);
    for cut in 1..whole.len() {
        assert_eq!(events_by(&[&whole[..cut], &whole[cut..]]), expected, "cut at {cut}");
    }
    let singles: Vec<&[u8]> = whole.chunks(1).collect();
    assert_eq!(events_by(&singles), expected);
}

#[test]
fn junk_lines_give_no_events() {
    assert_eq!(events_by(&[b"event: x\n\n: c\ndata: a\n"]), vec!["data a".to_string()]);
}

#[test]
fn text_fragments_make_the_reply() {
    let mut a = StreamAssembler::new();
    assert_eq!(a.apply_chunk(text_chunk("Olá, ")), Some("Olá, ".to_string()));
    assert_eq!(a.apply_chunk(text_chunk("")), None);
    assert_eq!(a.apply_chunk(StreamChunk { choices: vec![] }), None);
    assert_eq!(a.apply_chunk(text_chunk("mundo")), Some("mundo".to_string()));
    let m = a.finish();
    assert_eq!(m.role, "assistant");
    assert_eq!(m.content.as_deref(), Some("Olá, mundo"));
    assert!(m.tool_calls.is_none());
    assert!(m.tool_call_id.is_none());
}

#[test]
fn empty_stream_gives_empty_assistant_message() {
    let m = StreamAssembler::new().finish();
    assert!(m.content.is_none());
    assert!(m.tool_calls.is_none());
}

#[test]
fn tool_call_fragments_are_joined_by_index() {
    let mut a = StreamAssembler::new();
    a.apply_chunk(call_chunk(0, Some("call_a"), Some("so"), Some("{\"a\":")));
    a.apply_chunk(call_chunk(2, Some("call_c"), Some("clima"), Some("{}")));
    a.apply_chunk(call_chunk(0, None, Some("ma"), Some("1}")));
    let m = a.finish();
    assert!(m.content.is_none());
    let calls = m.tool_calls.expect("calls");
    assert_eq!(calls.len(), 2);
    assert_eq!(calls[0].id, "call_a");
    assert_eq!(calls[0].kind, "function");
    assert_eq!(calls[0].function.name, "soma");
    assert_eq!(calls[0].function.arguments, "{\"a\":1}");
    assert_eq!(calls[1].id, "call_c");
    assert_eq!(calls[1].function.name, "clima");
}

#[test]
fn calls_without_name_are_dropped() {
    let mut a = StreamAssembler::new();
    a.apply_chunk(call_chunk(1, Some("x"), None, Some("{}")));
    let m = a.finish();
    assert!(m.tool_calls.is_none());
}

#[test]
fn undecodable_payloads_change_nothing() {
    let mut a = StreamAssembler::new();
    assert_eq!(a.apply_decoded(Some(text_chunk("a"))), Some("a".to_string()));
    assert_eq!(a.apply_decoded(None), None);
    assert_eq!(a.apply_decoded(Some(StreamChunk { choices: vec![] })), None);
    assert_eq!(a.apply_decoded(Some(text_chunk("b"))), Some("b".to_string()));
    assert_eq!(a.finish().content.as_deref(), Some("ab"));
}
