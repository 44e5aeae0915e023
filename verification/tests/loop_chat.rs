use vulcano::chat::Chat;
use vulcano::message::{FunctionCall, Message, ToolCall, DEFAULT_SYSTEM_PROMPT};
use vulcano::tools::{step_limit, tool_error, unknown_tool, LoopAction, Registry, Tool, ToolLoop};

fn empty_params() -> serde_json::Value {
    serde_json::from_str("{}").unwrap()
}

fn reply_with_calls(text: Option<&str>, calls: &[(&str, &str, &str)]) -> Message {
    Message {
        role: "assistant".into(),
        content: text.map(|t| t.to_string()),
        tool_calls: Some(
            calls
                .iter()
                .map(|(id, name, args)| ToolCall {
                    id: id.to_string(),
                    kind: "function".into(),
                    function: FunctionCall { name: name.to_string(), arguments: args.to_string() },
                })
                .collect(),
        ),
        tool_call_id: None,
    }
}

#[test]
fn chat_keeps_history() {
    let mut c = Chat::new();
    assert_eq!(c.history().len(), 1);
    assert_eq!(c.history()[0].text(), DEFAULT_SYSTEM_PROMPT);
    c.prepare("oi");
    assert_eq!(c.history().len(), 2);
    let t = c.receive(Message::assistant("olá!"));
    assert_eq!(t, "olá!");
    let h = c.history();
    assert_eq!(h.len(), 3);
    assert_eq!(h[1].role, "user");
    assert_eq!(h[1].text(), "oi");
    assert_eq!(h[2].role, "assistant");
    let d = Chat::default();
    assert_eq!(d.history()[0].role, "system");
    let s = Chat::with_system_prompt("seja breve");
    assert_eq!(s.history()[0].text(), "seja breve");
}

#[test]
fn registry_finds_first_tool_by_name() {
    let mut r: Registry<u32> = Registry::new();
    assert!(r.is_empty());
    r.register(Tool::new("soma", "Soma.", empty_params(), 1));
    r.register(Tool::new("clima", "Tempo.", empty_params(), 2));
    r.register(Tool::new("soma", "Outra.", empty_params(), 3));
    assert!(!r.is_empty());
    assert_eq!(r.names(), vec!["soma", "clima", "soma"]);
    assert_eq!(r.find("soma").map(|t| t.run), Some(1));
    assert_eq!(r.find("clima").map(|t| t.run), Some(2));
    assert!(r.find("nada").is_none());
    let mut other: Registry<u32> = Registry::new();
    other.register(Tool::new("shell", "", empty_params(), 4));
    r.extend(other);
    assert_eq!(r.tools().len(), 4);
    assert_eq!(r.find("shell").map(|t| t.run), Some(4));
}

#[test]
fn tool_messages() {
    assert_eq!(unknown_tool("xyz"), "ferramenta desconhecida: xyz");
    assert_eq!(tool_error("falhou"), "erro: falhou");
    assert_eq!(step_limit(16), "limite de 16 passos atingido sem resposta final");
}

#[test]
fn loop_ends_on_reply_without_calls() {
    let mut l = ToolLoop::new(vec![Message::user("oi")], 3);
    assert!(matches!(l.next_action(), LoopAction::AskModel));
    let o = l.on_reply(Message::assistant("pronto"));
    assert!(o.end_turn);
    assert_eq!(o.answer.as_deref(), Some("pronto"));
    assert_eq!(l.messages().len(), 2);
}

#[test]
fn loop_runs_each_call_then_asks_again() {
    let mut l = ToolLoop::new(vec![Message::user("some")], 5);
    assert!(matches!(l.next_action(), LoopAction::AskModel));
    let o = l.on_reply(reply_with_calls(None, &[("c1", "soma", "{\"a\":1,\"b\":2}"), ("c2", "clima", "não é json")]));
    assert!(!o.end_turn);
    assert!(o.answer.is_none());
    match l.next_action() {
        LoopAction::RunTool { call, arguments } => {
            assert_eq!(call.id, "c1");
            assert_eq!(call.function.name, "soma");
            let expected: serde_json::Value = serde_json::from_str("{\"a\":1,\"b\":2}").unwrap();
            assert_eq!(arguments, expected);
        }
        _ => panic!("expected a tool"),
    }
    l.on_tool_result("3");
    match l.next_action() {
        LoopAction::RunTool { call, arguments } => {
            assert_eq!(call.id, "c2");
            assert_eq!(arguments, empty_params());
        }
        _ => panic!("expected a tool"),
    }
    l.on_tool_result("erro: x");
    assert!(matches!(l.next_action(), LoopAction::AskModel));
    let m = l.messages();
    assert_eq!(m.len(), 4);
    assert_eq!(m[2].tool_call_id.as_deref(), Some("c1"));
    assert_eq!(m[2].text(), "3");
    assert_eq!(m[3].tool_call_id.as_deref(), Some("c2"));
    let o = l.on_reply(Message::assistant("3 e sol"));
    assert_eq!(o.answer.as_deref(), Some("3 e sol"));
    assert_eq!(l.into_messages().len(), 5);
}

#[test]
fn a_run_only_appends() {
    let start = vec![Message::system("s"), Message::user("u")];
    let mut l = ToolLoop::new(start, 3);
    l.on_reply(reply_with_calls(Some("t"), &[("c", "x", "{}")]));
    l.on_tool_result("r");
    let m = l.into_messages();
    assert_eq!(m.len(), 4);
    assert_eq!(m[0].text(), "s");
    assert_eq!(m[1].text(), "u");
}

#[test]
fn text_before_calls_closes_the_line() {
    let mut l = ToolLoop::new(vec![], 2);
    let o = l.on_reply(reply_with_calls(Some("vou ver"), &[("c", "shell", "{}")]));
    assert!(o.end_turn);
    assert!(o.answer.is_none());
}

#[test]
fn loop_gives_up_after_max_steps() {
    let mut l = ToolLoop::new(vec![], 1);
    l.on_reply(reply_with_calls(None, &[("c", "shell", "{}")]));
    l.on_tool_result("ok");
    match l.next_action() {
        LoopAction::GiveUp(e) => assert_eq!(e, "limite de 1 passos atingido sem resposta final"),
        _ => panic!("expected to give up"),
    }
    let l0 = ToolLoop::new(vec![], 0);
    assert!(matches!(l0.next_action(), LoopAction::GiveUp(_)));
}

#[test]
fn empty_call_list_is_a_final_answer() {
    let mut l = ToolLoop::new(vec![], 2);
    let o = l.on_reply(reply_with_calls(Some("fim"), &[]));
    assert_eq!(o.answer.as_deref(), Some("fim"));
}
