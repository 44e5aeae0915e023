use vulcano::mcp::{classify_reply, exposed_name, next_request_id, plan_tools, render, rpc_error_message, timeout_message, AnnouncedTool, CallOutcome, RpcReply};
use vulcano::team::{build_team, delegate_description, find_member, roles, standard_crew, unknown_member, unknown_member_message};
use vulcano::toolbox::{entry, listing, missing_argument, shell_report, weather, written};
use vulcano::tools::Registry;

#[test]
fn directory_listing() {
    let lines = vec![entry(false, "b.rs"), entry(true, "src"), entry(false, "a.rs")];
    assert_eq!(listing(lines), "dir   src\nfile  a.rs\nfile  b.rs");
    assert_eq!(listing(vec![]), "(vazio)");
}

#[test]
fn write_and_shell_reports() {
    assert_eq!(written("ção", "x.txt"), "escrito (5 bytes) em x.txt");
    assert_eq!(shell_report(b"out\n", b"", Some(0)), "out\n\n[exit 0]");
    assert_eq!(shell_report(b"", b"bad", Some(2)), "\n[stderr]\nbad\n[exit 2]");
    assert_eq!(shell_report(b"\xff", b"", None), "\u{fffd}\n[exit -1]");
    assert_eq!(missing_argument("caminho"), "argumento 'caminho' ausente");
}

#[test]
fn weather_answer() {
    assert_eq!(weather(Some("Recife")), "Em Recife está 24°C, céu limpo.");
    assert_eq!(weather(None), "Em cidade desconhecida está 24°C, céu limpo.");
}

#[test]
fn team_and_delegation() {
    let team = build_team::<u8>(Registry::new());
    assert_eq!(roles(&team), vec!["Pesquisador", "Redator", "Revisor"]);
    assert_eq!(team[0].max_steps, 16);
    assert_eq!(team[1].max_steps, 12);
    assert_eq!(team[2].max_steps, 12);
    assert_eq!(team[0].system_prompt, vulcano::team::RESEARCHER_PROMPT);
    assert_eq!(team[1].system_prompt, vulcano::team::WRITER_PROMPT);
    assert_eq!(team[2].system_prompt, vulcano::team::PROOFREADER_PROMPT);
    assert!(team[1].registry.is_empty() && team[2].registry.is_empty());
    assert_eq!(find_member(&team, "redator"), Some(1));
    assert_eq!(find_member(&team, "REVISOR"), Some(2));
    assert_eq!(find_member(&team, "gerente"), None);
    assert_eq!(
        delegate_description(&team),
        "Entrega uma tarefa a um membro da equipe (Pesquisador, Redator, Revisor) e devolve o resultado dele."
    );
    assert_eq!(
        unknown_member("gerente", &team),
        "membro desconhecido: \"gerente\". Use um de: Pesquisador, Redator, Revisor"
    );
    assert_eq!(
        unknown_member("a\"b", &team),
        "membro desconhecido: \"a\\\"b\". Use um de: Pesquisador, Redator, Revisor"
    );
    assert_eq!(
        unknown_member_message("'x'", &team[..1]),
        "membro desconhecido: 'x'. Use um de: Pesquisador"
    );
}

#[test]
fn standard_crew_has_three_steps() {
    let c = standard_crew::<u8>(Registry::new());
    assert_eq!(c.len(), 3);
    assert_eq!(c.agent(0).role, "Pesquisador");
    assert_eq!(c.agent(2).role, "Revisor");
    assert_eq!(c.agent(1).system_prompt, vulcano::team::WRITER_PROMPT);
    assert_eq!(c.agent(2).max_steps, 12);
}

#[test]
fn mcp_tool_names_and_plan() {
    assert_eq!(exposed_name("fs", "read_file"), "fs_read_file");
    let announced = vec![
        AnnouncedTool { name: Some("read".into()), description: Some("lê".into()) },
        AnnouncedTool { name: None, description: Some("sem nome".into()) },
        AnnouncedTool { name: Some("write".into()), description: None },
    ];
    let plan = plan_tools("fs", &announced);
    assert_eq!(plan.len(), 2);
    assert_eq!(plan[0].index, 0);
    assert_eq!(plan[0].exposed, "fs_read");
    assert_eq!(plan[0].server_name, "read");
    assert_eq!(plan[0].description, "lê");
    assert_eq!(plan[1].index, 2);
    assert_eq!(plan[1].exposed, "fs_write");
    assert_eq!(plan[1].description, "");
}

#[test]
fn json_rpc_replies() {
    assert!(matches!(classify_reply(3, Some(3), false), RpcReply::Result));
    assert!(matches!(classify_reply(3, Some(3), true), RpcReply::Error));
    assert!(matches!(classify_reply(3, Some(2), true), RpcReply::Ignore));
    assert!(matches!(classify_reply(3, None, false), RpcReply::Ignore));
    assert_eq!(next_request_id(0), 1);
    assert_eq!(timeout_message("tools/list"), "timeout em 'tools/list'");
    assert_eq!(rpc_error_message("{\"code\":1}"), "erro JSON-RPC: {\"code\":1}");
}

#[test]
fn call_results_render() {
    let ok = CallOutcome {
        texts: Some(vec![Some("a".into()), None, Some("b".into())]),
        is_error: false,
        raw: "{}".into(),
    };
    assert_eq!(render(&ok), "a\nb");
    let err = CallOutcome { texts: Some(vec![Some("falhou".into())]), is_error: true, raw: "{}".into() };
    assert_eq!(render(&err), "erro: falhou");
    let none = CallOutcome { texts: Some(vec![None]), is_error: false, raw: "{\"x\":1}".into() };
    assert_eq!(render(&none), "{\"x\":1}");
    let not_array = CallOutcome { texts: None, is_error: true, raw: "null".into() };
    assert_eq!(render(&not_array), "erro: null");
}
