use vulcano::cli::{chat_input, help_text, mode_args, modes, parse, prompt_from, select_mode, ChatInput, Command};
use vulcano::ui::{chrome, preview, term, Quiet, Reporter};

fn args(v: &[&str]) -> Vec<String> {
    v.iter().map(|s| s.to_string()).collect()
}

#[test]
fn skill_flags_are_separated() {
    let c = parse(&args(&["--skill", "conciso", "qual", "-s", "rev", "é", "--skill"]));
    assert_eq!(c.skills, vec!["conciso", "rev"]);
    assert_eq!(c.rest, vec!["qual", "é"]);
    let c = parse(&args(&["a", "b"]));
    assert!(c.skills.is_empty());
    assert_eq!(c.rest, vec!["a", "b"]);
}

#[test]
fn prompt_joins_arguments_or_reads_input() {
    assert_eq!(prompt_from(&args(&["o", "que", "é?"]), "ignorado"), "o que é?");
    assert_eq!(prompt_from(&[], "  vindo do stdin\n"), "vindo do stdin");
}

#[test]
fn modes_are_selected() {
    assert!(matches!(select_mode(Some("ask")), Command::Ask));
    assert!(matches!(select_mode(Some("chat")), Command::Chat));
    assert!(matches!(select_mode(Some("tools")), Command::Tools));
    assert!(matches!(select_mode(Some("agent")), Command::Agent));
    assert!(matches!(select_mode(Some("crew")), Command::Crew));
    assert!(matches!(select_mode(Some("manager")), Command::Manager));
    assert!(matches!(select_mode(None), Command::Help));
    assert!(matches!(select_mode(Some("--help")), Command::Help));
    assert!(matches!(select_mode(Some("-h")), Command::Help));
    match select_mode(Some("Ask")) {
        Command::Unknown(s) => assert_eq!(s, "Ask"),
        _ => panic!("modes are case sensitive"),
    }
}

#[test]
fn mode_arguments_follow_the_mode() {
    let a = args(&["vulcano", "ask", "x", "y"]);
    assert_eq!(mode_args(&a), &a[2..]);
    assert!(mode_args(&args(&["vulcano", "ask"])).is_empty());
}

#[test]
fn help_lists_modes_padded() {
    let h = help_text();
    assert!(h.starts_with("vulcano — modos que acompanham a evolução das LLMs\n\nUSO:\n"));
    assert!(h.contains("\n    ask     1ª geração — um prompt entra, um texto sai (sem memória)\n"));
    assert!(h.contains("\n    manager 6ª geração — um gerente decide em runtime quem faz o quê\n"));
    assert!(h.ends_with("nos modos com tools\n"));
    assert_eq!(modes().len(), 6);
}

#[test]
fn chat_inputs() {
    assert!(matches!(chat_input("   \n"), ChatInput::Skip));
    assert!(matches!(chat_input(" SAIR\n"), ChatInput::Quit));
    match chat_input("  olá  \n") {
        ChatInput::Send(m) => assert_eq!(m, "olá"),
        _ => panic!("expected a message"),
    }
}

#[test]
fn preview_cuts_and_flattens() {
    assert_eq!(preview("a\nb"), "a b");
    let long: String = "é".repeat(300);
    let p = preview(&long);
    assert_eq!(p.chars().count(), 241);
    assert!(p.ends_with('…'));
    assert_eq!(preview(&"x".repeat(240)), "x".repeat(240));
}

#[test]
fn term_lines() {
    let t = term(false);
    assert!(!t.deltas_to_stderr());
    assert_eq!(t.paint("2", "oi"), "oi");
    assert_eq!(t.step_line("Redator"), "\n▸ Redator");
    assert_eq!(t.tool_call_line("soma", "{}"), "  ⚙ soma {}");
    assert_eq!(t.tool_result_line("ok\nfim"), "  ↳ ok fim");
    assert_eq!(t.step_done_line("Redator", "1.5"), "  ✓ Redator em 1.5s");
    let c = chrome(true);
    assert!(c.deltas_to_stderr());
    assert_eq!(c.paint("1;36", "x"), "\x1b[1;36mx\x1b[0m");
}

#[test]
fn quiet_reports_nothing() {
    let q = Quiet;
    q.delta("x");
    q.end_turn();
    q.step("s");
    q.tool_call("n", "a");
    q.tool_result("r");
    q.step_done("s", std::time::Duration::from_millis(5));
}
