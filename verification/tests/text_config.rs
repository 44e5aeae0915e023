use vulcano::config::{dir, env_file_lookup, env_or_file, env_path, mcp_path, skills_dir};
use vulcano::text::{i64_to_decimal, sort_strings, str_eq_ignore_ascii_case, trim_str, u64_to_decimal};

#[test]
fn trim_removes_unicode_whitespace() {
    assert_eq!(trim_str("  \t olá\u{3000}\n"), "olá");
    assert_eq!(trim_str("   "), "");
}

#[test]
fn decimal_formatting() {
    assert_eq!(u64_to_decimal(0), "0");
    assert_eq!(u64_to_decimal(1234567890), "1234567890");
    assert_eq!(i64_to_decimal(-1), "-1");
    assert_eq!(i64_to_decimal(i64::MIN), "-9223372036854775808");
}

#[test]
fn sorting_strings_is_byte_order() {
    let v = vec!["file  b".to_string(), "dir   z".to_string(), "file  a".to_string(), "Zeta".to_string()];
    assert_eq!(sort_strings(v), vec!["Zeta", "dir   z", "file  a", "file  b"]);
}

#[test]
fn ascii_case_insensitive_equality() {
    assert!(str_eq_ignore_ascii_case("SaIr", "sair"));
    assert!(!str_eq_ignore_ascii_case("sairr", "sair"));
    assert!(!str_eq_ignore_ascii_case("Ç", "ç"));
}

#[test]
fn config_dir_prefers_explicit_variable() {
    assert_eq!(dir(Some("/cfg".into()), Some("/xdg".into()), Some("/home/u".into())), "/cfg");
}

#[test]
fn config_dir_ignores_empty_variables() {
    assert_eq!(dir(Some("".into()), Some("/xdg".into()), Some("/home/u".into())), "/xdg/vulcano");
    assert_eq!(dir(None, Some("".into()), Some("/home/u".into())), "/home/u/.config/vulcano");
    assert_eq!(dir(None, None, None), "./.config/vulcano");
    assert_eq!(dir(None, Some("/xdg/".into()), None), "/xdg/vulcano");
}

#[test]
fn config_files_hang_from_the_dir() {
    assert_eq!(skills_dir("/c/vulcano"), "/c/vulcano/skills");
    assert_eq!(mcp_path("/c/vulcano"), "/c/vulcano/mcp.json");
    assert_eq!(env_path("/c/vulcano/"), "/c/vulcano/env");
    assert_eq!(env_path(""), "env");
}

#[test]
fn env_file_formats() {
    let raw = "# comentário\n\nexport DEEPSEEK_API_KEY=\"sk-abc\"\r\nOUTRA='x'\n";
    assert_eq!(env_file_lookup(raw, "DEEPSEEK_API_KEY"), Some("sk-abc".to_string()));
    assert_eq!(env_file_lookup(raw, "OUTRA"), Some("x".to_string()));
    assert_eq!(env_file_lookup(raw, "NADA"), None);
}

#[test]
fn env_file_skips_empty_values_and_takes_first() {
    let raw = "K=\nK = primeiro \nK=segundo";
    assert_eq!(env_file_lookup(raw, "K"), Some("primeiro".to_string()));
    assert_eq!(env_file_lookup("  #K=1\nsem igual\n", "K"), None);
    assert_eq!(env_file_lookup("K=\"'v'\"", "K"), Some("v".to_string()));
}

#[test]
fn env_variable_wins_over_file() {
    assert_eq!(env_or_file("K", Some("env".into()), Some("K=file".into())), Some("env".to_string()));
    assert_eq!(env_or_file("K", Some("".into()), Some("K=file".into())), Some("file".to_string()));
    assert_eq!(env_or_file("K", None, None), None);
}
