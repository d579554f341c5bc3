use tant::export::{export_file_name, ExportFormat};
use tant::pump::{after_forward, default_geometry, pump_step, PumpAction, ReadOutcome};
use tant::config::{get_ai_prompt_template, AiPromptTemplateId};
use tant::export::format_blocks;
use tant::query::{
    block_matches_query, join_lines, last_non_empty_line, matches_filters, normalize_query,
    split_lines, strip_prompt_line,
};
use tant::text::{i64_to_string, u64_to_string};
use tant::{html_escape, Block};

fn block_with(command: &str, output: &str, exit: Option<i32>, pinned: bool) -> Block {
    Block {
        command: command.to_string(),
        started_at: None,
        ended_at: None,
        duration_ms: None,
        exit_code: exit,
        cwd: None,
        output_range: None,
        pinned,
        tags: vec![],
        selected: false,
        output: output.to_string(),
        git_branch: None,
        git_status: None,
        host: "h".to_string(),
        is_remote: false,
        collapsed: false,
    }
}

#[test]
fn normalize_query_trims_and_lowercases() {
    assert_eq!(normalize_query("  AbC  "), "abc");
    assert_eq!(normalize_query(""), "");
    assert_eq!(normalize_query("ÄÖ"), "äö");
}

#[test]
fn query_matches_command_and_output() {
    let b = block_with("Echo Hello", "WORLD", Some(0), false);
    let r = block_matches_query(&b, "hello");
    assert!(r.command);
    assert!(!r.output);
    let r = block_matches_query(&b, " world ");
    assert!(!r.command);
    assert!(r.output);
    let r = block_matches_query(&b, "");
    assert!(!r.command && !r.output);
}

#[test]
fn filters_respect_status_and_pin() {
    let ok = block_with("ls", "", Some(0), false);
    let fail = block_with("ls", "", Some(2), false);
    let running = block_with("ls", "", None, false);
    let pinned = block_with("ls", "", Some(0), true);
    assert!(matches_filters(&ok, "", true, false, false).is_some());
    assert!(matches_filters(&fail, "", true, false, false).is_none());
    assert!(matches_filters(&running, "", true, false, false).is_none());
    assert!(matches_filters(&fail, "", false, true, false).is_some());
    assert!(matches_filters(&ok, "", false, true, false).is_none());
    assert!(matches_filters(&running, "", false, true, false).is_none());
    assert!(matches_filters(&ok, "", false, false, true).is_none());
    assert!(matches_filters(&pinned, "", false, false, true).is_some());
    assert!(matches_filters(&ok, "nomatch", false, false, false).is_none());
    let r = matches_filters(&ok, "LS", false, false, false).unwrap();
    assert!(r.command);
}

#[test]
fn last_non_empty_line_finds_prompt() {
    assert_eq!(last_non_empty_line("a\nb\n   \n"), Some("b".to_string()));
    assert_eq!(last_non_empty_line("   \n\t\n"), None);
    assert_eq!(last_non_empty_line(""), None);
    assert_eq!(last_non_empty_line("only"), Some("only".to_string()));
}

#[test]
fn strip_prompt_line_drops_trailing_prompt() {
    assert_eq!(strip_prompt_line("out1\nout2\nuser@host $ ", "user@host $"), "out1\nout2");
    assert_eq!(strip_prompt_line("out1\nout2", "user@host $"), "out1\nout2");
    assert_eq!(strip_prompt_line("keep\nall", "   "), "keep\nall");
    assert_eq!(strip_prompt_line("a\nprompt\n\n\n", "prompt"), "a");
}

#[test]
fn split_and_join_lines_round() {
    let lines = split_lines("a\r\nb\nc");
    assert_eq!(lines, vec!["a".to_string(), "b".to_string(), "c".to_string()]);
    assert_eq!(join_lines(&lines), "a\nb\nc");
    assert_eq!(split_lines(""), Vec::<String>::new());
    assert_eq!(split_lines("x\n"), vec!["x".to_string()]);
}

#[test]
fn html_escape_expands_markup() {
    assert_eq!(html_escape("<a href=\"x\">&'"), "&lt;a href=&quot;x&quot;&gt;&amp;&#39;");
    assert_eq!(html_escape("plain"), "plain");
}

#[test]
fn decimal_formatting_is_exact() {
    assert_eq!(u64_to_string(0), "0");
    assert_eq!(u64_to_string(1200), "1200");
    assert_eq!(u64_to_string(u64::MAX), "18446744073709551615");
    assert_eq!(i64_to_string(-1), "-1");
    assert_eq!(i64_to_string(i64::MIN), "-9223372036854775808");
    assert_eq!(i64_to_string(250), "250");
}

#[test]
fn export_file_name_carries_extension() {
    assert_eq!(export_file_name(ExportFormat::Markdown, "20240101_000000"), "tant_export_20240101_000000.md");
    assert_eq!(export_file_name(ExportFormat::Json, "t"), "tant_export_t.json");
    assert_eq!(export_file_name(ExportFormat::Html, "t"), "tant_export_t.html");
    assert_eq!(export_file_name(ExportFormat::Text, "t"), "tant_export_t.txt");
}

#[test]
fn pump_decisions_follow_read_outcomes() {
    assert_eq!(pump_step(ReadOutcome::Read(0)), PumpAction::Stop);
    assert_eq!(pump_step(ReadOutcome::Read(17)), PumpAction::Forward(17));
    assert_eq!(pump_step(ReadOutcome::WouldBlock), PumpAction::Backoff);
    assert_eq!(pump_step(ReadOutcome::Failed), PumpAction::Stop);
    assert_eq!(after_forward(true), PumpAction::Continue);
    assert_eq!(after_forward(false), PumpAction::Stop);
    assert_eq!(default_geometry(), (24, 80, 0, 0));
}

#[test]
fn prompt_template_lookup() {
    let t = get_ai_prompt_template(AiPromptTemplateId::GenerateCommand).unwrap();
    assert_eq!(t.label, "Generate command");
    assert!(t.prompt.starts_with("Generate a command"));
    assert_eq!(t.id, AiPromptTemplateId::GenerateCommand);
}

#[test]
fn json_export_escapes_content() {
    let b = block_with("echo \"x\"\n", "tab\there", Some(0), false);
    let result = format_blocks(&[b], ExportFormat::Json).expect("json export");
    let parsed: serde_json::Value = serde_json::from_str(&result.content).expect("valid json");
    assert_eq!(parsed[0]["command"], "echo \"x\"\n");
    assert_eq!(parsed[0]["output"], "tab\there");
}
