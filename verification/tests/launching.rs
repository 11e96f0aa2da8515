use intra_codex::clock::{format_date, format_padded, short_id, today};
use intra_codex::launch::{exit_status, launch_plan};
use intra_codex::model::{AgentConfig, InputMode, RunStatus};

fn agent(mode: Option<InputMode>, shell: Option<bool>) -> AgentConfig {
    AgentConfig {
        id: "opencode".to_string(),
        label: "OpenCode".to_string(),
        command: "opencode".to_string(),
        args: vec!["run".to_string(), "--format".to_string(), "json".to_string()],
        concurrency: 2,
        cwd: ".".to_string(),
        input_mode: mode,
        shell,
        env: vec![],
        capabilities: None,
    }
}

fn strs(v: &[&str]) -> Vec<String> {
    v.iter().map(|s| s.to_string()).collect()
}

#[test]
fn arg_mode_passes_the_prompt_as_the_last_argument() {
    let l = launch_plan(&agent(Some(InputMode::Arg), None), "fix it", false);
    assert_eq!(l.program, "opencode");
    assert_eq!(l.args, strs(&["run", "--format", "json", "fix it"]));
    assert_eq!(l.stdin, None);
}

#[test]
fn stdin_mode_writes_the_prompt_to_standard_input() {
    let l = launch_plan(&agent(Some(InputMode::Stdin), Some(false)), "fix it", false);
    assert_eq!(l.program, "opencode");
    assert_eq!(l.args, strs(&["run", "--format", "json"]));
    assert_eq!(l.stdin.as_deref(), Some("fix it"));
}

#[test]
fn without_a_mode_the_prompt_goes_to_standard_input() {
    let l = launch_plan(&agent(None, None), "p", false);
    assert_eq!(l.stdin.as_deref(), Some("p"));
    assert_eq!(l.args, strs(&["run", "--format", "json"]));
}

#[test]
fn no_prompt_mode_only_starts_the_command() {
    let l = launch_plan(&agent(Some(InputMode::NoPrompt), None), "p", false);
    assert_eq!(l.args, strs(&["run", "--format", "json"]));
    assert_eq!(l.stdin, None);
}

#[test]
fn shell_providers_run_their_line_through_the_shell() {
    let l = launch_plan(&agent(None, Some(true)), "p", false);
    assert_eq!(l.program, "sh");
    assert_eq!(l.args, strs(&["-lc", "opencode run --format json"]));
    assert_eq!(l.stdin.as_deref(), Some("p"));
    let w = launch_plan(&agent(None, Some(true)), "p", true);
    assert_eq!(w.program, "cmd");
    assert_eq!(w.args, strs(&["/C", "opencode run --format json"]));
}

#[test]
fn shell_providers_in_arg_mode_get_the_prompt_as_a_parameter() {
    let l = launch_plan(&agent(Some(InputMode::Arg), Some(true)), "a 'b' c", false);
    assert_eq!(l.program, "sh");
    assert_eq!(l.args, strs(&["-lc", "opencode run --format json \"$@\"", "sh", "a 'b' c"]));
    assert_eq!(l.stdin, None);
    let w = launch_plan(&agent(Some(InputMode::Arg), Some(true)), "a b", true);
    assert_eq!(w.args, strs(&["/C", "opencode run --format json", "a b"]));
}

#[test]
fn only_exit_code_zero_is_done() {
    assert_eq!(exit_status(Some(0)), RunStatus::Done);
    assert_eq!(exit_status(Some(1)), RunStatus::Failed);
    assert_eq!(exit_status(Some(-9)), RunStatus::Failed);
    assert_eq!(exit_status(None), RunStatus::Failed);
}

#[test]
fn dates_are_written_as_year_month_day() {
    assert_eq!(format_date(2025, 1, 31), "2025-01-31");
    assert_eq!(format_date(5, 3, 7), "0005-03-07");
    assert_eq!(format_date(10000, 12, 1), "+10000-12-01");
    assert_eq!(format_date(-1, 12, 31), "-0001-12-31");
    assert_eq!(format_date(0, 10, 10), "0000-10-10");
}

#[test]
fn numbers_are_padded_with_zeros() {
    assert_eq!(format_padded(7, 2), "07");
    assert_eq!(format_padded(123, 2), "123");
    assert_eq!(format_padded(0, 4), "0000");
    assert_eq!(format_padded(u64::MAX, 0), "18446744073709551615");
}

#[test]
fn today_has_the_shape_of_a_date() {
    let d = today();
    let c: Vec<char> = d.chars().collect();
    assert_eq!(c.len(), 10);
    assert_eq!(c[4], '-');
    assert_eq!(c[7], '-');
    assert!(c.iter().enumerate().all(|(i, ch)| i == 4 || i == 7 || ch.is_ascii_digit()));
}

#[test]
fn short_ids_are_eight_hex_digits_a_hyphen_and_one_more() {
    let a = short_id();
    let b = short_id();
    let c: Vec<char> = a.chars().collect();
    assert_eq!(c.len(), 10);
    assert_eq!(c[8], '-');
    assert!(c.iter().enumerate().all(|(i, ch)| i == 8 || ch.is_ascii_digit() || ('a'..='f').contains(ch)));
    assert_ne!(a, b);
}
