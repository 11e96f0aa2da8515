use intra_codex::model::{AgentConfig, AgentRun, AppConfig, Defaults, Message, Project, RunStatus, Session};
use intra_codex::workbench::Workbench;

fn provider(id: &str, concurrency: usize) -> AgentConfig {
    AgentConfig {
        id: id.to_string(),
        label: id.to_uppercase(),
        command: format!("{id}-cli"),
        args: vec!["run".to_string(), "--json".to_string()],
        concurrency,
        cwd: ".".to_string(),
        input_mode: None,
        shell: None,
        env: vec![],
        capabilities: None,
    }
}

fn bench(providers: Vec<AgentConfig>, max: usize) -> Workbench {
    Workbench {
        config: AppConfig {
            providers,
            defaults: Defaults {
                provider_id: "a".to_string(),
                max_global_concurrency: max,
                workspace_root: "..".to_string(),
                skills_root: None,
            },
        },
        skills: vec![],
        projects: vec![],
        runs: vec![],
        active_project_id: None,
        active_session_id: None,
    }
}

fn session(id: &str, project_id: &str, title: &str) -> Session {
    Session {
        id: id.to_string(),
        project_id: project_id.to_string(),
        title: title.to_string(),
        agent_id: "a".to_string(),
        skill_ids: vec![],
        status: RunStatus::Done,
        created_at: "t0".to_string(),
        updated_at: "t0".to_string(),
        messages: vec![],
        run_ids: vec![],
    }
}

fn project(id: &str, path: &str, sessions: Vec<Session>) -> Project {
    Project {
        id: id.to_string(),
        name: id.to_string(),
        path: path.to_string(),
        created_at: "t0".to_string(),
        updated_at: "t0".to_string(),
        sessions,
        files: vec![],
    }
}

fn run(id: &str, session_id: &str, agent: &str, status: RunStatus, created: &str) -> AgentRun {
    AgentRun {
        id: id.to_string(),
        project_id: "p".to_string(),
        session_id: session_id.to_string(),
        agent_id: agent.to_string(),
        status,
        created_at: created.to_string(),
        started_at: None,
        finished_at: None,
        exit_code: None,
        input_tokens: 0,
        output_tokens: 0,
    }
}

fn message(role: &str, content: &str) -> Message {
    Message { id: "m".to_string(), role: role.to_string(), content: content.to_string(), created_at: "t".to_string() }
}

fn with_session() -> Workbench {
    let mut wb = bench(vec![provider("a", 1)], 3);
    wb.projects.push(project("p", "/work/p", vec![session("s", "p", "新会话")]));
    wb
}

#[test]
fn create_session_needs_a_project() {
    let mut wb = bench(vec![], 1);
    let r = wb.create_session("nope", "a".to_string(), vec![], None);
    assert_eq!(r.err(), Some("Project not found.".to_string()));
    assert!(wb.active_session_id.is_none());
}

#[test]
fn create_session_puts_the_new_session_first() {
    let mut wb = with_session();
    let s = wb.create_session("p", "a".to_string(), vec!["explore".to_string()], None).unwrap();
    assert_eq!(s.title, "新会话");
    assert_eq!(s.status, RunStatus::Done);
    assert_eq!(s.id.chars().count(), 10);
    assert_eq!(s.id.chars().nth(8), Some('-'));
    assert_eq!(s.skill_ids, vec!["explore".to_string()]);
    assert_eq!(wb.projects[0].sessions.len(), 2);
    assert_eq!(wb.projects[0].sessions[0].id, s.id);
    assert_eq!(wb.projects[0].sessions[1].id, "s");
    assert_eq!(wb.active_project_id.as_deref(), Some("p"));
    assert_eq!(wb.active_session_id.as_deref(), Some(s.id.as_str()));
    let t = wb.create_session("p", "a".to_string(), vec![], Some("Named".to_string())).unwrap();
    assert_eq!(t.title, "Named");
}

#[test]
fn send_message_rejects_blank_text() {
    let mut wb = with_session();
    let r = wb.send_message("p", "s", "a".to_string(), vec![], " \n\t ");
    assert_eq!(r.err(), Some("Message is required.".to_string()));
    assert!(wb.runs.is_empty());
    assert!(wb.projects[0].sessions[0].messages.is_empty());
}

#[test]
fn send_message_needs_project_and_session() {
    let mut wb = with_session();
    assert_eq!(wb.send_message("x", "s", "a".to_string(), vec![], "hi").err(), Some("Project not found.".to_string()));
    assert_eq!(wb.send_message("p", "x", "a".to_string(), vec![], "hi").err(), Some("Session not found.".to_string()));
    assert!(wb.runs.is_empty());
}

#[test]
fn send_message_queues_a_run_and_titles_the_session() {
    let mut wb = with_session();
    let long_line = "x".repeat(60);
    let content = format!("  {long_line}\nsecond line ");
    let r = wb.send_message("p", "s", "a".to_string(), vec!["k".to_string()], &content).unwrap();
    assert_eq!(r.status, RunStatus::Queued);
    assert_eq!(r.project_id, "p");
    assert_eq!(r.session_id, "s");
    assert_eq!(r.input_tokens, (content.chars().count() + 3) / 4);
    assert_eq!(r.output_tokens, 0);
    assert_eq!(r.id.len(), 10);
    let s = &wb.projects[0].sessions[0];
    assert_eq!(s.title, format!("  {}", "x".repeat(46)));
    assert_eq!(s.status, RunStatus::Queued);
    assert_eq!(s.skill_ids, vec!["k".to_string()]);
    assert_eq!(s.messages.len(), 1);
    assert_eq!(s.messages[0].role, "user");
    assert_eq!(s.messages[0].content, format!("{long_line}\nsecond line"));
    assert_eq!(s.run_ids, vec![r.id.clone()]);
    assert_eq!(wb.runs.len(), 1);
    assert_eq!(wb.runs[0].id, r.id);
    assert_eq!(wb.active_session_id.as_deref(), Some("s"));
    // A titled session keeps its title.
    let _ = wb.send_message("p", "s", "a".to_string(), vec![], "other").unwrap();
    assert_eq!(wb.projects[0].sessions[0].title, format!("  {}", "x".repeat(46)));
    assert_eq!(wb.runs.len(), 2);
}

#[test]
fn cancel_run_unknown() {
    let mut wb = with_session();
    assert_eq!(wb.cancel_run("zz").err(), Some("Run not found.".to_string()));
}

#[test]
fn cancelled_runs_stay_cancelled_when_their_process_ends() {
    let mut wb = with_session();
    wb.runs.push(run("r1", "s", "a", RunStatus::Running, "t1"));
    let c = wb.cancel_run("r1").unwrap();
    assert_eq!(c.status, RunStatus::Cancelled);
    assert!(c.finished_at.is_some());
    assert_eq!(wb.projects[0].sessions[0].status, RunStatus::Cancelled);
    let (r, s) = wb.finish_run("r1", RunStatus::Done, Some(0)).unwrap();
    assert_eq!(r.status, RunStatus::Cancelled);
    assert_eq!(r.exit_code, Some(0));
    assert_eq!(s.unwrap().status, RunStatus::Cancelled);
}

#[test]
fn finish_run_records_status_and_code() {
    let mut wb = with_session();
    wb.runs.push(run("r1", "s", "a", RunStatus::Running, "t1"));
    let (r, s) = wb.finish_run("r1", RunStatus::Failed, Some(2)).unwrap();
    assert_eq!(r.status, RunStatus::Failed);
    assert_eq!(r.exit_code, Some(2));
    assert!(r.finished_at.is_some());
    assert_eq!(s.unwrap().status, RunStatus::Failed);
    assert!(wb.finish_run("missing", RunStatus::Done, None).is_none());
}

#[test]
fn finish_run_without_session() {
    let mut wb = with_session();
    wb.runs.push(run("r1", "gone", "a", RunStatus::Running, "t1"));
    let (r, s) = wb.finish_run("r1", RunStatus::Done, Some(0)).unwrap();
    assert_eq!(r.status, RunStatus::Done);
    assert!(s.is_none());
}

#[test]
fn agent_output_is_counted_and_merged() {
    let mut wb = with_session();
    wb.runs.push(run("r1", "s", "a", RunStatus::Running, "t1"));
    let r = wb.runs[0].clone();
    let (ur, us) = wb.append_output(&r, "assistant", "hello ");
    assert_eq!(ur.unwrap().output_tokens, 2);
    assert_eq!(us.unwrap().messages.len(), 1);
    wb.append_output(&r, "assistant", "world");
    wb.append_output(&r, "tool", "warn");
    wb.append_output(&r, "system", "Exited with code Some(0).");
    let s = &wb.projects[0].sessions[0];
    assert_eq!(s.messages.len(), 3);
    assert_eq!(s.messages[0].content, "hello world");
    assert_eq!(s.messages[1].role, "tool");
    assert_eq!(s.messages[2].role, "system");
    assert_eq!(wb.runs[0].output_tokens, 2 + 2 + 1);
}

#[test]
fn output_in_pieces_equals_output_at_once() {
    let mut one = with_session();
    let mut two = with_session();
    one.runs.push(run("r1", "s", "a", RunStatus::Running, "t1"));
    two.runs.push(run("r1", "s", "a", RunStatus::Running, "t1"));
    let r = one.runs[0].clone();
    one.append_output(&r, "assistant", "abcdef");
    two.append_output(&r, "assistant", "abc");
    two.append_output(&r, "assistant", "def");
    assert_eq!(one.projects[0].sessions[0].messages.len(), 1);
    assert_eq!(two.projects[0].sessions[0].messages.len(), 1);
    assert_eq!(one.projects[0].sessions[0].messages[0].content, two.projects[0].sessions[0].messages[0].content);
}

#[test]
fn output_follows_an_existing_message_of_another_role() {
    let mut wb = with_session();
    wb.projects[0].sessions[0].messages.push(message("user", "question"));
    wb.append_session_output("p", "s", "assistant", "answer");
    let s = &wb.projects[0].sessions[0];
    assert_eq!(s.messages.len(), 2);
    assert_eq!(s.messages[1].content, "answer");
    assert_eq!(s.messages[1].id.len(), 10);
}

#[test]
fn fail_run_marks_run_and_session() {
    let mut wb = with_session();
    wb.runs.push(run("r1", "s", "a", RunStatus::Queued, "t1"));
    let r = wb.runs[0].clone();
    wb.fail_run(&r, "Agent provider not found.");
    assert_eq!(wb.runs[0].status, RunStatus::Failed);
    assert!(wb.runs[0].finished_at.is_some());
    let s = &wb.projects[0].sessions[0];
    assert_eq!(s.status, RunStatus::Failed);
    assert_eq!(s.messages.last().unwrap().role, "system");
    assert_eq!(s.messages.last().unwrap().content, "Agent provider not found.");
}

#[test]
fn session_status_and_messages_for_missing_session_change_nothing() {
    let mut wb = with_session();
    wb.set_session_status("p", "zz", RunStatus::Failed);
    wb.push_session_message("zz", "s", "system", "x".to_string());
    assert_eq!(wb.projects[0].sessions[0].status, RunStatus::Done);
    assert!(wb.projects[0].sessions[0].messages.is_empty());
    assert!(wb.find_session("p", "s") == Some((0, 0)));
}

#[test]
fn open_project_new_and_again() {
    let mut wb = bench(vec![], 1);
    let i = wb.open_project("/work/demo", &vec![], vec![]);
    assert_eq!(i, 0);
    assert_eq!(wb.projects[0].name, "demo");
    assert_eq!(wb.projects[0].path, "/work/demo");
    assert_eq!(wb.projects[0].id.len(), 10);
    assert_eq!(wb.active_project_id.as_deref(), Some(wb.projects[0].id.as_str()));
    assert!(wb.active_session_id.is_none());
    let id = wb.projects[0].id.clone();
    wb.projects[0].sessions.push(session("s1", &id, "first"));
    wb.projects[0].sessions.push(session("s2", &id, "second"));
    let node = intra_codex::files::file_node("a.txt".to_string(), "/work/demo/a.txt".to_string(), false, vec![]);
    let j = wb.open_project("/work/demo", &vec!["/work/demo".to_string()], vec![node]);
    assert_eq!(j, 0);
    assert_eq!(wb.projects.len(), 1);
    assert_eq!(wb.projects[0].files.len(), 1);
    assert_eq!(wb.active_session_id.as_deref(), Some("s1"));
    let k = wb.open_project("/work/other", &vec!["/work/demo".to_string()], vec![]);
    assert_eq!(k, 1);
    assert_eq!(wb.projects[1].name, "other");
}

#[test]
fn restore_puts_entries_in_as_a_map_keyed_by_id_does() {
    let base = bench(vec![provider("a", 1)], 3);
    let wb = Workbench::restore(
        base.config,
        vec![],
        vec![
            ("p".to_string(), project("p", "/work/p", vec![])),
            ("q".to_string(), project("q", "/work/q", vec![])),
            ("p".to_string(), project("p", "/work/other", vec![])),
            ("k".to_string(), project("stale", "/work/k", vec![])),
        ],
        vec![
            ("r1".to_string(), run("r1", "s", "a", RunStatus::Done, "t1")),
            ("r1".to_string(), run("r1", "s", "a", RunStatus::Queued, "t2")),
            ("r2".to_string(), run("r2", "s", "a", RunStatus::Queued, "t3")),
        ],
        Some("q".to_string()),
        None,
    );
    let ids: Vec<&str> = wb.projects.iter().map(|p| p.id.as_str()).collect();
    assert_eq!(ids, vec!["p", "q", "k"]);
    assert_eq!(wb.projects[0].path, "/work/other");
    assert_eq!(wb.projects[2].path, "/work/k");
    let runs: Vec<(&str, &str)> = wb.runs.iter().map(|r| (r.id.as_str(), r.created_at.as_str())).collect();
    assert_eq!(runs, vec![("r1", "t2"), ("r2", "t3")]);
    assert_eq!(wb.active_project_id.as_deref(), Some("q"));
    assert_eq!(wb.config.providers.len(), 1);
}

#[test]
fn reopening_a_folder_reuses_its_project() {
    let mut wb = bench(vec![], 1);
    wb.projects.push(project("p", "/work/p", vec![session("s1", "p", "x")]));
    wb.projects.push(project("q", "/work/q", vec![]));
    let stored = vec!["/work/p".to_string(), "/work/q".to_string()];
    let k = wb.open_project("/work/q", &stored, vec![]);
    assert_eq!(k, 1);
    assert_eq!(wb.projects.len(), 2);
    assert_eq!(wb.projects[1].id, "q");
    assert_eq!(wb.projects[1].name, "q");
    assert_eq!(wb.projects[1].created_at, "t0");
    assert_eq!(wb.active_project_id.as_deref(), Some("q"));
    assert!(wb.active_session_id.is_none());
    let k = wb.open_project("/work/p", &stored, vec![]);
    assert_eq!(k, 0);
    assert_eq!(wb.projects.len(), 2);
    assert_eq!(wb.active_session_id.as_deref(), Some("s1"));
}

#[test]
fn opening_a_project_then_creating_a_session_switches_to_it() {
    let mut wb = bench(vec![provider("a", 1)], 3);
    let node = intra_codex::files::file_node("a.txt".to_string(), "/work/demo/a.txt".to_string(), false, vec![]);
    let i = wb.open_project("/work/demo", &vec![], vec![node]);
    let pid = wb.projects[i].id.clone();
    let s = wb.create_session(&pid, "a".to_string(), vec![], None).unwrap();
    assert_eq!(wb.projects[i].files.len(), 1);
    assert_eq!(wb.projects[i].sessions.len(), 1);
    assert_eq!(wb.projects[i].sessions[0].id, s.id);
    assert_eq!(s.title, "新会话");
    assert_eq!(wb.active_project_id.as_deref(), Some(pid.as_str()));
    assert_eq!(wb.active_session_id.as_deref(), Some(s.id.as_str()));
}

#[test]
fn each_step_stamps_with_the_time_it_is_given() {
    let mut wb = with_session();
    let s = wb.create_session_at("p", "a".to_string(), vec![], None, "T1").unwrap();
    assert_eq!((s.created_at.as_str(), s.updated_at.as_str()), ("T1", "T1"));
    assert_eq!(wb.projects[0].updated_at, "T1");

    let r = wb.send_message_at("p", "s", "a".to_string(), vec![], "hello", "T2").unwrap();
    assert_eq!(r.created_at, "T2");
    let sess = &wb.projects[0].sessions[1];
    assert_eq!(sess.updated_at, "T2");
    assert_eq!(sess.messages.last().unwrap().created_at, "T2");

    wb.set_session_status_at("p", "s", RunStatus::Running, "T3");
    assert_eq!(wb.projects[0].sessions[1].updated_at, "T3");

    wb.push_session_message_at("p", "s", "system", "note".to_string(), "T4");
    assert_eq!(wb.projects[0].sessions[1].updated_at, "T4");
    assert_eq!(wb.projects[0].sessions[1].messages.last().unwrap().created_at, "T4");

    let (_, out) = wb.append_output_at(&r, "assistant", "hi", "T5");
    let out = out.unwrap();
    assert_eq!(out.updated_at, "T5");
    assert_eq!(out.messages.last().unwrap().created_at, "T5");
    let (_, out) = wb.append_output_at(&r, "assistant", " there", "T6");
    let out = out.unwrap();
    assert_eq!(out.updated_at, "T6");
    assert_eq!(out.messages.last().unwrap().created_at, "T5");
    assert_eq!(out.messages.last().unwrap().content, "hi there");

    let (done, s2) = wb.finish_run_at(&r.id, RunStatus::Done, Some(0), "T7").unwrap();
    assert_eq!(done.finished_at.as_deref(), Some("T7"));
    assert_eq!(s2.unwrap().updated_at, "T7");

    wb.runs.push(run("r9", "s", "a", RunStatus::Running, "t1"));
    let c = wb.cancel_run_at("r9", "T8").unwrap();
    assert_eq!(c.finished_at.as_deref(), Some("T8"));
    assert_eq!(wb.projects[0].sessions[1].updated_at, "T8");

    wb.runs.push(run("r10", "s", "a", RunStatus::Queued, "t1"));
    let r10 = wb.runs.last().unwrap().clone();
    wb.fail_run_at(&r10, "no provider", "T9");
    assert_eq!(wb.runs.last().unwrap().finished_at.as_deref(), Some("T9"));
    assert_eq!(wb.projects[0].sessions[1].messages.last().unwrap().created_at, "T9");

    let i = wb.open_project_at("/work/new", &vec!["/work/p".to_string()], vec![], "T10");
    assert_eq!((wb.projects[i].created_at.as_str(), wb.projects[i].updated_at.as_str()), ("T10", "T10"));
    let j = wb.open_project_at("/work/new", &vec!["/work/p".to_string(), "/work/new".to_string()], vec![], "T11");
    assert_eq!(j, i);
    assert_eq!((wb.projects[i].created_at.as_str(), wb.projects[i].updated_at.as_str()), ("T10", "T11"));
}
