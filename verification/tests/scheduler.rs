use intra_codex::model::{AgentConfig, AgentRun, AppConfig, Defaults, Project, RunStatus, Session, Skill};
use intra_codex::schedule::{queue_order, shell_line, starting_note_text, Dispatch};
use intra_codex::workbench::Workbench;

fn provider(id: &str, concurrency: usize) -> AgentConfig {
    AgentConfig {
        id: id.to_string(),
        label: id.to_uppercase(),
        command: format!("{id}-cli"),
        args: vec!["run".to_string(), "--format".to_string(), "json".to_string()],
        concurrency,
        cwd: ".".to_string(),
        input_mode: None,
        shell: Some(true),
        env: vec![],
        capabilities: None,
    }
}

fn bench(providers: Vec<AgentConfig>, max: usize) -> Workbench {
    let mut s = Session {
        id: "s".to_string(),
        project_id: "p".to_string(),
        title: "T".to_string(),
        agent_id: "a".to_string(),
        skill_ids: vec!["explore".to_string()],
        status: RunStatus::Queued,
        created_at: "t0".to_string(),
        updated_at: "t0".to_string(),
        messages: vec![],
        run_ids: vec![],
    };
    s.messages.push(intra_codex::model::Message {
        id: "m1".to_string(),
        role: "user".to_string(),
        content: "look around".to_string(),
        created_at: "t0".to_string(),
    });
    Workbench {
        config: AppConfig {
            providers,
            defaults: Defaults {
                provider_id: "a".to_string(),
                max_global_concurrency: max,
                workspace_root: "..".to_string(),
                skills_root: None,
            },
        },
        skills: vec![
            Skill { id: "explore".to_string(), title: "Explore".to_string(), body: "Read the README.".to_string(), path: "/s/explore.md".to_string() },
            Skill { id: "report".to_string(), title: "Report".to_string(), body: "Write HTML.".to_string(), path: "/s/report.md".to_string() },
        ],
        projects: vec![Project {
            id: "p".to_string(),
            name: "p".to_string(),
            path: "/work/p".to_string(),
            created_at: "t0".to_string(),
            updated_at: "t0".to_string(),
            sessions: vec![s],
            files: vec![],
        }],
        runs: vec![],
        active_project_id: None,
        active_session_id: None,
    }
}

fn run(id: &str, session_id: &str, agent: &str, status: RunStatus, created: &str) -> AgentRun {
    AgentRun {
        id: id.to_string(),
        project_id: "p".to_string(),
        session_id: session_id.to_string(),
        agent_id: agent.to_string(),
        status,
        created_at: created.to_string(),
        started_at: None,
        finished_at: None,
        exit_code: None,
        input_tokens: 0,
        output_tokens: 0,
    }
}

#[test]
fn queue_is_oldest_first_and_stable() {
    let runs = vec![
        run("a", "s", "a", RunStatus::Queued, "2025-01-03"),
        run("b", "s", "a", RunStatus::Running, "2025-01-01"),
        run("c", "s", "a", RunStatus::Queued, "2025-01-02"),
        run("d", "s", "a", RunStatus::Queued, "2025-01-02"),
        run("e", "s", "a", RunStatus::Done, "2025-01-00"),
    ];
    assert_eq!(queue_order(&runs), vec![2, 3, 0]);
}

#[test]
fn the_oldest_queued_run_starts_with_its_prompt() {
    let mut wb = bench(vec![provider("a", 2)], 3);
    wb.runs.push(run("new", "s", "a", RunStatus::Queued, "2025-01-02"));
    wb.runs.push(run("old", "s", "a", RunStatus::Queued, "2025-01-01"));
    match wb.dispatch_next() {
        Dispatch::Started(sr) => {
            assert_eq!(sr.run.id, "old");
            assert_eq!(sr.run.status, RunStatus::Running);
            assert!(sr.run.started_at.is_some());
            assert_eq!(sr.provider, 0);
            assert_eq!(sr.project_path, "/work/p");
            let expected = "Project path: /work/p\n\nYou are running inside an internal Codex-like workbench. Continue the current project session and respond with useful progress and results.\n\nLoaded skills:\n- Explore\nRead the README.\n\nSession history:\nuser: look around\n\nsystem: Starting A: a-cli run --format json";
            assert_eq!(sr.prompt, expected);
        }
        _ => panic!("expected a started run"),
    }
    assert_eq!(wb.runs[1].status, RunStatus::Running);
    assert_eq!(wb.runs[0].status, RunStatus::Queued);
    assert_eq!(wb.projects[0].sessions[0].status, RunStatus::Running);
}

#[test]
fn runs_without_a_provider_fail() {
    let mut wb = bench(vec![provider("a", 1)], 3);
    wb.runs.push(run("x", "s", "ghost", RunStatus::Queued, "1"));
    wb.runs.push(run("y", "s", "a", RunStatus::Queued, "2"));
    wb.runs.push(run("z", "s", "ghost", RunStatus::Queued, "3"));
    match wb.dispatch_next() {
        Dispatch::Started(sr) => assert_eq!(sr.run.id, "y"),
        _ => panic!("expected a started run"),
    }
    assert_eq!(wb.runs[0].status, RunStatus::Failed);
    assert_eq!(wb.runs[2].status, RunStatus::Queued);
    let msgs = &wb.projects[0].sessions[0].messages;
    assert_eq!(msgs[1].content, "Agent provider not found.");
    assert_eq!(msgs[2].content, "Starting A: a-cli run --format json");
    // The next turn fails the last one and starts nothing.
    assert!(matches!(wb.dispatch_next(), Dispatch::Idle));
    assert_eq!(wb.runs[2].status, RunStatus::Failed);
    assert_eq!(wb.projects[0].sessions[0].status, RunStatus::Failed);
}

#[test]
fn a_busy_provider_is_passed_over() {
    let mut wb = bench(vec![provider("a", 1), provider("b", 1)], 5);
    wb.runs.push(run("busy", "s", "a", RunStatus::Running, "0"));
    wb.runs.push(run("q1", "s", "a", RunStatus::Queued, "1"));
    wb.runs.push(run("q2", "s", "b", RunStatus::Queued, "2"));
    match wb.dispatch_next() {
        Dispatch::Started(sr) => {
            assert_eq!(sr.run.id, "q2");
            assert_eq!(sr.provider, 1);
        }
        _ => panic!("expected a started run"),
    }
    assert_eq!(wb.runs[1].status, RunStatus::Queued);
}

#[test]
fn the_global_limit_stops_the_scheduler() {
    let mut wb = bench(vec![provider("a", 5)], 1);
    wb.runs.push(run("busy", "s", "a", RunStatus::Running, "0"));
    wb.runs.push(run("q", "s", "ghost", RunStatus::Queued, "1"));
    assert!(matches!(wb.dispatch_next(), Dispatch::Idle));
    assert_eq!(wb.runs[1].status, RunStatus::Queued);
    assert!(wb.projects[0].sessions[0].messages.len() == 1);
}

#[test]
fn a_run_whose_session_is_gone_starts_orphaned() {
    let mut wb = bench(vec![provider("a", 1)], 2);
    wb.runs.push(run("o", "gone", "a", RunStatus::Queued, "1"));
    assert!(matches!(wb.dispatch_next(), Dispatch::Orphaned));
    assert_eq!(wb.runs[0].status, RunStatus::Running);
}

#[test]
fn schedule_fills_the_limits_and_stops() {
    let mut wb = bench(vec![provider("a", 2), provider("b", 1)], 3);
    for (i, agent) in ["a", "a", "a", "b", "b"].iter().enumerate() {
        wb.runs.push(run(&format!("r{i}"), "s", agent, RunStatus::Queued, &format!("{i}")));
    }
    let started = wb.schedule();
    let ids: Vec<&str> = started.iter().map(|s| s.run.id.as_str()).collect();
    assert_eq!(ids, vec!["r0", "r1", "r3"]);
    let running = wb.runs.iter().filter(|r| r.status == RunStatus::Running).count();
    assert_eq!(running, 3);
    assert!(wb.schedule().is_empty());
}

#[test]
fn shell_line_and_note() {
    let p = provider("a", 1);
    assert_eq!(shell_line(&p), "a-cli run --format json");
    assert_eq!(starting_note_text(&p), "Starting A: a-cli run --format json");
    let bare = AgentConfig { args: vec![], ..provider("b", 1) };
    assert_eq!(shell_line(&bare), "b-cli");
    assert_eq!(starting_note_text(&bare), "Starting B: b-cli ");
}

#[test]
fn the_scheduler_stamps_what_it_starts_and_fails() {
    let mut wb = bench(vec![provider("a", 1)], 3);
    wb.runs.push(run("r1", "s", "nobody", RunStatus::Queued, "t1"));
    wb.runs.push(run("r2", "s", "a", RunStatus::Queued, "t2"));
    let started = wb.schedule_at("NOW");
    assert_eq!(started.len(), 1);
    assert_eq!(wb.runs[0].status, RunStatus::Failed);
    assert_eq!(wb.runs[0].finished_at.as_deref(), Some("NOW"));
    assert_eq!(wb.runs[1].status, RunStatus::Running);
    assert_eq!(wb.runs[1].started_at.as_deref(), Some("NOW"));
    let s = &wb.projects[0].sessions[0];
    assert_eq!(s.updated_at, "NOW");
    assert!(s.messages[1..].iter().all(|m| m.created_at == "NOW"));
}
