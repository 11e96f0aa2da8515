use intra_codex::files::{file_node, lists_directory, shown_entry_positions, sort_file_nodes, MAX_TREE_ENTRIES};
use intra_codex::model::{AgentConfig, AgentRun, AppConfig, Defaults, Message, Project, RunStatus, Session, Skill};
use intra_codex::prompt::{build_prompt, contains_id, select_skills};
use intra_codex::skills::{make_skill, sort_skills};
use intra_codex::usage::{starts_with, TOKEN_BUDGET};
use intra_codex::workbench::Workbench;

fn provider(id: &str, concurrency: usize) -> AgentConfig {
    AgentConfig {
        id: id.to_string(),
        label: id.to_string(),
        command: "c".to_string(),
        args: vec![],
        concurrency,
        cwd: ".".to_string(),
        input_mode: None,
        shell: None,
        env: vec![("K".to_string(), "V".to_string())],
        capabilities: Some(vec!["search".to_string()]),
    }
}

fn run(agent: &str, status: RunStatus, created: &str, finished: Option<&str>, tin: usize, tout: usize) -> AgentRun {
    AgentRun {
        id: created.to_string(),
        project_id: "p".to_string(),
        session_id: "s".to_string(),
        agent_id: agent.to_string(),
        status,
        created_at: created.to_string(),
        started_at: None,
        finished_at: finished.map(|s| s.to_string()),
        exit_code: None,
        input_tokens: tin,
        output_tokens: tout,
    }
}

fn bench(providers: Vec<AgentConfig>, runs: Vec<AgentRun>) -> Workbench {
    Workbench {
        config: AppConfig {
            providers,
            defaults: Defaults {
                provider_id: "a".to_string(),
                max_global_concurrency: 3,
                workspace_root: "..".to_string(),
                skills_root: Some("skills".to_string()),
            },
        },
        skills: vec![],
        projects: vec![],
        runs,
        active_project_id: None,
        active_session_id: None,
    }
}

fn session(id: &str, updated: &str) -> Session {
    Session {
        id: id.to_string(),
        project_id: "p".to_string(),
        title: "t".to_string(),
        agent_id: "a".to_string(),
        skill_ids: vec![],
        status: RunStatus::Done,
        created_at: "t".to_string(),
        updated_at: updated.to_string(),
        messages: vec![],
        run_ids: vec![],
    }
}

#[test]
fn usage_counts_runs_tokens_and_loads() {
    let runs = vec![
        run("a", RunStatus::Running, "1", None, 10, 5),
        run("a", RunStatus::Queued, "2", None, 1, 0),
        run("b", RunStatus::Done, "3", Some("2025-05-01T10:00:00+08:00"), 2, 2),
        run("b", RunStatus::Done, "4", Some("2025-04-30T23:59:59+08:00"), 0, 0),
        run("b", RunStatus::Failed, "5", Some("2025-05-01T11:00:00+08:00"), 0, 0),
    ];
    let wb = bench(vec![provider("a", 2), provider("b", 1), provider("a", 7)], runs);
    let u = wb.usage_on("2025-05-01");
    assert_eq!(u.running, 1);
    assert_eq!(u.queued, 1);
    assert_eq!(u.completed_today, 1);
    assert_eq!(u.token_budget, TOKEN_BUDGET);
    assert_eq!(u.token_budget, 2_000_000);
    assert_eq!(u.tokens_used, 20);
    assert_eq!(u.provider_load.len(), 2);
    assert_eq!(u.provider_load[0].id, "a");
    assert_eq!(u.provider_load[0].load.running, 1);
    assert_eq!(u.provider_load[0].load.queued, 1);
    assert_eq!(u.provider_load[0].load.concurrency, 7);
    assert_eq!(u.provider_load[1].id, "b");
    assert_eq!(u.provider_load[1].load.concurrency, 1);
    let today = wb.make_usage();
    assert_eq!(today.running, 1);
}

#[test]
fn prefix_test() {
    assert!(starts_with("2025-05-01T10", "2025-05-01"));
    assert!(!starts_with("2025-05", "2025-05-01"));
    assert!(starts_with("x", ""));
}

#[test]
fn snapshot_lists_newest_first() {
    let mut wb = bench(vec![], vec![
        run("a", RunStatus::Done, "2", None, 0, 0),
        run("a", RunStatus::Done, "3", None, 0, 0),
        run("a", RunStatus::Done, "2", None, 0, 0),
    ]);
    let mk = |id: &str, updated: &str, sessions: Vec<Session>| Project {
        id: id.to_string(),
        name: id.to_string(),
        path: format!("/{id}"),
        created_at: "t".to_string(),
        updated_at: updated.to_string(),
        sessions,
        files: vec![],
    };
    wb.projects.push(mk("p1", "2025-01-01", vec![session("s1", "1"), session("s2", "3"), session("s3", "1")]));
    wb.projects.push(mk("p2", "2025-02-01", vec![]));
    let order = wb.snapshot_order();
    assert_eq!(order.projects, vec![1, 0]);
    assert_eq!(order.sessions[0], vec![1, 0, 2]);
    assert!(order.sessions[1].is_empty());
    assert_eq!(order.runs, vec![1, 0, 2]);
}

#[test]
fn prompt_without_skills_or_history() {
    let p = Project {
        id: "p".to_string(),
        name: "p".to_string(),
        path: "C:\\code\\demo".to_string(),
        created_at: "t".to_string(),
        updated_at: "t".to_string(),
        sessions: vec![],
        files: vec![],
    };
    let s = session("s", "t");
    let text = build_prompt(&p, &s, &vec![]);
    assert_eq!(
        text,
        "Project path: C:\\code\\demo\n\nYou are running inside an internal Codex-like workbench. Continue the current project session and respond with useful progress and results.\n\nSession history:\n"
    );
}

#[test]
fn prompt_with_skills_and_history() {
    let p = Project {
        id: "p".to_string(),
        name: "p".to_string(),
        path: "/x".to_string(),
        created_at: "t".to_string(),
        updated_at: "t".to_string(),
        sessions: vec![],
        files: vec![],
    };
    let mut s = session("s", "t");
    s.messages.push(Message { id: "1".to_string(), role: "user".to_string(), content: "hi".to_string(), created_at: "t".to_string() });
    s.messages.push(Message { id: "2".to_string(), role: "assistant".to_string(), content: "hello".to_string(), created_at: "t".to_string() });
    let skills = vec![
        Skill { id: "a".to_string(), title: "A".to_string(), body: "do a".to_string(), path: "a.md".to_string() },
        Skill { id: "b".to_string(), title: "B".to_string(), body: "do b".to_string(), path: "b.md".to_string() },
    ];
    let text = build_prompt(&p, &s, &skills);
    assert_eq!(
        text,
        "Project path: /x\n\nYou are running inside an internal Codex-like workbench. Continue the current project session and respond with useful progress and results.\n\nLoaded skills:\n- A\ndo a\n\n- B\ndo b\n\nSession history:\nuser: hi\n\nassistant: hello"
    );
}

#[test]
fn skills_are_chosen_by_id_in_catalog_order() {
    let all = vec![
        Skill { id: "x".to_string(), title: "X".to_string(), body: String::new(), path: String::new() },
        Skill { id: "y".to_string(), title: "Y".to_string(), body: String::new(), path: String::new() },
        Skill { id: "z".to_string(), title: "Z".to_string(), body: String::new(), path: String::new() },
    ];
    let chosen = select_skills(&all, &vec!["z".to_string(), "x".to_string(), "nope".to_string()]);
    let ids: Vec<&str> = chosen.iter().map(|s| s.id.as_str()).collect();
    assert_eq!(ids, vec!["x", "z"]);
    assert!(contains_id(&vec!["a".to_string()], "a"));
    assert!(!contains_id(&vec![], "a"));
}

#[test]
fn skill_titles_come_from_the_first_heading() {
    let s = make_skill("/skills/explore.md".to_string(), "intro\n# 探索项目\nbody".to_string());
    assert_eq!(s.id, "explore");
    assert_eq!(s.title, "探索项目");
    let t = make_skill("/skills/html-report.md".to_string(), "no heading here".to_string());
    assert_eq!(t.title, "html-report");
    let u = make_skill("/skills/x.md".to_string(), "  ## Indented\n".to_string());
    assert_eq!(u.title, "x");
    let v = make_skill("/skills/y.md".to_string(), "###   Spaced  \r\nrest".to_string());
    assert_eq!(v.title, "y");
    assert_eq!(v.body, "###   Spaced  \r\nrest");
    assert_eq!(v.path, "/skills/y.md");
}

#[test]
fn only_a_level_one_heading_names_a_skill() {
    let title = |body: &str| make_skill("/skills/f.md".to_string(), body.to_string()).title;
    assert_eq!(title("## Intro\n# Guide\ntext"), "Guide");
    assert_eq!(title("  # Guide\ntext"), "Guide");
    assert_eq!(title("   #\tTabbed  \r\n"), "Tabbed");
    assert_eq!(title("#Title\n"), "f");
    assert_eq!(title("    # Code\n"), "f");
    assert_eq!(title("\t# Tab\n"), "f");
    assert_eq!(title("# Closed ##\n"), "Closed");
    assert_eq!(title("# C#\n"), "C#");
    assert_eq!(title("# ###\n"), "");
    assert_eq!(title("#\nlater"), "");
}

#[test]
fn skills_sort_by_title_stably() {
    let mk = |id: &str, title: &str| Skill { id: id.to_string(), title: title.to_string(), body: String::new(), path: String::new() };
    let mut v = vec![mk("1", "b"), mk("2", "a"), mk("3", "b"), mk("4", "A")];
    sort_skills(&mut v);
    let ids: Vec<&str> = v.iter().map(|s| s.id.as_str()).collect();
    assert_eq!(ids, vec!["4", "2", "1", "3"]);
}

#[test]
fn file_tree_lists_directories_first_then_names_without_case() {
    let mut v = vec![
        file_node("b.txt".to_string(), "/p/b.txt".to_string(), false, vec![]),
        file_node("Src".to_string(), "/p/Src".to_string(), true, vec![]),
        file_node("A.txt".to_string(), "/p/A.txt".to_string(), false, vec![]),
        file_node("docs".to_string(), "/p/docs".to_string(), true, vec![]),
        file_node("a.txt".to_string(), "/p/a.txt".to_string(), false, vec![]),
    ];
    sort_file_nodes(&mut v);
    let names: Vec<&str> = v.iter().map(|n| n.name.as_str()).collect();
    assert_eq!(names, vec!["docs", "Src", "A.txt", "a.txt", "b.txt"]);
    assert_eq!(v[0].kind, "directory");
    assert_eq!(v[2].kind, "file");
    let leaf = file_node("f".to_string(), "/f".to_string(), false, vec![file_node("x".to_string(), "/x".to_string(), false, vec![])]);
    assert!(leaf.children.is_empty());
}

#[test]
fn the_file_tree_shows_at_most_the_first_entries_and_skips_build_folders() {
    let names: Vec<String> = ["src", ".git", "README.md", "node_modules", "target", "docs"].iter().map(|s| s.to_string()).collect();
    assert_eq!(shown_entry_positions(&names), vec![0, 2, 5]);
    let mut many: Vec<String> = (0..200).map(|i| format!("f{i}")).collect();
    many[3] = ".cache".to_string();
    let shown = shown_entry_positions(&many);
    assert_eq!(shown.len(), MAX_TREE_ENTRIES - 1);
    assert_eq!(*shown.last().unwrap(), MAX_TREE_ENTRIES - 1);
    assert!(!shown.contains(&3));
}

#[test]
fn the_file_tree_stops_at_its_depth() {
    assert!(lists_directory(0, 3));
    assert!(lists_directory(2, 3));
    assert!(!lists_directory(3, 3));
    assert!(!lists_directory(0, 0));
}
