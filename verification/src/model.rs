//! The workbench's data: providers, projects, sessions, messages and runs,
//! each with a mathematical view.
use vstd::prelude::*;
use crate::text::views;

verus! {

/// Where a run, or the session that owns it, stands.
#[derive(Clone, Copy, Debug, PartialEq, Eq, Structural)]
pub enum RunStatus {
    Queued,
    Running,
    Done,
    Failed,
    Cancelled,
}

pub struct Message {
    pub id: String,
    pub role: String,
    pub content: String,
    pub created_at: String,
}

pub ghost struct MessageView {
    pub id: Seq<char>,
    pub role: Seq<char>,
    pub content: Seq<char>,
    pub created_at: Seq<char>,
}

impl View for Message {
    type V = MessageView;

    open spec fn view(&self) -> MessageView {
        MessageView {
            id: self.id@,
            role: self.role@,
            content: self.content@,
            created_at: self.created_at@,
        }
    }
}

impl Clone for Message {
    fn clone(&self) -> (r: Self)
        ensures
            r@ == self@,
    {
        Message {
            id: self.id.clone(),
            role: self.role.clone(),
            content: self.content.clone(),
            created_at: self.created_at.clone(),
        }
    }
}

pub open spec fn message_views(v: Seq<Message>) -> Seq<MessageView> {
    v.map_values(|m: Message| m@)
}

pub open spec fn opt_str(o: Option<String>) -> Option<Seq<char>> {
    match o {
        Some(s) => Some(s@),
        None => None,
    }
}

pub fn clone_opt(o: &Option<String>) -> (r: Option<String>)
    ensures
        opt_str(r) == opt_str(*o),
{
    match o {
        Some(s) => Some(s.clone()),
        None => None,
    }
}

pub struct AgentRun {
    pub id: String,
    pub project_id: String,
    pub session_id: String,
    pub agent_id: String,
    pub status: RunStatus,
    pub created_at: String,
    pub started_at: Option<String>,
    pub finished_at: Option<String>,
    pub exit_code: Option<i32>,
    pub input_tokens: usize,
    pub output_tokens: usize,
}

pub ghost struct RunView {
    pub id: Seq<char>,
    pub project_id: Seq<char>,
    pub session_id: Seq<char>,
    pub agent_id: Seq<char>,
    pub status: RunStatus,
    pub created_at: Seq<char>,
    pub started_at: Option<Seq<char>>,
    pub finished_at: Option<Seq<char>>,
    pub exit_code: Option<i32>,
    pub input_tokens: nat,
    pub output_tokens: nat,
}

impl View for AgentRun {
    type V = RunView;

    open spec fn view(&self) -> RunView {
        RunView {
            id: self.id@,
            project_id: self.project_id@,
            session_id: self.session_id@,
            agent_id: self.agent_id@,
            status: self.status,
            created_at: self.created_at@,
            started_at: opt_str(self.started_at),
            finished_at: opt_str(self.finished_at),
            exit_code: self.exit_code,
            input_tokens: self.input_tokens as nat,
            output_tokens: self.output_tokens as nat,
        }
    }
}

impl Clone for AgentRun {
    fn clone(&self) -> (r: Self)
        ensures
            r@ == self@,
    {
        AgentRun {
            id: self.id.clone(),
            project_id: self.project_id.clone(),
            session_id: self.session_id.clone(),
            agent_id: self.agent_id.clone(),
            status: self.status,
            created_at: self.created_at.clone(),
            started_at: clone_opt(&self.started_at),
            finished_at: clone_opt(&self.finished_at),
            exit_code: self.exit_code,
            input_tokens: self.input_tokens,
            output_tokens: self.output_tokens,
        }
    }
}

pub open spec fn run_views(v: Seq<AgentRun>) -> Seq<RunView> {
    v.map_values(|r: AgentRun| r@)
}

pub struct Session {
    pub id: String,
    pub project_id: String,
    pub title: String,
    pub agent_id: String,
    pub skill_ids: Vec<String>,
    pub status: RunStatus,
    pub created_at: String,
    pub updated_at: String,
    pub messages: Vec<Message>,
    pub run_ids: Vec<String>,
}

pub ghost struct SessionView {
    pub id: Seq<char>,
    pub project_id: Seq<char>,
    pub title: Seq<char>,
    pub agent_id: Seq<char>,
    pub skill_ids: Seq<Seq<char>>,
    pub status: RunStatus,
    pub created_at: Seq<char>,
    pub updated_at: Seq<char>,
    pub messages: Seq<MessageView>,
    pub run_ids: Seq<Seq<char>>,
}

impl View for Session {
    type V = SessionView;

    open spec fn view(&self) -> SessionView {
        SessionView {
            id: self.id@,
            project_id: self.project_id@,
            title: self.title@,
            agent_id: self.agent_id@,
            skill_ids: views(self.skill_ids@),
            status: self.status,
            created_at: self.created_at@,
            updated_at: self.updated_at@,
            messages: message_views(self.messages@),
            run_ids: views(self.run_ids@),
        }
    }
}

pub fn clone_strings(v: &Vec<String>) -> (r: Vec<String>)
    ensures
        views(r@) == views(v@),
{
    let r = v.clone();
    assert(views(r@) =~= views(v@));
    r
}

pub fn clone_messages(v: &Vec<Message>) -> (r: Vec<Message>)
    ensures
        message_views(r@) == message_views(v@),
{
    let mut out: Vec<Message> = Vec::new();
    let mut i: usize = 0;
    while i < v.len()
        invariant
            i <= v@.len(),
            message_views(out@) == message_views(v@).subrange(0, i as int),
        decreases v.len() - i,
    {
        let m = v[i].clone();
        assert(m@ == v@[i as int]@);
        let ghost before = out@;
        out.push(m);
        assert(out@ == before.push(m));
        assert(message_views(out@) =~= message_views(before).push(m@));
        i = i + 1;
        assert(message_views(out@) =~= message_views(v@).subrange(0, i as int));
    }
    assert(message_views(v@).subrange(0, v@.len() as int) =~= message_views(v@));
    out
}

impl Clone for Session {
    fn clone(&self) -> (r: Self)
        ensures
            r@ == self@,
    {
        Session {
            id: self.id.clone(),
            project_id: self.project_id.clone(),
            title: self.title.clone(),
            agent_id: self.agent_id.clone(),
            skill_ids: clone_strings(&self.skill_ids),
            status: self.status,
            created_at: self.created_at.clone(),
            updated_at: self.updated_at.clone(),
            messages: clone_messages(&self.messages),
            run_ids: clone_strings(&self.run_ids),
        }
    }
}

pub open spec fn session_views(v: Seq<Session>) -> Seq<SessionView> {
    v.map_values(|s: Session| s@)
}

/// An entry of a project's file tree.
pub struct FileNode {
    pub name: String,
    pub path: String,
    pub kind: String,
    pub children: Vec<FileNode>,
}

pub struct Project {
    pub id: String,
    pub name: String,
    pub path: String,
    pub created_at: String,
    pub updated_at: String,
    pub sessions: Vec<Session>,
    pub files: Vec<FileNode>,
}

pub ghost struct ProjectView {
    pub id: Seq<char>,
    pub name: Seq<char>,
    pub path: Seq<char>,
    pub created_at: Seq<char>,
    pub updated_at: Seq<char>,
    pub sessions: Seq<SessionView>,
    pub files: Seq<FileNode>,
}

impl View for Project {
    type V = ProjectView;

    open spec fn view(&self) -> ProjectView {
        ProjectView {
            id: self.id@,
            name: self.name@,
            path: self.path@,
            created_at: self.created_at@,
            updated_at: self.updated_at@,
            sessions: session_views(self.sessions@),
            files: self.files@,
        }
    }
}

pub open spec fn project_views(v: Seq<Project>) -> Seq<ProjectView> {
    v.map_values(|p: Project| p@)
}

/// How an agent is handed its prompt.
#[derive(Clone, Copy, Debug, PartialEq, Eq, Structural)]
pub enum InputMode {
    /// As the last positional argument.
    Arg,
    /// On standard input.
    Stdin,
    /// Not at all: the command is only started.
    NoPrompt,
}

/// A command-line agent that runs can be handed to.
#[derive(Clone)]
pub struct AgentConfig {
    pub id: String,
    pub label: String,
    pub command: String,
    pub args: Vec<String>,
    pub concurrency: usize,
    pub cwd: String,
    pub input_mode: Option<InputMode>,
    pub shell: Option<bool>,
    pub env: Vec<(String, String)>,
    pub capabilities: Option<Vec<String>>,
}

pub ghost struct ProviderView {
    pub id: Seq<char>,
    pub label: Seq<char>,
    pub command: Seq<char>,
    pub args: Seq<Seq<char>>,
    pub concurrency: nat,
}

impl View for AgentConfig {
    type V = ProviderView;

    open spec fn view(&self) -> ProviderView {
        ProviderView {
            id: self.id@,
            label: self.label@,
            command: self.command@,
            args: views(self.args@),
            concurrency: self.concurrency as nat,
        }
    }
}

pub open spec fn provider_views(v: Seq<AgentConfig>) -> Seq<ProviderView> {
    v.map_values(|p: AgentConfig| p@)
}

#[derive(Clone)]
pub struct Defaults {
    pub provider_id: String,
    pub max_global_concurrency: usize,
    pub workspace_root: String,
    pub skills_root: Option<String>,
}

#[derive(Clone)]
pub struct AppConfig {
    pub providers: Vec<AgentConfig>,
    pub defaults: Defaults,
}

/// A Markdown file of instructions that can be loaded into a session's prompt.
pub struct Skill {
    pub id: String,
    pub title: String,
    pub body: String,
    pub path: String,
}

pub ghost struct SkillView {
    pub id: Seq<char>,
    pub title: Seq<char>,
    pub body: Seq<char>,
    pub path: Seq<char>,
}

impl View for Skill {
    type V = SkillView;

    open spec fn view(&self) -> SkillView {
        SkillView { id: self.id@, title: self.title@, body: self.body@, path: self.path@ }
    }
}

impl Clone for Skill {
    fn clone(&self) -> (r: Self)
        ensures
            r@ == self@,
    {
        Skill {
            id: self.id.clone(),
            title: self.title.clone(),
            body: self.body.clone(),
            path: self.path.clone(),
        }
    }
}

pub open spec fn skill_views(v: Seq<Skill>) -> Seq<SkillView> {
    v.map_values(|s: Skill| s@)
}

} // verus!
