//! The workbench state: projects with their sessions, the runs handed to agents,
//! and what every user action and every agent event does to them.
use vstd::prelude::*;
use crate::model::{RunStatus, Message, MessageView, AgentRun, RunView, Session, SessionView, Project, ProjectView, ProviderView, SkillView, AppConfig, Skill, FileNode, opt_str, message_views, run_views, session_views, project_views, provider_views, skill_views};
use crate::text::{views, text_eq, owned, cat, rough_tokens, rough_tokens_of, is_blank, is_blank_str, trim, trim_seq, split_lines, lines_seq, take_chars, take_chars_seq, line_end, lemma_line_end_bounds, strip_cr};
use crate::clock::{now, short_id};
use crate::paths::{project_name, project_name_seq};

verus! {

pub ghost struct WorkbenchView {
    pub providers: Seq<ProviderView>,
    pub max_global_concurrency: nat,
    pub skills: Seq<SkillView>,
    pub projects: Seq<ProjectView>,
    pub runs: Seq<RunView>,
    pub active_project_id: Option<Seq<char>>,
    pub active_session_id: Option<Seq<char>>,
}

/// The whole runtime state of the workbench.
pub struct Workbench {
    pub config: AppConfig,
    pub skills: Vec<Skill>,
    pub projects: Vec<Project>,
    pub runs: Vec<AgentRun>,
    pub active_project_id: Option<String>,
    pub active_session_id: Option<String>,
}

impl View for Workbench {
    type V = WorkbenchView;

    open spec fn view(&self) -> WorkbenchView {
        WorkbenchView {
            providers: provider_views(self.config.providers@),
            max_global_concurrency: self.config.defaults.max_global_concurrency as nat,
            skills: skill_views(self.skills@),
            projects: project_views(self.projects@),
            runs: run_views(self.runs@),
            active_project_id: opt_str(self.active_project_id),
            active_session_id: opt_str(self.active_session_id),
        }
    }
}

/// First position at or after `i` of the project with id `pid`.
pub open spec fn project_index_from(ps: Seq<ProjectView>, pid: Seq<char>, i: int) -> Option<int>
    decreases ps.len() - i,
{
    if i < 0 || i >= ps.len() {
        None
    } else if ps[i].id == pid {
        Some(i)
    } else {
        project_index_from(ps, pid, i + 1)
    }
}

pub open spec fn project_index(ps: Seq<ProjectView>, pid: Seq<char>) -> Option<int> {
    project_index_from(ps, pid, 0)
}

/// First position at or after `i` of the session with id `sid`.
pub open spec fn session_index_from(ss: Seq<SessionView>, sid: Seq<char>, i: int) -> Option<int>
    decreases ss.len() - i,
{
    if i < 0 || i >= ss.len() {
        None
    } else if ss[i].id == sid {
        Some(i)
    } else {
        session_index_from(ss, sid, i + 1)
    }
}

pub open spec fn session_index(ss: Seq<SessionView>, sid: Seq<char>) -> Option<int> {
    session_index_from(ss, sid, 0)
}

/// First position at or after `i` of the run with id `id`.
pub open spec fn run_index_from(rs: Seq<RunView>, id: Seq<char>, i: int) -> Option<int>
    decreases rs.len() - i,
{
    if i < 0 || i >= rs.len() {
        None
    } else if rs[i].id == id {
        Some(i)
    } else {
        run_index_from(rs, id, i + 1)
    }
}

pub open spec fn run_index(rs: Seq<RunView>, id: Seq<char>) -> Option<int> {
    run_index_from(rs, id, 0)
}

/// First position at or after `i` of the provider with id `id`.
pub open spec fn provider_index_from(ps: Seq<ProviderView>, id: Seq<char>, i: int) -> Option<int>
    decreases ps.len() - i,
{
    if i < 0 || i >= ps.len() {
        None
    } else if ps[i].id == id {
        Some(i)
    } else {
        provider_index_from(ps, id, i + 1)
    }
}

pub open spec fn provider_index(ps: Seq<ProviderView>, id: Seq<char>) -> Option<int> {
    provider_index_from(ps, id, 0)
}

/// Where the session `sid` of project `pid` stands: the project's position and
/// the session's position in it.
pub open spec fn session_location(w: WorkbenchView, pid: Seq<char>, sid: Seq<char>) -> Option<(int, int)> {
    match project_index(w.projects, pid) {
        Some(pi) => match session_index(w.projects[pi].sessions, sid) {
            Some(si) => Some((pi, si)),
            None => None,
        },
        None => None,
    }
}

/// The state with the session at `(pi, si)` replaced.
pub open spec fn with_session(w: WorkbenchView, pi: int, si: int, s: SessionView) -> WorkbenchView {
    WorkbenchView {
        projects: w.projects.update(
            pi,
            ProjectView { sessions: w.projects[pi].sessions.update(si, s), ..w.projects[pi] },
        ),
        ..w
    }
}

/// The state with the run at `ri` replaced.
pub open spec fn with_run(w: WorkbenchView, ri: int, r: RunView) -> WorkbenchView {
    WorkbenchView { runs: w.runs.update(ri, r), ..w }
}

/// A session with a new status.
pub open spec fn with_status(s: SessionView, status: RunStatus, updated_at: Seq<char>) -> SessionView {
    SessionView { status, updated_at, ..s }
}

/// A session with one more message.
pub open spec fn with_message(s: SessionView, m: MessageView, updated_at: Seq<char>) -> SessionView {
    SessionView { messages: s.messages.push(m), updated_at, ..s }
}

/// A session after output of `role` arrived: added to the last message when
/// that one has the same role, else a message of its own.
pub open spec fn with_output(
    s: SessionView,
    role: Seq<char>,
    content: Seq<char>,
    id: Seq<char>,
    created_at: Seq<char>,
    updated_at: Seq<char>,
) -> SessionView {
    if s.messages.len() > 0 && s.messages.last().role == role {
        let last = s.messages.last();
        SessionView {
            messages: s.messages.update(
                s.messages.len() - 1,
                MessageView { content: last.content + content, ..last },
            ),
            updated_at,
            ..s
        }
    } else {
        with_message(s, MessageView { id, role, content, created_at }, updated_at)
    }
}

pub proof fn lemma_project_index(ps: Seq<ProjectView>, pid: Seq<char>, i: int)
    requires
        0 <= i,
    ensures
        match project_index_from(ps, pid, i) {
            Some(k) => i <= k < ps.len() && ps[k].id == pid && forall|j: int|
                i <= j < k ==> #[trigger] ps[j].id != pid,
            None => forall|j: int| i <= j < ps.len() ==> #[trigger] ps[j].id != pid,
        },
    decreases ps.len() - i,
{
    if i < ps.len() && ps[i].id != pid {
        lemma_project_index(ps, pid, i + 1);
    }
}

pub proof fn lemma_session_index(ss: Seq<SessionView>, sid: Seq<char>, i: int)
    requires
        0 <= i,
    ensures
        match session_index_from(ss, sid, i) {
            Some(k) => i <= k < ss.len() && ss[k].id == sid && forall|j: int|
                i <= j < k ==> #[trigger] ss[j].id != sid,
            None => forall|j: int| i <= j < ss.len() ==> #[trigger] ss[j].id != sid,
        },
    decreases ss.len() - i,
{
    if i < ss.len() && ss[i].id != sid {
        lemma_session_index(ss, sid, i + 1);
    }
}

pub proof fn lemma_run_index(rs: Seq<RunView>, id: Seq<char>, i: int)
    requires
        0 <= i,
    ensures
        match run_index_from(rs, id, i) {
            Some(k) => i <= k < rs.len() && rs[k].id == id && forall|j: int|
                i <= j < k ==> #[trigger] rs[j].id != id,
            None => forall|j: int| i <= j < rs.len() ==> #[trigger] rs[j].id != id,
        },
    decreases rs.len() - i,
{
    if i < rs.len() && rs[i].id != id {
        lemma_run_index(rs, id, i + 1);
    }
}

pub proof fn lemma_provider_index(ps: Seq<ProviderView>, id: Seq<char>, i: int)
    requires
        0 <= i,
    ensures
        match provider_index_from(ps, id, i) {
            Some(k) => i <= k < ps.len() && ps[k].id == id && forall|j: int|
                i <= j < k ==> #[trigger] ps[j].id != id,
            None => forall|j: int| i <= j < ps.len() ==> #[trigger] ps[j].id != id,
        },
    decreases ps.len() - i,
{
    if i < ps.len() && ps[i].id != id {
        lemma_provider_index(ps, id, i + 1);
    }
}

pub proof fn lemma_session_location(w: WorkbenchView, pid: Seq<char>, sid: Seq<char>)
    ensures
        session_location(w, pid, sid) matches Some(loc) ==> {
            &&& 0 <= loc.0 < w.projects.len()
            &&& 0 <= loc.1 < w.projects[loc.0].sessions.len()
            &&& w.projects[loc.0].id == pid
            &&& w.projects[loc.0].sessions[loc.1].id == sid
        },
{
    lemma_project_index(w.projects, pid, 0);
    if let Some(pi) = project_index(w.projects, pid) {
        lemma_session_index(w.projects[pi].sessions, sid, 0);
    }
}

/// No two projects share an id.
pub open spec fn project_ids_unique(ps: Seq<ProjectView>) -> bool {
    forall|i: int, j: int|
        #![trigger ps[i].id, ps[j].id]
        0 <= i < ps.len() && 0 <= j < ps.len() && i != j ==> ps[i].id != ps[j].id
}

/// No two runs share an id.
pub open spec fn run_ids_unique(rs: Seq<RunView>) -> bool {
    forall|i: int, j: int|
        #![trigger rs[i].id, rs[j].id]
        0 <= i < rs.len() && 0 <= j < rs.len() && i != j ==> rs[i].id != rs[j].id
}

impl WorkbenchView {
    /// The invariant of the workbench: projects and runs are keyed by their ids,
    /// so no id occurs twice among the projects, nor among the runs.
    pub open spec fn wf(self) -> bool {
        project_ids_unique(self.projects) && run_ids_unique(self.runs)
    }
}

/// `w2` has the projects and runs of `w`, with the same ids at the same places.
pub open spec fn same_ids(w: WorkbenchView, w2: WorkbenchView) -> bool {
    &&& w2.projects.len() == w.projects.len()
    &&& forall|i: int| 0 <= i < w.projects.len() ==> #[trigger] w2.projects[i].id == w.projects[i].id
    &&& w2.runs.len() == w.runs.len()
    &&& forall|i: int| 0 <= i < w.runs.len() ==> #[trigger] w2.runs[i].id == w.runs[i].id
}

/// Among projects with distinct ids, the project found by the id of the one
/// at `i` is that one.
pub proof fn lemma_unique_project_index(ps: Seq<ProjectView>, i: int)
    requires
        project_ids_unique(ps),
        0 <= i < ps.len(),
    ensures
        project_index(ps, ps[i].id) == Some(i),
{
    lemma_project_index(ps, ps[i].id, 0);
    if let Some(k) = project_index(ps, ps[i].id) {
        if k != i {
            assert(ps[k].id != ps[i].id);
        }
    }
}

/// Saved entries of projects, each with the key it was saved under.
pub open spec fn project_entries(v: Seq<(String, Project)>) -> Seq<(Seq<char>, ProjectView)> {
    v.map_values(|e: (String, Project)| (e.0@, e.1@))
}

/// Saved entries of runs, each with the key it was saved under.
pub open spec fn run_entries(v: Seq<(String, AgentRun)>) -> Seq<(Seq<char>, RunView)> {
    v.map_values(|e: (String, AgentRun)| (e.0@, e.1@))
}

/// The projects that a map keyed by project id holds once the entries are put
/// into it in order: an entry whose key is there already takes the place of
/// that project, any other comes at the end. The key is the project's id.
pub open spec fn keyed_projects(es: Seq<(Seq<char>, ProjectView)>) -> Seq<ProjectView>
    decreases es.len(),
{
    if es.len() == 0 {
        Seq::empty()
    } else {
        let kept = keyed_projects(es.drop_last());
        let q = ProjectView { id: es.last().0, ..es.last().1 };
        match project_index(kept, es.last().0) {
            Some(i) => kept.update(i, q),
            None => kept.push(q),
        }
    }
}

/// The runs that a map keyed by run id holds once the entries are put into
/// it in order, as for projects.
pub open spec fn keyed_runs(es: Seq<(Seq<char>, RunView)>) -> Seq<RunView>
    decreases es.len(),
{
    if es.len() == 0 {
        Seq::empty()
    } else {
        let kept = keyed_runs(es.drop_last());
        let q = RunView { id: es.last().0, ..es.last().1 };
        match run_index(kept, es.last().0) {
            Some(i) => kept.update(i, q),
            None => kept.push(q),
        }
    }
}

proof fn lemma_push_new_project(ps: Seq<ProjectView>, p: ProjectView)
    requires
        project_ids_unique(ps),
        project_index(ps, p.id) is None,
    ensures
        project_ids_unique(ps.push(p)),
{
    lemma_project_index(ps, p.id, 0);
    let qs = ps.push(p);
    assert forall|i: int, j: int|
        0 <= i < qs.len() && 0 <= j < qs.len() && i != j implies #[trigger] qs[i].id != #[trigger] qs[j].id by {
        if i < ps.len() && j < ps.len() {
            assert(qs[i] == ps[i] && qs[j] == ps[j]);
        } else if i < ps.len() {
            assert(qs[i] == ps[i]);
        } else {
            assert(qs[j] == ps[j]);
        }
    }
}

proof fn lemma_push_new_run(rs: Seq<RunView>, r: RunView)
    requires
        run_ids_unique(rs),
        run_index(rs, r.id) is None,
    ensures
        run_ids_unique(rs.push(r)),
{
    lemma_run_index(rs, r.id, 0);
    let qs = rs.push(r);
    assert forall|i: int, j: int|
        0 <= i < qs.len() && 0 <= j < qs.len() && i != j implies #[trigger] qs[i].id != #[trigger] qs[j].id by {
        if i < rs.len() && j < rs.len() {
            assert(qs[i] == rs[i] && qs[j] == rs[j]);
        } else if i < rs.len() {
            assert(qs[i] == rs[i]);
        } else {
            assert(qs[j] == rs[j]);
        }
    }
}

/// A state with the ids of a well-formed state is well-formed.
pub proof fn lemma_same_ids_wf(w: WorkbenchView, w2: WorkbenchView)
    requires
        same_ids(w, w2),
        w.wf(),
    ensures
        w2.wf(),
{
    assert forall|i: int, j: int|
        0 <= i < w2.projects.len() && 0 <= j < w2.projects.len() && i != j implies #[trigger] w2.projects[i].id
        != #[trigger] w2.projects[j].id by {
        assert(w2.projects[i].id == w.projects[i].id);
        assert(w2.projects[j].id == w.projects[j].id);
    }
    assert forall|i: int, j: int|
        0 <= i < w2.runs.len() && 0 <= j < w2.runs.len() && i != j implies #[trigger] w2.runs[i].id
        != #[trigger] w2.runs[j].id by {
        assert(w2.runs[i].id == w.runs[i].id);
        assert(w2.runs[j].id == w.runs[j].id);
    }
}

/// The session at a location.
pub open spec fn session_at(w: WorkbenchView, loc: (int, int)) -> SessionView {
    w.projects[loc.0].sessions[loc.1]
}

impl Workbench {
    /// The workbench put together from saved maps of projects and runs, given
    /// as their entries, each keyed by id. Each entry goes in as a map puts it:
    /// under its key, which is the id it has here, in place of an entry with
    /// the same key.
    pub fn restore(
        config: AppConfig,
        skills: Vec<Skill>,
        projects: Vec<(String, Project)>,
        runs: Vec<(String, AgentRun)>,
        active_project_id: Option<String>,
        active_session_id: Option<String>,
    ) -> (w: Workbench)
        ensures
            w@.wf(),
            w.config == config,
            w.skills == skills,
            w@.projects == keyed_projects(project_entries(projects@)),
            w@.runs == keyed_runs(run_entries(runs@)),
            w.active_project_id == active_project_id,
            w.active_session_id == active_session_id,
    {
        let ghost ps = project_entries(projects@);
        let ghost rs = run_entries(runs@);
        let mut w = Workbench {
            config,
            skills,
            projects: Vec::new(),
            runs: Vec::new(),
            active_project_id,
            active_session_id,
        };
        proof {
            assert(project_views(w.projects@) =~= keyed_projects(ps.take(0)));
            assert(run_views(w.runs@) =~= Seq::<RunView>::empty());
        }
        let mut rest = projects;
        let ghost mut i: int = 0;
        while rest.len() > 0
            invariant
                0 <= i <= ps.len(),
                project_entries(rest@) == ps.skip(i),
                rest@.len() == ps.len() - i,
                w@.projects == keyed_projects(ps.take(i)),
                project_ids_unique(w@.projects),
                w@.runs.len() == 0,
                w.config == config,
                w.skills == skills,
                w.active_project_id == active_project_id,
                w.active_session_id == active_session_id,
            decreases rest.len(),
        {
            let ghost before = rest@;
            let (key, mut p) = rest.remove(0);
            proof {
                assert(project_entries(before)[0] == (key@, p@));
                assert(project_entries(rest@) =~= project_entries(before).skip(1));
                assert(ps.skip(i)[0] == (key@, p@));
                assert(ps.take(i + 1).drop_last() =~= ps.take(i));
                assert(project_entries(rest@) =~= ps.skip(i + 1));
            }
            p.id = key;
            let ghost kept = w@.projects;
            let ghost pv = p@;
            match w.find_project(p.id.as_str()) {
                Some(at) => {
                    proof {
                        lemma_project_index(kept, pv.id, 0);
                    }
                    w.projects[at] = p;
                    proof {
                        assert(project_views(w.projects@) =~= kept.update(at as int, pv));
                        assert forall|a: int, b: int|
                            0 <= a < w@.projects.len() && 0 <= b < w@.projects.len() && a != b implies #[trigger] w@.projects[a].id
                            != #[trigger] w@.projects[b].id by {
                            assert(w@.projects[a].id == kept[a].id);
                            assert(w@.projects[b].id == kept[b].id);
                        }
                    }
                },
                None => {
                    w.projects.push(p);
                    proof {
                        assert(project_views(w.projects@) =~= kept.push(pv));
                        lemma_push_new_project(kept, pv);
                    }
                },
            }
            proof {
                i = i + 1;
            }
        }
        proof {
            assert(ps.take(i) =~= ps);
        }
        let mut rest = runs;
        let ghost mut k: int = 0;
        while rest.len() > 0
            invariant
                0 <= k <= rs.len(),
                run_entries(rest@) == rs.skip(k),
                rest@.len() == rs.len() - k,
                w@.runs == keyed_runs(rs.take(k)),
                run_ids_unique(w@.runs),
                w@.projects == keyed_projects(ps),
                project_ids_unique(w@.projects),
                w.config == config,
                w.skills == skills,
                w.active_project_id == active_project_id,
                w.active_session_id == active_session_id,
            decreases rest.len(),
        {
            let ghost before = rest@;
            let (key, mut r) = rest.remove(0);
            proof {
                assert(run_entries(before)[0] == (key@, r@));
                assert(run_entries(rest@) =~= run_entries(before).skip(1));
                assert(rs.skip(k)[0] == (key@, r@));
                assert(rs.take(k + 1).drop_last() =~= rs.take(k));
                assert(run_entries(rest@) =~= rs.skip(k + 1));
            }
            r.id = key;
            let ghost kept = w@.runs;
            let ghost rv = r@;
            match w.find_run(r.id.as_str()) {
                Some(at) => {
                    proof {
                        lemma_run_index(kept, rv.id, 0);
                    }
                    w.runs[at] = r;
                    proof {
                        assert(run_views(w.runs@) =~= kept.update(at as int, rv));
                        assert forall|a: int, b: int|
                            0 <= a < w@.runs.len() && 0 <= b < w@.runs.len() && a != b implies #[trigger] w@.runs[a].id
                            != #[trigger] w@.runs[b].id by {
                            assert(w@.runs[a].id == kept[a].id);
                            assert(w@.runs[b].id == kept[b].id);
                        }
                    }
                },
                None => {
                    w.runs.push(r);
                    proof {
                        assert(run_views(w.runs@) =~= kept.push(rv));
                        lemma_push_new_run(kept, rv);
                    }
                },
            }
            proof {
                k = k + 1;
            }
        }
        proof {
            assert(rs.take(k) =~= rs);
        }
        w
    }

    /// Position of the project with this id.
    pub fn find_project(&self, project_id: &str) -> (r: Option<usize>)
        ensures
            match r {
                Some(i) => project_index(self@.projects, project_id@) == Some(i as int),
                None => project_index(self@.projects, project_id@) is None,
            },
    {
        let mut i: usize = 0;
        while i < self.projects.len()
            invariant
                i <= self.projects@.len(),
                project_index(self@.projects, project_id@) == project_index_from(
                    self@.projects,
                    project_id@,
                    i as int,
                ),
            decreases self.projects.len() - i,
        {
            if text_eq(self.projects[i].id.as_str(), project_id) {
                return Some(i);
            }
            i = i + 1;
        }
        None
    }

    /// Position of the run with this id.
    pub fn find_run(&self, run_id: &str) -> (r: Option<usize>)
        ensures
            match r {
                Some(i) => run_index(self@.runs, run_id@) == Some(i as int),
                None => run_index(self@.runs, run_id@) is None,
            },
    {
        let mut i: usize = 0;
        while i < self.runs.len()
            invariant
                i <= self.runs@.len(),
                run_index(self@.runs, run_id@) == run_index_from(self@.runs, run_id@, i as int),
            decreases self.runs.len() - i,
        {
            if text_eq(self.runs[i].id.as_str(), run_id) {
                return Some(i);
            }
            i = i + 1;
        }
        None
    }

    /// Position of the provider with this id.
    pub fn find_provider(&self, provider_id: &str) -> (r: Option<usize>)
        ensures
            match r {
                Some(i) => provider_index(self@.providers, provider_id@) == Some(i as int),
                None => provider_index(self@.providers, provider_id@) is None,
            },
    {
        let mut i: usize = 0;
        while i < self.config.providers.len()
            invariant
                i <= self.config.providers@.len(),
                provider_index(self@.providers, provider_id@) == provider_index_from(
                    self@.providers,
                    provider_id@,
                    i as int,
                ),
            decreases self.config.providers.len() - i,
        {
            if text_eq(self.config.providers[i].id.as_str(), provider_id) {
                return Some(i);
            }
            i = i + 1;
        }
        None
    }

    /// Where the session `session_id` of project `project_id` stands.
    pub fn find_session(&self, project_id: &str, session_id: &str) -> (r: Option<(usize, usize)>)
        ensures
            match r {
                Some((pi, si)) => session_location(self@, project_id@, session_id@) == Some(
                    (pi as int, si as int),
                ),
                None => session_location(self@, project_id@, session_id@) is None,
            },
    {
        let pi = match self.find_project(project_id) {
            Some(pi) => pi,
            None => {
                return None;
            },
        };
        proof {
            lemma_project_index(self@.projects, project_id@, 0);
        }
        let sessions = &self.projects[pi].sessions;
        let ghost ss = self@.projects[pi as int].sessions;
        let mut si: usize = 0;
        while si < sessions.len()
            invariant
                si <= sessions@.len(),
                ss == session_views(sessions@),
                pi < self@.projects.len(),
                ss == self@.projects[pi as int].sessions,
                project_index(self@.projects, project_id@) == Some(pi as int),
                session_index(ss, session_id@) == session_index_from(ss, session_id@, si as int),
            decreases sessions.len() - si,
        {
            if text_eq(sessions[si].id.as_str(), session_id) {
                return Some((pi, si));
            }
            si = si + 1;
        }
        None
    }

    /// Sets the status of a session and stamps it; nothing happens when there
    /// is no such session.
    pub fn set_session_status(&mut self, project_id: &str, session_id: &str, status: RunStatus)
        ensures
            match session_location(old(self)@, project_id@, session_id@) {
                Some(loc) => final(self)@ == with_session(
                    old(self)@,
                    loc.0,
                    loc.1,
                    with_status(
                        session_at(old(self)@, loc),
                        status,
                        session_at(final(self)@, loc).updated_at,
                    ),
                ),
                None => final(self)@ == old(self)@,
            },
            final(self).config == old(self).config,
            same_ids(old(self)@, final(self)@),
            old(self)@.wf() ==> final(self)@.wf(),
    {
        let stamp = now();
        self.set_session_status_at(project_id, session_id, status, stamp.as_str())
    }

    /// As `set_session_status`, with `stamp` as the time of every stamp it sets.
    pub fn set_session_status_at(&mut self, project_id: &str, session_id: &str, status: RunStatus, stamp: &str)
        ensures
            match session_location(old(self)@, project_id@, session_id@) {
                Some(loc) => final(self)@ == with_session(
                    old(self)@,
                    loc.0,
                    loc.1,
                    with_status(
                        session_at(old(self)@, loc),
                        status,
                        session_at(final(self)@, loc).updated_at,
                    ),
                ),
                None => final(self)@ == old(self)@,
            },
            final(self).config == old(self).config,
            same_ids(old(self)@, final(self)@),
            old(self)@.wf() ==> final(self)@.wf(),
            session_location(old(self)@, project_id@, session_id@) matches Some(loc) ==> session_at(final(self)@, loc).updated_at == stamp@,
    {
        if let Some((pi, si)) = self.find_session(project_id, session_id) {
            proof {
                lemma_session_location(self@, project_id@, session_id@);
            }
            self.projects[pi].sessions[si].status = status;
            self.projects[pi].sessions[si].updated_at = owned(stamp);
            proof {
                let loc = (pi as int, si as int);
                assert(session_views(self.projects@[pi as int].sessions@) =~= old(self)@.projects[pi as int].sessions.update(
                    si as int,
                    with_status(session_at(old(self)@, loc), status, session_at(self@, loc).updated_at),
                ));
                assert(project_views(self.projects@) =~= with_session(
                    old(self)@,
                    loc.0,
                    loc.1,
                    with_status(session_at(old(self)@, loc), status, session_at(self@, loc).updated_at),
                ).projects);
            }
        }
    }

    /// Adds a message to a session and stamps it; nothing happens when there
    /// is no such session.
    pub fn push_session_message(&mut self, project_id: &str, session_id: &str, role: &str, content: String)
        ensures
            match session_location(old(self)@, project_id@, session_id@) {
                Some(loc) => {
                    let s = session_at(final(self)@, loc);
                    &&& s.messages.len() > 0
                    &&& s.messages.last().id.len() == 10
                    &&& final(self)@ == with_session(
                        old(self)@,
                        loc.0,
                        loc.1,
                        with_message(
                            session_at(old(self)@, loc),
                            MessageView {
                                id: s.messages.last().id,
                                role: role@,
                                content: content@,
                                created_at: s.messages.last().created_at,
                            },
                            s.updated_at,
                        ),
                    )
                },
                None => final(self)@ == old(self)@,
            },
            final(self).config == old(self).config,
            same_ids(old(self)@, final(self)@),
            old(self)@.wf() ==> final(self)@.wf(),
    {
        let stamp = now();
        self.push_session_message_at(project_id, session_id, role, content, stamp.as_str())
    }

    /// As `push_session_message`, with `stamp` as the time of every stamp it sets.
    pub fn push_session_message_at(&mut self, project_id: &str, session_id: &str, role: &str, content: String, stamp: &str)
        ensures
            match session_location(old(self)@, project_id@, session_id@) {
                Some(loc) => {
                    let s = session_at(final(self)@, loc);
                    &&& s.messages.len() > 0
                    &&& s.messages.last().id.len() == 10
                    &&& final(self)@ == with_session(
                        old(self)@,
                        loc.0,
                        loc.1,
                        with_message(
                            session_at(old(self)@, loc),
                            MessageView {
                                id: s.messages.last().id,
                                role: role@,
                                content: content@,
                                created_at: s.messages.last().created_at,
                            },
                            s.updated_at,
                        ),
                    )
                },
                None => final(self)@ == old(self)@,
            },
            final(self).config == old(self).config,
            same_ids(old(self)@, final(self)@),
            old(self)@.wf() ==> final(self)@.wf(),
            session_location(old(self)@, project_id@, session_id@) matches Some(loc) ==> session_at(final(self)@, loc).updated_at == stamp@
                && session_at(final(self)@, loc).messages.last().created_at == stamp@,
    {
        if let Some((pi, si)) = self.find_session(project_id, session_id) {
            proof {
                lemma_session_location(self@, project_id@, session_id@);
            }
            let msg = Message { id: short_id(), role: owned(role), content, created_at: owned(stamp) };
            let ghost mv = msg@;
            self.projects[pi].sessions[si].messages.push(msg);
            self.projects[pi].sessions[si].updated_at = owned(stamp);
            proof {
                let loc = (pi as int, si as int);
                let s = session_at(self@, loc);
                assert(message_views(self.projects@[pi as int].sessions@[si as int].messages@)
                    =~= message_views(old(self).projects@[pi as int].sessions@[si as int].messages@).push(mv));
                let ns = with_message(session_at(old(self)@, loc), mv, s.updated_at);
                assert(session_views(self.projects@[pi as int].sessions@) =~= old(self)@.projects[pi as int].sessions.update(
                    si as int,
                    ns,
                ));
                assert(project_views(self.projects@) =~= with_session(old(self)@, loc.0, loc.1, ns).projects);
            }
        }
    }

    /// Adds output of `role` to a session: to its last message when that one
    /// has the same role, else as a message of its own; nothing happens when
    /// there is no such session.
    pub fn append_session_output(&mut self, project_id: &str, session_id: &str, role: &str, content: &str)
        ensures
            match session_location(old(self)@, project_id@, session_id@) {
                Some(loc) => {
                    let s = session_at(final(self)@, loc);
                    &&& s.messages.len() > 0
                    &&& final(self)@ == with_session(
                        old(self)@,
                        loc.0,
                        loc.1,
                        with_output(
                            session_at(old(self)@, loc),
                            role@,
                            content@,
                            s.messages.last().id,
                            s.messages.last().created_at,
                            s.updated_at,
                        ),
                    )
                },
                None => final(self)@ == old(self)@,
            },
            final(self).config == old(self).config,
            same_ids(old(self)@, final(self)@),
            old(self)@.wf() ==> final(self)@.wf(),
    {
        let stamp = now();
        self.append_session_output_at(project_id, session_id, role, content, stamp.as_str())
    }

    /// As `append_session_output`, with `stamp` as the time of every stamp it sets.
    pub fn append_session_output_at(&mut self, project_id: &str, session_id: &str, role: &str, content: &str, stamp: &str)
        ensures
            match session_location(old(self)@, project_id@, session_id@) {
                Some(loc) => {
                    let s = session_at(final(self)@, loc);
                    &&& s.messages.len() > 0
                    &&& final(self)@ == with_session(
                        old(self)@,
                        loc.0,
                        loc.1,
                        with_output(
                            session_at(old(self)@, loc),
                            role@,
                            content@,
                            s.messages.last().id,
                            s.messages.last().created_at,
                            s.updated_at,
                        ),
                    )
                },
                None => final(self)@ == old(self)@,
            },
            final(self).config == old(self).config,
            same_ids(old(self)@, final(self)@),
            old(self)@.wf() ==> final(self)@.wf(),
            session_location(old(self)@, project_id@, session_id@) matches Some(loc) ==> session_at(final(self)@, loc) == with_output(
                session_at(old(self)@, loc),
                role@,
                content@,
                session_at(final(self)@, loc).messages.last().id,
                stamp@,
                stamp@,
            ),
    {
        if let Some((pi, si)) = self.find_session(project_id, session_id) {
            proof {
                lemma_session_location(self@, project_id@, session_id@);
            }
            let n = self.projects[pi].sessions[si].messages.len();
            if n > 0 && text_eq(self.projects[pi].sessions[si].messages[n - 1].role.as_str(), role) {
                let joined = cat(self.projects[pi].sessions[si].messages[n - 1].content.as_str(), content);
                self.projects[pi].sessions[si].messages[n - 1].content = joined;
                self.projects[pi].sessions[si].updated_at = owned(stamp);
                proof {
                    let loc = (pi as int, si as int);
                    let s = session_at(self@, loc);
                    let os = session_at(old(self)@, loc);
                    let ns = with_output(os, role@, content@, s.messages.last().id, s.messages.last().created_at, s.updated_at);
                    assert(message_views(self.projects@[pi as int].sessions@[si as int].messages@) =~= ns.messages);
                    assert(session_views(self.projects@[pi as int].sessions@) =~= old(self)@.projects[pi as int].sessions.update(
                        si as int,
                        ns,
                    ));
                    assert(project_views(self.projects@) =~= with_session(old(self)@, loc.0, loc.1, ns).projects);
                }
            } else {
                let msg = Message { id: short_id(), role: owned(role), content: owned(content), created_at: owned(stamp) };
                let ghost mv = msg@;
                self.projects[pi].sessions[si].messages.push(msg);
                self.projects[pi].sessions[si].updated_at = owned(stamp);
                proof {
                    let loc = (pi as int, si as int);
                    let s = session_at(self@, loc);
                    let os = session_at(old(self)@, loc);
                    assert(message_views(self.projects@[pi as int].sessions@[si as int].messages@)
                        =~= message_views(old(self).projects@[pi as int].sessions@[si as int].messages@).push(mv));
                    let ns = with_output(os, role@, content@, s.messages.last().id, s.messages.last().created_at, s.updated_at);
                    assert(session_views(self.projects@[pi as int].sessions@) =~= old(self)@.projects[pi as int].sessions.update(
                        si as int,
                        ns,
                    ));
                    assert(project_views(self.projects@) =~= with_session(old(self)@, loc.0, loc.1, ns).projects);
                }
            }
        }
    }

    /// Marks a run as failed, and its session too, with a system message that
    /// says why (used when no provider serves the run).
    pub fn fail_run(&mut self, run: &AgentRun, text: &str)
        ensures
            ({
                let after_run = match run_index(old(self)@.runs, run.id@) {
                    Some(ri) => with_run(
                        old(self)@,
                        ri,
                        RunView {
                            status: RunStatus::Failed,
                            finished_at: final(self)@.runs[ri].finished_at,
                            ..old(self)@.runs[ri]
                        },
                    ),
                    None => old(self)@,
                };
                &&& (run_index(old(self)@.runs, run.id@) matches Some(ri) ==> final(self)@.runs[ri].finished_at is Some)
                &&& match session_location(old(self)@, run.project_id@, run.session_id@) {
                    Some(loc) => {
                        let s = session_at(final(self)@, loc);
                        final(self)@ == with_session(
                            after_run,
                            loc.0,
                            loc.1,
                            with_message(
                                with_status(session_at(old(self)@, loc), RunStatus::Failed, s.updated_at),
                                MessageView {
                                    id: s.messages.last().id,
                                    role: "system"@,
                                    content: text@,
                                    created_at: s.messages.last().created_at,
                                },
                                s.updated_at,
                            ),
                        )
                    },
                    None => final(self)@ == after_run,
                }
            }),
            final(self).config == old(self).config,
            same_ids(old(self)@, final(self)@),
            old(self)@.wf() ==> final(self)@.wf(),
    {
        let stamp = now();
        self.fail_run_at(run, text, stamp.as_str())
    }

    /// As `fail_run`, with `stamp` as the time of every stamp it sets.
    pub fn fail_run_at(&mut self, run: &AgentRun, text: &str, stamp: &str)
        ensures
            ({
                let after_run = match run_index(old(self)@.runs, run.id@) {
                    Some(ri) => with_run(
                        old(self)@,
                        ri,
                        RunView {
                            status: RunStatus::Failed,
                            finished_at: final(self)@.runs[ri].finished_at,
                            ..old(self)@.runs[ri]
                        },
                    ),
                    None => old(self)@,
                };
                &&& (run_index(old(self)@.runs, run.id@) matches Some(ri) ==> final(self)@.runs[ri].finished_at is Some)
                &&& match session_location(old(self)@, run.project_id@, run.session_id@) {
                    Some(loc) => {
                        let s = session_at(final(self)@, loc);
                        final(self)@ == with_session(
                            after_run,
                            loc.0,
                            loc.1,
                            with_message(
                                with_status(session_at(old(self)@, loc), RunStatus::Failed, s.updated_at),
                                MessageView {
                                    id: s.messages.last().id,
                                    role: "system"@,
                                    content: text@,
                                    created_at: s.messages.last().created_at,
                                },
                                s.updated_at,
                            ),
                        )
                    },
                    None => final(self)@ == after_run,
                }
            }),
            final(self).config == old(self).config,
            same_ids(old(self)@, final(self)@),
            old(self)@.wf() ==> final(self)@.wf(),
            run_index(old(self)@.runs, run.id@) matches Some(ri) ==> final(self)@.runs[ri].finished_at == Some(stamp@),
            session_location(old(self)@, run.project_id@, run.session_id@) matches Some(loc) ==> session_at(final(self)@, loc).updated_at == stamp@
                && session_at(final(self)@, loc).messages.last().created_at == stamp@,
    {
        if let Some(ri) = self.find_run(run.id.as_str()) {
            proof {
                lemma_run_index(self@.runs, run.id@, 0);
            }
            self.runs[ri].status = RunStatus::Failed;
            self.runs[ri].finished_at = Some(owned(stamp));
            proof {
                let ri = ri as int;
                assert(run_views(self.runs@) =~= with_run(
                    old(self)@,
                    ri,
                    RunView { status: RunStatus::Failed, finished_at: self@.runs[ri].finished_at, ..old(self)@.runs[ri] },
                ).runs);
            }
        }
        let ghost mid = self@;
        self.set_session_status_at(run.project_id.as_str(), run.session_id.as_str(), RunStatus::Failed, stamp);
        let ghost mid2 = self@;
        proof {
            lemma_session_location(mid, run.project_id@, run.session_id@);
            if let Some(loc) = session_location(mid, run.project_id@, run.session_id@) {
                lemma_location_preserved(mid, mid2, run.project_id@, run.session_id@, loc);
            }
        }
        self.push_session_message_at(run.project_id.as_str(), run.session_id.as_str(), "system", owned(text), stamp);
        proof {
            assert(mid.runs == self@.runs);
            if let Some(loc) = session_location(mid, run.project_id@, run.session_id@) {
                let s = session_at(self@, loc);
                let m = MessageView {
                    id: s.messages.last().id,
                    role: "system"@,
                    content: text@,
                    created_at: s.messages.last().created_at,
                };
                let a = with_status(session_at(mid, loc), RunStatus::Failed, session_at(mid2, loc).updated_at);
                let b = with_message(a, m, s.updated_at);
                let b2 = with_message(
                    with_status(session_at(old(self)@, loc), RunStatus::Failed, s.updated_at),
                    m,
                    s.updated_at,
                );
                assert(b == b2);
                lemma_with_session_twice(mid, loc.0, loc.1, a, b);
            }
        }
    }

    /// A run with a new status, finish time and exit code, and its session
    /// with the same status: the common part of cancelling and finishing.
    fn close_run(&mut self, ri: usize, status: RunStatus, exit_code: Option<i32>, stamp: &str) -> (r: AgentRun)
        requires
            ri < old(self)@.runs.len(),
        ensures
            ({
                let after_run = with_run(
                    old(self)@,
                    ri as int,
                    RunView {
                        status,
                        exit_code,
                        finished_at: final(self)@.runs[ri as int].finished_at,
                        ..old(self)@.runs[ri as int]
                    },
                );
                let old_run = old(self)@.runs[ri as int];
                &&& final(self)@.runs[ri as int].finished_at is Some
                &&& r@ == final(self)@.runs[ri as int]
                &&& match session_location(old(self)@, old_run.project_id, old_run.session_id) {
                    Some(loc) => final(self)@ == with_session(
                        after_run,
                        loc.0,
                        loc.1,
                        with_status(session_at(old(self)@, loc), status, session_at(final(self)@, loc).updated_at),
                    ),
                    None => final(self)@ == after_run,
                }
            }),
            final(self).config == old(self).config,
            same_ids(old(self)@, final(self)@),
            old(self)@.wf() ==> final(self)@.wf(),
            final(self)@.runs[ri as int].finished_at == Some(stamp@),
            session_location(old(self)@, old(self)@.runs[ri as int].project_id, old(self)@.runs[ri as int].session_id) matches Some(loc)
                ==> session_at(final(self)@, loc).updated_at == stamp@,
    {
        self.runs[ri].status = status;
        self.runs[ri].exit_code = exit_code;
        self.runs[ri].finished_at = Some(owned(stamp));
        proof {
            let ri = ri as int;
            assert(run_views(self.runs@) =~= with_run(
                old(self)@,
                ri,
                RunView { status, exit_code, finished_at: self@.runs[ri].finished_at, ..old(self)@.runs[ri] },
            ).runs);
        }
        let run = self.runs[ri].clone();
        let ghost mid = self@;
        self.set_session_status_at(run.project_id.as_str(), run.session_id.as_str(), status, stamp);
        proof {
            assert(mid.runs == self@.runs);
        }
        run
    }

    /// Cancels a run: it and its session become `Cancelled`. The process, if
    /// any, is the caller's to stop.
    pub fn cancel_run(&mut self, run_id: &str) -> (r: Result<AgentRun, String>)
        ensures
            final(self).config == old(self).config,
            same_ids(old(self)@, final(self)@),
            old(self)@.wf() ==> final(self)@.wf(),
            match run_index(old(self)@.runs, run_id@) {
                None => r matches Err(e) && e@ == "Run not found."@ && final(self)@ == old(self)@,
                Some(ri) => r matches Ok(run) && {
                    let old_run = old(self)@.runs[ri];
                    let after_run = with_run(
                        old(self)@,
                        ri,
                        RunView {
                            status: RunStatus::Cancelled,
                            exit_code: old_run.exit_code,
                            finished_at: final(self)@.runs[ri].finished_at,
                            ..old_run
                        },
                    );
                    &&& final(self)@.runs[ri].finished_at is Some
                    &&& run@ == final(self)@.runs[ri]
                    &&& match session_location(old(self)@, old_run.project_id, old_run.session_id) {
                        Some(loc) => final(self)@ == with_session(
                            after_run,
                            loc.0,
                            loc.1,
                            with_status(
                                session_at(old(self)@, loc),
                                RunStatus::Cancelled,
                                session_at(final(self)@, loc).updated_at,
                            ),
                        ),
                        None => final(self)@ == after_run,
                    }
                },
            },
    {
        let stamp = now();
        self.cancel_run_at(run_id, stamp.as_str())
    }

    /// As `cancel_run`, with `stamp` as the time of every stamp it sets.
    pub fn cancel_run_at(&mut self, run_id: &str, stamp: &str) -> (r: Result<AgentRun, String>)
        ensures
            final(self).config == old(self).config,
            same_ids(old(self)@, final(self)@),
            old(self)@.wf() ==> final(self)@.wf(),
            run_index(old(self)@.runs, run_id@) matches Some(ri) ==> final(self)@.runs[ri].finished_at == Some(stamp@) && (
                session_location(old(self)@, old(self)@.runs[ri].project_id, old(self)@.runs[ri].session_id) matches Some(loc)
                    ==> session_at(final(self)@, loc).updated_at == stamp@),
            match run_index(old(self)@.runs, run_id@) {
                None => r matches Err(e) && e@ == "Run not found."@ && final(self)@ == old(self)@,
                Some(ri) => r matches Ok(run) && {
                    let old_run = old(self)@.runs[ri];
                    let after_run = with_run(
                        old(self)@,
                        ri,
                        RunView {
                            status: RunStatus::Cancelled,
                            exit_code: old_run.exit_code,
                            finished_at: final(self)@.runs[ri].finished_at,
                            ..old_run
                        },
                    );
                    &&& final(self)@.runs[ri].finished_at is Some
                    &&& run@ == final(self)@.runs[ri]
                    &&& match session_location(old(self)@, old_run.project_id, old_run.session_id) {
                        Some(loc) => final(self)@ == with_session(
                            after_run,
                            loc.0,
                            loc.1,
                            with_status(
                                session_at(old(self)@, loc),
                                RunStatus::Cancelled,
                                session_at(final(self)@, loc).updated_at,
                            ),
                        ),
                        None => final(self)@ == after_run,
                    }
                },
            },
    {
        match self.find_run(run_id) {
            None => Err(owned("Run not found.")),
            Some(ri) => {
                proof {
                    lemma_run_index(self@.runs, run_id@, 0);
                }
                let exit_code = self.runs[ri].exit_code;
                Ok(self.close_run(ri, RunStatus::Cancelled, exit_code, stamp))
            },
        }
    }

    /// Records that a run's process ended. A cancelled run stays cancelled;
    /// any other takes `status`. Exit code and finish time are recorded either
    /// way, and the session takes the run's status. Gives back the run and its
    /// session, or `None` when there is no such run.
    pub fn finish_run(&mut self, run_id: &str, status: RunStatus, exit_code: Option<i32>) -> (r: Option<(AgentRun, Option<Session>)>)
        ensures
            final(self).config == old(self).config,
            same_ids(old(self)@, final(self)@),
            old(self)@.wf() ==> final(self)@.wf(),
            match run_index(old(self)@.runs, run_id@) {
                None => r is None && final(self)@ == old(self)@,
                Some(ri) => r matches Some((run, session)) && {
                    let old_run = old(self)@.runs[ri];
                    let new_status = if old_run.status == RunStatus::Cancelled {
                        RunStatus::Cancelled
                    } else {
                        status
                    };
                    let after_run = with_run(
                        old(self)@,
                        ri,
                        RunView {
                            status: new_status,
                            exit_code,
                            finished_at: final(self)@.runs[ri].finished_at,
                            ..old_run
                        },
                    );
                    &&& final(self)@.runs[ri].finished_at is Some
                    &&& run@ == final(self)@.runs[ri]
                    &&& match session_location(old(self)@, old_run.project_id, old_run.session_id) {
                        Some(loc) => {
                            &&& session matches Some(s) && s@ == session_at(final(self)@, loc)
                            &&& final(self)@ == with_session(
                                after_run,
                                loc.0,
                                loc.1,
                                with_status(
                                    session_at(old(self)@, loc),
                                    new_status,
                                    session_at(final(self)@, loc).updated_at,
                                ),
                            )
                        },
                        None => session is None && final(self)@ == after_run,
                    }
                },
            },
    {
        let stamp = now();
        self.finish_run_at(run_id, status, exit_code, stamp.as_str())
    }

    /// As `finish_run`, with `stamp` as the time of every stamp it sets.
    pub fn finish_run_at(&mut self, run_id: &str, status: RunStatus, exit_code: Option<i32>, stamp: &str) -> (r: Option<(AgentRun, Option<Session>)>)
        ensures
            final(self).config == old(self).config,
            same_ids(old(self)@, final(self)@),
            old(self)@.wf() ==> final(self)@.wf(),
            run_index(old(self)@.runs, run_id@) matches Some(ri) ==> final(self)@.runs[ri].finished_at == Some(stamp@) && (
                session_location(old(self)@, old(self)@.runs[ri].project_id, old(self)@.runs[ri].session_id) matches Some(loc)
                    ==> session_at(final(self)@, loc).updated_at == stamp@),
            match run_index(old(self)@.runs, run_id@) {
                None => r is None && final(self)@ == old(self)@,
                Some(ri) => r matches Some((run, session)) && {
                    let old_run = old(self)@.runs[ri];
                    let new_status = if old_run.status == RunStatus::Cancelled {
                        RunStatus::Cancelled
                    } else {
                        status
                    };
                    let after_run = with_run(
                        old(self)@,
                        ri,
                        RunView {
                            status: new_status,
                            exit_code,
                            finished_at: final(self)@.runs[ri].finished_at,
                            ..old_run
                        },
                    );
                    &&& final(self)@.runs[ri].finished_at is Some
                    &&& run@ == final(self)@.runs[ri]
                    &&& match session_location(old(self)@, old_run.project_id, old_run.session_id) {
                        Some(loc) => {
                            &&& session matches Some(s) && s@ == session_at(final(self)@, loc)
                            &&& final(self)@ == with_session(
                                after_run,
                                loc.0,
                                loc.1,
                                with_status(
                                    session_at(old(self)@, loc),
                                    new_status,
                                    session_at(final(self)@, loc).updated_at,
                                ),
                            )
                        },
                        None => session is None && final(self)@ == after_run,
                    }
                },
            },
    {
        match self.find_run(run_id) {
            None => None,
            Some(ri) => {
                proof {
                    lemma_run_index(self@.runs, run_id@, 0);
                }
                let new_status = if self.runs[ri].status == RunStatus::Cancelled {
                    RunStatus::Cancelled
                } else {
                    status
                };
                let ghost before = self@;
                let run = self.close_run(ri, new_status, exit_code, stamp);
                let ghost after = self@;
                proof {
                    let old_run = before.runs[ri as int];
                    lemma_session_location(before, old_run.project_id, old_run.session_id);
                    if let Some(loc) = session_location(before, old_run.project_id, old_run.session_id) {
                        let w1 = with_run(
                            before,
                            ri as int,
                            RunView {
                                status: new_status,
                                exit_code,
                                finished_at: after.runs[ri as int].finished_at,
                                ..old_run
                            },
                        );
                        lemma_location_preserved(before, after, old_run.project_id, old_run.session_id, loc);
                    }
                }
                let session = match self.find_session(run.project_id.as_str(), run.session_id.as_str()) {
                    Some((pi, si)) => {
                        proof {
                            lemma_session_location(self@, run.project_id@, run.session_id@);
                        }
                        Some(self.projects[pi].sessions[si].clone())
                    },
                    None => None,
                };
                Some((run, session))
            },
        }
    }

    /// Output of a run arrived: the run counts its tokens when the output is
    /// the agent's (`assistant` or `tool`), and the text goes to the session.
    /// Gives back the run and the session as they now stand.
    pub fn append_output(&mut self, run: &AgentRun, role: &str, text: &str) -> (r: (Option<AgentRun>, Option<Session>))
        requires
            counts_output(role@) ==> (run_index(old(self)@.runs, run.id@) matches Some(ri) ==> old(
                self,
            )@.runs[ri].output_tokens + rough_tokens_of(text@) <= usize::MAX),
        ensures
            final(self).config == old(self).config,
            same_ids(old(self)@, final(self)@),
            old(self)@.wf() ==> final(self)@.wf(),
            ({
                let after_run = match run_index(old(self)@.runs, run.id@) {
                    Some(ri) => if counts_output(role@) {
                        with_run(
                            old(self)@,
                            ri,
                            RunView {
                                output_tokens: old(self)@.runs[ri].output_tokens + rough_tokens_of(text@),
                                ..old(self)@.runs[ri]
                            },
                        )
                    } else {
                        old(self)@
                    },
                    None => old(self)@,
                };
                &&& match run_index(old(self)@.runs, run.id@) {
                    Some(ri) => r.0 matches Some(x) && x@ == final(self)@.runs[ri],
                    None => r.0 is None,
                }
                &&& match session_location(old(self)@, run.project_id@, run.session_id@) {
                    Some(loc) => {
                        let s = session_at(final(self)@, loc);
                        &&& r.1 matches Some(x) && x@ == s
                        &&& s.messages.len() > 0
                        &&& final(self)@ == with_session(
                            after_run,
                            loc.0,
                            loc.1,
                            with_output(
                                session_at(old(self)@, loc),
                                role@,
                                text@,
                                s.messages.last().id,
                                s.messages.last().created_at,
                                s.updated_at,
                            ),
                        )
                    },
                    None => r.1 is None && final(self)@ == after_run,
                }
            }),
    {
        let stamp = now();
        self.append_output_at(run, role, text, stamp.as_str())
    }

    /// As `append_output`, with `stamp` as the time of every stamp it sets.
    pub fn append_output_at(&mut self, run: &AgentRun, role: &str, text: &str, stamp: &str) -> (r: (Option<AgentRun>, Option<Session>))
        requires
            counts_output(role@) ==> (run_index(old(self)@.runs, run.id@) matches Some(ri) ==> old(
                self,
            )@.runs[ri].output_tokens + rough_tokens_of(text@) <= usize::MAX),
        ensures
            final(self).config == old(self).config,
            same_ids(old(self)@, final(self)@),
            old(self)@.wf() ==> final(self)@.wf(),
            session_location(old(self)@, run.project_id@, run.session_id@) matches Some(loc) ==> session_at(final(self)@, loc) == with_output(
                session_at(old(self)@, loc),
                role@,
                text@,
                session_at(final(self)@, loc).messages.last().id,
                stamp@,
                stamp@,
            ),
            ({
                let after_run = match run_index(old(self)@.runs, run.id@) {
                    Some(ri) => if counts_output(role@) {
                        with_run(
                            old(self)@,
                            ri,
                            RunView {
                                output_tokens: old(self)@.runs[ri].output_tokens + rough_tokens_of(text@),
                                ..old(self)@.runs[ri]
                            },
                        )
                    } else {
                        old(self)@
                    },
                    None => old(self)@,
                };
                &&& match run_index(old(self)@.runs, run.id@) {
                    Some(ri) => r.0 matches Some(x) && x@ == final(self)@.runs[ri],
                    None => r.0 is None,
                }
                &&& match session_location(old(self)@, run.project_id@, run.session_id@) {
                    Some(loc) => {
                        let s = session_at(final(self)@, loc);
                        &&& r.1 matches Some(x) && x@ == s
                        &&& s.messages.len() > 0
                        &&& final(self)@ == with_session(
                            after_run,
                            loc.0,
                            loc.1,
                            with_output(
                                session_at(old(self)@, loc),
                                role@,
                                text@,
                                s.messages.last().id,
                                s.messages.last().created_at,
                                s.updated_at,
                            ),
                        )
                    },
                    None => r.1 is None && final(self)@ == after_run,
                }
            }),
    {
        let tokens = rough_tokens(text);
        let counted = text_eq(role, "assistant") || text_eq(role, "tool");
        let found = self.find_run(run.id.as_str());
        proof {
            lemma_run_index(self@.runs, run.id@, 0);
        }
        if let Some(ri) = found {
            if counted {
                self.runs[ri].output_tokens = self.runs[ri].output_tokens + tokens;
                proof {
                    let ri = ri as int;
                    assert(run_views(self.runs@) =~= with_run(
                        old(self)@,
                        ri,
                        RunView {
                            output_tokens: old(self)@.runs[ri].output_tokens + rough_tokens_of(text@),
                            ..old(self)@.runs[ri]
                        },
                    ).runs);
                }
            }
        }
        let ghost mid = self@;
        self.append_session_output_at(run.project_id.as_str(), run.session_id.as_str(), role, text, stamp);
        proof {
            assert(mid.runs == self@.runs);
            lemma_run_index_same_ids(old(self)@.runs, self@.runs, run.id@);
        }
        let updated_run = match self.find_run(run.id.as_str()) {
            Some(ri) => Some(self.runs[ri].clone()),
            None => None,
        };
        let ghost after = self@;
        proof {
            lemma_session_location(mid, run.project_id@, run.session_id@);
            if let Some(loc) = session_location(mid, run.project_id@, run.session_id@) {
                lemma_location_preserved(mid, after, run.project_id@, run.session_id@, loc);
            }
        }
        let updated_session = match self.find_session(run.project_id.as_str(), run.session_id.as_str()) {
            Some((pi, si)) => {
                proof {
                    lemma_session_location(self@, run.project_id@, run.session_id@);
                }
                Some(self.projects[pi].sessions[si].clone())
            },
            None => None,
        };
        (updated_run, updated_session)
    }

    /// Opens a new session at the top of a project's list and makes it the
    /// active one.
    pub fn create_session(&mut self, project_id: &str, agent_id: String, skill_ids: Vec<String>, title: Option<String>) -> (r: Result<Session, String>)
        ensures
            final(self).config == old(self).config,
            same_ids(old(self)@, final(self)@),
            old(self)@.wf() ==> final(self)@.wf(),
            match project_index(old(self)@.projects, project_id@) {
                None => r matches Err(e) && e@ == "Project not found."@ && final(self)@ == old(self)@,
                Some(pi) => r matches Ok(s) && {
                    &&& s@.id.len() == 10
                    &&& s@.project_id == project_id@
                    &&& s@.title == match title {
                        Some(t) => t@,
                        None => default_title(),
                    }
                    &&& s@.agent_id == agent_id@
                    &&& s@.skill_ids == views(skill_ids@)
                    &&& s@.status == RunStatus::Done
                    &&& s@.messages.len() == 0
                    &&& s@.run_ids.len() == 0
                    &&& final(self)@ == WorkbenchView {
                        projects: old(self)@.projects.update(
                            pi,
                            ProjectView {
                                sessions: seq![s@] + old(self)@.projects[pi].sessions,
                                updated_at: final(self)@.projects[pi].updated_at,
                                ..old(self)@.projects[pi]
                            },
                        ),
                        active_project_id: Some(project_id@),
                        active_session_id: Some(s@.id),
                        ..old(self)@
                    }
                },
            },
    {
        let stamp = now();
        self.create_session_at(project_id, agent_id, skill_ids, title, stamp.as_str())
    }

    /// As `create_session`, with `stamp` as the time of every stamp it sets.
    pub fn create_session_at(&mut self, project_id: &str, agent_id: String, skill_ids: Vec<String>, title: Option<String>, stamp: &str) -> (r: Result<Session, String>)
        ensures
            final(self).config == old(self).config,
            same_ids(old(self)@, final(self)@),
            old(self)@.wf() ==> final(self)@.wf(),
            r matches Ok(s) ==> s@.created_at == stamp@ && s@.updated_at == stamp@,
            project_index(old(self)@.projects, project_id@) matches Some(pi) ==> final(self)@.projects[pi].updated_at == stamp@,
            match project_index(old(self)@.projects, project_id@) {
                None => r matches Err(e) && e@ == "Project not found."@ && final(self)@ == old(self)@,
                Some(pi) => r matches Ok(s) && {
                    &&& s@.id.len() == 10
                    &&& s@.project_id == project_id@
                    &&& s@.title == match title {
                        Some(t) => t@,
                        None => default_title(),
                    }
                    &&& s@.agent_id == agent_id@
                    &&& s@.skill_ids == views(skill_ids@)
                    &&& s@.status == RunStatus::Done
                    &&& s@.messages.len() == 0
                    &&& s@.run_ids.len() == 0
                    &&& final(self)@ == WorkbenchView {
                        projects: old(self)@.projects.update(
                            pi,
                            ProjectView {
                                sessions: seq![s@] + old(self)@.projects[pi].sessions,
                                updated_at: final(self)@.projects[pi].updated_at,
                                ..old(self)@.projects[pi]
                            },
                        ),
                        active_project_id: Some(project_id@),
                        active_session_id: Some(s@.id),
                        ..old(self)@
                    }
                },
            },
    {
        let pi = match self.find_project(project_id) {
            Some(pi) => pi,
            None => {
                return Err(owned("Project not found."));
            },
        };
        proof {
            lemma_project_index(self@.projects, project_id@, 0);
        }
        let title = match title {
            Some(t) => t,
            None => owned("新会话"),
        };
        let session = Session {
            id: short_id(),
            project_id: owned(project_id),
            title,
            agent_id,
            skill_ids,
            status: RunStatus::Done,
            created_at: owned(stamp),
            updated_at: owned(stamp),
            messages: Vec::new(),
            run_ids: Vec::new(),
        };
        let copy = session.clone();
        let ghost sv = session@;
        let ghost old_sessions = self@.projects[pi as int].sessions;
        self.projects[pi].sessions.insert(0, session);
        self.projects[pi].updated_at = owned(stamp);
        self.active_project_id = Some(owned(project_id));
        self.active_session_id = Some(copy.id.clone());
        proof {
            assert(session_views(self.projects@[pi as int].sessions@) =~= seq![sv] + old_sessions);
            let pv = ProjectView {
                sessions: seq![sv] + old_sessions,
                updated_at: self@.projects[pi as int].updated_at,
                ..old(self)@.projects[pi as int]
            };
            assert(project_views(self.projects@) =~= old(self)@.projects.update(pi as int, pv));
        }
        Ok(copy)
    }

    /// The user sends a message in a session: it joins the session's history,
    /// and a run is queued for the chosen agent.
    pub fn send_message(
        &mut self,
        project_id: &str,
        session_id: &str,
        agent_id: String,
        skill_ids: Vec<String>,
        content: &str,
    ) -> (r: Result<AgentRun, String>)
        ensures
            final(self).config == old(self).config,
            old(self)@.wf() ==> final(self)@.wf(),
            is_blank(content@) ==> (r matches Err(e) && e@ == "Message is required."@ && final(self)@ == old(self)@),
            !is_blank(content@) ==> match project_index(old(self)@.projects, project_id@) {
                None => r matches Err(e) && e@ == "Project not found."@ && final(self)@ == old(self)@,
                Some(pi) => match session_index(old(self)@.projects[pi].sessions, session_id@) {
                    None => r matches Err(e) && e@ == "Session not found."@ && final(self)@ == old(self)@,
                    Some(si) => r matches Ok(run) && {
                        let s = old(self)@.projects[pi].sessions[si];
                        let fs = final(self)@.projects[pi].sessions[si];
                        &&& run@.id.len() == 10
                        &&& run@ == RunView {
                            id: run@.id,
                            project_id: project_id@,
                            session_id: session_id@,
                            agent_id: agent_id@,
                            status: RunStatus::Queued,
                            created_at: run@.created_at,
                            started_at: None,
                            finished_at: None,
                            exit_code: None,
                            input_tokens: rough_tokens_of(content@),
                            output_tokens: 0,
                        }
                        &&& fs.messages.len() > 0
                        &&& fs == SessionView {
                            title: next_title(s.title, content@),
                            agent_id: agent_id@,
                            skill_ids: views(skill_ids@),
                            status: RunStatus::Queued,
                            updated_at: fs.updated_at,
                            messages: s.messages.push(
                                MessageView {
                                    id: fs.messages.last().id,
                                    role: "user"@,
                                    content: trim_seq(content@),
                                    created_at: fs.messages.last().created_at,
                                },
                            ),
                            run_ids: s.run_ids.push(run@.id),
                            ..s
                        }
                        &&& final(self)@ == WorkbenchView {
                            projects: with_session(old(self)@, pi, si, fs).projects,
                            runs: upsert_run(old(self)@.runs, run@),
                            active_project_id: Some(project_id@),
                            active_session_id: Some(session_id@),
                            ..old(self)@
                        }
                    },
                },
            },
    {
        let stamp = now();
        self.send_message_at(project_id, session_id, agent_id, skill_ids, content, stamp.as_str())
    }

    /// As `send_message`, with `stamp` as the time of every stamp it sets.
    pub fn send_message_at(
        &mut self,
        project_id: &str,
        session_id: &str,
        agent_id: String,
        skill_ids: Vec<String>,
        content: &str,
        stamp: &str,
    ) -> (r: Result<AgentRun, String>)
        ensures
            final(self).config == old(self).config,
            old(self)@.wf() ==> final(self)@.wf(),
            r matches Ok(run) ==> run@.created_at == stamp@,
            r is Ok ==> (session_location(old(self)@, project_id@, session_id@) matches Some(loc) ==> session_at(final(self)@, loc).updated_at
                == stamp@ && session_at(final(self)@, loc).messages.last().created_at == stamp@),
            is_blank(content@) ==> (r matches Err(e) && e@ == "Message is required."@ && final(self)@ == old(self)@),
            !is_blank(content@) ==> match project_index(old(self)@.projects, project_id@) {
                None => r matches Err(e) && e@ == "Project not found."@ && final(self)@ == old(self)@,
                Some(pi) => match session_index(old(self)@.projects[pi].sessions, session_id@) {
                    None => r matches Err(e) && e@ == "Session not found."@ && final(self)@ == old(self)@,
                    Some(si) => r matches Ok(run) && {
                        let s = old(self)@.projects[pi].sessions[si];
                        let fs = final(self)@.projects[pi].sessions[si];
                        &&& run@.id.len() == 10
                        &&& run@ == RunView {
                            id: run@.id,
                            project_id: project_id@,
                            session_id: session_id@,
                            agent_id: agent_id@,
                            status: RunStatus::Queued,
                            created_at: run@.created_at,
                            started_at: None,
                            finished_at: None,
                            exit_code: None,
                            input_tokens: rough_tokens_of(content@),
                            output_tokens: 0,
                        }
                        &&& fs.messages.len() > 0
                        &&& fs == SessionView {
                            title: next_title(s.title, content@),
                            agent_id: agent_id@,
                            skill_ids: views(skill_ids@),
                            status: RunStatus::Queued,
                            updated_at: fs.updated_at,
                            messages: s.messages.push(
                                MessageView {
                                    id: fs.messages.last().id,
                                    role: "user"@,
                                    content: trim_seq(content@),
                                    created_at: fs.messages.last().created_at,
                                },
                            ),
                            run_ids: s.run_ids.push(run@.id),
                            ..s
                        }
                        &&& final(self)@ == WorkbenchView {
                            projects: with_session(old(self)@, pi, si, fs).projects,
                            runs: upsert_run(old(self)@.runs, run@),
                            active_project_id: Some(project_id@),
                            active_session_id: Some(session_id@),
                            ..old(self)@
                        }
                    },
                },
            },
    {
        if is_blank_str(content) {
            return Err(owned("Message is required."));
        }
        let pi = match self.find_project(project_id) {
            Some(pi) => pi,
            None => {
                return Err(owned("Project not found."));
            },
        };
        let loc = self.find_session(project_id, session_id);
        proof {
            lemma_session_location(self@, project_id@, session_id@);
            lemma_project_index(self@.projects, project_id@, 0);
        }
        let si = match loc {
            Some((_, si)) => si,
            None => {
                return Err(owned("Session not found."));
            },
        };
        let ghost s = self@.projects[pi as int].sessions[si as int];
        let new_title = if text_eq(self.projects[pi].sessions[si].title.as_str(), "新会话") {
            let lines = split_lines(content);
            if lines.len() > 0 {
                take_chars(lines[0].as_str(), 48)
            } else {
                take_chars("新会话", 48)
            }
        } else {
            self.projects[pi].sessions[si].title.clone()
        };
        let message = Message {
            id: short_id(),
            role: owned("user"),
            content: trim(content),
            created_at: owned(stamp),
        };
        let ghost mv = message@;
        let run = AgentRun {
            id: short_id(),
            project_id: owned(project_id),
            session_id: owned(session_id),
            agent_id: agent_id.clone(),
            status: RunStatus::Queued,
            created_at: owned(stamp),
            started_at: None,
            finished_at: None,
            exit_code: None,
            input_tokens: rough_tokens(content),
            output_tokens: 0,
        };
        let run_id = run.id.clone();
        self.projects[pi].sessions[si].title = new_title;
        self.projects[pi].sessions[si].agent_id = agent_id;
        self.projects[pi].sessions[si].skill_ids = skill_ids;
        self.projects[pi].sessions[si].status = RunStatus::Queued;
        self.projects[pi].sessions[si].updated_at = owned(stamp);
        self.projects[pi].sessions[si].messages.push(message);
        self.projects[pi].sessions[si].run_ids.push(run_id);
        let copy = run.clone();
        let ghost rv = run@;
        proof {
            let fs = self@.projects[pi as int].sessions[si as int];
            assert(message_views(self.projects@[pi as int].sessions@[si as int].messages@) =~= s.messages.push(mv));
            assert(views(self.projects@[pi as int].sessions@[si as int].run_ids@) =~= s.run_ids.push(rv.id));
            assert(session_views(self.projects@[pi as int].sessions@) =~= old(self)@.projects[pi as int].sessions.update(si as int, fs));
            assert(project_views(self.projects@) =~= with_session(old(self)@, pi as int, si as int, fs).projects);
        }
        self.upsert_run(run);
        self.active_project_id = Some(owned(project_id));
        self.active_session_id = Some(owned(session_id));
        Ok(copy)
    }

    /// Stores a run: in place of the run with the same id, else at the end.
    fn upsert_run(&mut self, run: AgentRun)
        ensures
            final(self)@ == (WorkbenchView { runs: upsert_run(old(self)@.runs, run@), ..old(self)@ }),
            final(self).config == old(self).config,
            old(self)@.wf() ==> final(self)@.wf(),
            final(self).active_project_id == old(self).active_project_id,
            final(self).active_session_id == old(self).active_session_id,
    {
        let ghost rv = run@;
        match self.find_run(run.id.as_str()) {
            Some(ri) => {
                proof {
                    lemma_run_index(self@.runs, run.id@, 0);
                }
                self.runs[ri] = run;
                proof {
                    assert(run_views(self.runs@) =~= old(self)@.runs.update(ri as int, rv));
                    assert(same_ids(old(self)@, self@));
                    if old(self)@.wf() {
                        lemma_same_ids_wf(old(self)@, self@);
                    }
                }
            },
            None => {
                proof {
                    lemma_run_index(self@.runs, rv.id, 0);
                }
                self.runs.push(run);
                proof {
                    let rs = self@.runs;
                    assert(run_views(self.runs@) =~= old(self)@.runs.push(rv));
                    assert forall|i: int, j: int|
                        0 <= i < rs.len() && 0 <= j < rs.len() && i != j && old(self)@.wf() implies #[trigger] rs[i].id
                        != #[trigger] rs[j].id by {
                        if i < rs.len() - 1 && j < rs.len() - 1 {
                            assert(rs[i] == old(self)@.runs[i] && rs[j] == old(self)@.runs[j]);
                        } else if i < rs.len() - 1 {
                            assert(rs[i] == old(self)@.runs[i]);
                        } else {
                            assert(rs[j] == old(self)@.runs[j]);
                        }
                    }
                }
            },
        }
    }
    /// Opens the project at `project_path` (already normalized), whose file
    /// tree is `files`. `stored_paths` holds, for each project in order, its
    /// path normalized the same way. The project with the same path is reused;
    /// else a new one is made. It becomes the active project, and its first
    /// session the active session. Gives back the project's position.
    pub fn open_project(&mut self, project_path: &str, stored_paths: &Vec<String>, files: Vec<FileNode>) -> (r: usize)
        requires
            stored_paths@.len() == old(self)@.projects.len(),
        ensures
            final(self).config == old(self).config,
            old(self)@.wf() ==> final(self)@.wf(),
            final(self)@.runs == old(self)@.runs,
            final(self)@.skills == old(self)@.skills,
            final(self)@.providers == old(self)@.providers,
            final(self)@.max_global_concurrency == old(self)@.max_global_concurrency,
            r < final(self)@.projects.len(),
            ({
                let found = text_index_from(views(stored_paths@), project_path@, 0);
                let id = match found {
                    Some(i) => old(self)@.projects[i].id,
                    None => final(self)@.projects[r as int].id,
                };
                let p = final(self)@.projects[r as int];
                &&& (found is None ==> id.len() == 10)
                &&& match project_index(old(self)@.projects, id) {
                    Some(j) => r == j && final(self)@.projects == old(self)@.projects.update(
                        j,
                        ProjectView { updated_at: p.updated_at, files: files@, ..old(self)@.projects[j] },
                    ),
                    None => r == old(self)@.projects.len() && final(self)@.projects == old(self)@.projects.push(
                        ProjectView {
                            id: id,
                            name: project_name_seq(project_path@),
                            path: project_path@,
                            created_at: p.created_at,
                            updated_at: p.updated_at,
                            sessions: seq![],
                            files: files@,
                        },
                    ),
                }
                &&& (old(self)@.wf() ==> (found matches Some(i) ==> {
                    &&& r == i
                    &&& final(self)@.projects.len() == old(self)@.projects.len()
                    &&& p == (ProjectView { updated_at: p.updated_at, files: files@, ..old(self)@.projects[i] })
                }))
                &&& final(self)@.active_project_id == Some(id)
                &&& final(self)@.active_session_id == (if p.sessions.len() > 0 {
                    Some(p.sessions[0].id)
                } else {
                    None
                })
            }),
    {
        let stamp = now();
        self.open_project_at(project_path, stored_paths, files, stamp.as_str())
    }

    /// As `open_project`, with `stamp` as the time of every stamp it sets.
    pub fn open_project_at(&mut self, project_path: &str, stored_paths: &Vec<String>, files: Vec<FileNode>, stamp: &str) -> (r: usize)
        requires
            stored_paths@.len() == old(self)@.projects.len(),
        ensures
            final(self).config == old(self).config,
            old(self)@.wf() ==> final(self)@.wf(),
            final(self)@.projects[r as int].updated_at == stamp@,
            r == old(self)@.projects.len() ==> final(self)@.projects[r as int].created_at == stamp@,
            final(self)@.runs == old(self)@.runs,
            final(self)@.skills == old(self)@.skills,
            final(self)@.providers == old(self)@.providers,
            final(self)@.max_global_concurrency == old(self)@.max_global_concurrency,
            r < final(self)@.projects.len(),
            ({
                let found = text_index_from(views(stored_paths@), project_path@, 0);
                let id = match found {
                    Some(i) => old(self)@.projects[i].id,
                    None => final(self)@.projects[r as int].id,
                };
                let p = final(self)@.projects[r as int];
                &&& (found is None ==> id.len() == 10)
                &&& match project_index(old(self)@.projects, id) {
                    Some(j) => r == j && final(self)@.projects == old(self)@.projects.update(
                        j,
                        ProjectView { updated_at: p.updated_at, files: files@, ..old(self)@.projects[j] },
                    ),
                    None => r == old(self)@.projects.len() && final(self)@.projects == old(self)@.projects.push(
                        ProjectView {
                            id: id,
                            name: project_name_seq(project_path@),
                            path: project_path@,
                            created_at: p.created_at,
                            updated_at: p.updated_at,
                            sessions: seq![],
                            files: files@,
                        },
                    ),
                }
                &&& (old(self)@.wf() ==> (found matches Some(i) ==> {
                    &&& r == i
                    &&& final(self)@.projects.len() == old(self)@.projects.len()
                    &&& p == (ProjectView { updated_at: p.updated_at, files: files@, ..old(self)@.projects[i] })
                }))
                &&& final(self)@.active_project_id == Some(id)
                &&& final(self)@.active_session_id == (if p.sessions.len() > 0 {
                    Some(p.sessions[0].id)
                } else {
                    None
                })
            }),
    {
        let ghost ps = views(stored_paths@);
        let mut k: usize = 0;
        let mut existing: Option<usize> = None;
        while k < stored_paths.len()
            invariant_except_break
                existing is None,
                text_index_from(ps, project_path@, 0) == text_index_from(ps, project_path@, k as int),
            invariant
                k <= stored_paths@.len(),
                ps == views(stored_paths@),
            ensures
                match existing {
                    Some(i) => text_index_from(ps, project_path@, 0) == Some(i as int) && i < stored_paths@.len(),
                    None => text_index_from(ps, project_path@, 0) is None,
                },
            decreases stored_paths.len() - k,
        {
            if text_eq(stored_paths[k].as_str(), project_path) {
                existing = Some(k);
                break;
            }
            k = k + 1;
        }
        let id = match existing {
            Some(i) => self.projects[i].id.clone(),
            None => short_id(),
        };
        proof {
            if let Some(i) = existing {
                if self@.wf() {
                    lemma_unique_project_index(self@.projects, i as int);
                }
            }
        }
        let pi = match self.find_project(id.as_str()) {
            Some(pi) => {
                proof {
                    lemma_project_index(self@.projects, id@, 0);
                }
                pi
            },
            None => {
                proof {
                    lemma_project_index(self@.projects, id@, 0);
                    if let Some(i) = existing {
                        assert(self@.projects[i as int].id == id@);
                    }
                }
                let project = Project {
                    id: id.clone(),
                    name: project_name(project_path),
                    path: owned(project_path),
                    created_at: owned(stamp),
                    updated_at: owned(stamp),
                    sessions: Vec::new(),
                    files: Vec::new(),
                };
                let ghost pv = project@;
                self.projects.push(project);
                proof {
                    assert(session_views(Seq::<Session>::empty()) =~= Seq::<SessionView>::empty());
                    assert(project_views(self.projects@) =~= old(self)@.projects.push(pv));
                }
                self.projects.len() - 1
            },
        };
        let ghost mid = self@.projects;
        self.projects[pi].updated_at = owned(stamp);
        self.projects[pi].files = files;
        proof {
            let p = self@.projects[pi as int];
            assert(project_views(self.projects@) =~= mid.update(
                pi as int,
                ProjectView { updated_at: p.updated_at, files: p.files, ..mid[pi as int] },
            ));
        }
        self.active_project_id = Some(self.projects[pi].id.clone());
        self.active_session_id = if self.projects[pi].sessions.len() > 0 {
            Some(self.projects[pi].sessions[0].id.clone())
        } else {
            None
        };
        pi
    }
}

/// The title of a session that has none of its own yet.
pub open spec fn default_title() -> Seq<char> {
    "新会话"@
}

/// The title a session has after a message: an untitled session takes the
/// first 48 characters of the message's first line.
pub open spec fn next_title(title: Seq<char>, content: Seq<char>) -> Seq<char> {
    if title == default_title() {
        if lines_seq(content).len() > 0 {
            take_chars_seq(lines_seq(content)[0], 48)
        } else {
            take_chars_seq(default_title(), 48)
        }
    } else {
        title
    }
}

/// The runs after storing `r`: in place of the run with its id, else at the end.
pub open spec fn upsert_run(rs: Seq<RunView>, r: RunView) -> Seq<RunView> {
    match run_index(rs, r.id) {
        Some(i) => rs.update(i, r),
        None => rs.push(r),
    }
}

/// First position at or after `i` of the text `x`.
pub open spec fn text_index_from(v: Seq<Seq<char>>, x: Seq<char>, i: int) -> Option<int>
    decreases v.len() - i,
{
    if i < 0 || i >= v.len() {
        None
    } else if v[i] == x {
        Some(i)
    } else {
        text_index_from(v, x, i + 1)
    }
}

/// Runs with the same ids are found at the same places.
pub proof fn lemma_run_index_same_ids(rs: Seq<RunView>, rs2: Seq<RunView>, id: Seq<char>)
    requires
        rs.len() == rs2.len(),
        forall|i: int| 0 <= i < rs.len() ==> #[trigger] rs2[i].id == rs[i].id,
    ensures
        run_index(rs2, id) == run_index(rs, id),
{
    lemma_run_index(rs, id, 0);
    lemma_run_index(rs2, id, 0);
    match run_index(rs, id) {
        Some(k) => {
            assert(rs2[k].id == rs[k].id);
        },
        None => {},
    }
    match run_index(rs2, id) {
        Some(k) => {
            assert(rs2[k].id == rs[k].id);
        },
        None => {},
    }
}

/// Output of these roles is the agent's, and counts toward its tokens.
pub open spec fn counts_output(role: Seq<char>) -> bool {
    role == "assistant"@ || role == "tool"@
}

/// Replacing a session twice keeps the second replacement.
pub proof fn lemma_with_session_twice(w: WorkbenchView, pi: int, si: int, a: SessionView, b: SessionView)
    requires
        0 <= pi < w.projects.len(),
        0 <= si < w.projects[pi].sessions.len(),
    ensures
        with_session(with_session(w, pi, si, a), pi, si, b) == with_session(w, pi, si, b),
        session_at(with_session(w, pi, si, a), (pi, si)) == a,
{
    let w1 = with_session(w, pi, si, a);
    assert(w1.projects[pi].sessions.update(si, b) =~= w.projects[pi].sessions.update(si, b));
    assert(with_session(w1, pi, si, b).projects =~= with_session(w, pi, si, b).projects);
}

/// Changing the content of a session does not move it.
pub proof fn lemma_location_preserved(
    w: WorkbenchView,
    w2: WorkbenchView,
    pid: Seq<char>,
    sid: Seq<char>,
    loc: (int, int),
)
    requires
        session_location(w, pid, sid) == Some(loc),
        w2.projects.len() == w.projects.len(),
        forall|i: int| 0 <= i < w.projects.len() ==> #[trigger] w2.projects[i].id == w.projects[i].id,
        w2.projects[loc.0].sessions.len() == w.projects[loc.0].sessions.len(),
        forall|j: int|
            0 <= j < w.projects[loc.0].sessions.len() ==> #[trigger] w2.projects[loc.0].sessions[j].id
                == w.projects[loc.0].sessions[j].id,
    ensures
        session_location(w2, pid, sid) == Some(loc),
{
    lemma_project_index(w.projects, pid, 0);
    lemma_project_index(w2.projects, pid, 0);
    lemma_session_index(w.projects[loc.0].sessions, sid, 0);
    lemma_session_index(w2.projects[loc.0].sessions, sid, 0);
    assert(w2.projects[loc.0].id == w.projects[loc.0].id);
    match project_index(w2.projects, pid) {
        Some(k) => {
            assert(w2.projects[k].id == w.projects[k].id);
        },
        None => {},
    }
    assert(project_index(w2.projects, pid) == Some(loc.0));
    assert(w2.projects[loc.0].sessions[loc.1].id == w.projects[loc.0].sessions[loc.1].id);
    match session_index(w2.projects[loc.0].sessions, sid) {
        Some(k) => {
            assert(w2.projects[loc.0].sessions[k].id == w.projects[loc.0].sessions[k].id);
        },
        None => {},
    }
}

} // verus!

verus! {

/// Law: output that arrives in two pieces for the same role leaves the same
/// messages as output that arrives at once: the pieces are joined in one
/// message.
pub proof fn lemma_output_pieces_join(
    s: SessionView,
    role: Seq<char>,
    a: Seq<char>,
    b: Seq<char>,
    id1: Seq<char>,
    t1: Seq<char>,
    u1: Seq<char>,
    id2: Seq<char>,
    t2: Seq<char>,
    u2: Seq<char>,
)
    ensures
        with_output(with_output(s, role, a, id1, t1, u1), role, b, id2, t2, u2) == with_output(
            s,
            role,
            a + b,
            id1,
            t1,
            u2,
        ),
{
    let s1 = with_output(s, role, a, id1, t1, u1);
    assert(s1.messages.len() > 0 && s1.messages.last().role == role);
    if s.messages.len() > 0 && s.messages.last().role == role {
        let last = s.messages.last();
        assert(last.content + a + b =~= last.content + (a + b));
        assert(with_output(s1, role, b, id2, t2, u2).messages =~= with_output(s, role, a + b, id1, t1, u2).messages);
    } else {
        assert(with_output(s1, role, b, id2, t2, u2).messages =~= with_output(s, role, a + b, id1, t1, u2).messages);
    }
}

} // verus!

verus! {

/// Law: a session that is still untitled takes at most 48 characters of the
/// first message as its title; a titled session keeps its title.
pub proof fn lemma_title_is_short(title: Seq<char>, content: Seq<char>)
    ensures
        title == default_title() ==> next_title(title, content).len() <= 48,
        title != default_title() ==> next_title(title, content) == title,
{
}

/// Law: an untitled session takes its title from the first line of a
/// message: the title is the start of the message, holds no line break, has
/// at most 48 characters, and stops short of 48 only where that line ends (at
/// the end of the message, or before a `\n` or a `\r\n`).
pub proof fn lemma_untitled_session_takes_first_line(content: Seq<char>)
    requires
        content.len() > 0,
    ensures
        ({
            let t = next_title(default_title(), content);
            &&& t.len() <= 48
            &&& t == content.take(t.len() as int)
            &&& forall|k: int| 0 <= k < t.len() ==> #[trigger] t[k] != '\n'
            &&& t.len() < 48 ==> {
                ||| t.len() == content.len()
                ||| content[t.len() as int] == '\n'
                ||| (content[t.len() as int] == '\r' && t.len() + 1 < content.len() && content[t.len() as int + 1] == '\n')
            }
        }),
{
    let e = line_end(content, 0);
    lemma_line_end_bounds(content, 0);
    let ls = lines_seq(content);
    let line = ls[0];
    if e >= content.len() {
        assert(line == content);
        assert(content.take(content.len() as int) =~= content);
    } else {
        let head = content.subrange(0, e);
        assert(line == strip_cr(head));
        if head.len() > 0 && head.last() == '\r' {
            assert(line =~= content.subrange(0, e - 1));
        } else {
            assert(line =~= content.subrange(0, e));
        }
    }
    let t = next_title(default_title(), content);
    if line.len() <= 48 {
        assert(t == line);
    } else {
        assert(t =~= line.subrange(0, 48));
    }
    assert(t =~= content.take(t.len() as int));
}

} // verus!
