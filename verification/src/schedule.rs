//! The scheduler: which queued run starts next, under the global and the
//! per-provider limits on concurrent runs.
use vstd::prelude::*;
use crate::model::{RunStatus, AgentRun, AgentConfig, RunView, ProviderView, SessionView, ProjectView, MessageView,
    run_views};
use crate::prompt::{build_prompt, select_skills, selected_skills, prompt_text};
use crate::order::{SortKey, stable_sort, is_stable_order, precedes, occurs};
use crate::text::{views, text_eq, join_seq, join, cat};
use crate::workbench::{Workbench, WorkbenchView, same_ids, provider_index, lemma_provider_index, session_location,
    project_index, session_index, lemma_project_index, lemma_session_index,
    lemma_session_location, lemma_location_preserved, lemma_with_session_twice, with_run, with_session,
    with_status, with_message, session_at};
use crate::clock::now;
use crate::text::owned;

verus! {

/// Number of running runs.
pub open spec fn count_running(rs: Seq<RunView>) -> nat
    decreases rs.len(),
{
    if rs.len() == 0 {
        0
    } else {
        count_running(rs.drop_last()) + if rs.last().status == RunStatus::Running {
            1nat
        } else {
            0nat
        }
    }
}

/// Number of running runs of the agent `agent`.
pub open spec fn count_running_for(rs: Seq<RunView>, agent: Seq<char>) -> nat
    decreases rs.len(),
{
    if rs.len() == 0 {
        0
    } else {
        count_running_for(rs.drop_last(), agent) + if rs.last().status == RunStatus::Running
            && rs.last().agent_id == agent {
            1nat
        } else {
            0nat
        }
    }
}

/// `order` lists every queued run once, oldest first (by creation time as
/// text), runs created at the same time in the order they are stored.
pub open spec fn is_queue_order(rs: Seq<RunView>, order: Seq<int>) -> bool {
    &&& forall|k: int|
        0 <= k < order.len() ==> 0 <= #[trigger] order[k] < rs.len() && rs[order[k]].status
            == RunStatus::Queued
    &&& forall|i: int| 0 <= i < rs.len() && rs[i].status == RunStatus::Queued ==> #[trigger] occurs(order, i)
    &&& forall|a: int, b: int| 0 <= a < b < order.len() ==> #[trigger] order[a] != #[trigger] order[b]
    &&& forall|a: int, b: int|
        0 <= a < b < order.len() ==> precedes(
            seq![rs[#[trigger] order[a]].created_at],
            order[a],
            seq![rs[#[trigger] order[b]].created_at],
            order[b],
            false,
        )
}

/// A queued run waiting for its turn.
pub struct QueueEntry {
    pub index: usize,
    pub created_at: String,
}

impl SortKey for QueueEntry {
    open spec fn key_of(&self) -> Seq<Seq<char>> {
        seq![self.created_at@]
    }

    fn sort_key(&self) -> (k: Vec<String>) {
        let mut k: Vec<String> = Vec::new();
        k.push(self.created_at.clone());
        assert(views(k@) =~= seq![self.created_at@]);
        k
    }
}

pub fn count_running_runs(runs: &Vec<AgentRun>) -> (n: usize)
    ensures
        n == count_running(run_views(runs@)),
{
    let mut n: usize = 0;
    let mut i: usize = 0;
    while i < runs.len()
        invariant
            i <= runs@.len(),
            n == count_running(run_views(runs@).subrange(0, i as int)),
            n <= i,
        decreases runs.len() - i,
    {
        assert(run_views(runs@).subrange(0, i + 1).drop_last() =~= run_views(runs@).subrange(0, i as int));
        if runs[i].status == RunStatus::Running {
            n = n + 1;
        }
        i = i + 1;
    }
    assert(run_views(runs@).subrange(0, runs@.len() as int) =~= run_views(runs@));
    n
}

pub fn count_running_runs_for(runs: &Vec<AgentRun>, agent: &str) -> (n: usize)
    ensures
        n == count_running_for(run_views(runs@), agent@),
{
    let mut n: usize = 0;
    let mut i: usize = 0;
    while i < runs.len()
        invariant
            i <= runs@.len(),
            n == count_running_for(run_views(runs@).subrange(0, i as int), agent@),
            n <= i,
        decreases runs.len() - i,
    {
        assert(run_views(runs@).subrange(0, i + 1).drop_last() =~= run_views(runs@).subrange(0, i as int));
        if runs[i].status == RunStatus::Running && text_eq(runs[i].agent_id.as_str(), agent) {
            n = n + 1;
        }
        i = i + 1;
    }
    assert(run_views(runs@).subrange(0, runs@.len() as int) =~= run_views(runs@));
    n
}

/// The queued runs, oldest first.
pub fn queue_order(runs: &Vec<AgentRun>) -> (order: Vec<usize>)
    ensures
        is_queue_order(run_views(runs@), order@.map_values(|k: usize| k as int)),
{
    let ghost rs = run_views(runs@);
    let mut entries: Vec<QueueEntry> = Vec::new();
    let mut i: usize = 0;
    while i < runs.len()
        invariant
            i <= runs@.len(),
            rs == run_views(runs@),
            forall|j: int|
                0 <= j < entries@.len() ==> (#[trigger] entries@[j]).index < i && rs[entries@[j].index as int].status
                    == RunStatus::Queued && entries@[j].created_at@ == rs[entries@[j].index as int].created_at,
            forall|a: int, b: int| 0 <= a < b < entries@.len() ==> #[trigger] entries@[a].index < #[trigger] entries@[b].index,
            forall|q: int|
                0 <= q < i && rs[q].status == RunStatus::Queued ==> exists|j: int|
                    0 <= j < entries@.len() && #[trigger] entries@[j].index == q,
        decreases runs.len() - i,
    {
        if runs[i].status == RunStatus::Queued {
            let ghost before = entries@;
            entries.push(QueueEntry { index: i, created_at: runs[i].created_at.clone() });
            proof {
                assert forall|q: int| 0 <= q < i + 1 && rs[q].status == RunStatus::Queued implies exists|j: int|
                    0 <= j < entries@.len() && #[trigger] entries@[j].index == q by {
                    if q == i {
                        assert(entries@[before.len() as int].index == q);
                    } else {
                        let j = choose|j: int| 0 <= j < before.len() && #[trigger] before[j].index == q;
                        assert(entries@[j].index == q);
                    }
                }
            }
        }
        i = i + 1;
    }
    let ghost unsorted = entries@;
    stable_sort(&mut entries, false);
    let ghost sorted = entries@;
    let ghost p = choose|p: Seq<int>|
        is_stable_order(unsorted, p, false) && sorted.len() == p.len() && forall|k: int|
            0 <= k < p.len() ==> #[trigger] sorted[k] == unsorted[p[k]];
    let mut order: Vec<usize> = Vec::new();
    let mut k: usize = 0;
    while k < entries.len()
        invariant
            k <= entries@.len(),
            sorted == entries@,
            order@.len() == k,
            forall|j: int| 0 <= j < k ==> #[trigger] order@[j] == sorted[j].index,
        decreases entries.len() - k,
    {
        order.push(entries[k].index);
        k = k + 1;
    }
    proof {
        let ov = order@.map_values(|k: usize| k as int);
        assert(ov.len() == sorted.len());
        assert forall|a: int| 0 <= a < ov.len() implies ov[a] == unsorted[p[a]].index as int by {
            assert(sorted[a] == unsorted[p[a]]);
        }
        assert forall|q: int| 0 <= q < rs.len() && rs[q].status == RunStatus::Queued implies #[trigger] occurs(ov, q) by {
            let j = choose|j: int| 0 <= j < unsorted.len() && #[trigger] unsorted[j].index == q;
            assert(occurs(p, j));
            let a = choose|a: int| 0 <= a < p.len() && p[a] == j;
            assert(ov[a] == q);
        }
        assert forall|a: int, b: int| 0 <= a < b < ov.len() implies #[trigger] ov[a] != #[trigger] ov[b] by {
            assert(p[a] != p[b]);
            if p[a] < p[b] {
                assert(unsorted[p[a]].index < unsorted[p[b]].index);
            } else {
                assert(unsorted[p[b]].index < unsorted[p[a]].index);
            }
        }
        assert forall|a: int, b: int| 0 <= a < b < ov.len() implies precedes(
            seq![rs[#[trigger] ov[a]].created_at],
            ov[a],
            seq![rs[#[trigger] ov[b]].created_at],
            ov[b],
            false,
        ) by {
            assert(precedes(unsorted[p[a]].key_of(), p[a], unsorted[p[b]].key_of(), p[b], false));
            assert(unsorted[p[a]].key_of() == seq![rs[ov[a]].created_at]);
            assert(unsorted[p[b]].key_of() == seq![rs[ov[b]].created_at]);
            if p[a] < p[b] {
                assert(unsorted[p[a]].index < unsorted[p[b]].index);
            } else if p[b] < p[a] {
                assert(unsorted[p[b]].index < unsorted[p[a]].index);
            }
        }
    }
    order
}

/// The run at `ri` has a provider, and the provider runs fewer runs than it may.
pub open spec fn has_room(w: WorkbenchView, ri: int) -> bool {
    match provider_index(w.providers, w.runs[ri].agent_id) {
        Some(p) => count_running_for(w.runs, w.providers[p].id) < w.providers[p].concurrency,
        None => false,
    }
}

/// No provider has the agent id of the run at `ri`.
pub open spec fn lacks_provider(w: WorkbenchView, ri: int) -> bool {
    provider_index(w.providers, w.runs[ri].agent_id) is None
}

/// The first place at or after `k` in `order` whose run can start.
pub open spec fn pick_from(w: WorkbenchView, order: Seq<int>, k: int) -> Option<int>
    decreases order.len() - k,
{
    if k < 0 || k >= order.len() {
        None
    } else if has_room(w, order[k]) {
        Some(k)
    } else {
        pick_from(w, order, k + 1)
    }
}

/// The runs among the first `n` of `order` that have no provider, in order.
pub open spec fn fails_upto(w: WorkbenchView, order: Seq<int>, n: int) -> Seq<int>
    decreases n,
{
    if n <= 0 {
        Seq::empty()
    } else if lacks_provider(w, order[n - 1]) {
        fails_upto(w, order, n - 1).push(order[n - 1])
    } else {
        fails_upto(w, order, n - 1)
    }
}

/// The runs the scheduler marks as failed: those without a provider that come
/// before the run it starts (all of them when it starts none).
pub open spec fn planned_fails(w: WorkbenchView, order: Seq<int>) -> Seq<int> {
    match pick_from(w, order, 0) {
        Some(k) => fails_upto(w, order, k),
        None => fails_upto(w, order, order.len() as int),
    }
}

/// The run the scheduler starts: the first in `order` that can.
pub open spec fn planned_start(w: WorkbenchView, order: Seq<int>) -> Option<int> {
    match pick_from(w, order, 0) {
        Some(k) => Some(order[k]),
        None => None,
    }
}

proof fn lemma_pick_from(w: WorkbenchView, order: Seq<int>, k: int)
    requires
        0 <= k,
    ensures
        match pick_from(w, order, k) {
            Some(j) => k <= j < order.len() && has_room(w, order[j]) && forall|m: int|
                k <= m < j ==> !has_room(w, #[trigger] order[m]),
            None => forall|m: int| k <= m < order.len() ==> !has_room(w, #[trigger] order[m]),
        },
    decreases order.len() - k,
{
    if k < order.len() && !has_room(w, order[k]) {
        lemma_pick_from(w, order, k + 1);
    }
}

impl Workbench {
    /// Decides, for queued runs in `order`, which ones fail for want of a
    /// provider and which one starts, with the provider that takes it.
    pub fn plan_dispatch(&self, order: &Vec<usize>) -> (r: (Vec<usize>, Option<(usize, usize)>))
        requires
            forall|k: int| 0 <= k < order@.len() ==> #[trigger] order@[k] < self@.runs.len(),
        ensures
            ({
                let ord = order@.map_values(|k: usize| k as int);
                &&& r.0@.map_values(|k: usize| k as int) == planned_fails(self@, ord)
                &&& match planned_start(self@, ord) {
                    Some(ri) => r.1 matches Some((x, p)) && x == ri && provider_index(
                        self@.providers,
                        self@.runs[ri].agent_id,
                    ) == Some(p as int),
                    None => r.1 is None,
                }
            }),
    {
        let ghost w = self@;
        let ghost ord = order@.map_values(|k: usize| k as int);
        let mut fails: Vec<usize> = Vec::new();
        let mut k: usize = 0;
        while k < order.len()
            invariant
                k <= order@.len(),
                w == self@,
                ord == order@.map_values(|k: usize| k as int),
                forall|j: int| 0 <= j < order@.len() ==> #[trigger] order@[j] < self@.runs.len(),
                fails@.map_values(|k: usize| k as int) == fails_upto(w, ord, k as int),
                pick_from(w, ord, 0) == pick_from(w, ord, k as int),
            decreases order.len() - k,
        {
            let ri = order[k];
            let found = self.find_provider(self.runs[ri].agent_id.as_str());
            proof {
                lemma_provider_index(w.providers, w.runs[ri as int].agent_id, 0);
                assert(ord[k as int] == ri as int);
            }
            match found {
                None => {
                    let ghost before = fails@;
                    fails.push(ri);
                    proof {
                        assert(fails@.map_values(|k: usize| k as int) =~= before.map_values(|k: usize| k as int).push(
                            ri as int,
                        ));
                    }
                },
                Some(p) => {
                    let running = count_running_runs_for(&self.runs, self.config.providers[p].id.as_str());
                    if running < self.config.providers[p].concurrency {
                        return (fails, Some((ri, p)));
                    }
                },
            }
            k = k + 1;
        }
        (fails, None)
    }
}

/// `w2` is `w` after the run at `ri` moved to `status`: stamped with `stamp`
/// as started (`started`) or as finished, its session set to `status` and
/// given a system message `note`, both stamped with `stamp`.
pub open spec fn transitioned(w: WorkbenchView, w2: WorkbenchView, ri: int, status: RunStatus, started: bool, note: Seq<char>, stamp: Seq<char>) -> bool {
    let r0 = w.runs[ri];
    let r1 = if started {
        RunView { status, started_at: w2.runs[ri].started_at, ..r0 }
    } else {
        RunView { status, finished_at: w2.runs[ri].finished_at, ..r0 }
    };
    let after_run = with_run(w, ri, r1);
    &&& started ==> w2.runs[ri].started_at == Some(stamp)
    &&& !started ==> w2.runs[ri].finished_at == Some(stamp)
    &&& (session_location(w, r0.project_id, r0.session_id) matches Some(loc) ==> session_at(w2, loc).updated_at == stamp
        && session_at(w2, loc).messages.last().created_at == stamp)
    &&& match session_location(w, r0.project_id, r0.session_id) {
        Some(loc) => {
            let s = session_at(w2, loc);
            w2 == with_session(
                after_run,
                loc.0,
                loc.1,
                with_message(
                    with_status(session_at(w, loc), status, s.updated_at),
                    MessageView {
                        id: s.messages.last().id,
                        role: "system"@,
                        content: note,
                        created_at: s.messages.last().created_at,
                    },
                    s.updated_at,
                ),
            )
        },
        None => w2 == after_run,
    }
}

impl Workbench {
    /// Moves the run at `ri` to `status`, stamping when it started (`started`)
    /// or when it finished, sets its session to the same status, and adds a
    /// system message `note` to that session.
    fn transition_run(&mut self, ri: usize, status: RunStatus, started: bool, note: String, stamp: &str)
        requires
            ri < old(self)@.runs.len(),
        ensures
            transitioned(old(self)@, final(self)@, ri as int, status, started, note@, stamp@),
            final(self).config == old(self).config,
            same_ids(old(self)@, final(self)@),
    {
        let ghost r0 = self@.runs[ri as int];
        if started {
            self.runs[ri].started_at = Some(owned(stamp));
        } else {
            self.runs[ri].finished_at = Some(owned(stamp));
        }
        self.runs[ri].status = status;
        proof {
            let r1 = if started {
                RunView { status, started_at: self@.runs[ri as int].started_at, ..r0 }
            } else {
                RunView { status, finished_at: self@.runs[ri as int].finished_at, ..r0 }
            };
            assert(run_views(self.runs@) =~= with_run(old(self)@, ri as int, r1).runs);
        }
        let project_id = self.runs[ri].project_id.clone();
        let session_id = self.runs[ri].session_id.clone();
        let ghost mid = self@;
        self.set_session_status_at(project_id.as_str(), session_id.as_str(), status, stamp);
        let ghost mid2 = self@;
        proof {
            lemma_session_location(mid, project_id@, session_id@);
            if let Some(loc) = session_location(mid, project_id@, session_id@) {
                lemma_location_preserved(mid, mid2, project_id@, session_id@, loc);
            }
        }
        let ghost nv = note@;
        self.push_session_message_at(project_id.as_str(), session_id.as_str(), "system", note, stamp);
        proof {
            assert(mid.runs == self@.runs);
            if let Some(loc) = session_location(mid, project_id@, session_id@) {
                let s = session_at(self@, loc);
                let m = MessageView {
                    id: s.messages.last().id,
                    role: "system"@,
                    content: nv,
                    created_at: s.messages.last().created_at,
                };
                let a = with_status(session_at(mid, loc), status, session_at(mid2, loc).updated_at);
                let b = with_message(a, m, s.updated_at);
                let b2 = with_message(with_status(session_at(old(self)@, loc), status, s.updated_at), m, s.updated_at);
                assert(b == b2);
                lemma_with_session_twice(mid, loc.0, loc.1, a, b);
            }
        }
    }
}

/// `w2` has the projects and sessions of `w` at the same places, with the same ids.
pub open spec fn same_shape(w: WorkbenchView, w2: WorkbenchView) -> bool {
    &&& w2.projects.len() == w.projects.len()
    &&& forall|pi: int|
        0 <= pi < w.projects.len() ==> #[trigger] w2.projects[pi].id == w.projects[pi].id
            && w2.projects[pi].sessions.len() == w.projects[pi].sessions.len()
    &&& forall|pi: int, si: int|
        #![trigger w2.projects[pi].sessions[si]]
        0 <= pi < w.projects.len() && 0 <= si < w.projects[pi].sessions.len()
            ==> w2.projects[pi].sessions[si].id == w.projects[pi].sessions[si].id
}

pub proof fn lemma_same_shape_location(w: WorkbenchView, w2: WorkbenchView, pid: Seq<char>, sid: Seq<char>)
    requires
        same_shape(w, w2),
    ensures
        session_location(w2, pid, sid) == session_location(w, pid, sid),
{
    lemma_project_index(w.projects, pid, 0);
    lemma_project_index(w2.projects, pid, 0);
    match project_index(w.projects, pid) {
        Some(k) => {
            assert(w2.projects[k].id == w.projects[k].id);
        },
        None => {},
    }
    match project_index(w2.projects, pid) {
        Some(k) => {
            assert(w2.projects[k].id == w.projects[k].id);
        },
        None => {},
    }
    if let Some(pi) = project_index(w.projects, pid) {
        let ss = w.projects[pi].sessions;
        let ss2 = w2.projects[pi].sessions;
        lemma_session_index(ss, sid, 0);
        lemma_session_index(ss2, sid, 0);
        match session_index(ss, sid) {
            Some(k) => {
                assert(w2.projects[pi].sessions[k].id == w.projects[pi].sessions[k].id);
            },
            None => {},
        }
        match session_index(ss2, sid) {
            Some(k) => {
                assert(w2.projects[pi].sessions[k].id == w.projects[pi].sessions[k].id);
            },
            None => {},
        }
    }
}

/// The system message a run gets when no provider serves it.
pub open spec fn fail_note() -> Seq<char> {
    "Agent provider not found."@
}

/// The system message a session gets when its run starts.
pub open spec fn starting_note(p: ProviderView) -> Seq<char> {
    "Starting "@ + p.label + ": "@ + p.command + " "@ + join_seq(p.args, " "@)
}

/// The run at `ri` belongs to the session at `loc`.
pub open spec fn targets(w: WorkbenchView, ri: int, loc: (int, int)) -> bool {
    session_location(w, w.runs[ri].project_id, w.runs[ri].session_id) == Some(loc)
}

/// How many of the failed runs belong to the session at `loc`.
pub open spec fn fail_count(w: WorkbenchView, fails: Seq<int>, loc: (int, int)) -> nat
    decreases fails.len(),
{
    if fails.len() == 0 {
        0
    } else {
        fail_count(w, fails.drop_last(), loc) + if targets(w, fails.last(), loc) {
            1nat
        } else {
            0nat
        }
    }
}

/// The note the session at `loc` gets when the run `start` starts there.
pub open spec fn start_note_at(w: WorkbenchView, start: Option<int>, loc: (int, int)) -> Option<Seq<char>> {
    match start {
        Some(ri) => if targets(w, ri, loc) {
            match provider_index(w.providers, w.runs[ri].agent_id) {
                Some(p) => Some(starting_note(w.providers[p])),
                None => None,
            }
        } else {
            None
        },
        None => None,
    }
}

/// A run as the scheduler leaves it: started or failed, stamped with `stamp`,
/// or untouched.
pub open spec fn run_effect(r0: RunView, r: RunView, failed: bool, started: bool, stamp: Seq<char>) -> bool {
    if started {
        r == (RunView { status: RunStatus::Running, started_at: Some(stamp), ..r0 })
    } else if failed {
        r == (RunView { status: RunStatus::Failed, finished_at: Some(stamp), ..r0 })
    } else {
        r == r0
    }
}

/// A session as the scheduler leaves it: `n` more failure notes, then the
/// starting note when its run starts, and the status of the last of these;
/// the new notes and the session, when it changed, are stamped with `stamp`.
pub open spec fn session_effects(s0: SessionView, s: SessionView, n: nat, note: Option<Seq<char>>, stamp: Seq<char>) -> bool {
    let k = n + if note is Some {
        1nat
    } else {
        0nat
    };
    &&& s.messages.len() == s0.messages.len() + k
    &&& s.messages.subrange(0, s0.messages.len() as int) == s0.messages
    &&& forall|j: int|
        s0.messages.len() <= j < s0.messages.len() + n ==> (#[trigger] s.messages[j]).role == "system"@
            && s.messages[j].content == fail_note()
    &&& (note matches Some(t) ==> s.messages.last().role == "system"@ && s.messages.last().content == t)
    &&& s.status == if note is Some {
        RunStatus::Running
    } else if n > 0 {
        RunStatus::Failed
    } else {
        s0.status
    }
    &&& (k == 0 ==> s.updated_at == s0.updated_at)
    &&& (k > 0 ==> s.updated_at == stamp)
    &&& forall|j: int| s0.messages.len() <= j < s.messages.len() ==> (#[trigger] s.messages[j]).created_at == stamp
    &&& (SessionView { messages: s0.messages, status: s0.status, updated_at: s0.updated_at, ..s }) == s0
}

/// `w` is `w0` after the runs `fails` failed, in this order, and the run
/// `start`, if any, started.
pub open spec fn dispatch_effect(w0: WorkbenchView, w: WorkbenchView, fails: Seq<int>, start: Option<int>, stamp: Seq<char>) -> bool {
    &&& w.providers == w0.providers
    &&& w.max_global_concurrency == w0.max_global_concurrency
    &&& w.skills == w0.skills
    &&& w.active_project_id == w0.active_project_id
    &&& w.active_session_id == w0.active_session_id
    &&& w.runs.len() == w0.runs.len()
    &&& forall|i: int|
        0 <= i < w0.runs.len() ==> run_effect(
            w0.runs[i],
            #[trigger] w.runs[i],
            fails.contains(i),
            start == Some(i),
            stamp,
        )
    &&& same_shape(w0, w)
    &&& forall|pi: int|
        0 <= pi < w0.projects.len() ==> (ProjectView {
            sessions: w0.projects[pi].sessions,
            ..#[trigger] w.projects[pi]
        }) == w0.projects[pi]
    &&& forall|pi: int, si: int|
        #![trigger w.projects[pi].sessions[si]]
        0 <= pi < w0.projects.len() && 0 <= si < w0.projects[pi].sessions.len() ==> session_effects(
            w0.projects[pi].sessions[si],
            w.projects[pi].sessions[si],
            fail_count(w0, fails, (pi, si)),
            start_note_at(w0, start, (pi, si)),
            stamp,
        )
}

proof fn lemma_dispatch_effect_start(w0: WorkbenchView, stamp: Seq<char>)
    ensures
        dispatch_effect(w0, w0, Seq::empty(), None, stamp),
{
    assert forall|pi: int, si: int|
        #![trigger w0.projects[pi].sessions[si]]
        0 <= pi < w0.projects.len() && 0 <= si < w0.projects[pi].sessions.len() implies session_effects(
        w0.projects[pi].sessions[si],
        w0.projects[pi].sessions[si],
        fail_count(w0, Seq::empty(), (pi, si)),
        start_note_at(w0, None, (pi, si)),
        stamp,
    ) by {
        let s = w0.projects[pi].sessions[si];
        assert(s.messages.subrange(0, s.messages.len() as int) =~= s.messages);
    }
}

proof fn lemma_session_note(
    s0: SessionView,
    s: SessionView,
    n: nat,
    status: RunStatus,
    m: MessageView,
    u: Seq<char>,
    note: Option<Seq<char>>,
    stamp: Seq<char>,
)
    requires
        session_effects(s0, s, n, None, stamp),
        m.role == "system"@,
        m.created_at == stamp,
        u == stamp,
        note is None ==> status == RunStatus::Failed && m.content == fail_note(),
        note matches Some(t) ==> status == RunStatus::Running && m.content == t,
    ensures
        session_effects(
            s0,
            with_message(with_status(s, status, u), m, u),
            if note is None {
                n + 1
            } else {
                n
            },
            note,
            stamp,
        ),
{
    let s2 = with_message(with_status(s, status, u), m, u);
    assert(s2.messages == s.messages.push(m));
    assert(s2.messages.subrange(0, s0.messages.len() as int) =~= s.messages.subrange(0, s0.messages.len() as int));
    assert forall|j: int| 0 <= j < s.messages.len() implies s2.messages[j] == s.messages[j] by {}
}

proof fn lemma_fail_count_push(w: WorkbenchView, fails: Seq<int>, f: int, loc: (int, int))
    ensures
        fail_count(w, fails.push(f), loc) == fail_count(w, fails, loc) + if targets(w, f, loc) {
            1nat
        } else {
            0nat
        },
{
    assert(fails.push(f).drop_last() =~= fails);
}

/// One more run fails: the effect grows by it.
proof fn lemma_fail_step(w0: WorkbenchView, w: WorkbenchView, w2: WorkbenchView, fails: Seq<int>, f: int, stamp: Seq<char>)
    requires
        dispatch_effect(w0, w, fails, None, stamp),
        0 <= f < w0.runs.len(),
        !fails.contains(f),
        transitioned(w, w2, f, RunStatus::Failed, false, fail_note(), stamp),
    ensures
        dispatch_effect(w0, w2, fails.push(f), None, stamp),
{
    let r0 = w.runs[f];
    assert(run_effect(w0.runs[f], w.runs[f], fails.contains(f), None::<int> == Some(f), stamp));
    assert(r0 == w0.runs[f]);
    lemma_same_shape_location(w0, w, r0.project_id, r0.session_id);
    lemma_session_location(w, r0.project_id, r0.session_id);
    let nf = fails.push(f);
    assert forall|i: int| 0 <= i < w0.runs.len() implies run_effect(
        w0.runs[i],
        #[trigger] w2.runs[i],
        nf.contains(i),
        None::<int> == Some(i),
        stamp,
    ) by {
        if i == f {
            assert(nf[nf.len() - 1] == f);
        } else {
            assert(w2.runs[i] == w.runs[i]);
            if fails.contains(i) {
                let k = choose|k: int| 0 <= k < fails.len() && fails[k] == i;
                assert(nf[k] == i);
            }
            if nf.contains(i) {
                let k = choose|k: int| 0 <= k < nf.len() && nf[k] == i;
                assert(k < fails.len());
                assert(fails[k] == i);
            }
        }
    }
    match session_location(w, r0.project_id, r0.session_id) {
        Some(loc) => {
            let s = session_at(w2, loc);
            assert forall|pi: int| 0 <= pi < w0.projects.len() implies #[trigger] w2.projects[pi].id == w0.projects[pi].id
                && w2.projects[pi].sessions.len() == w0.projects[pi].sessions.len() by {
                assert(w.projects[pi].id == w0.projects[pi].id);
            }
            assert forall|pi: int, si: int|
                #![trigger w2.projects[pi].sessions[si]]
                0 <= pi < w0.projects.len() && 0 <= si < w0.projects[pi].sessions.len()
                    implies w2.projects[pi].sessions[si].id == w0.projects[pi].sessions[si].id && session_effects(
                    w0.projects[pi].sessions[si],
                    w2.projects[pi].sessions[si],
                    fail_count(w0, nf, (pi, si)),
                    start_note_at(w0, None, (pi, si)),
                    stamp,
                ) by {
                assert(w.projects[pi].sessions[si].id == w0.projects[pi].sessions[si].id);
                lemma_fail_count_push(w0, fails, f, (pi, si));
                assert(session_effects(
                    w0.projects[pi].sessions[si],
                    w.projects[pi].sessions[si],
                    fail_count(w0, fails, (pi, si)),
                    start_note_at(w0, None, (pi, si)),
                    stamp,
                ));
                if (pi, si) == loc {
                    let m = MessageView {
                        id: s.messages.last().id,
                        role: "system"@,
                        content: fail_note(),
                        created_at: s.messages.last().created_at,
                    };
                    lemma_session_note(
                        w0.projects[pi].sessions[si],
                        w.projects[pi].sessions[si],
                        fail_count(w0, fails, (pi, si)),
                        RunStatus::Failed,
                        m,
                        s.updated_at,
                        None,
                        stamp,
                    );
                } else {
                    assert(w2.projects[pi].sessions[si] == w.projects[pi].sessions[si]);
                }
            }
            assert forall|pi: int| 0 <= pi < w0.projects.len() implies (ProjectView {
                sessions: w0.projects[pi].sessions,
                ..#[trigger] w2.projects[pi]
            }) == w0.projects[pi] by {
                assert((ProjectView { sessions: w0.projects[pi].sessions, ..w.projects[pi] }) == w0.projects[pi]);
            }
        },
        None => {
            assert forall|pi: int, si: int|
                #![trigger w2.projects[pi].sessions[si]]
                0 <= pi < w0.projects.len() && 0 <= si < w0.projects[pi].sessions.len()
                    implies session_effects(
                    w0.projects[pi].sessions[si],
                    w2.projects[pi].sessions[si],
                    fail_count(w0, nf, (pi, si)),
                    start_note_at(w0, None, (pi, si)),
                    stamp,
                ) by {
                lemma_fail_count_push(w0, fails, f, (pi, si));
                assert(w2.projects[pi].sessions[si] == w.projects[pi].sessions[si]);
            }
        },
    }
}

/// The chosen run starts: the effect is complete.
proof fn lemma_start_step(w0: WorkbenchView, w: WorkbenchView, w2: WorkbenchView, fails: Seq<int>, ri: int, p: int, stamp: Seq<char>)
    requires
        dispatch_effect(w0, w, fails, None, stamp),
        0 <= ri < w0.runs.len(),
        !fails.contains(ri),
        provider_index(w0.providers, w0.runs[ri].agent_id) == Some(p),
        transitioned(w, w2, ri, RunStatus::Running, true, starting_note(w0.providers[p]), stamp),
    ensures
        dispatch_effect(w0, w2, fails, Some(ri), stamp),
{
    let r0 = w.runs[ri];
    assert(run_effect(w0.runs[ri], w.runs[ri], fails.contains(ri), None::<int> == Some(ri), stamp));
    assert(r0 == w0.runs[ri]);
    lemma_same_shape_location(w0, w, r0.project_id, r0.session_id);
    lemma_session_location(w, r0.project_id, r0.session_id);
    let note = starting_note(w0.providers[p]);
    assert forall|i: int| 0 <= i < w0.runs.len() implies run_effect(
        w0.runs[i],
        #[trigger] w2.runs[i],
        fails.contains(i),
        Some(ri) == Some(i),
        stamp,
    ) by {
        if i != ri {
            assert(w2.runs[i] == w.runs[i]);
        }
    }
    match session_location(w, r0.project_id, r0.session_id) {
        Some(loc) => {
            let s = session_at(w2, loc);
            assert forall|pi: int| 0 <= pi < w0.projects.len() implies #[trigger] w2.projects[pi].id == w0.projects[pi].id
                && w2.projects[pi].sessions.len() == w0.projects[pi].sessions.len() by {
                assert(w.projects[pi].id == w0.projects[pi].id);
            }
            assert forall|pi: int, si: int|
                #![trigger w2.projects[pi].sessions[si]]
                0 <= pi < w0.projects.len() && 0 <= si < w0.projects[pi].sessions.len()
                    implies w2.projects[pi].sessions[si].id == w0.projects[pi].sessions[si].id && session_effects(
                    w0.projects[pi].sessions[si],
                    w2.projects[pi].sessions[si],
                    fail_count(w0, fails, (pi, si)),
                    start_note_at(w0, Some(ri), (pi, si)),
                    stamp,
                ) by {
                assert(w.projects[pi].sessions[si].id == w0.projects[pi].sessions[si].id);
                assert(session_effects(
                    w0.projects[pi].sessions[si],
                    w.projects[pi].sessions[si],
                    fail_count(w0, fails, (pi, si)),
                    start_note_at(w0, None, (pi, si)),
                    stamp,
                ));
                if (pi, si) == loc {
                    let m = MessageView {
                        id: s.messages.last().id,
                        role: "system"@,
                        content: note,
                        created_at: s.messages.last().created_at,
                    };
                    lemma_session_note(
                        w0.projects[pi].sessions[si],
                        w.projects[pi].sessions[si],
                        fail_count(w0, fails, (pi, si)),
                        RunStatus::Running,
                        m,
                        s.updated_at,
                        Some(note),
                        stamp,
                    );
                } else {
                    assert(w2.projects[pi].sessions[si] == w.projects[pi].sessions[si]);
                }
            }
            assert forall|pi: int| 0 <= pi < w0.projects.len() implies (ProjectView {
                sessions: w0.projects[pi].sessions,
                ..#[trigger] w2.projects[pi]
            }) == w0.projects[pi] by {
                assert((ProjectView { sessions: w0.projects[pi].sessions, ..w.projects[pi] }) == w0.projects[pi]);
            }
        },
        None => {
            assert forall|pi: int, si: int|
                #![trigger w2.projects[pi].sessions[si]]
                0 <= pi < w0.projects.len() && 0 <= si < w0.projects[pi].sessions.len()
                    implies session_effects(
                    w0.projects[pi].sessions[si],
                    w2.projects[pi].sessions[si],
                    fail_count(w0, fails, (pi, si)),
                    start_note_at(w0, Some(ri), (pi, si)),
                    stamp,
                ) by {
                assert(w2.projects[pi].sessions[si] == w.projects[pi].sessions[si]);
                assert(session_effects(
                    w0.projects[pi].sessions[si],
                    w.projects[pi].sessions[si],
                    fail_count(w0, fails, (pi, si)),
                    start_note_at(w0, None, (pi, si)),
                    stamp,
                ));
            }
        },
    }
}

/// `x` is among the first `n` entries of `order`.
pub open spec fn in_prefix(order: Seq<int>, n: int, x: int) -> bool {
    exists|m: int| 0 <= m < n && order[m] == x
}

proof fn lemma_fails_upto(w: WorkbenchView, order: Seq<int>, n: int)
    requires
        0 <= n <= order.len(),
        forall|a: int, b: int| 0 <= a < b < order.len() ==> #[trigger] order[a] != #[trigger] order[b],
    ensures
        forall|k: int|
            0 <= k < fails_upto(w, order, n).len() ==> lacks_provider(w, #[trigger] fails_upto(w, order, n)[k])
                && in_prefix(order, n, fails_upto(w, order, n)[k]),
        forall|a: int, b: int|
            0 <= a < b < fails_upto(w, order, n).len() ==> #[trigger] fails_upto(w, order, n)[a]
                != #[trigger] fails_upto(w, order, n)[b],
    decreases n,
{
    if n > 0 {
        lemma_fails_upto(w, order, n - 1);
        let prev = fails_upto(w, order, n - 1);
        let cur = fails_upto(w, order, n);
        assert forall|k: int| 0 <= k < prev.len() implies in_prefix(order, n, #[trigger] prev[k]) by {
            let m = choose|m: int| 0 <= m < n - 1 && order[m] == prev[k];
            assert(order[m] == prev[k]);
        }
        if lacks_provider(w, order[n - 1]) {
            assert forall|k: int| 0 <= k < cur.len() implies lacks_provider(w, #[trigger] cur[k]) && in_prefix(order, n, cur[k]) by {
                if k < prev.len() {
                    assert(cur[k] == prev[k]);
                } else {
                    assert(cur[k] == order[n - 1]);
                }
            }
            assert forall|a: int, b: int| 0 <= a < b < cur.len() implies #[trigger] cur[a] != #[trigger] cur[b] by {
                if b == prev.len() {
                    assert(cur[a] == prev[a]);
                    let m = choose|m: int| 0 <= m < n - 1 && order[m] == prev[a];
                    assert(order[m] != order[n - 1]);
                } else {
                    assert(cur[a] == prev[a] && cur[b] == prev[b]);
                }
            }
        } else {
            assert(cur == prev);
        }
    }
}

/// The results of one turn of the scheduler.
pub enum Dispatch {
    /// Nothing was started: the limits are reached, or no queued run can start.
    Idle,
    /// A run was marked as started, but its project or session is gone.
    Orphaned,
    /// A run was started; its process is the caller's to spawn.
    Started(StartedRun),
}

/// What the caller needs to spawn the process of a started run.
pub struct StartedRun {
    pub run: AgentRun,
    /// Position of the provider among the configured ones.
    pub provider: usize,
    pub project_path: String,
    pub prompt: String,
}

/// The starting note for a provider, as text.
pub fn starting_note_text(p: &AgentConfig) -> (r: String)
    ensures
        r@ == starting_note(p@),
{
    let args = join(&p.args, " ");
    let a = cat("Starting ", p.label.as_str());
    let b = cat(a.as_str(), ": ");
    let c = cat(b.as_str(), p.command.as_str());
    let d = cat(c.as_str(), " ");
    cat(d.as_str(), args.as_str())
}

/// One turn of the scheduler took the state `w` to `w2` with the outcome `r`.
/// While fewer runs are running than the global limit allows, the queued runs
/// are walked oldest first: a run whose agent has no provider fails, and the
/// first run whose provider runs fewer runs than its own limit starts.
pub open spec fn turn(w: WorkbenchView, w2: WorkbenchView, r: Dispatch, stamp: Seq<char>) -> bool {
    &&& (count_running(w.runs) >= w.max_global_concurrency ==> (r is Idle && w2 == w))
    &&& (count_running(w.runs) < w.max_global_concurrency ==> exists|order: Seq<int>|
        #![trigger is_queue_order(w.runs, order)]
        {
            &&& is_queue_order(w.runs, order)
            &&& dispatch_effect(
                w,
                w2,
                planned_fails(w, order),
                planned_start(w, order),
                stamp,
            )
            &&& match planned_start(w, order) {
                None => r is Idle,
                Some(ri) => match session_location(
                    w,
                    w.runs[ri].project_id,
                    w.runs[ri].session_id,
                ) {
                    None => r is Orphaned,
                    Some(loc) => r matches Dispatch::Started(sr) && {
                        let s = session_at(w2, loc);
                        &&& sr.run@ == w2.runs[ri]
                        &&& provider_index(w.providers, w.runs[ri].agent_id)
                            == Some(sr.provider as int)
                        &&& sr.project_path@ == w.projects[loc.0].path
                        &&& sr.prompt@ == prompt_text(
                            w.projects[loc.0].path,
                            s,
                            selected_skills(w.skills, s.skill_ids),
                        )
                    },
                },
            }
        })
}

impl Workbench {
    /// One turn of the scheduler. While fewer runs are running than the global
    /// limit allows, it walks the queued runs oldest first: a run whose agent
    /// has no provider fails; the first run whose provider runs fewer runs than
    /// its own limit starts, and the walk stops there.
    pub fn dispatch_next(&mut self) -> (r: Dispatch)
        ensures
            final(self).config == old(self).config,
            exists|stamp: Seq<char>| turn(old(self)@, final(self)@, r, stamp),
            same_ids(old(self)@, final(self)@),
            old(self)@.wf() ==> final(self)@.wf(),
    {
        let stamp = now();
        self.dispatch_next_at(stamp.as_str())
    }

    /// As `dispatch_next`, with `stamp` as the time of every stamp it sets.
    pub fn dispatch_next_at(&mut self, stamp: &str) -> (r: Dispatch)
        ensures
            final(self).config == old(self).config,
            turn(old(self)@, final(self)@, r, stamp@),
            same_ids(old(self)@, final(self)@),
            old(self)@.wf() ==> final(self)@.wf(),
    {
        let running = count_running_runs(&self.runs);
        if running >= self.config.defaults.max_global_concurrency {
            return Dispatch::Idle;
        }
        let order = queue_order(&self.runs);
        let ghost w0 = self@;
        let ghost ord = order@.map_values(|k: usize| k as int);
        proof {
            assert forall|k: int| 0 <= k < order@.len() implies #[trigger] order@[k] < self@.runs.len() by {
                assert(ord[k] == order@[k] as int);
            }
        }
        let (fails, pick) = self.plan_dispatch(&order);
        let ghost fs = fails@.map_values(|k: usize| k as int);
        proof {
            lemma_dispatch_effect_start(w0, stamp@);
            lemma_pick_from(w0, ord, 0);
            match pick_from(w0, ord, 0) {
                Some(k) => lemma_fails_upto(w0, ord, k),
                None => lemma_fails_upto(w0, ord, ord.len() as int),
            }
            assert(fs == planned_fails(w0, ord));
            assert forall|k: int| 0 <= k < fs.len() implies 0 <= #[trigger] fs[k] < w0.runs.len() && lacks_provider(w0, fs[k]) by {
                let n = match pick_from(w0, ord, 0) { Some(kk) => kk, None => ord.len() as int };
                assert(in_prefix(ord, n, fs[k]));
                let m = choose|m: int| 0 <= m < n && ord[m] == fs[k];
                assert(0 <= ord[m] < w0.runs.len());
            }
        }
        let mut j: usize = 0;
        while j < fails.len()
            invariant
                j <= fails@.len(),
                fs == fails@.map_values(|k: usize| k as int),
                fs == planned_fails(w0, ord),
                is_queue_order(w0.runs, ord),
                forall|k: int| 0 <= k < fs.len() ==> 0 <= #[trigger] fs[k] < w0.runs.len() && lacks_provider(w0, fs[k]),
                forall|a: int, b: int| 0 <= a < b < fs.len() ==> #[trigger] fs[a] != #[trigger] fs[b],
                dispatch_effect(w0, self@, fs.take(j as int), None, stamp@),
                self.config == old(self).config,
            decreases fails.len() - j,
        {
            let f = fails[j];
            let ghost before = self@;
            proof {
                assert(fs[j as int] == f as int);
                if fs.take(j as int).contains(f as int) {
                    let k = choose|k: int| 0 <= k < j && fs.take(j as int)[k] == f as int;
                    assert(fs[k] == fs[j as int]);
                }
            }
            self.transition_run(f, RunStatus::Failed, false, crate::text::owned("Agent provider not found."), stamp);
            proof {
                lemma_fail_step(w0, before, self@, fs.take(j as int), f as int, stamp@);
                assert(fs.take(j as int).push(f as int) =~= fs.take(j + 1));
            }
            j = j + 1;
        }
        proof {
            assert(fs.take(j as int) =~= fs);
        }
        match pick {
            None => {
                proof {
                    assert(exists|order: Seq<int>| #![trigger is_queue_order(w0.runs, order)] is_queue_order(w0.runs, order) && order == ord);
                }
                Dispatch::Idle
            },
            Some((ri, p)) => {
                proof {
                    lemma_provider_index(w0.providers, w0.runs[ri as int].agent_id, 0);
                }
                let note = starting_note_text(&self.config.providers[p]);
                let ghost before = self@;
                proof {
                    lemma_provider_index(w0.providers, w0.runs[ri as int].agent_id, 0);
                    if fs.contains(ri as int) {
                        let k = choose|k: int| 0 <= k < fs.len() && fs[k] == ri as int;
                        assert(lacks_provider(w0, fs[k]));
                    }
                }
                self.transition_run(ri, RunStatus::Running, true, note, stamp);
                proof {
                    lemma_start_step(w0, before, self@, fs, ri as int, p as int, stamp@);
                }
                let ghost after = self@;
                let project_id = self.runs[ri].project_id.clone();
                let session_id = self.runs[ri].session_id.clone();
                let found = self.find_session(project_id.as_str(), session_id.as_str());
                proof {
                    assert(self@.runs[ri as int].project_id == w0.runs[ri as int].project_id);
                    lemma_same_shape_location(w0, self@, project_id@, session_id@);
                    lemma_session_location(self@, project_id@, session_id@);
                    assert(exists|order: Seq<int>| #![trigger is_queue_order(w0.runs, order)] is_queue_order(w0.runs, order) && order == ord);
                }
                match found {
                    None => Dispatch::Orphaned,
                    Some((pi, si)) => {
                        let skills = select_skills(&self.skills, &self.projects[pi].sessions[si].skill_ids);
                        let prompt = build_prompt(&self.projects[pi], &self.projects[pi].sessions[si], &skills);
                        let project_path = self.projects[pi].path.clone();
                        let run = self.runs[ri].clone();
                        proof {
                            assert((ProjectView { sessions: w0.projects[pi as int].sessions, ..self@.projects[pi as int] }) == w0.projects[pi as int]);
                        }
                        Dispatch::Started(StartedRun { run, provider: p, project_path, prompt })
                    },
                }
            },
        }
    }
}

/// Number of queued runs.
pub open spec fn count_queued(rs: Seq<RunView>) -> nat
    decreases rs.len(),
{
    if rs.len() == 0 {
        0
    } else {
        count_queued(rs.drop_last()) + if rs.last().status == RunStatus::Queued {
            1nat
        } else {
            0nat
        }
    }
}

/// How the scheduler's effect on runs changes the counts of runs: the started
/// run is one more running run and one fewer queued run; failed runs were
/// queued and are no longer.
proof fn lemma_counts_prefix(r0: Seq<RunView>, r: Seq<RunView>, fails: Seq<int>, start: Option<int>, agent: Seq<char>, n: int, stamp: Seq<char>)
    requires
        r0.len() == r.len(),
        0 <= n <= r0.len(),
        forall|i: int| 0 <= i < r0.len() ==> run_effect(r0[i], #[trigger] r[i], fails.contains(i), start == Some(i), stamp),
        forall|i: int| 0 <= i < r0.len() && #[trigger] fails.contains(i) ==> r0[i].status == RunStatus::Queued,
        start matches Some(ri) ==> 0 <= ri < r0.len() && r0[ri].status == RunStatus::Queued,
    ensures
        count_running(r.subrange(0, n)) == count_running(r0.subrange(0, n)) + if start matches Some(ri) && ri < n {
            1nat
        } else {
            0nat
        },
        count_running_for(r.subrange(0, n), agent) == count_running_for(r0.subrange(0, n), agent) + if start matches Some(ri) && ri < n
            && r0[ri].agent_id == agent {
            1nat
        } else {
            0nat
        },
        count_queued(r.subrange(0, n)) + (if start matches Some(ri) && ri < n {
            1nat
        } else {
            0nat
        }) <= count_queued(r0.subrange(0, n)),
    decreases n,
{
    if n > 0 {
        lemma_counts_prefix(r0, r, fails, start, agent, n - 1, stamp);
        assert(r.subrange(0, n).drop_last() =~= r.subrange(0, n - 1));
        assert(r0.subrange(0, n).drop_last() =~= r0.subrange(0, n - 1));
        assert(run_effect(r0[n - 1], r[n - 1], fails.contains(n - 1), start == Some(n - 1), stamp));
    }
}

proof fn lemma_counts(r0: Seq<RunView>, r: Seq<RunView>, fails: Seq<int>, start: Option<int>, agent: Seq<char>, stamp: Seq<char>)
    requires
        r0.len() == r.len(),
        forall|i: int| 0 <= i < r0.len() ==> run_effect(r0[i], #[trigger] r[i], fails.contains(i), start == Some(i), stamp),
        forall|i: int| 0 <= i < r0.len() && #[trigger] fails.contains(i) ==> r0[i].status == RunStatus::Queued,
        start matches Some(ri) ==> 0 <= ri < r0.len() && r0[ri].status == RunStatus::Queued,
    ensures
        count_running(r) == count_running(r0) + if start is Some {
            1nat
        } else {
            0nat
        },
        count_running_for(r, agent) == count_running_for(r0, agent) + if start matches Some(ri) && r0[ri].agent_id
            == agent {
            1nat
        } else {
            0nat
        },
        count_queued(r) + (if start is Some {
            1nat
        } else {
            0nat
        }) <= count_queued(r0),
{
    lemma_counts_prefix(r0, r, fails, start, agent, r0.len() as int, stamp);
    assert(r.subrange(0, r.len() as int) =~= r);
    assert(r0.subrange(0, r0.len() as int) =~= r0);
}

/// The runs the scheduler fails were queued.
proof fn lemma_planned_fails_queued(w: WorkbenchView, order: Seq<int>)
    requires
        is_queue_order(w.runs, order),
    ensures
        forall|i: int| 0 <= i < w.runs.len() && #[trigger] planned_fails(w, order).contains(i) ==> w.runs[i].status
            == RunStatus::Queued,
        planned_start(w, order) matches Some(ri) ==> 0 <= ri < w.runs.len() && w.runs[ri].status
            == RunStatus::Queued && has_room(w, ri),
        forall|k: int|
            0 <= k < order.len() && (planned_start(w, order) matches Some(ri) ==> order[k] != ri) && #[trigger] has_room(
                w,
                order[k],
            ) ==> planned_start(w, order) is Some,
{
    lemma_pick_from(w, order, 0);
    let n = match pick_from(w, order, 0) {
        Some(k) => k,
        None => order.len() as int,
    };
    lemma_fails_upto(w, order, n);
    assert forall|i: int| 0 <= i < w.runs.len() && #[trigger] planned_fails(w, order).contains(i) implies w.runs[i].status
        == RunStatus::Queued by {
        let fs = planned_fails(w, order);
        let k = choose|k: int| 0 <= k < fs.len() && fs[k] == i;
        assert(in_prefix(order, n, fs[k]));
        let m = choose|m: int| 0 <= m < n && order[m] == fs[k];
        assert(order[m] == i);
    }
}

/// Law: a turn of the scheduler never takes the number of running runs past
/// the global limit, nor the runs of any provider past that provider's limit,
/// when they were within them before. It starts at most one run.
pub proof fn lemma_dispatch_respects_limits(w0: WorkbenchView, w: WorkbenchView, order: Seq<int>, agent: Seq<char>, stamp: Seq<char>)
    requires
        count_running(w0.runs) < w0.max_global_concurrency,
        is_queue_order(w0.runs, order),
        dispatch_effect(w0, w, planned_fails(w0, order), planned_start(w0, order), stamp),
    ensures
        count_running(w.runs) <= w0.max_global_concurrency,
        count_running(w.runs) <= count_running(w0.runs) + 1,
        provider_index(w0.providers, agent) matches Some(p) ==> (count_running_for(w0.runs, agent)
            <= w0.providers[p].concurrency ==> count_running_for(w.runs, agent) <= w0.providers[p].concurrency),
{
    lemma_planned_fails_queued(w0, order);
    lemma_counts(w0.runs, w.runs, planned_fails(w0, order), planned_start(w0, order), agent, stamp);
    if let Some(ri) = planned_start(w0, order) {
        if w0.runs[ri].agent_id == agent {
            lemma_provider_index(w0.providers, agent, 0);
        }
    }
}

/// Every provider that the agent id `agent` finds runs no more runs of it than
/// its limit allows.
pub open spec fn within_provider_limit(w: WorkbenchView, agent: Seq<char>) -> bool {
    provider_index(w.providers, agent) matches Some(p) ==> count_running_for(w.runs, agent)
        <= w.providers[p].concurrency
}

/// No queued run can start: the global limit is reached, or every queued run's
/// provider is at its own limit.
pub open spec fn settled(w: WorkbenchView) -> bool {
    count_running(w.runs) >= w.max_global_concurrency || forall|i: int|
        0 <= i < w.runs.len() && #[trigger] w.runs[i].status == RunStatus::Queued ==> !has_room(w, i)
}

proof fn lemma_idle_settled(w0: WorkbenchView, w: WorkbenchView, order: Seq<int>, stamp: Seq<char>)
    requires
        is_queue_order(w0.runs, order),
        planned_start(w0, order) is None,
        dispatch_effect(w0, w, planned_fails(w0, order), None, stamp),
    ensures
        settled(w),
{
    lemma_planned_fails_queued(w0, order);
    let fs = planned_fails(w0, order);
    assert forall|i: int| 0 <= i < w.runs.len() && #[trigger] w.runs[i].status == RunStatus::Queued implies !has_room(w, i) by {
        assert(run_effect(w0.runs[i], w.runs[i], fs.contains(i), None::<int> == Some(i), stamp));
        assert(w0.runs[i].status == RunStatus::Queued);
        assert(occurs(order, i));
        let k = choose|k: int| 0 <= k < order.len() && order[k] == i;
        assert(!has_room(w0, order[k]));
        lemma_counts(w0.runs, w.runs, fs, None, w0.runs[i].agent_id, stamp);
        if let Some(p) = provider_index(w0.providers, w0.runs[i].agent_id) {
            lemma_provider_index(w0.providers, w0.runs[i].agent_id, 0);
            lemma_counts(w0.runs, w.runs, fs, None, w0.providers[p].id, stamp);
        }
    }
}

/// The runs that the outcomes started, in order.
pub open spec fn started_runs(outcomes: Seq<Dispatch>) -> Seq<StartedRun>
    decreases outcomes.len(),
{
    if outcomes.len() == 0 {
        Seq::empty()
    } else {
        let prev = started_runs(outcomes.drop_last());
        match outcomes.last() {
            Dispatch::Started(sr) => prev.push(sr),
            _ => prev,
        }
    }
}

proof fn lemma_started_runs_push(outcomes: Seq<Dispatch>, d: Dispatch)
    ensures
        started_runs(outcomes.push(d)) == match d {
            Dispatch::Started(sr) => started_runs(outcomes).push(sr),
            _ => started_runs(outcomes),
        },
{
    assert(outcomes.push(d).drop_last() =~= outcomes);
}

/// `states` and `outcomes` trace a run of the scheduler from `w` to `w2`: turn
/// after turn, each one starting a run or marking one as started, until one
/// starts nothing.
pub open spec fn is_schedule_trace(w: WorkbenchView, w2: WorkbenchView, states: Seq<WorkbenchView>, outcomes: Seq<Dispatch>, stamp: Seq<char>) -> bool {
    &&& outcomes.len() > 0
    &&& states.len() == outcomes.len() + 1
    &&& states[0] == w
    &&& states.last() == w2
    &&& outcomes.last() is Idle
    &&& forall|k: int| 0 <= k < outcomes.len() - 1 ==> !(#[trigger] outcomes[k] is Idle)
    &&& forall|k: int| 0 <= k < outcomes.len() ==> turn(states[k], states[k + 1], #[trigger] outcomes[k], stamp)
}

impl Workbench {
    /// Runs the scheduler until it starts nothing more, and gives back the runs
    /// it started, in order, for the caller to spawn.
    pub fn schedule(&mut self) -> (started: Vec<StartedRun>)
        ensures
            final(self).config == old(self).config,
            exists|states: Seq<WorkbenchView>, outcomes: Seq<Dispatch>, stamp: Seq<char>|
                #![trigger is_schedule_trace(old(self)@, final(self)@, states, outcomes, stamp)]
                is_schedule_trace(old(self)@, final(self)@, states, outcomes, stamp) && started@ == started_runs(outcomes),
            settled(final(self)@),
            same_ids(old(self)@, final(self)@),
            old(self)@.wf() ==> final(self)@.wf(),
            count_running(old(self)@.runs) <= old(self)@.max_global_concurrency ==> count_running(final(self)@.runs)
                <= old(self)@.max_global_concurrency,
            forall|agent: Seq<char>|
                #[trigger] within_provider_limit(old(self)@, agent) ==> within_provider_limit(final(self)@, agent),
    {
        let stamp = now();
        self.schedule_at(stamp.as_str())
    }

    /// As `schedule`, with `stamp` as the time of every stamp it sets.
    pub fn schedule_at(&mut self, stamp: &str) -> (started: Vec<StartedRun>)
        ensures
            final(self).config == old(self).config,
            exists|states: Seq<WorkbenchView>, outcomes: Seq<Dispatch>|
                #![trigger states.len(), outcomes.len()]
                is_schedule_trace(old(self)@, final(self)@, states, outcomes, stamp@) && started@ == started_runs(outcomes),
            settled(final(self)@),
            same_ids(old(self)@, final(self)@),
            old(self)@.wf() ==> final(self)@.wf(),
            count_running(old(self)@.runs) <= old(self)@.max_global_concurrency ==> count_running(final(self)@.runs)
                <= old(self)@.max_global_concurrency,
            forall|agent: Seq<char>|
                #[trigger] within_provider_limit(old(self)@, agent) ==> within_provider_limit(final(self)@, agent),
    {
        let mut started: Vec<StartedRun> = Vec::new();
        let ghost mut states: Seq<WorkbenchView> = seq![self@];
        let ghost mut outcomes: Seq<Dispatch> = Seq::empty();
        loop
            invariant_except_break
                forall|k: int| 0 <= k < outcomes.len() ==> !(#[trigger] outcomes[k] is Idle),
            invariant
                self.config == old(self).config,
                states.len() == outcomes.len() + 1,
                states[0] == old(self)@,
                states.last() == self@,
                forall|k: int| 0 <= k < outcomes.len() ==> turn(states[k], states[k + 1], #[trigger] outcomes[k], stamp@),
                started@ == started_runs(outcomes),
                self@.providers == old(self)@.providers,
                self@.max_global_concurrency == old(self)@.max_global_concurrency,
                same_ids(old(self)@, self@),
                count_running(old(self)@.runs) <= old(self)@.max_global_concurrency ==> count_running(self@.runs)
                    <= old(self)@.max_global_concurrency,
                forall|agent: Seq<char>|
                    #[trigger] within_provider_limit(old(self)@, agent) ==> within_provider_limit(self@, agent),
            ensures
                self.config == old(self).config,
                is_schedule_trace(old(self)@, self@, states, outcomes, stamp@),
                started@ == started_runs(outcomes),
                settled(self@),
                same_ids(old(self)@, self@),
                count_running(old(self)@.runs) <= old(self)@.max_global_concurrency ==> count_running(self@.runs)
                    <= old(self)@.max_global_concurrency,
                forall|agent: Seq<char>|
                    #[trigger] within_provider_limit(old(self)@, agent) ==> within_provider_limit(self@, agent),
            decreases count_queued(self@.runs),
        {
            let ghost w0 = self@;
            let outcome = self.dispatch_next_at(stamp);
            let ghost w = self@;
            let ghost prev_states = states;
            let ghost prev_outcomes = outcomes;
            proof {
                states = states.push(w);
                outcomes = outcomes.push(outcome);
                assert forall|k: int| 0 <= k < outcomes.len() implies turn(states[k], states[k + 1], #[trigger] outcomes[k], stamp@) by {
                    if k < prev_outcomes.len() {
                        assert(outcomes[k] == prev_outcomes[k]);
                        assert(states[k] == prev_states[k] && states[k + 1] == prev_states[k + 1]);
                    }
                }
            }
            proof {
                if count_running(w0.runs) < w0.max_global_concurrency {
                    let order = choose|order: Seq<int>|
                        #![trigger is_queue_order(w0.runs, order)]
                        {
                            &&& is_queue_order(w0.runs, order)
                            &&& dispatch_effect(w0, w, planned_fails(w0, order), planned_start(w0, order), stamp@)
                            &&& match planned_start(w0, order) {
                                None => outcome is Idle,
                                Some(ri) => !(outcome is Idle),
                            }
                        };
                    lemma_planned_fails_queued(w0, order);
                    lemma_counts(w0.runs, w.runs, planned_fails(w0, order), planned_start(w0, order), Seq::empty(), stamp@);
                    assert forall|agent: Seq<char>| #[trigger] within_provider_limit(w0, agent) implies within_provider_limit(
                        w,
                        agent,
                    ) by {
                        lemma_dispatch_respects_limits(w0, w, order, agent, stamp@);
                    }
                    if planned_start(w0, order) is None {
                        lemma_idle_settled(w0, w, order, stamp@);
                    }
                } else {
                    assert(settled(w));
                }
            }
            match outcome {
                Dispatch::Idle => {
                    proof {
                        lemma_started_runs_push(prev_outcomes, outcome);
                        assert forall|k: int| 0 <= k < outcomes.len() - 1 implies !(#[trigger] outcomes[k] is Idle) by {
                            assert(outcomes[k] == prev_outcomes[k]);
                        }
                    }
                    break;
                },
                Dispatch::Orphaned => {
                    proof {
                        lemma_started_runs_push(prev_outcomes, outcome);
                    }
                },
                Dispatch::Started(run) => {
                    proof {
                        lemma_started_runs_push(prev_outcomes, outcome);
                    }
                    started.push(run);
                },
            }
        }
        started
    }
}

} // verus!

verus! {

/// Law: the run that a turn of the scheduler starts is the oldest queued run
/// that can start; every queued run before it has no provider, or a provider
/// at its limit. When it starts none, no queued run could start.
pub proof fn lemma_started_run_is_oldest_ready(w: WorkbenchView, order: Seq<int>)
    requires
        is_queue_order(w.runs, order),
    ensures
        planned_start(w, order) matches Some(ri) ==> has_room(w, ri) && exists|k: int|
            #![trigger order[k]]
            0 <= k < order.len() && order[k] == ri && forall|m: int| 0 <= m < k ==> !has_room(w, #[trigger] order[m]),
        planned_start(w, order) is None ==> forall|m: int| 0 <= m < order.len() ==> !has_room(w, #[trigger] order[m]),
{
    lemma_pick_from(w, order, 0);
}

/// The command line a provider runs through the shell: its command and
/// arguments, separated by spaces.
pub open spec fn shell_line_of(p: ProviderView) -> Seq<char> {
    join_seq(seq![p.command] + p.args, " "@)
}

/// The command line of a provider, for running it through the shell.
pub fn shell_line(p: &AgentConfig) -> (r: String)
    ensures
        r@ == shell_line_of(p@),
{
    let mut parts: Vec<String> = Vec::new();
    parts.push(p.command.clone());
    let mut i: usize = 0;
    while i < p.args.len()
        invariant
            i <= p.args@.len(),
            views(parts@) == seq![p.command@] + views(p.args@).subrange(0, i as int),
        decreases p.args.len() - i,
    {
        let ghost before = parts@;
        parts.push(p.args[i].clone());
        assert(views(parts@) =~= views(before).push(p.args@[i as int]@));
        i = i + 1;
        assert(views(parts@) =~= seq![p.command@] + views(p.args@).subrange(0, i as int));
    }
    assert(views(p.args@).subrange(0, i as int) =~= views(p.args@));
    join(&parts, " ")
}

} // verus!
