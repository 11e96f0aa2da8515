//! The order in which the user interface lists projects, sessions and runs:
//! most recently updated (or created) first.
use vstd::prelude::*;
use crate::model::{ProjectView, SessionView, RunView, Session};
use crate::order::{index_order, is_index_order};
use crate::text::views;
use crate::workbench::Workbench;

verus! {

pub open spec fn project_stamps(ps: Seq<ProjectView>) -> Seq<Seq<char>> {
    ps.map_values(|p: ProjectView| p.updated_at)
}

pub open spec fn session_stamps(ss: Seq<SessionView>) -> Seq<Seq<char>> {
    ss.map_values(|s: SessionView| s.updated_at)
}

pub open spec fn run_stamps(rs: Seq<RunView>) -> Seq<Seq<char>> {
    rs.map_values(|r: RunView| r.created_at)
}

pub open spec fn as_ints(v: Seq<usize>) -> Seq<int> {
    v.map_values(|k: usize| k as int)
}

/// Positions of the projects, of each project's sessions, and of the runs, in
/// the order they are listed.
pub struct SnapshotOrder {
    pub projects: Vec<usize>,
    pub sessions: Vec<Vec<usize>>,
    pub runs: Vec<usize>,
}

fn session_order(sessions: &Vec<Session>) -> (order: Vec<usize>)
    ensures
        is_index_order(
            session_stamps(sessions@.map_values(|s: Session| s@)),
            as_ints(order@),
            true,
        ),
{
    let mut keys: Vec<String> = Vec::new();
    let mut i: usize = 0;
    while i < sessions.len()
        invariant
            i <= sessions@.len(),
            views(keys@) == session_stamps(sessions@.map_values(|s: Session| s@)).subrange(0, i as int),
        decreases sessions.len() - i,
    {
        let ghost before = keys@;
        keys.push(sessions[i].updated_at.clone());
        assert(views(keys@) =~= views(before).push(sessions@[i as int].updated_at@));
        i = i + 1;
        assert(views(keys@) =~= session_stamps(sessions@.map_values(|s: Session| s@)).subrange(0, i as int));
    }
    assert(session_stamps(sessions@.map_values(|s: Session| s@)).subrange(0, i as int) =~= session_stamps(
        sessions@.map_values(|s: Session| s@),
    ));
    index_order(&keys, true)
}

impl Workbench {
    /// Projects and each project's sessions by last update, newest first; runs
    /// by creation, newest first. Items with equal times keep their order.
    pub fn snapshot_order(&self) -> (r: SnapshotOrder)
        ensures
            is_index_order(project_stamps(self@.projects), as_ints(r.projects@), true),
            is_index_order(run_stamps(self@.runs), as_ints(r.runs@), true),
            r.sessions@.len() == self@.projects.len(),
            forall|pi: int|
                0 <= pi < self@.projects.len() ==> is_index_order(
                    session_stamps(self@.projects[pi].sessions),
                    as_ints(#[trigger] r.sessions@[pi]@),
                    true,
                ),
    {
        let mut pkeys: Vec<String> = Vec::new();
        let mut sessions: Vec<Vec<usize>> = Vec::new();
        let mut i: usize = 0;
        while i < self.projects.len()
            invariant
                i <= self.projects@.len(),
                views(pkeys@) == project_stamps(self@.projects).subrange(0, i as int),
                sessions@.len() == i,
                forall|pi: int|
                    0 <= pi < i ==> is_index_order(
                        session_stamps(self@.projects[pi].sessions),
                        as_ints(#[trigger] sessions@[pi]@),
                        true,
                    ),
            decreases self.projects.len() - i,
        {
            let ghost before = pkeys@;
            pkeys.push(self.projects[i].updated_at.clone());
            assert(views(pkeys@) =~= views(before).push(self@.projects[i as int].updated_at));
            let so = session_order(&self.projects[i].sessions);
            sessions.push(so);
            i = i + 1;
            assert(views(pkeys@) =~= project_stamps(self@.projects).subrange(0, i as int));
        }
        assert(project_stamps(self@.projects).subrange(0, i as int) =~= project_stamps(self@.projects));
        let mut rkeys: Vec<String> = Vec::new();
        let mut j: usize = 0;
        while j < self.runs.len()
            invariant
                j <= self.runs@.len(),
                views(rkeys@) == run_stamps(self@.runs).subrange(0, j as int),
            decreases self.runs.len() - j,
        {
            let ghost before = rkeys@;
            rkeys.push(self.runs[j].created_at.clone());
            assert(views(rkeys@) =~= views(before).push(self@.runs[j as int].created_at));
            j = j + 1;
            assert(views(rkeys@) =~= run_stamps(self@.runs).subrange(0, j as int));
        }
        assert(run_stamps(self@.runs).subrange(0, j as int) =~= run_stamps(self@.runs));
        SnapshotOrder {
            projects: index_order(&pkeys, true),
            sessions,
            runs: index_order(&rkeys, true),
        }
    }
}

} // verus!
