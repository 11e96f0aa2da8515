//! The usage panel: runs by status, tokens, and the load of each provider.
use vstd::prelude::*;
use crate::model::{RunStatus, AgentRun, RunView, ProviderView, run_views};
use crate::schedule::{count_running, count_running_for, count_queued, count_running_runs,
    count_running_runs_for};
use crate::text::text_eq;
use crate::workbench::{Workbench, WorkbenchView};
use crate::clock::{today, date_text};

verus! {

/// The token budget shown on the usage panel.
pub const TOKEN_BUDGET: usize = 2_000_000;

/// Number of queued runs of the agent `agent`.
pub open spec fn count_queued_for(rs: Seq<RunView>, agent: Seq<char>) -> nat
    decreases rs.len(),
{
    if rs.len() == 0 {
        0
    } else {
        count_queued_for(rs.drop_last(), agent) + if rs.last().status == RunStatus::Queued
            && rs.last().agent_id == agent {
            1nat
        } else {
            0nat
        }
    }
}

/// The run finished, successfully, on the day `day` (its finish time starts with it).
pub open spec fn done_on(r: RunView, day: Seq<char>) -> bool {
    r.status == RunStatus::Done && match r.finished_at {
        Some(t) => day.is_prefix_of(t),
        None => false,
    }
}

/// Number of runs that finished successfully on `day`.
pub open spec fn count_done_on(rs: Seq<RunView>, day: Seq<char>) -> nat
    decreases rs.len(),
{
    if rs.len() == 0 {
        0
    } else {
        count_done_on(rs.drop_last(), day) + if done_on(rs.last(), day) {
            1nat
        } else {
            0nat
        }
    }
}

/// Tokens of all runs, in and out.
pub open spec fn total_tokens(rs: Seq<RunView>) -> nat
    decreases rs.len(),
{
    if rs.len() == 0 {
        0
    } else {
        total_tokens(rs.drop_last()) + rs.last().input_tokens + rs.last().output_tokens
    }
}

pub struct ProviderLoad {
    pub running: usize,
    pub queued: usize,
    pub concurrency: usize,
}

/// The load of the provider with id `id`.
pub struct ProviderLoadEntry {
    pub id: String,
    pub load: ProviderLoad,
}

pub struct UsageSnapshot {
    pub running: usize,
    pub queued: usize,
    pub completed_today: usize,
    pub token_budget: usize,
    pub tokens_used: usize,
    pub provider_load: Vec<ProviderLoadEntry>,
}

pub ghost struct LoadView {
    pub id: Seq<char>,
    pub running: nat,
    pub queued: nat,
    pub concurrency: nat,
}

pub ghost struct UsageView {
    pub running: nat,
    pub queued: nat,
    pub completed_today: nat,
    pub token_budget: nat,
    pub tokens_used: nat,
    pub provider_load: Seq<LoadView>,
}

impl View for ProviderLoadEntry {
    type V = LoadView;

    open spec fn view(&self) -> LoadView {
        LoadView {
            id: self.id@,
            running: self.load.running as nat,
            queued: self.load.queued as nat,
            concurrency: self.load.concurrency as nat,
        }
    }
}

pub open spec fn load_views(v: Seq<ProviderLoadEntry>) -> Seq<LoadView> {
    v.map_values(|e: ProviderLoadEntry| e@)
}

impl View for UsageSnapshot {
    type V = UsageView;

    open spec fn view(&self) -> UsageView {
        UsageView {
            running: self.running as nat,
            queued: self.queued as nat,
            completed_today: self.completed_today as nat,
            token_budget: self.token_budget as nat,
            tokens_used: self.tokens_used as nat,
            provider_load: load_views(self.provider_load@),
        }
    }
}

/// The load of one provider.
pub open spec fn load_of(p: ProviderView, rs: Seq<RunView>) -> LoadView {
    LoadView {
        id: p.id,
        running: count_running_for(rs, p.id),
        queued: count_queued_for(rs, p.id),
        concurrency: p.concurrency,
    }
}

/// First position of the entry for `id`.
pub open spec fn load_index_from(ls: Seq<LoadView>, id: Seq<char>, i: int) -> Option<int>
    decreases ls.len() - i,
{
    if i < 0 || i >= ls.len() {
        None
    } else if ls[i].id == id {
        Some(i)
    } else {
        load_index_from(ls, id, i + 1)
    }
}

proof fn lemma_load_index(ls: Seq<LoadView>, id: Seq<char>, i: int)
    requires
        0 <= i,
    ensures
        load_index_from(ls, id, i) matches Some(k) ==> i <= k < ls.len(),
    decreases ls.len() - i,
{
    if i < ls.len() && ls[i].id != id {
        lemma_load_index(ls, id, i + 1);
    }
}

/// The loads of the providers, one entry per id: a later provider with the
/// same id replaces the load of an earlier one in its place (a map by id).
pub open spec fn provider_loads(ps: Seq<ProviderView>, rs: Seq<RunView>) -> Seq<LoadView>
    decreases ps.len(),
{
    if ps.len() == 0 {
        Seq::empty()
    } else {
        let prev = provider_loads(ps.drop_last(), rs);
        let l = load_of(ps.last(), rs);
        match load_index_from(prev, l.id, 0) {
            Some(i) => prev.update(i, l),
            None => prev.push(l),
        }
    }
}

proof fn lemma_queued_for_filter(rs: Seq<RunView>, agent: Seq<char>)
    ensures
        count_queued_for(rs, agent) == rs.filter(
            |r: RunView| r.status == RunStatus::Queued && r.agent_id == agent,
        ).len(),
    decreases rs.len(),
{
    reveal(Seq::filter);
    if rs.len() > 0 {
        lemma_queued_for_filter(rs.drop_last(), agent);
    }
}

proof fn lemma_running_for_filter(rs: Seq<RunView>, agent: Seq<char>)
    ensures
        count_running_for(rs, agent) == rs.filter(
            |r: RunView| r.status == RunStatus::Running && r.agent_id == agent,
        ).len(),
    decreases rs.len(),
{
    reveal(Seq::filter);
    if rs.len() > 0 {
        lemma_running_for_filter(rs.drop_last(), agent);
    }
}

proof fn lemma_done_filter(rs: Seq<RunView>, day: Seq<char>)
    ensures
        count_done_on(rs, day) == rs.filter(
            |r: RunView|
                r.status == RunStatus::Done && (r.finished_at matches Some(t) && day.is_prefix_of(t)),
        ).len(),
    decreases rs.len(),
{
    reveal(Seq::filter);
    if rs.len() > 0 {
        lemma_done_filter(rs.drop_last(), day);
    }
}

proof fn lemma_no_match_filter_empty(rs: Seq<RunView>, pred: spec_fn(RunView) -> bool)
    requires
        forall|j: int| 0 <= j < rs.len() ==> !pred(#[trigger] rs[j]),
    ensures
        rs.filter(pred).len() == 0,
    decreases rs.len(),
{
    reveal(Seq::filter);
    if rs.len() > 0 {
        assert forall|j: int| 0 <= j < rs.drop_last().len() implies !pred(#[trigger] rs.drop_last()[j]) by {
            assert(rs.drop_last()[j] == rs[j]);
        }
        lemma_no_match_filter_empty(rs.drop_last(), pred);
        assert(!pred(rs[rs.len() - 1]));
    }
}

proof fn lemma_load_found(ls: Seq<LoadView>, id: Seq<char>, i: int)
    requires
        0 <= i,
    ensures
        load_index_from(ls, id, i) matches Some(k) ==> i <= k < ls.len() && ls[k].id == id,
        load_index_from(ls, id, i) is None ==> forall|k: int| i <= k < ls.len() ==> #[trigger] ls[k].id != id,
    decreases ls.len() - i,
{
    if i < ls.len() && ls[i].id != id {
        lemma_load_found(ls, id, i + 1);
    }
}

proof fn lemma_provider_loads_entries(ps: Seq<ProviderView>, rs: Seq<RunView>)
    ensures
        forall|i: int|
            0 <= i < provider_loads(ps, rs).len() ==> (#[trigger] provider_loads(ps, rs)[i]).queued
                == count_queued_for(rs, provider_loads(ps, rs)[i].id) && provider_loads(ps, rs)[i].running
                == count_running_for(rs, provider_loads(ps, rs)[i].id),
        forall|k: int|
            0 <= k < ps.len() ==> exists|i: int|
                0 <= i < provider_loads(ps, rs).len() && #[trigger] provider_loads(ps, rs)[i].id == (#[trigger] ps[k]).id,
    decreases ps.len(),
{
    if ps.len() > 0 {
        let prev = provider_loads(ps.drop_last(), rs);
        let l = load_of(ps.last(), rs);
        lemma_provider_loads_entries(ps.drop_last(), rs);
        lemma_load_found(prev, l.id, 0);
        let cur = provider_loads(ps, rs);
        assert forall|k: int| 0 <= k < ps.len() implies exists|i: int|
            0 <= i < cur.len() && #[trigger] cur[i].id == (#[trigger] ps[k]).id by {
            if k == ps.len() - 1 {
                match load_index_from(prev, l.id, 0) {
                    Some(i) => assert(cur[i].id == ps[k].id),
                    None => assert(cur[prev.len() as int].id == ps[k].id),
                }
            } else {
                assert(ps[k] == ps.drop_last()[k]);
                let i = choose|i: int| 0 <= i < prev.len() && #[trigger] prev[i].id == ps.drop_last()[k].id;
                match load_index_from(prev, l.id, 0) {
                    Some(j) => {
                        assert(cur[i].id == ps[k].id);
                    },
                    None => {
                        assert(cur[i] == prev[i]);
                    },
                }
            }
        }
    }
}

/// Law: on the usage panel, each provider's entry counts as queued exactly
/// the queued runs whose agent is that provider, and as running exactly its
/// running runs; a provider that no queued run names has none queued. Every
/// provider has an entry.
pub proof fn lemma_usage_provider_load(w: WorkbenchView, day: Seq<char>)
    ensures
        forall|i: int|
            0 <= i < usage_of(w, day).provider_load.len() ==> {
                let l = #[trigger] usage_of(w, day).provider_load[i];
                &&& l.queued == w.runs.filter(|r: RunView| r.status == RunStatus::Queued && r.agent_id == l.id).len()
                &&& l.running == w.runs.filter(|r: RunView| r.status == RunStatus::Running && r.agent_id == l.id).len()
                &&& (forall|j: int|
                    0 <= j < w.runs.len() ==> !(#[trigger] w.runs[j].status == RunStatus::Queued && w.runs[j].agent_id
                        == l.id)) ==> l.queued == 0
            },
        forall|k: int|
            0 <= k < w.providers.len() ==> exists|i: int|
                0 <= i < usage_of(w, day).provider_load.len() && #[trigger] usage_of(w, day).provider_load[i].id
                    == (#[trigger] w.providers[k]).id,
{
    lemma_provider_loads_entries(w.providers, w.runs);
    let ls = provider_loads(w.providers, w.runs);
    assert(usage_of(w, day).provider_load == ls);
    assert forall|k: int| 0 <= k < w.providers.len() implies exists|i: int|
        0 <= i < usage_of(w, day).provider_load.len() && #[trigger] usage_of(w, day).provider_load[i].id
            == (#[trigger] w.providers[k]).id by {
        let i = choose|i: int| 0 <= i < ls.len() && #[trigger] ls[i].id == w.providers[k].id;
        assert(usage_of(w, day).provider_load[i].id == w.providers[k].id);
    }
    assert forall|i: int| 0 <= i < usage_of(w, day).provider_load.len() implies {
        let l = #[trigger] usage_of(w, day).provider_load[i];
        &&& l.queued == w.runs.filter(|r: RunView| r.status == RunStatus::Queued && r.agent_id == l.id).len()
        &&& l.running == w.runs.filter(|r: RunView| r.status == RunStatus::Running && r.agent_id == l.id).len()
        &&& (forall|j: int|
            0 <= j < w.runs.len() ==> !(#[trigger] w.runs[j].status == RunStatus::Queued && w.runs[j].agent_id
                == l.id)) ==> l.queued == 0
    } by {
        let l = usage_of(w, day).provider_load[i];
        lemma_queued_for_filter(w.runs, l.id);
        lemma_running_for_filter(w.runs, l.id);
        let pred = |r: RunView| r.status == RunStatus::Queued && r.agent_id == l.id;
        if forall|j: int|
            0 <= j < w.runs.len() ==> !(#[trigger] w.runs[j].status == RunStatus::Queued && w.runs[j].agent_id
                == l.id) {
            lemma_no_match_filter_empty(w.runs, pred);
        }
    }
}

proof fn lemma_status_filter(rs: Seq<RunView>)
    ensures
        count_running(rs) == rs.filter(|r: RunView| r.status == RunStatus::Running).len(),
        count_queued(rs) == rs.filter(|r: RunView| r.status == RunStatus::Queued).len(),
    decreases rs.len(),
{
    reveal(Seq::filter);
    if rs.len() > 0 {
        lemma_status_filter(rs.drop_last());
    }
}

/// Law: the usage panel counts as running exactly the runs in status
/// `Running`, and as queued exactly those in status `Queued`.
pub proof fn lemma_usage_status_counts(w: WorkbenchView, day: Seq<char>)
    ensures
        usage_of(w, day).running == w.runs.filter(|r: RunView| r.status == RunStatus::Running).len(),
        usage_of(w, day).queued == w.runs.filter(|r: RunView| r.status == RunStatus::Queued).len(),
{
    lemma_status_filter(w.runs);
}

/// Law: the usage panel counts as completed today exactly the runs whose
/// status is `Done` and whose finish time begins with the day; a run in any
/// other status never counts.
pub proof fn lemma_usage_completed_today(w: WorkbenchView, day: Seq<char>)
    ensures
        usage_of(w, day).completed_today == w.runs.filter(
            |r: RunView|
                r.status == RunStatus::Done && (r.finished_at matches Some(t) && day.is_prefix_of(t)),
        ).len(),
        (forall|j: int| 0 <= j < w.runs.len() ==> (#[trigger] w.runs[j]).status != RunStatus::Done)
            ==> usage_of(w, day).completed_today == 0,
{
    lemma_done_filter(w.runs, day);
    let pred = |r: RunView| r.status == RunStatus::Done && (r.finished_at matches Some(t) && day.is_prefix_of(t));
    if forall|j: int| 0 <= j < w.runs.len() ==> (#[trigger] w.runs[j]).status != RunStatus::Done {
        lemma_no_match_filter_empty(w.runs, pred);
    }
}

/// The usage panel for the state `w` on the day `day`.
pub open spec fn usage_of(w: WorkbenchView, day: Seq<char>) -> UsageView {
    UsageView {
        running: count_running(w.runs),
        queued: count_queued(w.runs),
        completed_today: count_done_on(w.runs, day),
        token_budget: TOKEN_BUDGET as nat,
        tokens_used: total_tokens(w.runs),
        provider_load: provider_loads(w.providers, w.runs),
    }
}

pub fn count_queued_runs(runs: &Vec<AgentRun>) -> (n: usize)
    ensures
        n == count_queued(run_views(runs@)),
{
    let mut n: usize = 0;
    let mut i: usize = 0;
    while i < runs.len()
        invariant
            i <= runs@.len(),
            n == count_queued(run_views(runs@).subrange(0, i as int)),
            n <= i,
        decreases runs.len() - i,
    {
        assert(run_views(runs@).subrange(0, i + 1).drop_last() =~= run_views(runs@).subrange(0, i as int));
        if runs[i].status == RunStatus::Queued {
            n = n + 1;
        }
        i = i + 1;
    }
    assert(run_views(runs@).subrange(0, runs@.len() as int) =~= run_views(runs@));
    n
}

pub fn count_queued_runs_for(runs: &Vec<AgentRun>, agent: &str) -> (n: usize)
    ensures
        n == count_queued_for(run_views(runs@), agent@),
{
    let mut n: usize = 0;
    let mut i: usize = 0;
    while i < runs.len()
        invariant
            i <= runs@.len(),
            n == count_queued_for(run_views(runs@).subrange(0, i as int), agent@),
            n <= i,
        decreases runs.len() - i,
    {
        assert(run_views(runs@).subrange(0, i + 1).drop_last() =~= run_views(runs@).subrange(0, i as int));
        if runs[i].status == RunStatus::Queued && text_eq(runs[i].agent_id.as_str(), agent) {
            n = n + 1;
        }
        i = i + 1;
    }
    assert(run_views(runs@).subrange(0, runs@.len() as int) =~= run_views(runs@));
    n
}

/// `str::starts_with`.
pub fn starts_with(s: &str, prefix: &str) -> (b: bool)
    ensures
        b == prefix@.is_prefix_of(s@),
{
    let vs = crate::text::to_chars(s);
    let vp = crate::text::to_chars(prefix);
    if vp.len() > vs.len() {
        return false;
    }
    let mut i: usize = 0;
    while i < vp.len()
        invariant
            i <= vp@.len() <= vs@.len(),
            vs@ == s@,
            vp@ == prefix@,
            forall|k: int| 0 <= k < i ==> #[trigger] vp@[k] == vs@[k],
        decreases vp.len() - i,
    {
        if vp[i] != vs[i] {
            assert(prefix@[i as int] != s@.subrange(0, prefix@.len() as int)[i as int]);
            return false;
        }
        i = i + 1;
    }
    assert(prefix@ =~= s@.subrange(0, prefix@.len() as int));
    true
}

pub fn count_done_runs_on(runs: &Vec<AgentRun>, day: &str) -> (n: usize)
    ensures
        n == count_done_on(run_views(runs@), day@),
{
    let mut n: usize = 0;
    let mut i: usize = 0;
    while i < runs.len()
        invariant
            i <= runs@.len(),
            n == count_done_on(run_views(runs@).subrange(0, i as int), day@),
            n <= i,
        decreases runs.len() - i,
    {
        assert(run_views(runs@).subrange(0, i + 1).drop_last() =~= run_views(runs@).subrange(0, i as int));
        if runs[i].status == RunStatus::Done {
            match &runs[i].finished_at {
                Some(t) => {
                    if starts_with(t.as_str(), day) {
                        n = n + 1;
                    }
                },
                None => {},
            }
        }
        i = i + 1;
    }
    assert(run_views(runs@).subrange(0, runs@.len() as int) =~= run_views(runs@));
    n
}

proof fn lemma_total_tokens_prefix(rs: Seq<RunView>, i: int, j: int)
    requires
        0 <= i <= j <= rs.len(),
    ensures
        total_tokens(rs.subrange(0, i)) <= total_tokens(rs.subrange(0, j)),
    decreases j - i,
{
    if i < j {
        lemma_total_tokens_prefix(rs, i, j - 1);
        assert(rs.subrange(0, j).drop_last() =~= rs.subrange(0, j - 1));
    }
}

pub fn sum_tokens(runs: &Vec<AgentRun>) -> (n: usize)
    requires
        total_tokens(run_views(runs@)) <= usize::MAX,
    ensures
        n == total_tokens(run_views(runs@)),
{
    let mut n: usize = 0;
    let mut i: usize = 0;
    while i < runs.len()
        invariant
            i <= runs@.len(),
            total_tokens(run_views(runs@)) <= usize::MAX,
            n == total_tokens(run_views(runs@).subrange(0, i as int)),
        decreases runs.len() - i,
    {
        assert(run_views(runs@).subrange(0, i + 1).drop_last() =~= run_views(runs@).subrange(0, i as int));
        proof {
            lemma_total_tokens_prefix(run_views(runs@), i + 1, runs@.len() as int);
            assert(run_views(runs@).subrange(0, runs@.len() as int) =~= run_views(runs@));
        }
        n = n + runs[i].input_tokens + runs[i].output_tokens;
        i = i + 1;
    }
    assert(run_views(runs@).subrange(0, runs@.len() as int) =~= run_views(runs@));
    n
}

fn find_load(out: &Vec<ProviderLoadEntry>, id: &str) -> (r: Option<usize>)
    ensures
        match r {
            Some(k) => load_index_from(load_views(out@), id@, 0) == Some(k as int),
            None => load_index_from(load_views(out@), id@, 0) is None,
        },
{
    let mut j: usize = 0;
    while j < out.len()
        invariant
            j <= out@.len(),
            load_index_from(load_views(out@), id@, 0) == load_index_from(load_views(out@), id@, j as int),
        decreases out.len() - j,
    {
        if text_eq(out[j].id.as_str(), id) {
            return Some(j);
        }
        j = j + 1;
    }
    None
}

impl Workbench {
    /// The loads of the providers, keyed by provider id.
    pub fn provider_loads(&self) -> (r: Vec<ProviderLoadEntry>)
        ensures
            load_views(r@) == provider_loads(self@.providers, self@.runs),
    {
        let ghost ps = self@.providers;
        let ghost rs = self@.runs;
        let mut out: Vec<ProviderLoadEntry> = Vec::new();
        let mut i: usize = 0;
        while i < self.config.providers.len()
            invariant
                i <= self.config.providers@.len(),
                ps == self@.providers,
                rs == self@.runs,
                load_views(out@) == provider_loads(ps.subrange(0, i as int), rs),
            decreases self.config.providers.len() - i,
        {
            let p = &self.config.providers[i];
            let entry = ProviderLoadEntry {
                id: p.id.clone(),
                load: ProviderLoad {
                    running: count_running_runs_for(&self.runs, p.id.as_str()),
                    queued: count_queued_runs_for(&self.runs, p.id.as_str()),
                    concurrency: p.concurrency,
                },
            };
            let ghost ev = entry@;
            let ghost prev = load_views(out@);
            proof {
                assert(ps.subrange(0, i + 1).drop_last() =~= ps.subrange(0, i as int));
                assert(ps.subrange(0, i + 1).last() == ps[i as int]);
                assert(ev == load_of(ps[i as int], rs));
            }
            let found = find_load(&out, entry.id.as_str());
            match found {
                Some(k) => {
                    proof {
                        lemma_load_index(prev, ev.id, 0);
                    }
                    out[k] = entry;
                    proof {
                        assert(load_views(out@) =~= prev.update(k as int, ev));
                    }
                },
                None => {
                    out.push(entry);
                    proof {
                        assert(load_views(out@) =~= prev.push(ev));
                    }
                },
            }
            i = i + 1;
        }
        assert(ps.subrange(0, ps.len() as int) =~= ps);
        out
    }

    /// The usage panel as of the day `day` (text such as `2025-01-31`).
    pub fn usage_on(&self, day: &str) -> (r: UsageSnapshot)
        requires
            total_tokens(self@.runs) <= usize::MAX,
        ensures
            r@ == usage_of(self@, day@),
    {
        UsageSnapshot {
            running: count_running_runs(&self.runs),
            queued: count_queued_runs(&self.runs),
            completed_today: count_done_runs_on(&self.runs, day),
            token_budget: TOKEN_BUDGET,
            tokens_used: sum_tokens(&self.runs),
            provider_load: self.provider_loads(),
        }
    }

    /// The usage panel as of today, by the local clock: runs count as
    /// completed today when their end time begins with the date as
    /// `%Y-%m-%d` writes it.
    pub fn make_usage(&self) -> (r: UsageSnapshot)
        requires
            total_tokens(self@.runs) <= usize::MAX,
        ensures
            exists|y: i32, m: u32, d: u32|
                1 <= m <= 12 && 1 <= d <= 31 && r@ == usage_of(
                    self@,
                    #[trigger] date_text(y as int, m as nat, d as nat),
                ),
    {
        let day = today();
        let r = self.usage_on(day.as_str());
        proof {
            let (y, m, d) = choose|y: i32, m: u32, d: u32|
                1 <= m <= 12 && 1 <= d <= 31 && day@ == #[trigger] date_text(y as int, m as nat, d as nat);
            assert(r@ == usage_of(self@, date_text(y as int, m as nat, d as nat)));
        }
        r
    }
}

} // verus!

verus! {

/// Whether the tokens of all runs add up without overflow.
pub fn total_tokens_fit(runs: &Vec<AgentRun>) -> (b: bool)
    ensures
        b == (total_tokens(run_views(runs@)) <= usize::MAX),
{
    let mut n: usize = 0;
    let mut i: usize = 0;
    while i < runs.len()
        invariant
            i <= runs@.len(),
            n == total_tokens(run_views(runs@).subrange(0, i as int)),
        decreases runs.len() - i,
    {
        assert(run_views(runs@).subrange(0, i + 1).drop_last() =~= run_views(runs@).subrange(0, i as int));
        let step = match n.checked_add(runs[i].input_tokens) {
            Some(x) => x.checked_add(runs[i].output_tokens),
            None => None,
        };
        match step {
            Some(x) => {
                n = x;
            },
            None => {
                proof {
                    lemma_total_tokens_prefix(run_views(runs@), i + 1, runs@.len() as int);
                    assert(run_views(runs@).subrange(0, runs@.len() as int) =~= run_views(runs@));
                }
                return false;
            },
        }
        i = i + 1;
    }
    assert(run_views(runs@).subrange(0, runs@.len() as int) =~= run_views(runs@));
    true
}

} // verus!
