//! Synthesis of the results of several agents: their findings, a summary,
//! the pending diffs merged per file, and the files that several agents
//! changed.

use vstd::prelude::*;
use crate::text::{
    chars_of, copy_string, count_lines, decimal, join, line_count, push_decimal,
};
use crate::workspace::{AgentState, AgentStateView, AgentStatus, DiffView, PendingDiff};

verus! {

/// The merged diffs of one file.
#[derive(Debug)]
pub struct SynthesizedDiff {
    pub file_path: String,
    pub changes: String,
    pub source_agents: Vec<String>,
    pub priority: u32,
}

/// The model of a [`SynthesizedDiff`].
pub struct SynthDiffView {
    pub file_path: Seq<char>,
    pub changes: Seq<char>,
    pub source_agents: Seq<Seq<char>>,
    pub priority: u32,
}

impl View for SynthesizedDiff {
    type V = SynthDiffView;

    open spec fn view(&self) -> SynthDiffView {
        SynthDiffView {
            file_path: self.file_path@,
            changes: self.changes@,
            source_agents: self.source_agents.deep_view(),
            priority: self.priority,
        }
    }
}

impl DeepView for SynthesizedDiff {
    type V = SynthDiffView;

    open spec fn deep_view(&self) -> SynthDiffView {
        self@
    }
}

/// A file that two or more agents changed.
#[derive(Debug)]
pub struct Conflict {
    pub file_path: String,
    pub agent_1: String,
    pub agent_2: String,
    pub description: String,
    pub resolution: Option<String>,
}

/// The model of a [`Conflict`].
pub struct ConflictView {
    pub file_path: Seq<char>,
    pub agent_1: Seq<char>,
    pub agent_2: Seq<char>,
    pub description: Seq<char>,
    pub resolution: Option<Seq<char>>,
}

impl View for Conflict {
    type V = ConflictView;

    open spec fn view(&self) -> ConflictView {
        ConflictView {
            file_path: self.file_path@,
            agent_1: self.agent_1@,
            agent_2: self.agent_2@,
            description: self.description@,
            resolution: self.resolution.deep_view(),
        }
    }
}

impl DeepView for Conflict {
    type V = ConflictView;

    open spec fn deep_view(&self) -> ConflictView {
        self@
    }
}

/// The combined result of several agents.
#[derive(Debug)]
pub struct SynthesisResult {
    pub combined_summary: String,
    pub key_findings: Vec<String>,
    pub recommendations: Vec<String>,
    pub merged_diffs: Vec<SynthesizedDiff>,
    pub conflicts: Vec<Conflict>,
}

/// How conflicting changes are resolved.
#[derive(Debug, Clone, Copy, PartialEq, Eq, Structural)]
pub enum ConflictStrategy {
    FirstWins,
    LastWins,
    Merge,
    KeepBoth,
    UserDecision,
}

impl Default for ConflictStrategy {
    fn default() -> (s: Self)
        ensures
            s == ConflictStrategy::FirstWins,
    {
        ConflictStrategy::FirstWins
    }
}

/// Combines the results of agents.
pub struct Synthesis {
    conflict_resolution_strategy: ConflictStrategy,
}

/// The separator between the changes of several agents to one file.
pub open spec fn change_separator() -> Seq<char> {
    "\n---\n"@
}

/// The paths of `ds`, each once, in the order of their first occurrence.
pub open spec fn distinct_paths(ds: Seq<DiffView>) -> Seq<Seq<char>>
    decreases ds.len(),
{
    if ds.len() == 0 {
        Seq::empty()
    } else {
        let prev = distinct_paths(ds.drop_last());
        if prev.contains(ds.last().file_path) {
            prev
        } else {
            prev.push(ds.last().file_path)
        }
    }
}

/// The diffs of `ds` to `path`, in order.
pub open spec fn group_of(ds: Seq<DiffView>, path: Seq<char>) -> Seq<DiffView>
    decreases ds.len(),
{
    if ds.len() == 0 {
        Seq::empty()
    } else {
        let g = group_of(ds.drop_last(), path);
        if ds.last().file_path == path {
            g.push(ds.last())
        } else {
            g
        }
    }
}

/// The merged entry for `path`: a single diff is summarized by its number of
/// lines; several diffs are joined, with all their agents, and the number of
/// diffs as priority.
pub open spec fn merged_entry(ds: Seq<DiffView>, path: Seq<char>) -> SynthDiffView {
    let g = group_of(ds, path);
    if g.len() == 1 {
        SynthDiffView {
            file_path: path,
            changes: "Changed "@ + decimal(line_count(g[0].new_content)) + " lines"@,
            source_agents: seq![g[0].agent_id],
            priority: 1,
        }
    } else {
        SynthDiffView {
            file_path: path,
            changes: join(g.map_values(|d: DiffView| d.new_content), change_separator()),
            source_agents: g.map_values(|d: DiffView| d.agent_id),
            priority: g.len() as u32,
        }
    }
}

/// `ms` holds the merged entry of each path of `ds` exactly once, ordered by
/// priority, highest first.
pub open spec fn is_merge_of(ms: Seq<SynthDiffView>, ds: Seq<DiffView>) -> bool {
    &&& ms.len() == distinct_paths(ds).len()
    &&& forall|i: int|
        0 <= i < ms.len() ==> distinct_paths(ds).contains(#[trigger] ms[i].file_path) && ms[i]
            == merged_entry(ds, ms[i].file_path)
    &&& forall|p: Seq<char>|
        #[trigger] distinct_paths(ds).contains(p) ==> exists|i: int|
            0 <= i < ms.len() && #[trigger] ms[i].file_path == p
    &&& forall|i: int, j: int|
        0 <= i < j < ms.len() ==> #[trigger] ms[i].file_path != #[trigger] ms[j].file_path
    &&& forall|i: int, j: int|
        0 <= i < j < ms.len() ==> #[trigger] ms[i].priority >= #[trigger] ms[j].priority
}

/// The conflict reported for `path`, whose diffs are `g`.
pub open spec fn conflict_of(path: Seq<char>, g: Seq<DiffView>) -> ConflictView {
    ConflictView {
        file_path: path,
        agent_1: g[0].agent_id,
        agent_2: g[1].agent_id,
        description: "Multiple agents modified the same file"@,
        resolution: Some("Changes merged sequentially"@),
    }
}

/// One conflict for each path of `ps` that two or more diffs of `ds` change.
pub open spec fn conflicts_over(ds: Seq<DiffView>, ps: Seq<Seq<char>>) -> Seq<ConflictView>
    decreases ps.len(),
{
    if ps.len() == 0 {
        Seq::empty()
    } else {
        let prev = conflicts_over(ds, ps.drop_last());
        let g = group_of(ds, ps.last());
        if g.len() > 1 {
            prev.push(conflict_of(ps.last(), g))
        } else {
            prev
        }
    }
}

/// The conflicts of `ds`, in the order of the first occurrence of each path.
pub open spec fn detected_conflicts(ds: Seq<DiffView>) -> Seq<ConflictView> {
    conflicts_over(ds, distinct_paths(ds))
}

/// All findings of all agents, in order.
pub open spec fn all_findings(agents: Seq<AgentStateView>) -> Seq<Seq<char>>
    decreases agents.len(),
{
    if agents.len() == 0 {
        Seq::empty()
    } else {
        all_findings(agents.drop_last()) + agents.last().findings
    }
}

/// One recommendation for each completed agent, in order.
pub open spec fn recommendations_for(agents: Seq<AgentStateView>) -> Seq<Seq<char>>
    decreases agents.len(),
{
    if agents.len() == 0 {
        Seq::empty()
    } else {
        let prev = recommendations_for(agents.drop_last());
        if agents.last().status == AgentStatus::Completed {
            prev.push(agents.last().label + " completed successfully"@)
        } else {
            prev
        }
    }
}

/// The number of completed agents.
pub open spec fn completed_count(agents: Seq<AgentStateView>) -> nat
    decreases agents.len(),
{
    if agents.len() == 0 {
        0
    } else {
        completed_count(agents.drop_last()) + if agents.last().status == AgentStatus::Completed {
            1nat
        } else {
            0nat
        }
    }
}

/// The summary line: how many of the agents completed.
pub open spec fn summary_of(agents: Seq<AgentStateView>) -> Seq<char> {
    "Completed "@ + decimal(completed_count(agents)) + "/"@ + decimal(agents.len()) + " agent tasks. "@
}

/// The model of a [`SynthesisResult`].
pub struct SynthesisView {
    pub combined_summary: Seq<char>,
    pub key_findings: Seq<Seq<char>>,
    pub recommendations: Seq<Seq<char>>,
    pub merged_diffs: Seq<SynthDiffView>,
    pub conflicts: Seq<ConflictView>,
}

impl View for SynthesisResult {
    type V = SynthesisView;

    open spec fn view(&self) -> SynthesisView {
        SynthesisView {
            combined_summary: self.combined_summary@,
            key_findings: self.key_findings.deep_view(),
            recommendations: self.recommendations.deep_view(),
            merged_diffs: self.merged_diffs.deep_view(),
            conflicts: self.conflicts.deep_view(),
        }
    }
}

/// `r` is the synthesis of `agents` and `ds`.
pub open spec fn is_synthesis_of(r: SynthesisView, agents: Seq<AgentStateView>, ds: Seq<DiffView>) -> bool {
    &&& r.combined_summary == summary_of(agents)
    &&& r.key_findings == all_findings(agents)
    &&& r.recommendations == recommendations_for(agents)
    &&& is_merge_of(r.merged_diffs, ds)
    &&& r.conflicts == detected_conflicts(ds)
}

proof fn lemma_distinct_paths_contains(ds: Seq<DiffView>, p: Seq<char>)
    ensures
        distinct_paths(ds).contains(p) <==> exists|k: int| 0 <= k < ds.len() && ds[k].file_path == p,
    decreases ds.len(),
{
    if ds.len() > 0 {
        let prev = ds.drop_last();
        lemma_distinct_paths_contains(prev, p);
        let dp = distinct_paths(prev);
        let x = ds.last().file_path;
        if exists|k: int| 0 <= k < ds.len() && ds[k].file_path == p {
            let k = choose|k: int| 0 <= k < ds.len() && ds[k].file_path == p;
            if k < ds.len() - 1 {
                assert(prev[k].file_path == p);
                assert(dp.contains(p));
                if !dp.contains(x) {
                    let j = choose|j: int| 0 <= j < dp.len() && dp[j] == p;
                    assert(dp.push(x)[j] == p);
                }
            } else {
                if !dp.contains(x) {
                    assert(dp.push(x)[dp.len() as int] == p);
                }
            }
        }
        if distinct_paths(ds).contains(p) {
            if dp.contains(p) {
                let k = choose|k: int| 0 <= k < prev.len() && prev[k].file_path == p;
                assert(ds[k].file_path == p);
            } else {
                let j = choose|j: int| 0 <= j < distinct_paths(ds).len() && distinct_paths(ds)[j] == p;
                assert(!dp.contains(x));
                if j < dp.len() {
                    assert(dp[j] == p);
                }
                assert(ds[ds.len() - 1].file_path == p);
            }
        }
    }
}

proof fn lemma_distinct_paths_unique(ds: Seq<DiffView>)
    ensures
        distinct_paths(ds).no_duplicates(),
    decreases ds.len(),
{
    if ds.len() > 0 {
        lemma_distinct_paths_unique(ds.drop_last());
    }
}

proof fn lemma_group_prefix(ds: Seq<DiffView>, k: int, p: Seq<char>)
    requires
        0 <= k < ds.len(),
    ensures
        group_of(ds.take(k + 1), p) == if ds[k].file_path == p {
            group_of(ds.take(k), p).push(ds[k])
        } else {
            group_of(ds.take(k), p)
        },
{
    assert(ds.take(k + 1).drop_last() =~= ds.take(k));
}

proof fn lemma_distinct_prefix(ds: Seq<DiffView>, k: int)
    requires
        0 <= k < ds.len(),
    ensures
        distinct_paths(ds.take(k + 1)) == if distinct_paths(ds.take(k)).contains(ds[k].file_path) {
            distinct_paths(ds.take(k))
        } else {
            distinct_paths(ds.take(k)).push(ds[k].file_path)
        },
{
    assert(ds.take(k + 1).drop_last() =~= ds.take(k));
}

/// Whether the path of `diffs[i]` occurs in an earlier diff.
fn seen_before(diffs: &[PendingDiff], i: usize) -> (r: bool)
    requires
        i < diffs@.len(),
    ensures
        r == distinct_paths(diffs.deep_view().take(i as int)).contains(diffs.deep_view()[i as int].file_path),
{
    let ghost ds = diffs.deep_view();
    let mut j: usize = 0;
    while j < i
        invariant
            i < diffs@.len(),
            ds == diffs.deep_view(),
            j <= i,
            forall|k: int| 0 <= k < j ==> ds[k].file_path != ds[i as int].file_path,
        decreases i - j,
    {
        if diffs[j].file_path == diffs[i].file_path {
            proof {
                assert(ds.take(i as int)[j as int].file_path == ds[i as int].file_path);
                lemma_distinct_paths_contains(ds.take(i as int), ds[i as int].file_path);
            }
            return true;
        }
        j = j + 1;
    }
    proof {
        lemma_distinct_paths_contains(ds.take(i as int), ds[i as int].file_path);
        if exists|k: int| 0 <= k < i && ds.take(i as int)[k].file_path == ds[i as int].file_path {
            let k = choose|k: int| 0 <= k < i && ds.take(i as int)[k].file_path == ds[i as int].file_path;
            assert(ds[k].file_path == ds[i as int].file_path);
        }
    }
    false
}

/// The indices of the diffs to `path`, in order.
fn group_indices(diffs: &[PendingDiff], path: &String) -> (idx: Vec<usize>)
    ensures
        idx.len() == group_of(diffs.deep_view(), path@).len(),
        forall|t: int|
            0 <= t < idx.len() ==> #[trigger] idx@[t] < diffs@.len() && diffs.deep_view()[idx@[t] as int]
                == group_of(diffs.deep_view(), path@)[t],
{
    let ghost ds = diffs.deep_view();
    let mut idx: Vec<usize> = Vec::new();
    let mut k: usize = 0;
    while k < diffs.len()
        invariant
            ds == diffs.deep_view(),
            k <= diffs@.len(),
            idx.len() == group_of(ds.take(k as int), path@).len(),
            forall|t: int|
                0 <= t < idx.len() ==> #[trigger] idx@[t] < k && ds[idx@[t] as int] == group_of(
                    ds.take(k as int),
                    path@,
                )[t],
        decreases diffs@.len() - k,
    {
        proof {
            lemma_group_prefix(ds, k as int, path@);
        }
        let ghost old_idx = idx@;
        if diffs[k].file_path == *path {
            idx.push(k);
        }
        assert forall|t: int| 0 <= t < idx.len() implies #[trigger] idx@[t] < k + 1 && ds[idx@[t] as int]
            == group_of(ds.take(k + 1), path@)[t] by {
            if t < old_idx.len() {
                assert(idx@[t] == old_idx[t]);
            }
        }
        k = k + 1;
    }
    assert(ds.take(diffs@.len() as int) =~= ds);
    idx
}

impl Synthesis {
    pub fn new() -> (s: Self)
        ensures
            s.strategy() == ConflictStrategy::Merge,
    {
        Synthesis { conflict_resolution_strategy: ConflictStrategy::Merge }
    }

    /// The strategy for conflicting changes.
    pub closed spec fn strategy(&self) -> ConflictStrategy {
        self.conflict_resolution_strategy
    }

    /// Combines the states and diffs of several agents: all findings, one
    /// recommendation per completed agent, the diffs merged per file, the
    /// files that several agents changed, and a summary of how many agents
    /// completed.
    pub fn synthesize(&self, agent_states: &[AgentState], diffs: &[PendingDiff]) -> (r:
        SynthesisResult)
        ensures
            is_synthesis_of(r@, agent_states.deep_view(), diffs.deep_view()),
    {
        let ghost agents = agent_states.deep_view();
        let mut all_findings_v: Vec<String> = Vec::new();
        let mut recommendations: Vec<String> = Vec::new();
        let mut i: usize = 0;
        while i < agent_states.len()
            invariant
                agents == agent_states.deep_view(),
                i <= agent_states@.len(),
                all_findings_v.deep_view() == all_findings(agents.take(i as int)),
                recommendations.deep_view() == recommendations_for(agents.take(i as int)),
            decreases agent_states@.len() - i,
        {
            let agent = &agent_states[i];
            let mut j: usize = 0;
            let ghost base = all_findings_v.deep_view();
            while j < agent.findings.len()
                invariant
                    j <= agent.findings@.len(),
                    all_findings_v.deep_view() == base + agent.findings.deep_view().take(j as int),
                decreases agent.findings@.len() - j,
            {
                let f = copy_string(&agent.findings[j]);
                let ghost before = all_findings_v.deep_view();
                all_findings_v.push(f);
                assert(all_findings_v.deep_view() =~= before.push(f@));
                j = j + 1;
                assert(all_findings_v.deep_view() =~= base + agent.findings.deep_view().take(
                    j as int,
                ));
            }
            let ghost rbefore = recommendations.deep_view();
            if agent.status == AgentStatus::Completed {
                let mut rec = copy_string(&agent.label);
                rec.append(" completed successfully");
                recommendations.push(rec);
                assert(recommendations.deep_view() =~= rbefore.push(rec@));
            }
            proof {
                assert(agents.take(i as int + 1).drop_last() =~= agents.take(i as int));
                assert(agent.findings.deep_view().take(agent.findings@.len() as int)
                    =~= agent.findings.deep_view());
                assert(agents[i as int] == agent@);
            }
            i = i + 1;
        }
        proof {
            assert(agents.take(agent_states@.len() as int) =~= agents);
        }
        let merged_diffs = self.merge_diffs(diffs);
        let conflicts = self.detect_conflicts(diffs);
        let combined_summary = self.generate_summary(agent_states);
        SynthesisResult {
            combined_summary,
            key_findings: all_findings_v,
            recommendations,
            merged_diffs,
            conflicts,
        }
    }

    /// The merged entry for the diffs `idx` of `diffs`, all to `path`.
    fn merged_for(diffs: &[PendingDiff], path: &String, idx: &Vec<usize>) -> (m: SynthesizedDiff)
        requires
            idx.len() >= 1,
            idx.len() == group_of(diffs.deep_view(), path@).len(),
            forall|t: int|
                0 <= t < idx.len() ==> #[trigger] idx@[t] < diffs@.len() && diffs.deep_view()[idx@[t] as int]
                    == group_of(diffs.deep_view(), path@)[t],
        ensures
            m@ == merged_entry(diffs.deep_view(), path@),
    {
        let ghost g = group_of(diffs.deep_view(), path@);
        if idx.len() == 1 {
            assert(idx@[0] < diffs@.len());
            let d = &diffs[idx[0]];
            assert(d@ == g[0]);
            let content = chars_of(d.new_content.as_str());
            let lines = count_lines(&content);
            let mut changes = String::from_str("Changed ");
            push_decimal(&mut changes, lines as u64);
            changes.append(" lines");
            let mut sources: Vec<String> = Vec::new();
            sources.push(copy_string(&d.agent_id));
            assert(sources.deep_view() =~= seq![g[0].agent_id]);
            SynthesizedDiff { file_path: copy_string(path), changes, source_agents: sources, priority: 1 }
        } else {
            let ghost contents = g.map_values(|d: DiffView| d.new_content);
            let ghost agents = g.map_values(|d: DiffView| d.agent_id);
            let mut changes = copy_string(&diffs[idx[0]].new_content);
            let mut sources: Vec<String> = Vec::new();
            sources.push(copy_string(&diffs[idx[0]].agent_id));
            proof {
                assert(idx@[0] < diffs@.len());
                assert(contents.take(1).len() == 1);
                assert(contents.take(1)[0] == g[0].new_content);
                assert(sources.deep_view() =~= agents.take(1));
            }
            let mut t: usize = 1;
            while t < idx.len()
                invariant
                    1 <= t <= idx.len(),
                    idx.len() == g.len(),
                    g == group_of(diffs.deep_view(), path@),
                    contents == g.map_values(|d: DiffView| d.new_content),
                    agents == g.map_values(|d: DiffView| d.agent_id),
                    forall|u: int|
                        0 <= u < idx.len() ==> #[trigger] idx@[u] < diffs@.len() && diffs.deep_view()[idx@[u] as int]
                            == group_of(diffs.deep_view(), path@)[u],
                    changes@ == join(contents.take(t as int), change_separator()),
                    sources.deep_view() == agents.take(t as int),
                decreases idx.len() - t,
            {
                assert(idx@[t as int] < diffs@.len());
                let d = &diffs[idx[t]];
                assert(d@ == g[t as int]);
                assert(contents.take(t as int + 1).last() == d.new_content@);
                changes.append("\n---\n");
                changes.append(d.new_content.as_str());
                let ghost before = sources.deep_view();
                sources.push(copy_string(&d.agent_id));
                proof {
                    assert(sources.deep_view() =~= before.push(d.agent_id@));
                    assert(contents.take(t as int + 1).drop_last() =~= contents.take(t as int));
                }
                t = t + 1;
                assert(sources.deep_view() =~= agents.take(t as int));
            }
            assert(contents.take(idx.len() as int) =~= contents);
            assert(agents.take(idx.len() as int) =~= agents);
            SynthesizedDiff {
                file_path: copy_string(path),
                changes,
                source_agents: sources,
                priority: idx.len() as u32,
            }
        }
    }

    /// The diffs merged per file, highest priority first.
    fn merge_diffs(&self, diffs: &[PendingDiff]) -> (merged: Vec<SynthesizedDiff>)
        ensures
            is_merge_of(merged.deep_view(), diffs.deep_view()),
    {
        let ghost ds = diffs.deep_view();
        let mut merged: Vec<SynthesizedDiff> = Vec::new();
        let mut i: usize = 0;
        while i < diffs.len()
            invariant
                ds == diffs.deep_view(),
                i <= diffs@.len(),
                is_merge_of_prefix(merged.deep_view(), ds, distinct_paths(ds.take(i as int))),
            decreases diffs@.len() - i,
        {
            let ghost ps = distinct_paths(ds.take(i as int));
            proof {
                lemma_distinct_prefix(ds, i as int);
                lemma_distinct_paths_unique(ds.take(i as int));
            }
            if !seen_before(diffs, i) {
                let path = &diffs[i].file_path;
                let idx = group_indices(diffs, path);
                proof {
                    lemma_distinct_paths_contains(ds, path@);
                    assert(ds[i as int].file_path == path@);
                    lemma_group_nonempty(ds, path@, i as int);
                }
                let entry = Self::merged_for(diffs, path, &idx);
                let mut pos: usize = 0;
                while pos < merged.len() && merged[pos].priority >= entry.priority
                    invariant
                        pos <= merged@.len(),
                        forall|k: int| 0 <= k < pos ==> merged.deep_view()[k].priority >= entry.priority,
                    decreases merged@.len() - pos,
                {
                    pos = pos + 1;
                }
                let ghost before = merged.deep_view();
                merged.insert(pos, entry);
                proof {
                    assert(merged.deep_view() =~= before.insert(pos as int, entry@));
                    lemma_insert_keeps_merge(before, ds, ps, pos as int, entry@);
                }
            }
            i = i + 1;
        }
        proof {
            assert(ds.take(diffs@.len() as int) =~= ds);
        }
        merged
    }

    /// The files that two or more diffs change.
    fn detect_conflicts(&self, diffs: &[PendingDiff]) -> (conflicts: Vec<Conflict>)
        ensures
            conflicts.deep_view() == detected_conflicts(diffs.deep_view()),
    {
        let ghost ds = diffs.deep_view();
        let mut conflicts: Vec<Conflict> = Vec::new();
        let mut i: usize = 0;
        while i < diffs.len()
            invariant
                ds == diffs.deep_view(),
                i <= diffs@.len(),
                conflicts.deep_view() == conflicts_over(ds, distinct_paths(ds.take(i as int))),
            decreases diffs@.len() - i,
        {
            let ghost ps = distinct_paths(ds.take(i as int));
            proof {
                lemma_distinct_prefix(ds, i as int);
            }
            if !seen_before(diffs, i) {
                let path = &diffs[i].file_path;
                let idx = group_indices(diffs, path);
                let ghost g = group_of(ds, path@);
                proof {
                    assert(ps.push(path@).drop_last() =~= ps);
                }
                if idx.len() > 1 {
                    let c = Conflict {
                        file_path: copy_string(path),
                        agent_1: copy_string(&diffs[idx[0]].agent_id),
                        agent_2: copy_string(&diffs[idx[1]].agent_id),
                        description: String::from_str("Multiple agents modified the same file"),
                        resolution: Some(String::from_str("Changes merged sequentially")),
                    };
                    let ghost before = conflicts.deep_view();
                    conflicts.push(c);
                    assert(c@ == conflict_of(path@, g));
                    assert(conflicts.deep_view() =~= before.push(c@));
                }
            }
            i = i + 1;
        }
        proof {
            assert(ds.take(diffs@.len() as int) =~= ds);
        }
        conflicts
    }

    /// "Completed c/t agent tasks. ", for c completed agents of t.
    fn generate_summary(&self, agent_states: &[AgentState]) -> (s: String)
        ensures
            s@ == summary_of(agent_states.deep_view()),
    {
        let ghost agents = agent_states.deep_view();
        let mut completed: usize = 0;
        let mut i: usize = 0;
        while i < agent_states.len()
            invariant
                agents == agent_states.deep_view(),
                i <= agent_states@.len(),
                completed <= i,
                completed == completed_count(agents.take(i as int)),
            decreases agent_states@.len() - i,
        {
            proof {
                assert(agents.take(i as int + 1).drop_last() =~= agents.take(i as int));
            }
            if agent_states[i].status == AgentStatus::Completed {
                completed = completed + 1;
            }
            i = i + 1;
        }
        proof {
            assert(agents.take(agent_states@.len() as int) =~= agents);
        }
        let total = agent_states.len();
        let mut s = String::from_str("Completed ");
        push_decimal(&mut s, completed as u64);
        s.append("/");
        push_decimal(&mut s, total as u64);
        s.append(" agent tasks. ");
        s
    }
}

/// `ms` is the merge of the paths `ps` of `ds`, ordered by priority.
pub open spec fn is_merge_of_prefix(ms: Seq<SynthDiffView>, ds: Seq<DiffView>, ps: Seq<Seq<char>>) -> bool {
    &&& ms.len() == ps.len()
    &&& forall|i: int|
        0 <= i < ms.len() ==> ps.contains(#[trigger] ms[i].file_path) && ms[i] == merged_entry(
            ds,
            ms[i].file_path,
        )
    &&& forall|p: Seq<char>|
        #[trigger] ps.contains(p) ==> exists|i: int| 0 <= i < ms.len() && #[trigger] ms[i].file_path == p
    &&& forall|i: int, j: int|
        0 <= i < j < ms.len() ==> #[trigger] ms[i].file_path != #[trigger] ms[j].file_path
    &&& forall|i: int, j: int|
        0 <= i < j < ms.len() ==> #[trigger] ms[i].priority >= #[trigger] ms[j].priority
}

proof fn lemma_group_nonempty(ds: Seq<DiffView>, p: Seq<char>, i: int)
    requires
        0 <= i < ds.len(),
        ds[i].file_path == p,
    ensures
        group_of(ds, p).len() >= 1,
    decreases ds.len(),
{
    if i < ds.len() - 1 {
        lemma_group_nonempty(ds.drop_last(), p, i);
    }
}

proof fn lemma_insert_keeps_merge(
    ms: Seq<SynthDiffView>,
    ds: Seq<DiffView>,
    ps: Seq<Seq<char>>,
    pos: int,
    e: SynthDiffView,
)
    requires
        is_merge_of_prefix(ms, ds, ps),
        !ps.contains(e.file_path),
        e == merged_entry(ds, e.file_path),
        0 <= pos <= ms.len(),
        forall|k: int| 0 <= k < pos ==> ms[k].priority >= e.priority,
        pos < ms.len() ==> ms[pos].priority < e.priority,
    ensures
        is_merge_of_prefix(ms.insert(pos, e), ds, ps.push(e.file_path)),
{
    let ms2 = ms.insert(pos, e);
    let ps2 = ps.push(e.file_path);
    assert forall|i: int| 0 <= i < ms2.len() implies ps2.contains(#[trigger] ms2[i].file_path)
        && ms2[i] == merged_entry(ds, ms2[i].file_path) by {
        if i < pos {
            assert(ms2[i] == ms[i]);
            assert(ps.contains(ms[i].file_path));
            let k = choose|k: int| 0 <= k < ps.len() && ps[k] == ms[i].file_path;
            assert(ps2[k] == ms[i].file_path);
        } else if i == pos {
            assert(ps2[ps.len() as int] == e.file_path);
        } else {
            assert(ms2[i] == ms[i - 1]);
            assert(ps.contains(ms[i - 1].file_path));
            let k = choose|k: int| 0 <= k < ps.len() && ps[k] == ms[i - 1].file_path;
            assert(ps2[k] == ms[i - 1].file_path);
        }
    }
    assert forall|p: Seq<char>| #[trigger] ps2.contains(p) implies exists|i: int|
        0 <= i < ms2.len() && #[trigger] ms2[i].file_path == p by {
        if p == e.file_path {
            assert(ms2[pos].file_path == p);
        } else {
            let k = choose|k: int| 0 <= k < ps2.len() && ps2[k] == p;
            assert(k < ps.len());
            assert(ps[k] == p);
            assert(ps.contains(p));
            let i = choose|i: int| 0 <= i < ms.len() && #[trigger] ms[i].file_path == p;
            if i < pos {
                assert(ms2[i].file_path == p);
            } else {
                assert(ms2[i + 1].file_path == p);
            }
        }
    }
    assert forall|i: int, j: int| 0 <= i < j < ms2.len() implies #[trigger] ms2[i].file_path
        != #[trigger] ms2[j].file_path by {
        if i == pos {
            assert(ms2[j] == ms[j - 1]);
            assert(ps.contains(ms[j - 1].file_path));
        } else if j == pos {
            assert(ms2[i] == ms[i]);
            assert(ps.contains(ms[i].file_path));
        } else {
            let i0 = if i < pos { i } else { i - 1 };
            let j0 = if j < pos { j } else { j - 1 };
            assert(ms2[i] == ms[i0]);
            assert(ms2[j] == ms[j0]);
            assert(ms[i0].file_path != ms[j0].file_path);
        }
    }
    assert forall|i: int, j: int| 0 <= i < j < ms2.len() implies #[trigger] ms2[i].priority
        >= #[trigger] ms2[j].priority by {
        if i == pos {
            assert(ms2[j] == ms[j - 1]);
            assert(ms[pos].priority >= ms[j - 1].priority);
        } else if j == pos {
            assert(ms2[i] == ms[i]);
        } else {
            let i0 = if i < pos { i } else { i - 1 };
            let j0 = if j < pos { j } else { j - 1 };
            assert(ms2[i] == ms[i0]);
            assert(ms2[j] == ms[j0]);
            if i < pos && j > pos {
                assert(ms[i0].priority >= e.priority);
                assert(ms[pos].priority >= ms[j0].priority || pos == j0);
            }
        }
    }
}

proof fn lemma_group_contains(ds: Seq<DiffView>, k: int)
    requires
        0 <= k < ds.len(),
    ensures
        group_of(ds, ds[k].file_path).contains(ds[k]),
    decreases ds.len(),
{
    let p = ds[k].file_path;
    if k == ds.len() - 1 {
        let g = group_of(ds.drop_last(), p);
        assert(g.push(ds[k])[g.len() as int] == ds[k]);
    } else {
        lemma_group_contains(ds.drop_last(), k);
        let g = group_of(ds.drop_last(), p);
        let j = choose|j: int| 0 <= j < g.len() && g[j] == ds[k];
        if ds.last().file_path == p {
            assert(g.push(ds.last())[j] == ds[k]);
        }
    }
}

/// No diff is lost in merging: the merge holds an entry for the file of
/// every diff, and the agent of the diff is among that entry's sources.
pub proof fn lemma_merge_keeps_every_diff(ms: Seq<SynthDiffView>, ds: Seq<DiffView>, k: int)
    requires
        is_merge_of(ms, ds),
        0 <= k < ds.len(),
    ensures
        exists|i: int|
            0 <= i < ms.len() && #[trigger] ms[i].file_path == ds[k].file_path
                && ms[i].source_agents.contains(ds[k].agent_id),
{
    let p = ds[k].file_path;
    lemma_distinct_paths_contains(ds, p);
    assert(distinct_paths(ds).contains(p));
    let i = choose|i: int| 0 <= i < ms.len() && #[trigger] ms[i].file_path == p;
    lemma_group_contains(ds, k);
    let g = group_of(ds, p);
    let j = choose|j: int| 0 <= j < g.len() && g[j] == ds[k];
    if g.len() == 1 {
        assert(ms[i].source_agents[0] == ds[k].agent_id);
    } else {
        assert(ms[i].source_agents[j] == ds[k].agent_id);
    }
}

proof fn lemma_conflicts_over_paths(ds: Seq<DiffView>, ps: Seq<Seq<char>>, p: Seq<char>)
    ensures
        (exists|i: int| 0 <= i < conflicts_over(ds, ps).len() && #[trigger] conflicts_over(ds, ps)[i].file_path == p)
            <==> (ps.contains(p) && group_of(ds, p).len() > 1),
    decreases ps.len(),
{
    if ps.len() > 0 {
        let prev = ps.drop_last();
        lemma_conflicts_over_paths(ds, prev, p);
        let c = conflicts_over(ds, ps);
        let cp = conflicts_over(ds, prev);
        if ps.contains(p) && group_of(ds, p).len() > 1 {
            let j = choose|j: int| 0 <= j < ps.len() && ps[j] == p;
            if j < ps.len() - 1 {
                assert(prev[j] == p);
                let i = choose|i: int| 0 <= i < cp.len() && #[trigger] cp[i].file_path == p;
                assert(c[i] == cp[i]);
            } else {
                assert(c[cp.len() as int].file_path == p);
            }
        }
        if exists|i: int| 0 <= i < c.len() && #[trigger] c[i].file_path == p {
            let i = choose|i: int| 0 <= i < c.len() && #[trigger] c[i].file_path == p;
            if i < cp.len() {
                assert(cp[i] == c[i]);
                let j = choose|j: int| 0 <= j < prev.len() && prev[j] == p;
                assert(ps[j] == p);
            } else {
                assert(ps[ps.len() - 1] == p);
            }
        }
    }
}

/// A file is reported as a conflict exactly when two or more diffs change
/// it, which is when its merged entry has two or more sources.
pub proof fn lemma_conflict_iff_shared(ds: Seq<DiffView>, p: Seq<char>)
    ensures
        (exists|i: int|
            0 <= i < detected_conflicts(ds).len() && #[trigger] detected_conflicts(ds)[i].file_path == p)
            <==> (distinct_paths(ds).contains(p) && group_of(ds, p).len() > 1),
        distinct_paths(ds).contains(p) ==> (group_of(ds, p).len() > 1 <==> merged_entry(ds, p).source_agents.len() > 1),
{
    lemma_conflicts_over_paths(ds, distinct_paths(ds), p);
    if distinct_paths(ds).contains(p) {
        lemma_distinct_paths_contains(ds, p);
        let k = choose|k: int| 0 <= k < ds.len() && ds[k].file_path == p;
        lemma_group_nonempty(ds, p, k);
    }
}

/// Every finding of every agent is among the key findings, and no more
/// agents completed than there are.
pub proof fn lemma_findings_kept(agents: Seq<AgentStateView>, a: int, f: int)
    requires
        0 <= a < agents.len(),
        0 <= f < agents[a].findings.len(),
    ensures
        all_findings(agents).contains(agents[a].findings[f]),
        completed_count(agents) <= agents.len(),
    decreases agents.len(),
{
    lemma_completed_bound(agents);
    let prev = agents.drop_last();
    if a == agents.len() - 1 {
        assert((all_findings(prev) + agents.last().findings)[all_findings(prev).len() + f]
            == agents[a].findings[f]);
    } else {
        lemma_findings_kept(prev, a, f);
        let j = choose|j: int| 0 <= j < all_findings(prev).len() && all_findings(prev)[j] == agents[a].findings[f];
        assert((all_findings(prev) + agents.last().findings)[j] == agents[a].findings[f]);
    }
}

proof fn lemma_completed_bound(agents: Seq<AgentStateView>)
    ensures
        completed_count(agents) <= agents.len(),
    decreases agents.len(),
{
    if agents.len() > 0 {
        lemma_completed_bound(agents.drop_last());
    }
}

/// Whether an agent completed.
pub open spec fn is_completed(a: AgentStateView) -> bool {
    a.status == AgentStatus::Completed
}

/// The recommendations are exactly one "<label> completed successfully"
/// for each agent whose status is Completed, in order: as many as there are
/// completed agents, and none for an agent in any other status.
pub proof fn lemma_recommendations_per_completed(agents: Seq<AgentStateView>)
    ensures
        recommendations_for(agents) == agents.filter(|a: AgentStateView| is_completed(a)).map_values(
            |a: AgentStateView| a.label + " completed successfully"@,
        ),
        recommendations_for(agents).len() == completed_count(agents),
        completed_count(agents) == agents.filter(|a: AgentStateView| is_completed(a)).len(),
    decreases agents.len(),
{
    reveal(Seq::filter);
    if agents.len() > 0 {
        let prev = agents.drop_last();
        lemma_recommendations_per_completed(prev);
        let fp = prev.filter(|a: AgentStateView| is_completed(a));
        let f = |a: AgentStateView| a.label + " completed successfully"@;
        if is_completed(agents.last()) {
            assert(agents.filter(|a: AgentStateView| is_completed(a)) == fp.push(agents.last()));
            assert(fp.push(agents.last()).map_values(f) =~= fp.map_values(f).push(f(agents.last())));
        } else {
            assert(agents.filter(|a: AgentStateView| is_completed(a)) == fp);
        }
    } else {
        assert(agents.filter(|a: AgentStateView| is_completed(a)) =~= Seq::<AgentStateView>::empty());
        assert(recommendations_for(agents) =~= Seq::<Seq<char>>::empty());
    }
}

/// The diffs grouped under a path are exactly the diffs to that path, in
/// their order.
pub proof fn lemma_group_is_filter(ds: Seq<DiffView>, p: Seq<char>)
    ensures
        group_of(ds, p) == ds.filter(|d: DiffView| d.file_path == p),
    decreases ds.len(),
{
    reveal(Seq::filter);
    if ds.len() > 0 {
        lemma_group_is_filter(ds.drop_last(), p);
    } else {
        assert(ds.filter(|d: DiffView| d.file_path == p) =~= Seq::<DiffView>::empty());
    }
}

/// The merged entry of a path: a single diff to it is summarized as
/// "Changed <n> lines", with its agent as the only source and priority 1;
/// several diffs have their new contents joined by "\n---\n", all their
/// agents as sources, and their number as priority.
pub proof fn lemma_merged_entry_is(ds: Seq<DiffView>, p: Seq<char>)
    ensures
        ({
            let g = ds.filter(|d: DiffView| d.file_path == p);
            let m = merged_entry(ds, p);
            &&& m.file_path == p
            &&& g.len() == 1 ==> m.changes == "Changed "@ + decimal(line_count(g[0].new_content))
                + " lines"@ && m.source_agents == seq![g[0].agent_id] && m.priority == 1
            &&& g.len() != 1 ==> m.changes == join(
                g.map_values(|d: DiffView| d.new_content),
                "\n---\n"@,
            ) && m.source_agents == g.map_values(|d: DiffView| d.agent_id) && m.priority == g.len() as u32
        }),
{
    lemma_group_is_filter(ds, p);
}

/// A conflict names the file, the agents of its first two diffs, says
/// "Multiple agents modified the same file" and is resolved by "Changes
/// merged sequentially"; there is one for each file that two or more diffs
/// change, in the order of the files' first diffs.
pub proof fn lemma_conflicts_are(ds: Seq<DiffView>)
    ensures
        forall|i: int|
            0 <= i < detected_conflicts(ds).len() ==> {
                let c = #[trigger] detected_conflicts(ds)[i];
                let g = ds.filter(|d: DiffView| d.file_path == c.file_path);
                &&& g.len() >= 2
                &&& c.agent_1 == g[0].agent_id
                &&& c.agent_2 == g[1].agent_id
                &&& c.description == "Multiple agents modified the same file"@
                &&& c.resolution == Some("Changes merged sequentially"@)
            },
{
    assert forall|i: int| 0 <= i < detected_conflicts(ds).len() implies {
        let c = #[trigger] detected_conflicts(ds)[i];
        let g = ds.filter(|d: DiffView| d.file_path == c.file_path);
        &&& g.len() >= 2
        &&& c.agent_1 == g[0].agent_id
        &&& c.agent_2 == g[1].agent_id
        &&& c.description == "Multiple agents modified the same file"@
        &&& c.resolution == Some("Changes merged sequentially"@)
    } by {
        lemma_conflicts_over_entries(ds, distinct_paths(ds), i);
        lemma_group_is_filter(ds, detected_conflicts(ds)[i].file_path);
    }
}

proof fn lemma_conflicts_over_entries(ds: Seq<DiffView>, ps: Seq<Seq<char>>, i: int)
    requires
        0 <= i < conflicts_over(ds, ps).len(),
    ensures
        conflicts_over(ds, ps)[i] == conflict_of(
            conflicts_over(ds, ps)[i].file_path,
            group_of(ds, conflicts_over(ds, ps)[i].file_path),
        ),
        group_of(ds, conflicts_over(ds, ps)[i].file_path).len() > 1,
    decreases ps.len(),
{
    let prev = conflicts_over(ds, ps.drop_last());
    if i < prev.len() {
        lemma_conflicts_over_entries(ds, ps.drop_last(), i);
    }
}

/// The summary reads "Completed <c>/<t> agent tasks. " with c the number of
/// agents whose status is Completed and t the number of agents.
pub proof fn lemma_summary_is(agents: Seq<AgentStateView>)
    ensures
        summary_of(agents) == "Completed "@ + decimal(
            agents.filter(|a: AgentStateView| is_completed(a)).len(),
        ) + "/"@ + decimal(agents.len()) + " agent tasks. "@,
{
    lemma_recommendations_per_completed(agents);
}

impl Default for Synthesis {
    fn default() -> (s: Self)
        ensures
            s.strategy() == ConflictStrategy::Merge,
    {
        Synthesis::new()
    }
}

} // verus!
