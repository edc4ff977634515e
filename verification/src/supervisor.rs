//! Task decomposition: decides whether a request asks for parallel agents,
//! and estimates how complex a request is.

use vstd::prelude::*;
use crate::text::{
    chars_of, count_words, find, find_chars, find_from, matches_at, string_of, sub_chars, to_lowercase,
    trim, trim_bounds, lowercase, word_count, join,
};

verus! {

/// How complex a task looks.
#[derive(Debug, Clone, Copy, PartialEq, Eq, Structural)]
pub enum TaskComplexity {
    Simple,
    Medium,
    Complex,
}

/// One agent to spawn.
#[derive(Debug, Clone)]
pub struct AgentSpawnConfig {
    pub label: String,
    pub task: String,
    pub estimated_duration: u32,
}

/// The model of an [`AgentSpawnConfig`].
pub struct AgentSpawnView {
    pub label: Seq<char>,
    pub task: Seq<char>,
    pub estimated_duration: u32,
}

impl View for AgentSpawnConfig {
    type V = AgentSpawnView;

    open spec fn view(&self) -> AgentSpawnView {
        AgentSpawnView {
            label: self.label@,
            task: self.task@,
            estimated_duration: self.estimated_duration,
        }
    }
}

impl DeepView for AgentSpawnConfig {
    type V = AgentSpawnView;

    open spec fn deep_view(&self) -> AgentSpawnView {
        self@
    }
}

/// What the supervisor decided for a request.
#[derive(Debug, Clone)]
pub struct SupervisorDecision {
    pub should_spawn_parallel: bool,
    pub agents: Vec<AgentSpawnConfig>,
    pub should_synthesize: bool,
}

/// The model of a [`SupervisorDecision`].
pub struct DecisionView {
    pub should_spawn_parallel: bool,
    pub agents: Seq<AgentSpawnView>,
    pub should_synthesize: bool,
}

impl View for SupervisorDecision {
    type V = DecisionView;

    open spec fn view(&self) -> DecisionView {
        DecisionView {
            should_spawn_parallel: self.should_spawn_parallel,
            agents: self.agents.deep_view(),
            should_synthesize: self.should_synthesize,
        }
    }
}

/// Decides how a request is split among agents.
pub struct Supervisor;

/// The command that asks for parallel agents.
pub open spec fn parallel_command() -> Seq<char> {
    "/parallel "@
}

/// `s` split at every occurrence of `sep` (`str::split` with a `char`).
pub open spec fn split_on(s: Seq<char>, sep: char) -> Seq<Seq<char>>
    decreases s.len(),
{
    if s.len() == 0 {
        seq![Seq::empty()]
    } else {
        let prev = split_on(s.drop_last(), sep);
        if s.last() == sep {
            prev.push(Seq::empty())
        } else {
            prev.update(prev.len() - 1, prev.last().push(s.last()))
        }
    }
}

/// The agent spawned for the (trimmed, non-empty) task name `t`.
pub open spec fn spawn_for(t: Seq<char>) -> AgentSpawnView {
    AgentSpawnView {
        label: lowercase(t),
        task: "Perform "@ + t + " task"@,
        estimated_duration: 30,
    }
}

/// One agent for each piece that is not blank after trimming, in order.
pub open spec fn agents_for_pieces(pieces: Seq<Seq<char>>) -> Seq<AgentSpawnView>
    decreases pieces.len(),
{
    if pieces.len() == 0 {
        Seq::empty()
    } else {
        let prev = agents_for_pieces(pieces.drop_last());
        let t = trim(pieces.last());
        if t.len() == 0 {
            prev
        } else {
            prev.push(spawn_for(t))
        }
    }
}

/// The agents for a comma-separated list of task names.
pub open spec fn parallel_tasks(tasks: Seq<char>) -> Seq<AgentSpawnView> {
    agents_for_pieces(split_on(tasks, ','))
}

/// The text after the first `/parallel ` of `input`, up to the next line break.
pub open spec fn parallel_section(input: Seq<char>) -> Option<Seq<char>> {
    match find(input, parallel_command()) {
        Some(i) => {
            let rest = input.subrange(i + parallel_command().len(), input.len() as int);
            let end = match find(rest, seq!['\n']) {
                Some(j) => j,
                None => rest.len() as int,
            };
            Some(rest.subrange(0, end))
        },
        None => None,
    }
}

/// The single general agent that handles a request as a whole.
pub open spec fn general_agent(input: Seq<char>) -> AgentSpawnView {
    AgentSpawnView { label: "general"@, task: input, estimated_duration: 30 }
}

/// The decision for `input`: parallel agents when `/parallel ` names at least
/// one task, otherwise one general agent.
pub open spec fn decide(input: Seq<char>) -> DecisionView {
    match parallel_section(input) {
        Some(t) if parallel_tasks(t).len() > 0 => DecisionView {
            should_spawn_parallel: true,
            agents: parallel_tasks(t),
            should_synthesize: true,
        },
        _ => DecisionView {
            should_spawn_parallel: false,
            agents: seq![general_agent(input)],
            should_synthesize: false,
        },
    }
}

/// The keywords that mark a task as complex.
pub open spec fn complex_keywords() -> Seq<Seq<char>> {
    seq![
        "architecture"@,
        "redesign"@,
        "migration"@,
        "security"@,
        "performance"@,
        "optimization"@,
        "parallel"@,
        "distributed"@,
    ]
}

/// Whether `lowered` contains one of the complex keywords.
pub open spec fn has_complex_keyword(lowered: Seq<char>) -> bool {
    exists|k: int| 0 <= k < complex_keywords().len() && #[trigger] find(lowered, complex_keywords()[k]) is Some
}

/// The complexity for a word count and the presence of a complex keyword.
pub open spec fn complexity_of(words: nat, keyword: bool) -> TaskComplexity {
    if words > 100 || keyword {
        TaskComplexity::Complex
    } else if words > 30 {
        TaskComplexity::Medium
    } else {
        TaskComplexity::Simple
    }
}

proof fn lemma_split_on_nonempty(s: Seq<char>, sep: char)
    ensures
        split_on(s, sep).len() >= 1,
    decreases s.len(),
{
    if s.len() > 0 {
        lemma_split_on_nonempty(s.drop_last(), sep);
    }
}

/// What `find_from` returns is an occurrence at or after the start.
pub proof fn lemma_find_from_matches(s: Seq<char>, p: Seq<char>, i: int)
    ensures
        find_from(s, p, i) matches Some(j) ==> i <= j && matches_at(s, p, j),
    decreases s.len() - i,
{
    if i < 0 || i + p.len() > s.len() {
    } else if matches_at(s, p, i) {
    } else if i >= s.len() {
    } else {
        lemma_find_from_matches(s, p, i + 1);
    }
}

proof fn lemma_pieces_agents_shape(pieces: Seq<Seq<char>>)
    ensures
        agents_for_pieces(pieces).len() <= pieces.len(),
        forall|i: int|
            0 <= i < agents_for_pieces(pieces).len() ==> (#[trigger] agents_for_pieces(pieces)[i]).estimated_duration == 30,
    decreases pieces.len(),
{
    if pieces.len() > 0 {
        lemma_pieces_agents_shape(pieces.drop_last());
    }
}

/// A request spawns parallel agents only when it explicitly asks for them
/// with `/parallel `; the results are synthesized exactly when agents run in
/// parallel; there is always at least one agent, each estimated at 30; and a
/// request that spawns nothing in parallel goes whole to one general agent.
pub proof fn lemma_decision_shape(input: Seq<char>)
    ensures
        decide(input).should_spawn_parallel ==> find(input, "/parallel "@) is Some,
        decide(input).should_synthesize == decide(input).should_spawn_parallel,
        decide(input).agents.len() >= 1,
        forall|i: int|
            0 <= i < decide(input).agents.len() ==> (#[trigger] decide(input).agents[i]).estimated_duration
                == 30,
        !decide(input).should_spawn_parallel ==> decide(input).agents == seq![
            AgentSpawnView { label: "general"@, task: input, estimated_duration: 30 },
        ],
        decide(input).should_spawn_parallel <==> (parallel_section(input) matches Some(t) && task_names(
            split_on(t, ','),
        ).len() > 0),
        decide(input).should_spawn_parallel ==> decide(input).agents == parallel_tasks(
            parallel_section(input)->0,
        ),
{
    if let Some(t) = parallel_section(input) {
        lemma_agents_for_pieces_names(split_on(t, ','));
    }
    match parallel_section(input) {
        Some(t) => {
            lemma_pieces_agents_shape(split_on(t, ','));
        },
        None => {},
    }
}

/// A `/parallel` list spawns at most one agent per comma-separated piece.
pub proof fn lemma_parallel_agents_bounded(tasks: Seq<char>)
    ensures
        parallel_tasks(tasks).len() <= split_on(tasks, ',').len(),
{
    lemma_pieces_agents_shape(split_on(tasks, ','));
}

/// The rank of a complexity: simple, medium, complex.
pub open spec fn complexity_rank(c: TaskComplexity) -> int {
    match c {
        TaskComplexity::Simple => 0,
        TaskComplexity::Medium => 1,
        TaskComplexity::Complex => 2,
    }
}

/// More words never make a task look simpler, and a complex keyword always
/// makes it complex.
pub proof fn lemma_complexity_monotone(w1: nat, w2: nat, keyword: bool)
    requires
        w1 <= w2,
    ensures
        complexity_rank(complexity_of(w1, keyword)) <= complexity_rank(complexity_of(w2, keyword)),
        complexity_of(w1, true) == TaskComplexity::Complex,
{
}

proof fn lemma_word_count_prefix(s: Seq<char>, i: int)
    requires
        0 <= i <= s.len(),
    ensures
        word_count(s.take(i)) <= word_count(s),
    decreases s.len(),
{
    if i < s.len() {
        assert(s.drop_last().take(i) =~= s.take(i));
        lemma_word_count_prefix(s.drop_last(), i);
    } else {
        assert(s.take(i) =~= s);
    }
}

/// Joining a text with more words, after a space, never lowers its word
/// count.
pub proof fn lemma_word_count_join(a: Seq<char>, b: Seq<char>)
    ensures
        word_count(a) <= word_count(a + " "@ + b),
{
    let s = a + " "@ + b;
    assert(s.take(a.len() as int) =~= a);
    lemma_word_count_prefix(s, a.len() as int);
}

proof fn lemma_find_from_some(s: Seq<char>, p: Seq<char>, start: int, i: int)
    requires
        0 <= start <= i,
        matches_at(s, p, i),
    ensures
        find_from(s, p, start) is Some,
    decreases i - start,
{
    if !matches_at(s, p, start) {
        lemma_find_from_some(s, p, start + 1, i);
    }
}

/// A keyword found in a text is found in every text that begins with it.
pub proof fn lemma_keyword_in_longer(la: Seq<char>, lab: Seq<char>)
    requires
        la.len() <= lab.len(),
        lab.take(la.len() as int) == la,
    ensures
        has_complex_keyword(la) ==> has_complex_keyword(lab),
{
    if has_complex_keyword(la) {
        let k = choose|k: int| 0 <= k < complex_keywords().len() && #[trigger] find(la, complex_keywords()[k]) is Some;
        let kw = complex_keywords()[k];
        lemma_find_from_matches(la, kw, 0);
        let i = find(la, kw)->0;
        assert(lab.take(la.len() as int)[i] == la[i]);
        assert forall|j: int| i <= j < i + kw.len() implies lab[j] == la[j] by {
            assert(lab.take(la.len() as int)[j] == la[j]);
        }
        assert(lab.subrange(i, i + kw.len()) =~= la.subrange(i, i + kw.len()));
        assert(matches_at(lab, kw, i));
        lemma_find_from_some(lab, kw, 0, i);
        assert(find(lab, complex_keywords()[k]) is Some);
    }
}

/// Adding words after a space never lowers the complexity: for a text `a`
/// and the longer text `a b`, given lowercase forms where that of `a b`
/// begins with that of `a` (as `str::to_lowercase` gives wherever no
/// letter's lowercase depends on what follows it), the complexity that
/// `classify_complexity` gives the longer text is at least that of `a`.
pub proof fn lemma_complexity_join(a: Seq<char>, b: Seq<char>, la: Seq<char>, lab: Seq<char>)
    requires
        la.len() <= lab.len(),
        lab.take(la.len() as int) == la,
    ensures
        complexity_rank(complexity_of(word_count(a), has_complex_keyword(la))) <= complexity_rank(
            complexity_of(word_count(a + " "@ + b), has_complex_keyword(lab)),
        ),
{
    lemma_word_count_join(a, b);
    lemma_keyword_in_longer(la, lab);
}

proof fn lemma_join_extend_last(ps: Seq<Seq<char>>, sep: Seq<char>, c: char)
    requires
        ps.len() >= 1,
    ensures
        join(ps.update(ps.len() - 1, ps.last().push(c)), sep) == join(ps, sep).push(c),
{
    let qs = ps.update(ps.len() - 1, ps.last().push(c));
    if ps.len() == 1 {
    } else {
        assert(qs.drop_last() =~= ps.drop_last());
        assert(join(qs, sep) =~= join(ps, sep).push(c));
    }
}

/// Splitting at a separator gives pieces without it that, joined again by
/// it, give back the text: the pieces are exactly the text between the
/// separators, in order.
pub proof fn lemma_split_on_rejoins(s: Seq<char>, sep: char)
    ensures
        split_on(s, sep).len() >= 1,
        forall|i: int| 0 <= i < split_on(s, sep).len() ==> !(#[trigger] split_on(s, sep)[i]).contains(sep),
        join(split_on(s, sep), seq![sep]) == s,
    decreases s.len(),
{
    if s.len() == 0 {
        assert(split_on(s, sep)[0] =~= Seq::<char>::empty());
        assert(s =~= Seq::<char>::empty());
    } else {
        let prev_s = s.drop_last();
        lemma_split_on_rejoins(prev_s, sep);
        let p = split_on(prev_s, sep);
        let c = s.last();
        if c == sep {
            let q = p.push(Seq::<char>::empty());
            assert(q.drop_last() =~= p);
            assert forall|i: int| 0 <= i < q.len() implies !(#[trigger] q[i]).contains(sep) by {
                if i < p.len() {
                    assert(q[i] == p[i]);
                }
            }
            assert(join(q, seq![sep]) =~= prev_s + seq![sep] + Seq::<char>::empty());
            assert(prev_s + seq![sep] + Seq::<char>::empty() =~= s);
        } else {
            let q = p.update(p.len() - 1, p.last().push(c));
            lemma_join_extend_last(p, seq![sep], c);
            assert forall|i: int| 0 <= i < q.len() implies !(#[trigger] q[i]).contains(sep) by {
                if i < p.len() - 1 {
                    assert(q[i] == p[i]);
                } else {
                    assert(!p[i].contains(sep));
                    if q[i].contains(sep) {
                        let j = choose|j: int| 0 <= j < q[i].len() && q[i][j] == sep;
                        if j < p[i].len() {
                            assert(p[i][j] == sep);
                        }
                    }
                }
            }
            assert(prev_s.push(c) =~= s);
        }
    }
}

/// Whether a trimmed task name is not blank.
pub open spec fn is_named(t: Seq<char>) -> bool {
    t.len() > 0
}

/// The task names of a list of pieces: each piece trimmed, blank ones left
/// out, in order.
pub open spec fn task_names(pieces: Seq<Seq<char>>) -> Seq<Seq<char>> {
    pieces.map_values(|p: Seq<char>| trim(p)).filter(|t: Seq<char>| is_named(t))
}

proof fn lemma_agents_for_pieces_names(pieces: Seq<Seq<char>>)
    ensures
        agents_for_pieces(pieces) == task_names(pieces).map_values(|t: Seq<char>| spawn_for(t)),
    decreases pieces.len(),
{
    reveal(Seq::filter);
    if pieces.len() == 0 {
        assert(task_names(pieces) =~= Seq::<Seq<char>>::empty());
        assert(agents_for_pieces(pieces) =~= task_names(pieces).map_values(|t: Seq<char>| spawn_for(t)));
    } else {
        let prev = pieces.drop_last();
        lemma_agents_for_pieces_names(prev);
        let trimmed = pieces.map_values(|p: Seq<char>| trim(p));
        assert(trimmed.drop_last() =~= prev.map_values(|p: Seq<char>| trim(p)));
        assert(trimmed.last() == trim(pieces.last()));
        let names_prev = task_names(prev);
        if is_named(trim(pieces.last())) {
            assert(task_names(pieces) == names_prev.push(trim(pieces.last())));
            assert(names_prev.push(trim(pieces.last())).map_values(|t: Seq<char>| spawn_for(t))
                =~= names_prev.map_values(|t: Seq<char>| spawn_for(t)).push(spawn_for(trim(pieces.last()))));
        } else {
            assert(task_names(pieces) == names_prev);
        }
    }
}

/// `find_from` gives the first occurrence at or after its start.
pub proof fn lemma_find_from_first(s: Seq<char>, p: Seq<char>, i: int)
    requires
        0 <= i,
    ensures
        find_from(s, p, i) matches Some(j) ==> forall|k: int| i <= k < j ==> !matches_at(s, p, k),
        find_from(s, p, i) is None ==> forall|k: int| i <= k ==> !matches_at(s, p, k),
    decreases s.len() - i,
{
    if i + p.len() > s.len() {
    } else if matches_at(s, p, i) {
    } else if i >= s.len() {
    } else {
        lemma_find_from_first(s, p, i + 1);
    }
}

/// The task list of a request is the text after its first `/parallel `,
/// up to the first line break after it or the end.
pub proof fn lemma_parallel_section_shape(input: Seq<char>)
    ensures
        parallel_section(input) is None <==> forall|i: int| !matches_at(input, "/parallel "@, i),
        parallel_section(input) matches Some(t) ==> exists|i: int, e: int|
            #![trigger matches_at(input, "/parallel "@, i), input.subrange(i + 10, e)]
            matches_at(input, "/parallel "@, i) && (forall|k: int| 0 <= k < i ==> !matches_at(input, "/parallel "@, k))
                && i + 10 <= e <= input.len() && t == input.subrange(i + 10, e) && !t.contains('\n') && (e
                == input.len() || input[e] == '\n'),
{
    reveal_strlit("/parallel ");
    let pc = "/parallel "@;
    assert(parallel_command() == pc);
    lemma_find_from_first(input, pc, 0);
    lemma_find_from_matches(input, pc, 0);
    if let Some(i) = find(input, pc) {
        let rest = input.subrange(i + pc.len(), input.len() as int);
        let nl = seq!['\n'];
        lemma_find_from_first(rest, nl, 0);
        lemma_find_from_matches(rest, nl, 0);
        let end = match find(rest, nl) {
            Some(j) => j,
            None => rest.len() as int,
        };
        let t = rest.subrange(0, end);
        let e = i + 10 + end;
        assert(t =~= input.subrange(i + 10, e));
        if t.contains('\n') {
            let k = choose|k: int| 0 <= k < t.len() && t[k] == '\n';
            assert(rest.subrange(k, k + 1) =~= nl);
            assert(matches_at(rest, nl, k));
        }
        if e < input.len() {
            assert(find(rest, nl) is Some);
            assert(rest.subrange(end, end + 1)[0] == input[e]);
        }
    }
}

/// A `/parallel` list spawns one agent for each comma-separated piece that
/// is not blank after trimming, in order, and no other: the k-th agent is
/// labelled with the k-th task name lowercased and asked to perform it.
/// The pieces are the text between the commas.
pub proof fn lemma_parallel_tasks_per_piece(tasks: Seq<char>)
    ensures
        parallel_tasks(tasks) == task_names(split_on(tasks, ',')).map_values(|t: Seq<char>| spawn_for(t)),
        parallel_tasks(tasks).len() == task_names(split_on(tasks, ',')).len(),
        forall|k: int|
            0 <= k < parallel_tasks(tasks).len() ==> (#[trigger] parallel_tasks(tasks)[k]).label == lowercase(
                task_names(split_on(tasks, ','))[k],
            ) && parallel_tasks(tasks)[k].task == "Perform "@ + task_names(split_on(tasks, ','))[k]
                + " task"@ && parallel_tasks(tasks)[k].estimated_duration == 30,
        forall|i: int|
            0 <= i < split_on(tasks, ',').len() ==> !(#[trigger] split_on(tasks, ',')[i]).contains(','),
        join(split_on(tasks, ','), seq![',']) == tasks,
{
    lemma_agents_for_pieces_names(split_on(tasks, ','));
    lemma_split_on_rejoins(tasks, ',');
}

/// A text is complex by keyword exactly when its lowercase form contains
/// one of the words architecture, redesign, migration, security,
/// performance, optimization, parallel or distributed.
pub proof fn lemma_complex_keywords_are(lowered: Seq<char>)
    ensures
        has_complex_keyword(lowered) <==> (find(lowered, "architecture"@) is Some || find(
            lowered,
            "redesign"@,
        ) is Some || find(lowered, "migration"@) is Some || find(lowered, "security"@) is Some
            || find(lowered, "performance"@) is Some || find(lowered, "optimization"@) is Some
            || find(lowered, "parallel"@) is Some || find(lowered, "distributed"@) is Some),
{
    let kws = complex_keywords();
    assert(kws.len() == 8);
    assert(kws[0] == "architecture"@);
    assert(kws[1] == "redesign"@);
    assert(kws[2] == "migration"@);
    assert(kws[3] == "security"@);
    assert(kws[4] == "performance"@);
    assert(kws[5] == "optimization"@);
    assert(kws[6] == "parallel"@);
    assert(kws[7] == "distributed"@);
    if has_complex_keyword(lowered) {
        let k = choose|k: int| 0 <= k < kws.len() && #[trigger] find(lowered, kws[k]) is Some;
        assert(0 <= k < 8);
    }
    if find(lowered, "architecture"@) is Some {
        assert(find(lowered, kws[0]) is Some);
    }
    if find(lowered, "redesign"@) is Some {
        assert(find(lowered, kws[1]) is Some);
    }
    if find(lowered, "migration"@) is Some {
        assert(find(lowered, kws[2]) is Some);
    }
    if find(lowered, "security"@) is Some {
        assert(find(lowered, kws[3]) is Some);
    }
    if find(lowered, "performance"@) is Some {
        assert(find(lowered, kws[4]) is Some);
    }
    if find(lowered, "optimization"@) is Some {
        assert(find(lowered, kws[5]) is Some);
    }
    if find(lowered, "parallel"@) is Some {
        assert(find(lowered, kws[6]) is Some);
    }
    if find(lowered, "distributed"@) is Some {
        assert(find(lowered, kws[7]) is Some);
    }
}

/// A text whose lowercase form contains architecture, redesign, migration,
/// security, performance, optimization, parallel or distributed is
/// estimated complex, whatever its length.
pub proof fn lemma_keyword_makes_complex(input: Seq<char>)
    ensures
        (find(lowercase(input), "architecture"@) is Some || find(lowercase(input), "redesign"@) is Some
            || find(lowercase(input), "migration"@) is Some || find(lowercase(input), "security"@) is Some
            || find(lowercase(input), "performance"@) is Some || find(lowercase(input), "optimization"@)
            is Some || find(lowercase(input), "parallel"@) is Some || find(lowercase(input), "distributed"@)
            is Some) ==> complexity_of(word_count(input), has_complex_keyword(lowercase(input)))
            == TaskComplexity::Complex,
{
    lemma_complex_keywords_are(lowercase(input));
}

fn keyword(k: usize) -> (r: &'static str)
    requires
        k < 8,
    ensures
        r@ == complex_keywords()[k as int],
{
    if k == 0 {
        "architecture"
    } else if k == 1 {
        "redesign"
    } else if k == 2 {
        "migration"
    } else if k == 3 {
        "security"
    } else if k == 4 {
        "performance"
    } else if k == 5 {
        "optimization"
    } else if k == 6 {
        "parallel"
    } else {
        "distributed"
    }
}

impl Supervisor {
    pub fn new() -> (s: Self) {
        Supervisor
    }

    /// Decides how the request `user_input` is handled: a `/parallel a, b, c`
    /// command spawns one agent per non-blank task name (up to the end of its
    /// line), to be synthesized afterwards; anything else goes to one general
    /// agent with the whole request.
    pub fn analyze_task(&self, user_input: &str) -> (d: SupervisorDecision)
        ensures
            d@ == decide(user_input@),
    {
        let chars = chars_of(user_input);
        let pat = chars_of("/parallel ");
        if let Some(idx) = find_chars(&chars, &pat) {
            proof {
                lemma_find_from_matches(chars@, pat@, 0);
                assert(matches_at(chars@, pat@, idx as int));
            }
            let plen = pat.len();
            assert(idx + plen <= chars.len());
            let after: usize = idx + plen;
            let rest = sub_chars(&chars, after, chars.len());
            let mut nl: Vec<char> = Vec::new();
            nl.push('\n');
            assert(nl@ =~= seq!['\n']);
            let end = match find_chars(&rest, &nl) {
                Some(j) => {
                    proof {
                        lemma_find_from_matches(rest@, nl@, 0);
                    }
                    j
                },
                None => rest.len(),
            };
            let tasks_str = string_of(&rest, 0, end);
            assert(tasks_str@ =~= parallel_section(user_input@).unwrap());
            let agents = self.extract_parallel_tasks(tasks_str.as_str());
            if agents.len() > 0 {
                return SupervisorDecision {
                    should_spawn_parallel: true,
                    agents,
                    should_synthesize: true,
                };
            }
        }
        let mut agents: Vec<AgentSpawnConfig> = Vec::new();
        agents.push(
            AgentSpawnConfig {
                label: String::from_str("general"),
                task: String::from_str(user_input),
                estimated_duration: 30,
            },
        );
        assert(agents.deep_view() =~= seq![general_agent(user_input@)]);
        SupervisorDecision { should_spawn_parallel: false, agents, should_synthesize: false }
    }

    /// The agent for the non-blank, trimmed task name `chars[lo..hi]`.
    fn spawn_config(chars: &Vec<char>, lo: usize, hi: usize) -> (a: AgentSpawnConfig)
        requires
            lo <= hi <= chars.len(),
        ensures
            a@ == spawn_for(chars@.subrange(lo as int, hi as int)),
    {
        let name = string_of(chars, lo, hi);
        let label = to_lowercase(name.as_str());
        let mut task = String::from_str("Perform ");
        task.append(name.as_str());
        task.append(" task");
        AgentSpawnConfig { label, task, estimated_duration: 30 }
    }

    /// One agent per non-blank, trimmed, comma-separated task name.
    fn extract_parallel_tasks(&self, tasks_str: &str) -> (agents: Vec<AgentSpawnConfig>)
        ensures
            agents.deep_view() == parallel_tasks(tasks_str@),
    {
        let chars = chars_of(tasks_str);
        let mut agents: Vec<AgentSpawnConfig> = Vec::new();
        let ghost mut pieces: Seq<Seq<char>> = Seq::empty();
        let mut start: usize = 0;
        let mut i: usize = 0;
        assert(chars@.take(0) =~= Seq::<char>::empty());
        assert(split_on(chars@.take(0), ',') =~= pieces.push(chars@.subrange(0, 0)));
        while i < chars.len()
            invariant
                start <= i <= chars.len(),
                split_on(chars@.take(i as int), ',') == pieces.push(
                    chars@.subrange(start as int, i as int),
                ),
                agents.deep_view() == agents_for_pieces(pieces),
            decreases chars.len() - i,
        {
            let ghost t = chars@.take(i as int + 1);
            assert(t.drop_last() =~= chars@.take(i as int));
            if chars[i] == ',' {
                let ghost piece = chars@.subrange(start as int, i as int);
                let (a, b) = trim_bounds(&chars, start, i);
                if a < b {
                    let cfg = Self::spawn_config(&chars, a, b);
                    agents.push(cfg);
                }
                proof {
                    let np = pieces.push(piece);
                    assert(np.drop_last() =~= pieces);
                    assert(agents.deep_view() =~= agents_for_pieces(np));
                    assert(chars@.subrange(i + 1, i + 1) =~= Seq::<char>::empty());
                    assert(split_on(t, ',') =~= np.push(chars@.subrange(i + 1, i + 1)));
                    pieces = np;
                }
                start = i + 1;
            } else {
                proof {
                    lemma_split_on_nonempty(chars@.take(i as int), ',');
                    assert(chars@.subrange(start as int, i as int).push(chars@[i as int])
                        =~= chars@.subrange(start as int, i + 1));
                    assert(split_on(t, ',') =~= pieces.push(
                        chars@.subrange(start as int, i + 1),
                    ));
                }
            }
            i = i + 1;
        }
        assert(chars@.take(chars.len() as int) =~= chars@);
        let ghost piece = chars@.subrange(start as int, chars.len() as int);
        let (a, b) = trim_bounds(&chars, start, chars.len());
        if a < b {
            let cfg = Self::spawn_config(&chars, a, b);
            agents.push(cfg);
        }
        proof {
            let np = pieces.push(piece);
            assert(np.drop_last() =~= pieces);
            assert(agents.deep_view() =~= agents_for_pieces(np));
        }
        agents
    }

    /// The complexity of `input`, given `lowered`, the lowercase form of
    /// `input`: complex above 100 words or with a complex keyword in
    /// `lowered`, medium above 30 words, simple otherwise.
    pub fn classify_complexity(&self, input: &str, lowered: &str) -> (c: TaskComplexity)
        ensures
            c == complexity_of(word_count(input@), has_complex_keyword(lowered@)),
    {
        let chars = chars_of(input);
        let word_count = count_words(&chars);
        let low = chars_of(lowered);
        let mut has_keyword = false;
        let mut k: usize = 0;
        while k < 8
            invariant
                k <= 8,
                low@ == lowered@,
                has_keyword == exists|j: int|
                    0 <= j < k && #[trigger] find(lowered@, complex_keywords()[j]) is Some,
            decreases 8 - k,
        {
            let kw = chars_of(keyword(k));
            let found = find_chars(&low, &kw);
            if found.is_some() {
                has_keyword = true;
            }
            k = k + 1;
        }
        assert(complex_keywords().len() == 8);
        if word_count > 100 || has_keyword {
            TaskComplexity::Complex
        } else if word_count > 30 {
            TaskComplexity::Medium
        } else {
            TaskComplexity::Simple
        }
    }

    /// The complexity of `input`, by its word count and by the complex
    /// keywords that its lowercase form contains.
    pub fn estimate_complexity(&self, input: &str) -> (c: TaskComplexity)
        ensures
            c == complexity_of(word_count(input@), has_complex_keyword(lowercase(input@))),
    {
        let lowered = to_lowercase(input);
        self.classify_complexity(input, lowered.as_str())
    }
}

impl Default for Supervisor {
    fn default() -> (s: Self) {
        Supervisor::new()
    }
}

} // verus!
