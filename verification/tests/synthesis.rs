use agent_orchestrator::synthesis::{ConflictStrategy, Synthesis};
use agent_orchestrator::workspace::{AgentState, AgentStatus, PendingDiff};

fn diff(path: &str, content: &str, agent: &str) -> PendingDiff {
    PendingDiff {
        file_path: path.to_string(),
        original_content: String::new(),
        new_content: content.to_string(),
        agent_id: agent.to_string(),
        description: String::new(),
    }
}

fn agent(id: &str, label: &str, status: AgentStatus, findings: &[&str]) -> AgentState {
    AgentState {
        id: id.to_string(),
        label: label.to_string(),
        status,
        current_task: None,
        findings: findings.iter().map(|f| f.to_string()).collect(),
    }
}

#[test]
fn test_synthesis() {
    let synthesis = Synthesis::new();
    let agent_states = vec![AgentState {
        id: "1".to_string(),
        label: "security".to_string(),
        status: AgentStatus::Completed,
        current_task: None,
        findings: vec!["Found SQL injection".to_string()],
    }];

    let result = synthesis.synthesize(&agent_states, &[]);

    assert_eq!(result.key_findings.len(), 1);
    assert!(result.combined_summary.contains("1/1"));
}

#[test]
fn summary_findings_and_recommendations() {
    let synthesis = Synthesis::default();
    let agents = vec![
        agent("1", "security", AgentStatus::Completed, &["a", "b"]),
        agent("2", "docs", AgentStatus::Running, &[]),
        agent("3", "perf", AgentStatus::Completed, &["c"]),
    ];
    let result = synthesis.synthesize(&agents, &[]);
    assert_eq!(result.combined_summary, "Completed 2/3 agent tasks. ");
    assert_eq!(result.key_findings, vec!["a", "b", "c"]);
    assert_eq!(
        result.recommendations,
        vec!["security completed successfully", "perf completed successfully"]
    );
    assert!(result.merged_diffs.is_empty());
    assert!(result.conflicts.is_empty());
}

#[test]
fn summary_of_no_agents() {
    let result = Synthesis::new().synthesize(&[], &[]);
    assert_eq!(result.combined_summary, "Completed 0/0 agent tasks. ");
    assert!(result.key_findings.is_empty());
    assert!(result.recommendations.is_empty());
}

#[test]
fn summary_with_many_agents() {
    let agents: Vec<AgentState> = (0..12)
        .map(|i| {
            let status = if i % 3 == 0 { AgentStatus::Completed } else { AgentStatus::Failed };
            agent(&i.to_string(), "x", status, &[])
        })
        .collect();
    let result = Synthesis::new().synthesize(&agents, &[]);
    assert_eq!(result.combined_summary, "Completed 4/12 agent tasks. ");
}

#[test]
fn single_diff_is_summarized_by_lines() {
    let diffs = vec![diff("src/a.rs", "one\ntwo\nthree\n", "1")];
    let result = Synthesis::new().synthesize(&[], &diffs);
    assert_eq!(result.merged_diffs.len(), 1);
    let m = &result.merged_diffs[0];
    assert_eq!(m.file_path, "src/a.rs");
    assert_eq!(m.changes, "Changed 3 lines");
    assert_eq!(m.source_agents, vec!["1"]);
    assert_eq!(m.priority, 1);
    assert!(result.conflicts.is_empty());
}

#[test]
fn line_count_edge_cases() {
    let cases = [("", "Changed 0 lines"), ("x", "Changed 1 lines"), ("a\r\nb", "Changed 2 lines"), ("\n\n", "Changed 2 lines")];
    for (content, expected) in cases {
        let result = Synthesis::new().synthesize(&[], &[diff("f", content, "1")]);
        assert_eq!(result.merged_diffs[0].changes, expected);
    }
}

#[test]
fn shared_file_is_merged_and_reported_as_conflict() {
    let diffs = vec![
        diff("src/a.rs", "first", "1"),
        diff("src/b.rs", "only", "2"),
        diff("src/a.rs", "second", "3"),
        diff("src/a.rs", "third", "4"),
    ];
    let result = Synthesis::new().synthesize(&[], &diffs);
    assert_eq!(result.merged_diffs.len(), 2);
    let a = &result.merged_diffs[0];
    assert_eq!(a.file_path, "src/a.rs");
    assert_eq!(a.changes, "first\n---\nsecond\n---\nthird");
    assert_eq!(a.source_agents, vec!["1", "3", "4"]);
    assert_eq!(a.priority, 3);
    let b = &result.merged_diffs[1];
    assert_eq!(b.file_path, "src/b.rs");
    assert_eq!(b.changes, "Changed 1 lines");
    assert_eq!(b.priority, 1);

    assert_eq!(result.conflicts.len(), 1);
    let c = &result.conflicts[0];
    assert_eq!(c.file_path, "src/a.rs");
    assert_eq!(c.agent_1, "1");
    assert_eq!(c.agent_2, "3");
    assert_eq!(c.description, "Multiple agents modified the same file");
    assert_eq!(c.resolution.as_deref(), Some("Changes merged sequentially"));
}

#[test]
fn merged_diffs_sorted_by_priority() {
    let diffs = vec![
        diff("x", "1", "a"),
        diff("y", "1", "a"),
        diff("y", "2", "b"),
        diff("z", "1", "a"),
        diff("z", "2", "b"),
        diff("z", "3", "c"),
    ];
    let result = Synthesis::new().synthesize(&[], &diffs);
    let priorities: Vec<u32> = result.merged_diffs.iter().map(|m| m.priority).collect();
    assert_eq!(priorities, vec![3, 2, 1]);
    let paths: Vec<&str> = result.merged_diffs.iter().map(|m| m.file_path.as_str()).collect();
    assert_eq!(paths, vec!["z", "y", "x"]);
    let conflict_paths: Vec<&str> = result.conflicts.iter().map(|c| c.file_path.as_str()).collect();
    assert_eq!(conflict_paths, vec!["y", "z"]);
}

#[test]
fn every_diff_agent_is_a_source() {
    let diffs = vec![diff("p", "a", "1"), diff("q", "b", "2"), diff("p", "c", "3")];
    let result = Synthesis::new().synthesize(&[], &diffs);
    for d in &diffs {
        let m = result.merged_diffs.iter().find(|m| m.file_path == d.file_path).unwrap();
        assert!(m.source_agents.contains(&d.agent_id));
    }
    for m in &result.merged_diffs {
        let conflicted = result.conflicts.iter().any(|c| c.file_path == m.file_path);
        assert_eq!(conflicted, m.source_agents.len() > 1);
    }
}

#[test]
fn default_conflict_strategy_is_first_wins() {
    assert_eq!(ConflictStrategy::default(), ConflictStrategy::FirstWins);
}
