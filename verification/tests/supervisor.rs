use agent_orchestrator::supervisor::{Supervisor, TaskComplexity};

#[test]
fn test_parallel_detection() {
    let supervisor = Supervisor::new();

    let result = supervisor.analyze_task(
        "/parallel security scan, performance analysis, code quality check\nHere is my prompt",
    );

    assert!(result.should_spawn_parallel);
    assert!(result.agents.len() >= 3);
    assert!(result.should_synthesize);
}

#[test]
fn test_simple_task() {
    let supervisor = Supervisor::new();

    let result = supervisor.analyze_task("explain what does this function do?");

    assert!(!result.should_spawn_parallel);
    assert_eq!(result.agents.len(), 1);
}

#[test]
fn parallel_agents_are_trimmed_lowercased_and_described() {
    let supervisor = Supervisor::default();
    let result = supervisor.analyze_task(
        "/parallel Security Scan, performance analysis, code quality check\nHere is my prompt",
    );
    assert_eq!(result.agents.len(), 3);
    assert_eq!(result.agents[0].label, "security scan");
    assert_eq!(result.agents[0].task, "Perform Security Scan task");
    assert_eq!(result.agents[1].label, "performance analysis");
    assert_eq!(result.agents[1].task, "Perform performance analysis task");
    assert_eq!(result.agents[2].label, "code quality check");
    assert_eq!(result.agents[2].task, "Perform code quality check task");
    for agent in &result.agents {
        assert_eq!(agent.estimated_duration, 30);
    }
}

#[test]
fn parallel_command_may_follow_other_text() {
    let supervisor = Supervisor::new();
    let result = supervisor.analyze_task("please run /parallel lint,  , docs");
    assert!(result.should_spawn_parallel);
    assert_eq!(result.agents.len(), 2);
    assert_eq!(result.agents[0].label, "lint");
    assert_eq!(result.agents[1].label, "docs");
    assert_eq!(result.agents[1].task, "Perform docs task");
}

#[test]
fn parallel_without_tasks_falls_back_to_general() {
    let supervisor = Supervisor::new();
    let input = "/parallel  , ,\nrest";
    let result = supervisor.analyze_task(input);
    assert!(!result.should_spawn_parallel);
    assert!(!result.should_synthesize);
    assert_eq!(result.agents.len(), 1);
    assert_eq!(result.agents[0].label, "general");
    assert_eq!(result.agents[0].task, input);
    assert_eq!(result.agents[0].estimated_duration, 30);
}

#[test]
fn parallel_needs_the_trailing_space() {
    let supervisor = Supervisor::new();
    let result = supervisor.analyze_task("/parallel\nsecurity, docs");
    assert!(!result.should_spawn_parallel);
    assert_eq!(result.agents[0].task, "/parallel\nsecurity, docs");
}

#[test]
fn only_the_first_line_lists_tasks() {
    let supervisor = Supervisor::new();
    let result = supervisor.analyze_task("/parallel a\nb, c");
    assert_eq!(result.agents.len(), 1);
    assert_eq!(result.agents[0].label, "a");
}

#[test]
fn complexity_by_word_count() {
    let supervisor = Supervisor::new();
    assert_eq!(supervisor.estimate_complexity("fix the typo"), TaskComplexity::Simple);
    let thirty = vec!["word"; 30].join(" ");
    assert_eq!(supervisor.estimate_complexity(&thirty), TaskComplexity::Simple);
    let thirty_one = vec!["word"; 31].join(" ");
    assert_eq!(supervisor.estimate_complexity(&thirty_one), TaskComplexity::Medium);
    let hundred = vec!["word"; 100].join("\t");
    assert_eq!(supervisor.estimate_complexity(&hundred), TaskComplexity::Medium);
    let hundred_one = vec!["word"; 101].join(" \n ");
    assert_eq!(supervisor.estimate_complexity(&hundred_one), TaskComplexity::Complex);
    assert_eq!(supervisor.estimate_complexity(""), TaskComplexity::Simple);
}

#[test]
fn complexity_by_keyword_in_any_case() {
    let supervisor = Supervisor::new();
    assert_eq!(supervisor.estimate_complexity("Plan the MIGRATION"), TaskComplexity::Complex);
    assert_eq!(supervisor.estimate_complexity("a distributed cache"), TaskComplexity::Complex);
    assert_eq!(supervisor.estimate_complexity("improve Performance"), TaskComplexity::Complex);
    assert_eq!(supervisor.estimate_complexity("rename a variable"), TaskComplexity::Simple);
}

#[test]
fn classify_complexity_reads_the_given_lowercase_form() {
    let supervisor = Supervisor::new();
    assert_eq!(
        supervisor.classify_complexity("SECURITY", "SECURITY"),
        TaskComplexity::Simple
    );
    assert_eq!(
        supervisor.classify_complexity("anything", "security"),
        TaskComplexity::Complex
    );
}

#[test]
fn complexity_monotone_in_words() {
    let supervisor = Supervisor::new();
    let rank = |c: TaskComplexity| match c {
        TaskComplexity::Simple => 0,
        TaskComplexity::Medium => 1,
        TaskComplexity::Complex => 2,
    };
    let mut last = 0;
    for n in [0usize, 5, 30, 31, 60, 100, 101, 150] {
        let text = vec!["w"; n].join(" ");
        let r = rank(supervisor.estimate_complexity(&text));
        assert!(r >= last);
        last = r;
    }
}

#[test]
fn joining_text_never_lowers_complexity() {
    let supervisor = Supervisor::new();
    let rank = |c: TaskComplexity| match c {
        TaskComplexity::Simple => 0,
        TaskComplexity::Medium => 1,
        TaskComplexity::Complex => 2,
    };
    let cases = [("", "x"), ("fix security", ""), ("a b c", "d e"), ("", "")];
    for (a, b) in cases {
        let joined = format!("{} {}", a, b);
        assert!(rank(supervisor.estimate_complexity(&joined)) >= rank(supervisor.estimate_complexity(a)));
    }
    let long = vec!["w"; 100].join(" ");
    assert_eq!(supervisor.estimate_complexity(&format!("{} {}", long, "more")), TaskComplexity::Complex);
}
