use agent_orchestrator::workspace::{AgentStatus, MessageType, SharedWorkspace, WorkspaceStats};

#[test]
fn read_after_track_and_update() {
    let mut w = SharedWorkspace::new();
    let p = "src/main.rs".to_string();
    let q = "src/lib.rs".to_string();
    assert_eq!(w.get_file(&p), None);
    w.track_file(p.clone(), "fn main() {}".to_string());
    w.track_file(q.clone(), "pub mod a;".to_string());
    assert_eq!(w.get_file(&p).as_deref(), Some("fn main() {}"));
    w.update_file(&p, "fn main() { run() }".to_string());
    assert_eq!(w.get_file(&p).as_deref(), Some("fn main() { run() }"));
    assert_eq!(w.get_file(&q).as_deref(), Some("pub mod a;"));
    w.update_file(&"missing.rs".to_string(), "x".to_string());
    assert_eq!(w.get_file(&"missing.rs".to_string()), None);
    assert_eq!(w.get_stats().files_tracked, 2);
    w.track_file(p.clone(), "again".to_string());
    assert_eq!(w.get_stats().files_tracked, 2);
    assert_eq!(w.get_file(&p).as_deref(), Some("again"));
}

#[test]
fn agents_register_update_and_find() {
    let mut w = SharedWorkspace::default();
    w.register_agent("a1", "security");
    w.register_agent("a2", "docs");
    let s = w.get_agent_state("a1").unwrap();
    assert_eq!(s.id, "a1");
    assert_eq!(s.label, "security");
    assert_eq!(s.status, AgentStatus::Idle);
    assert_eq!(s.current_task, None);
    assert!(s.findings.is_empty());

    w.update_agent_status("a1", AgentStatus::Running);
    w.add_agent_finding("a1", "Found SQL injection".to_string());
    w.add_agent_finding("a1", "Weak hash".to_string());
    w.add_agent_finding("nobody", "ignored".to_string());
    w.update_agent_status("nobody", AgentStatus::Failed);
    let s = w.get_agent_state("a1").unwrap();
    assert_eq!(s.status, AgentStatus::Running);
    assert_eq!(s.findings, vec!["Found SQL injection", "Weak hash"]);
    let d = w.get_agent_state("a2").unwrap();
    assert_eq!(d.status, AgentStatus::Idle);
    assert!(w.get_agent_state("nobody").is_none());

    let all = w.get_all_agent_states();
    assert_eq!(all.len(), 2);
    assert_eq!(all[0].id, "a1");
    assert_eq!(all[1].id, "a2");

    w.register_agent("a1", "again");
    let s = w.get_agent_state("a1").unwrap();
    assert_eq!(s.label, "again");
    assert_eq!(s.status, AgentStatus::Idle);
    assert!(s.findings.is_empty());
    assert_eq!(w.get_stats().active_agents, 2);
}

#[test]
fn messages_and_diffs_are_appended() {
    let mut w = SharedWorkspace::new();
    w.add_message("a1", Some("a2"), "hello", MessageType::Request);
    w.broadcast_message("a2", "done");
    w.add_message_at("a3", None, "status", MessageType::StatusUpdate, 42);
    let m = w.get_messages();
    assert_eq!(m.len(), 3);
    assert_eq!(m[0].from_agent, "a1");
    assert_eq!(m[0].to_agent.as_deref(), Some("a2"));
    assert_eq!(m[0].content, "hello");
    assert_eq!(m[0].message_type, MessageType::Request);
    assert!(m[0].timestamp > 1_600_000_000);
    assert_eq!(m[1].to_agent, None);
    assert_eq!(m[1].message_type, MessageType::Broadcast);
    assert_eq!(m[2].timestamp, 42);

    w.add_diff("f.rs".to_string(), "old".to_string(), "new".to_string(), "a1", "fix");
    let d = w.get_diffs();
    assert_eq!(d.len(), 1);
    assert_eq!(d[0].file_path, "f.rs");
    assert_eq!(d[0].original_content, "old");
    assert_eq!(d[0].new_content, "new");
    assert_eq!(d[0].agent_id, "a1");
    assert_eq!(d[0].description, "fix");

    assert_eq!(
        w.get_stats(),
        WorkspaceStats { active_agents: 0, total_messages: 3, pending_diffs: 1, files_tracked: 0 }
    );
}

#[test]
fn clear_empties_everything() {
    let mut w = SharedWorkspace::new();
    w.track_file("a".to_string(), "x".to_string());
    w.register_agent("1", "l");
    w.broadcast_message("1", "m");
    w.add_diff("a".to_string(), "x".to_string(), "y".to_string(), "1", "d");
    w.clear();
    assert_eq!(
        w.get_stats(),
        WorkspaceStats { active_agents: 0, total_messages: 0, pending_diffs: 0, files_tracked: 0 }
    );
    assert_eq!(w.get_file(&"a".to_string()), None);
    assert!(w.get_agent_state("1").is_none());
}

#[test]
fn files_tracked_counts_readable_paths() {
    let mut w = SharedWorkspace::new();
    let paths = ["a", "b", "a", "c", "b"];
    for p in paths {
        w.track_file(p.to_string(), format!("content of {}", p));
    }
    let readable = ["a", "b", "c", "d"]
        .iter()
        .filter(|p| w.get_file(&p.to_string()).is_some())
        .count();
    assert_eq!(w.get_stats().files_tracked, 3);
    assert_eq!(readable, 3);
}
