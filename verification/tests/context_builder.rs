use agent_orchestrator::context_builder::{git_diff_result, ContextEnvelope, FileContext, GitDiffError};

#[test]
fn envelope_keeps_nonblank_diffs() {
    let files = vec![FileContext { path: "a.rs".to_string(), content: "x".to_string() }];
    let diffs = vec![
        ("/w1".to_string(), Some("diff --git a b".to_string())),
        ("/w2".to_string(), Some(" \n\t".to_string())),
        ("/w3".to_string(), None),
        ("/w4".to_string(), Some("+x\n".to_string())),
    ];
    let e = ContextEnvelope::assemble(files, diffs);
    assert_eq!(e.open_files.len(), 1);
    assert_eq!(e.open_files[0].path, "a.rs");
    assert_eq!(e.git_diffs.len(), 2);
    assert_eq!(e.git_diffs[0].worktree_root, "/w1");
    assert_eq!(e.git_diffs[0].diff, "diff --git a b");
    assert_eq!(e.git_diffs[1].worktree_root, "/w4");
    assert_eq!(e.git_diffs[1].diff, "+x\n");
}

#[test]
fn git_diff_results() {
    assert_eq!(git_diff_result(true, b"+a\n", "/r").unwrap(), "+a\n");
    assert_eq!(git_diff_result(true, &[0x61, 0xc3], "/r").unwrap(), "a\u{fffd}");
    match git_diff_result(false, b"", "/repo") {
        Err(GitDiffError::Failed { root }) => assert_eq!(root, "/repo"),
        Ok(_) => panic!("a failed git diff gives no diff"),
    }
}
