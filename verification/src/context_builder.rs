//! The context of a project that is handed to agents: the open files and
//! the uncommitted changes of each worktree.

use vstd::prelude::*;
use vstd::utf8::{decode_utf8, valid_utf8};
use crate::ai_client::{decode_lossy, utf8_lossy};
use crate::text::{chars_of, copy_string, trim, trim_bounds};

verus! {

/// An open file.
#[derive(Debug)]
pub struct FileContext {
    pub path: String,
    pub content: String,
}

/// The model of a [`FileContext`].
pub struct FileContextView {
    pub path: Seq<char>,
    pub content: Seq<char>,
}

impl View for FileContext {
    type V = FileContextView;

    open spec fn view(&self) -> FileContextView {
        FileContextView { path: self.path@, content: self.content@ }
    }
}

impl DeepView for FileContext {
    type V = FileContextView;

    open spec fn deep_view(&self) -> FileContextView {
        self@
    }
}

/// The uncommitted changes of one worktree.
#[derive(Debug)]
pub struct GitDiffContext {
    pub worktree_root: String,
    pub diff: String,
}

/// The model of a [`GitDiffContext`].
pub struct GitDiffView {
    pub worktree_root: Seq<char>,
    pub diff: Seq<char>,
}

impl View for GitDiffContext {
    type V = GitDiffView;

    open spec fn view(&self) -> GitDiffView {
        GitDiffView { worktree_root: self.worktree_root@, diff: self.diff@ }
    }
}

impl DeepView for GitDiffContext {
    type V = GitDiffView;

    open spec fn deep_view(&self) -> GitDiffView {
        self@
    }
}

/// The context handed to agents.
#[derive(Debug)]
pub struct ContextEnvelope {
    pub open_files: Vec<FileContext>,
    pub git_diffs: Vec<GitDiffContext>,
}

/// Why `git diff` gave no diff.
#[derive(Debug)]
pub enum GitDiffError {
    /// `git diff` exited with a failure in the worktree at `root`.
    Failed { root: String },
}

/// The diffs kept from the worktrees: those that were read and are not
/// blank, in order.
pub open spec fn kept_diffs(diffs: Seq<(Seq<char>, Option<Seq<char>>)>) -> Seq<GitDiffView>
    decreases diffs.len(),
{
    if diffs.len() == 0 {
        Seq::empty()
    } else {
        let prev = kept_diffs(diffs.drop_last());
        match diffs.last().1 {
            Some(d) => if trim(d).len() > 0 {
                prev.push(GitDiffView { worktree_root: diffs.last().0, diff: d })
            } else {
                prev
            },
            None => prev,
        }
    }
}

/// The diff of a worktree from what `git diff HEAD` gave: its output, read
/// leniently as UTF-8, when it succeeded.
pub fn git_diff_result(success: bool, stdout: &[u8], root: &str) -> (r: Result<String, GitDiffError>)
    ensures
        success ==> (r matches Ok(d) && d@ == utf8_lossy(stdout@) && (valid_utf8(stdout@) ==> d@
            == decode_utf8(stdout@))),
        !success ==> (r matches Err(GitDiffError::Failed { root: x }) && x@ == root@),
{
    if success {
        Ok(decode_lossy(stdout))
    } else {
        Err(GitDiffError::Failed { root: String::from_str(root) })
    }
}

/// Whether `s` is empty or all white space.
fn is_blank(s: &String) -> (r: bool)
    ensures
        r == (trim(s@).len() == 0),
{
    let chars = chars_of(s.as_str());
    let (a, b) = trim_bounds(&chars, 0, chars.len());
    assert(chars@.subrange(0, chars@.len() as int) =~= chars@);
    a == b
}

impl ContextEnvelope {
    /// The envelope of the open files and of the worktree diffs that were
    /// read (`Some`) and are not blank, in order.
    pub fn assemble(open_files: Vec<FileContext>, diffs: Vec<(String, Option<String>)>) -> (e: Self)
        ensures
            e.open_files.deep_view() == open_files.deep_view(),
            e.git_diffs.deep_view() == kept_diffs(diffs.deep_view()),
    {
        let ghost ds = diffs.deep_view();
        let mut git_diffs: Vec<GitDiffContext> = Vec::new();
        let mut i: usize = 0;
        while i < diffs.len()
            invariant
                ds == diffs.deep_view(),
                i <= ds.len(),
                git_diffs.deep_view() == kept_diffs(ds.take(i as int)),
            decreases ds.len() - i,
        {
            proof {
                assert(ds.take(i as int + 1).drop_last() =~= ds.take(i as int));
            }
            match &diffs[i].1 {
                Some(d) => {
                    if !is_blank(d) {
                        let g = GitDiffContext {
                            worktree_root: copy_string(&diffs[i].0),
                            diff: copy_string(d),
                        };
                        let ghost before = git_diffs.deep_view();
                        git_diffs.push(g);
                        assert(git_diffs.deep_view() =~= before.push(g@));
                    }
                },
                None => {},
            }
            i = i + 1;
        }
        assert(ds.take(ds.len() as int) =~= ds);
        ContextEnvelope { open_files, git_diffs }
    }
}

} // verus!
