//! The context that the agent panel adds to a prompt.

use vstd::prelude::*;

verus! {

#[verifier::external_type_specification]
#[verifier::external_body]
pub struct ExWorktree(zed_extension_api::Worktree);

/// Text that accompanies a prompt.
#[derive(Debug)]
pub struct Context {
    pub content: String,
}

/// The content collected from a worktree: the extension API gives no way
/// to find the active buffer, so a fixed note stands in for it.
pub open spec fn worktree_placeholder() -> Seq<char> {
    "PRAGMATIC_CONTEXT: Not implemented yet (awaiting WIT support for active buffer identification)"@
}

/// The text added to a prompt for `content`.
pub open spec fn prompt_section(content: Seq<char>) -> Seq<char> {
    "\nRelevant Context:\n---\n"@ + content + "\n---\n"@
}

impl Context {
    /// The context of a worktree: always the fixed note, since the active
    /// buffer cannot be identified.
    pub fn collect_from_worktree(_worktree: &zed_extension_api::Worktree) -> (r: Result<Self, String>)
        ensures
            r matches Ok(c) && c.content@ == worktree_placeholder(),
    {
        Ok(
            Context {
                content: String::from_str(
                    "PRAGMATIC_CONTEXT: Not implemented yet (awaiting WIT support for active buffer identification)",
                ),
            },
        )
    }

    /// The section that this context adds to a prompt.
    pub fn to_prompt(&self) -> (p: String)
        ensures
            p@ == prompt_section(self.content@),
    {
        let mut p = String::from_str("\nRelevant Context:\n---\n");
        p.append(self.content.as_str());
        p.append("\n---\n");
        p
    }
}

} // verus!
