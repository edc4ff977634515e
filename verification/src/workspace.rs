//! State shared between agents: tracked files, messages, pending diffs and
//! the state of each agent.
//!
//! Files are keyed by their path and agents by their id: each key occurs at
//! most once, and a key that is inserted again replaces its entry in place.

use vstd::prelude::*;
use crate::text::{copy_opt_string, copy_string, copy_strings, opt_str_view, str_equal};

verus! {

/// A file that the agents share.
#[derive(Debug)]
pub struct FileState {
    pub path: String,
    pub content: String,
    pub modified: bool,
}

/// The model of a [`FileState`].
pub struct FileStateView {
    pub path: Seq<char>,
    pub content: Seq<char>,
    pub modified: bool,
}

impl View for FileState {
    type V = FileStateView;

    open spec fn view(&self) -> FileStateView {
        FileStateView { path: self.path@, content: self.content@, modified: self.modified }
    }
}

impl DeepView for FileState {
    type V = FileStateView;

    open spec fn deep_view(&self) -> FileStateView {
        self@
    }
}

/// The kind of an [`AgentMessage`].
#[derive(Debug, Clone, Copy, PartialEq, Eq, Structural)]
pub enum MessageType {
    Request,
    Response,
    Broadcast,
    StatusUpdate,
}

/// A message from one agent to another, or to all of them.
#[derive(Debug)]
pub struct AgentMessage {
    pub from_agent: String,
    pub to_agent: Option<String>,
    pub content: String,
    pub timestamp: u64,
    pub message_type: MessageType,
}

/// The model of an [`AgentMessage`].
pub struct MessageView {
    pub from_agent: Seq<char>,
    pub to_agent: Option<Seq<char>>,
    pub content: Seq<char>,
    pub timestamp: u64,
    pub message_type: MessageType,
}

impl View for AgentMessage {
    type V = MessageView;

    open spec fn view(&self) -> MessageView {
        MessageView {
            from_agent: self.from_agent@,
            to_agent: self.to_agent.deep_view(),
            content: self.content@,
            timestamp: self.timestamp,
            message_type: self.message_type,
        }
    }
}

impl DeepView for AgentMessage {
    type V = MessageView;

    open spec fn deep_view(&self) -> MessageView {
        self@
    }
}

impl AgentMessage {
    /// A copy of this message.
    pub fn duplicate(&self) -> (r: Self)
        ensures
            r@ == self@,
    {
        AgentMessage {
            from_agent: copy_string(&self.from_agent),
            to_agent: copy_opt_string(&self.to_agent),
            content: copy_string(&self.content),
            timestamp: self.timestamp,
            message_type: self.message_type,
        }
    }
}

/// A change to a file that an agent proposes.
#[derive(Debug)]
pub struct PendingDiff {
    pub file_path: String,
    pub original_content: String,
    pub new_content: String,
    pub agent_id: String,
    pub description: String,
}

/// The model of a [`PendingDiff`].
pub struct DiffView {
    pub file_path: Seq<char>,
    pub original_content: Seq<char>,
    pub new_content: Seq<char>,
    pub agent_id: Seq<char>,
    pub description: Seq<char>,
}

impl View for PendingDiff {
    type V = DiffView;

    open spec fn view(&self) -> DiffView {
        DiffView {
            file_path: self.file_path@,
            original_content: self.original_content@,
            new_content: self.new_content@,
            agent_id: self.agent_id@,
            description: self.description@,
        }
    }
}

impl DeepView for PendingDiff {
    type V = DiffView;

    open spec fn deep_view(&self) -> DiffView {
        self@
    }
}

impl PendingDiff {
    /// A copy of this diff.
    pub fn duplicate(&self) -> (r: Self)
        ensures
            r@ == self@,
    {
        PendingDiff {
            file_path: copy_string(&self.file_path),
            original_content: copy_string(&self.original_content),
            new_content: copy_string(&self.new_content),
            agent_id: copy_string(&self.agent_id),
            description: copy_string(&self.description),
        }
    }
}

/// Counts over a workspace.
#[derive(Debug, Clone, Copy, PartialEq, Eq, Structural)]
pub struct WorkspaceStats {
    pub active_agents: usize,
    pub total_messages: usize,
    pub pending_diffs: usize,
    pub files_tracked: usize,
}

/// The status of an agent.
#[derive(Debug, Clone, Copy, PartialEq, Eq, Structural)]
pub enum AgentStatus {
    Idle,
    Running,
    Completed,
    Failed,
    Waiting,
}

/// What the workspace knows of one agent.
#[derive(Debug)]
pub struct AgentState {
    pub id: String,
    pub label: String,
    pub status: AgentStatus,
    pub current_task: Option<String>,
    pub findings: Vec<String>,
}

/// The model of an [`AgentState`].
pub struct AgentStateView {
    pub id: Seq<char>,
    pub label: Seq<char>,
    pub status: AgentStatus,
    pub current_task: Option<Seq<char>>,
    pub findings: Seq<Seq<char>>,
}

impl View for AgentState {
    type V = AgentStateView;

    open spec fn view(&self) -> AgentStateView {
        AgentStateView {
            id: self.id@,
            label: self.label@,
            status: self.status,
            current_task: self.current_task.deep_view(),
            findings: self.findings.deep_view(),
        }
    }
}

impl DeepView for AgentState {
    type V = AgentStateView;

    open spec fn deep_view(&self) -> AgentStateView {
        self@
    }
}

impl AgentState {
    /// A copy of this state.
    pub fn duplicate(&self) -> (r: Self)
        ensures
            r@ == self@,
    {
        AgentState {
            id: copy_string(&self.id),
            label: copy_string(&self.label),
            status: self.status,
            current_task: copy_opt_string(&self.current_task),
            findings: copy_strings(&self.findings),
        }
    }
}

/// The state that agents share.
pub struct SharedWorkspace {
    files: Vec<FileState>,
    messages: Vec<AgentMessage>,
    diffs: Vec<PendingDiff>,
    agent_states: Vec<AgentState>,
}

/// The model of a [`SharedWorkspace`].
pub struct WorkspaceView {
    pub files: Seq<FileStateView>,
    pub messages: Seq<MessageView>,
    pub diffs: Seq<DiffView>,
    pub agents: Seq<AgentStateView>,
}

impl View for SharedWorkspace {
    type V = WorkspaceView;

    closed spec fn view(&self) -> WorkspaceView {
        WorkspaceView {
            files: self.files.deep_view(),
            messages: self.messages.deep_view(),
            diffs: self.diffs.deep_view(),
            agents: self.agent_states.deep_view(),
        }
    }
}

/// The position of the file tracked under `path`, if any.
pub open spec fn file_pos(files: Seq<FileStateView>, path: Seq<char>) -> Option<int> {
    if exists|i: int| 0 <= i < files.len() && files[i].path == path {
        Some(choose|i: int| 0 <= i < files.len() && files[i].path == path)
    } else {
        None
    }
}

/// The position of the agent registered under `id`, if any.
pub open spec fn agent_pos(agents: Seq<AgentStateView>, id: Seq<char>) -> Option<int> {
    if exists|i: int| 0 <= i < agents.len() && agents[i].id == id {
        Some(choose|i: int| 0 <= i < agents.len() && agents[i].id == id)
    } else {
        None
    }
}

/// No two tracked files share a path, and no two agents share an id.
pub open spec fn workspace_wf(w: WorkspaceView) -> bool {
    &&& forall|i: int, j: int|
        0 <= i < j < w.files.len() ==> #[trigger] w.files[i].path != #[trigger] w.files[j].path
    &&& forall|i: int, j: int|
        0 <= i < j < w.agents.len() ==> #[trigger] w.agents[i].id != #[trigger] w.agents[j].id
}

/// The content of the file tracked under `path`.
pub open spec fn file_content(w: WorkspaceView, path: Seq<char>) -> Option<Seq<char>> {
    match file_pos(w.files, path) {
        Some(i) => Some(w.files[i].content),
        None => None,
    }
}

/// The state of the agent registered under `id`.
pub open spec fn agent_state(w: WorkspaceView, id: Seq<char>) -> Option<AgentStateView> {
    match agent_pos(w.agents, id) {
        Some(i) => Some(w.agents[i]),
        None => None,
    }
}

/// The files after `path` is tracked with `content`: its entry is replaced,
/// or appended when the path is new; it is not modified.
pub open spec fn with_file(files: Seq<FileStateView>, path: Seq<char>, content: Seq<char>) -> Seq<
    FileStateView,
> {
    let f = FileStateView { path, content, modified: false };
    match file_pos(files, path) {
        Some(i) => files.update(i, f),
        None => files.push(f),
    }
}

/// The files after the file under `path`, if tracked, gets `content` and is
/// marked modified.
pub open spec fn updated(files: Seq<FileStateView>, path: Seq<char>, content: Seq<char>) -> Seq<
    FileStateView,
> {
    match file_pos(files, path) {
        Some(i) => files.update(i, FileStateView { path, content, modified: true }),
        None => files,
    }
}

/// A newly registered agent: idle, with no task and no findings.
pub open spec fn fresh_agent(id: Seq<char>, label: Seq<char>) -> AgentStateView {
    AgentStateView {
        id,
        label,
        status: AgentStatus::Idle,
        current_task: None,
        findings: Seq::empty(),
    }
}

/// The agents after `id` is registered with `label`.
pub open spec fn registered(agents: Seq<AgentStateView>, id: Seq<char>, label: Seq<char>) -> Seq<
    AgentStateView,
> {
    match agent_pos(agents, id) {
        Some(i) => agents.update(i, fresh_agent(id, label)),
        None => agents.push(fresh_agent(id, label)),
    }
}

/// The agents after the agent `id`, if registered, gets `status`.
pub open spec fn with_status(agents: Seq<AgentStateView>, id: Seq<char>, status: AgentStatus) -> Seq<
    AgentStateView,
> {
    match agent_pos(agents, id) {
        Some(i) => agents.update(i, AgentStateView { status, ..agents[i] }),
        None => agents,
    }
}

/// The agents after the agent `id`, if registered, records `finding`.
pub open spec fn with_finding(agents: Seq<AgentStateView>, id: Seq<char>, finding: Seq<char>) -> Seq<
    AgentStateView,
> {
    match agent_pos(agents, id) {
        Some(i) => agents.update(
            i,
            AgentStateView { findings: agents[i].findings.push(finding), ..agents[i] },
        ),
        None => agents,
    }
}

/// The message that `add_message_at` records.
pub open spec fn message_of(
    from: Seq<char>,
    to: Option<Seq<char>>,
    content: Seq<char>,
    timestamp: u64,
    message_type: MessageType,
) -> MessageView {
    MessageView { from_agent: from, to_agent: to, content, timestamp, message_type }
}

/// The counts of a workspace.
pub open spec fn stats_of(w: WorkspaceView) -> WorkspaceStats {
    WorkspaceStats {
        active_agents: w.agents.len() as usize,
        total_messages: w.messages.len() as usize,
        pending_diffs: w.diffs.len() as usize,
        files_tracked: w.files.len() as usize,
    }
}

/// The empty workspace.
pub open spec fn empty_workspace() -> WorkspaceView {
    WorkspaceView {
        files: Seq::empty(),
        messages: Seq::empty(),
        diffs: Seq::empty(),
        agents: Seq::empty(),
    }
}

/// The paths under which a file is tracked.
pub open spec fn tracked_paths(w: WorkspaceView) -> Set<Seq<char>> {
    Set::new(|p: Seq<char>| file_content(w, p) is Some)
}

/// The tracked paths are the paths of the tracked files, each once: there
/// are as many as there are tracked files.
pub proof fn lemma_tracked_paths_count(w: WorkspaceView)
    requires
        workspace_wf(w),
    ensures
        tracked_paths(w) == w.files.map_values(|f: FileStateView| f.path).to_set(),
        tracked_paths(w).finite(),
        tracked_paths(w).len() == w.files.len(),
{
    let ps = w.files.map_values(|f: FileStateView| f.path);
    assert forall|p: Seq<char>| tracked_paths(w).contains(p) <==> ps.to_set().contains(p) by {
        if tracked_paths(w).contains(p) {
            let i = choose|i: int| 0 <= i < w.files.len() && w.files[i].path == p;
            assert(ps[i] == p);
        }
        if ps.to_set().contains(p) {
            let i = choose|i: int| 0 <= i < ps.len() && ps[i] == p;
            assert(w.files[i].path == p);
        }
    }
    assert(tracked_paths(w) =~= ps.to_set());
    assert(ps.no_duplicates()) by {
        assert forall|i: int, j: int| 0 <= i < ps.len() && 0 <= j < ps.len() && i != j implies ps[i]
            != ps[j] by {
            if i < j {
                assert(w.files[i].path != w.files[j].path);
            } else {
                assert(w.files[j].path != w.files[i].path);
            }
        }
    }
    ps.unique_seq_to_set();
    vstd::seq_lib::seq_to_set_is_finite(ps);
}

/// With distinct paths, the file at `i` is the one `file_pos` finds.
pub proof fn lemma_file_pos_at(files: Seq<FileStateView>, path: Seq<char>, i: int)
    requires
        forall|a: int, b: int|
            0 <= a < b < files.len() ==> #[trigger] files[a].path != #[trigger] files[b].path,
        0 <= i < files.len(),
        files[i].path == path,
    ensures
        file_pos(files, path) == Some(i),
{
    let j = choose|j: int| 0 <= j < files.len() && files[j].path == path;
    if j < i {
        assert(files[j].path != files[i].path);
    } else if j > i {
        assert(files[i].path != files[j].path);
    }
}

/// With distinct ids, the agent at `i` is the one `agent_pos` finds.
pub proof fn lemma_agent_pos_at(agents: Seq<AgentStateView>, id: Seq<char>, i: int)
    requires
        forall|a: int, b: int|
            0 <= a < b < agents.len() ==> #[trigger] agents[a].id != #[trigger] agents[b].id,
        0 <= i < agents.len(),
        agents[i].id == id,
    ensures
        agent_pos(agents, id) == Some(i),
{
    let j = choose|j: int| 0 <= j < agents.len() && agents[j].id == id;
    if j < i {
        assert(agents[j].id != agents[i].id);
    } else if j > i {
        assert(agents[i].id != agents[j].id);
    }
}

/// Reading a file gives back what tracking it wrote, and tracking one path
/// leaves what every other path reads unchanged.
pub proof fn lemma_read_after_track(w: WorkspaceView, path: Seq<char>, content: Seq<char>, other: Seq<char>)
    requires
        workspace_wf(w),
    ensures
        ({
            let w2 = WorkspaceView { files: with_file(w.files, path, content), ..w };
            &&& workspace_wf(w2)
            &&& file_content(w2, path) == Some(content)
            &&& other != path ==> file_content(w2, other) == file_content(w, other)
        }),
{
    let files2 = with_file(w.files, path, content);
    let w2 = WorkspaceView { files: files2, ..w };
    let k = match file_pos(w.files, path) {
        Some(i) => i,
        None => w.files.len() as int,
    };
    assert(forall|a: int, b: int|
        0 <= a < b < files2.len() ==> #[trigger] files2[a].path != #[trigger] files2[b].path) by {
        assert forall|a: int, b: int| 0 <= a < b < files2.len() implies #[trigger] files2[a].path
            != #[trigger] files2[b].path by {
            if a != k && b != k {
                assert(files2[a] == w.files[a] && files2[b] == w.files[b]);
            }
        }
    }
    lemma_file_pos_at(files2, path, k);
    if other != path {
        match file_pos(w.files, other) {
            Some(j) => {
                lemma_file_pos_at(files2, other, j);
            },
            None => {
                if file_pos(files2, other) is Some {
                    let j = choose|j: int| 0 <= j < files2.len() && files2[j].path == other;
                    assert(w.files[j].path == other);
                }
            },
        }
    }
}

/// Updating a tracked file changes what it reads and marks it modified; an
/// update of an untracked path changes nothing; other paths read as before.
pub proof fn lemma_read_after_update(w: WorkspaceView, path: Seq<char>, content: Seq<char>, other: Seq<char>)
    requires
        workspace_wf(w),
    ensures
        ({
            let w2 = WorkspaceView { files: updated(w.files, path, content), ..w };
            &&& workspace_wf(w2)
            &&& file_content(w2, path) == if file_content(w, path) is Some {
                Some(content)
            } else {
                None
            }
            &&& file_content(w, path) is Some ==> w2.files[file_pos(w2.files, path)->0].modified
            &&& other != path ==> file_content(w2, other) == file_content(w, other)
        }),
{
    let files2 = updated(w.files, path, content);
    match file_pos(w.files, path) {
        Some(k) => {
            assert(forall|a: int, b: int|
                0 <= a < b < files2.len() ==> #[trigger] files2[a].path != #[trigger] files2[b].path) by {
                assert forall|a: int, b: int| 0 <= a < b < files2.len() implies #[trigger] files2[a].path
                    != #[trigger] files2[b].path by {
                    if a != k && b != k {
                        assert(files2[a] == w.files[a] && files2[b] == w.files[b]);
                    }
                }
            }
            lemma_file_pos_at(files2, path, k);
            if other != path {
                match file_pos(w.files, other) {
                    Some(j) => {
                        lemma_file_pos_at(files2, other, j);
                    },
                    None => {
                        if file_pos(files2, other) is Some {
                            let j = choose|j: int| 0 <= j < files2.len() && files2[j].path == other;
                            assert(w.files[j].path == other);
                        }
                    },
                }
            }
        },
        None => {},
    }
}

/// A registered agent reads as idle with its label, no task and no
/// findings; other agents read as before.
pub proof fn lemma_state_after_register(w: WorkspaceView, id: Seq<char>, label: Seq<char>, other: Seq<char>)
    requires
        workspace_wf(w),
    ensures
        ({
            let w2 = WorkspaceView { agents: registered(w.agents, id, label), ..w };
            &&& workspace_wf(w2)
            &&& agent_state(w2, id) == Some(fresh_agent(id, label))
            &&& other != id ==> agent_state(w2, other) == agent_state(w, other)
        }),
{
    let agents2 = registered(w.agents, id, label);
    let k = match agent_pos(w.agents, id) {
        Some(i) => i,
        None => w.agents.len() as int,
    };
    assert(forall|a: int, b: int|
        0 <= a < b < agents2.len() ==> #[trigger] agents2[a].id != #[trigger] agents2[b].id) by {
        assert forall|a: int, b: int| 0 <= a < b < agents2.len() implies #[trigger] agents2[a].id
            != #[trigger] agents2[b].id by {
            if a != k && b != k {
                assert(agents2[a] == w.agents[a] && agents2[b] == w.agents[b]);
            }
        }
    }
    lemma_agent_pos_at(agents2, id, k);
    if other != id {
        match agent_pos(w.agents, other) {
            Some(j) => {
                lemma_agent_pos_at(agents2, other, j);
            },
            None => {
                if agent_pos(agents2, other) is Some {
                    let j = choose|j: int| 0 <= j < agents2.len() && agents2[j].id == other;
                    assert(w.agents[j].id == other);
                }
            },
        }
    }
}

/// A status update changes the status of that agent alone, and nothing
/// else of it.
pub proof fn lemma_state_after_status(w: WorkspaceView, id: Seq<char>, status: AgentStatus, other: Seq<char>)
    requires
        workspace_wf(w),
    ensures
        ({
            let w2 = WorkspaceView { agents: with_status(w.agents, id, status), ..w };
            &&& workspace_wf(w2)
            &&& agent_state(w2, id) == match agent_state(w, id) {
                Some(a) => Some(AgentStateView { status, ..a }),
                None => None,
            }
            &&& other != id ==> agent_state(w2, other) == agent_state(w, other)
        }),
{
    let agents2 = with_status(w.agents, id, status);
    match agent_pos(w.agents, id) {
        Some(k) => {
            assert(forall|a: int, b: int|
                0 <= a < b < agents2.len() ==> #[trigger] agents2[a].id != #[trigger] agents2[b].id) by {
                assert forall|a: int, b: int| 0 <= a < b < agents2.len() implies #[trigger] agents2[a].id
                    != #[trigger] agents2[b].id by {
                    if a != k && b != k {
                        assert(agents2[a] == w.agents[a] && agents2[b] == w.agents[b]);
                    }
                }
            }
            lemma_agent_pos_at(agents2, id, k);
            if other != id {
                match agent_pos(w.agents, other) {
                    Some(j) => {
                        lemma_agent_pos_at(agents2, other, j);
                    },
                    None => {
                        if agent_pos(agents2, other) is Some {
                            let j = choose|j: int| 0 <= j < agents2.len() && agents2[j].id == other;
                            assert(w.agents[j].id == other);
                        }
                    },
                }
            }
        },
        None => {},
    }
}

/// A finding is appended to that agent's findings alone.
pub proof fn lemma_state_after_finding(w: WorkspaceView, id: Seq<char>, finding: Seq<char>, other: Seq<char>)
    requires
        workspace_wf(w),
    ensures
        ({
            let w2 = WorkspaceView { agents: with_finding(w.agents, id, finding), ..w };
            &&& workspace_wf(w2)
            &&& agent_state(w2, id) == match agent_state(w, id) {
                Some(a) => Some(AgentStateView { findings: a.findings.push(finding), ..a }),
                None => None,
            }
            &&& other != id ==> agent_state(w2, other) == agent_state(w, other)
        }),
{
    let agents2 = with_finding(w.agents, id, finding);
    match agent_pos(w.agents, id) {
        Some(k) => {
            assert(forall|a: int, b: int|
                0 <= a < b < agents2.len() ==> #[trigger] agents2[a].id != #[trigger] agents2[b].id) by {
                assert forall|a: int, b: int| 0 <= a < b < agents2.len() implies #[trigger] agents2[a].id
                    != #[trigger] agents2[b].id by {
                    if a != k && b != k {
                        assert(agents2[a] == w.agents[a] && agents2[b] == w.agents[b]);
                    }
                }
            }
            lemma_agent_pos_at(agents2, id, k);
            if other != id {
                match agent_pos(w.agents, other) {
                    Some(j) => {
                        lemma_agent_pos_at(agents2, other, j);
                    },
                    None => {
                        if agent_pos(agents2, other) is Some {
                            let j = choose|j: int| 0 <= j < agents2.len() && agents2[j].id == other;
                            assert(w.agents[j].id == other);
                        }
                    },
                }
            }
        },
        None => {},
    }
}

/// A file that is tracked is not modified, and an update marks it
/// modified; a registered agent is idle, with no task and no findings.
pub proof fn lemma_entry_flags(w: WorkspaceView, path: Seq<char>, content: Seq<char>, id: Seq<char>, label: Seq<char>)
    requires
        workspace_wf(w),
    ensures
        ({
            let f = with_file(w.files, path, content);
            f[file_pos(f, path)->0] == (FileStateView { path, content, modified: false })
        }),
        file_content(w, path) is Some ==> ({
            let f = updated(w.files, path, content);
            f[file_pos(f, path)->0] == (FileStateView { path, content, modified: true })
        }),
        agent_state(WorkspaceView { agents: registered(w.agents, id, label), ..w }, id) == Some(
            AgentStateView {
                id,
                label,
                status: AgentStatus::Idle,
                current_task: None,
                findings: Seq::empty(),
            },
        ),
{
    lemma_read_after_track(w, path, content, path);
    lemma_read_after_update(w, path, content, path);
    lemma_state_after_register(w, id, label, id);
    let f = with_file(w.files, path, content);
    let k = match file_pos(w.files, path) {
        Some(i) => i,
        None => w.files.len() as int,
    };
    lemma_file_pos_at(f, path, k);
    if let Some(i) = file_pos(w.files, path) {
        let g = updated(w.files, path, content);
        lemma_file_pos_at(g, path, i);
    }
}

/// Tracking a new path adds one tracked file; tracking a tracked path again
/// keeps the count.
pub proof fn lemma_track_count(w: WorkspaceView, path: Seq<char>, content: Seq<char>)
    ensures
        with_file(w.files, path, content).len() == w.files.len() + if file_pos(w.files, path) is Some {
            0int
        } else {
            1int
        },
{
}

/// A cleared workspace holds nothing, and its counts are all zero.
pub proof fn lemma_cleared_counts()
    ensures
        stats_of(empty_workspace()) == (WorkspaceStats {
            active_agents: 0,
            total_messages: 0,
            pending_diffs: 0,
            files_tracked: 0,
        }),
        forall|p: Seq<char>| file_content(empty_workspace(), p) is None,
        forall|id: Seq<char>| agent_state(empty_workspace(), id) is None,
{
}

#[verifier::external_type_specification]
#[verifier::external_body]
pub struct ExSystemTime(std::time::SystemTime);

/// Calls `SystemTime::now`: the system clock's reading; nothing is stated
/// of it.
#[verifier::external_body]
fn system_now() -> std::time::SystemTime {
    std::time::SystemTime::now()
}

/// Calls `SystemTime::duration_since` with the Unix epoch: the time since
/// the epoch, or `None` when `t` lies before it (the call's error). Nothing
/// is stated of the duration.
#[verifier::external_body]
fn since_epoch(t: std::time::SystemTime) -> Option<std::time::Duration> {
    t.duration_since(std::time::UNIX_EPOCH).ok()
}

/// Calls `Duration::as_secs`: the whole seconds of `d`. Nothing is stated
/// of the number.
#[verifier::external_body]
fn whole_secs(d: std::time::Duration) -> u64 {
    d.as_secs()
}

impl SharedWorkspace {
    /// No two tracked files share a path, and no two agents share an id.
    #[verifier::type_invariant]
    closed spec fn wf(self) -> bool {
        workspace_wf(self@)
    }

    pub fn new() -> (w: Self)
        ensures
            w@ == empty_workspace(),
            workspace_wf(w@),
    {
        let w = SharedWorkspace {
            files: Vec::new(),
            messages: Vec::new(),
            diffs: Vec::new(),
            agent_states: Vec::new(),
        };
        assert(w@.files =~= Seq::<FileStateView>::empty());
        assert(w@.messages =~= Seq::<MessageView>::empty());
        assert(w@.diffs =~= Seq::<DiffView>::empty());
        assert(w@.agents =~= Seq::<AgentStateView>::empty());
        w
    }

    /// The position of the file tracked under `path`.
    fn find_file(&self, path: &String) -> (r: Option<usize>)
        ensures
            match r {
                Some(i) => file_pos(self@.files, path@) == Some(i as int) && i < self@.files.len(),
                None => file_pos(self@.files, path@) is None,
            },
    {
        proof {
            use_type_invariant(self);
        }
        let mut i: usize = 0;
        while i < self.files.len()
            invariant
                i <= self.files.len(),
                workspace_wf(self@),
                forall|k: int| 0 <= k < i ==> self@.files[k].path != path@,
            decreases self.files.len() - i,
        {
            if self.files[i].path == *path {
                assert(self@.files[i as int].path == path@);
                let ghost j = choose|j: int| 0 <= j < self@.files.len() && self@.files[j].path == path@;
                assert(j == i) by {
                    if j < i {
                        assert(self@.files[j].path != self@.files[i as int].path);
                    } else if j > i {
                        assert(self@.files[i as int].path != self@.files[j].path);
                    }
                }
                return Some(i);
            }
            i = i + 1;
        }
        None
    }

    /// The position of the agent registered under `id`.
    fn find_agent(&self, id: &str) -> (r: Option<usize>)
        ensures
            match r {
                Some(i) => agent_pos(self@.agents, id@) == Some(i as int) && i < self@.agents.len(),
                None => agent_pos(self@.agents, id@) is None,
            },
    {
        proof {
            use_type_invariant(self);
        }
        let mut i: usize = 0;
        while i < self.agent_states.len()
            invariant
                i <= self.agent_states.len(),
                workspace_wf(self@),
                forall|k: int| 0 <= k < i ==> self@.agents[k].id != id@,
            decreases self.agent_states.len() - i,
        {
            if str_equal(self.agent_states[i].id.as_str(), id) {
                assert(self@.agents[i as int].id == id@);
                let ghost j = choose|j: int| 0 <= j < self@.agents.len() && self@.agents[j].id == id@;
                assert(j == i) by {
                    if j < i {
                        assert(self@.agents[j].id != self@.agents[i as int].id);
                    } else if j > i {
                        assert(self@.agents[i as int].id != self@.agents[j].id);
                    }
                }
                return Some(i);
            }
            i = i + 1;
        }
        None
    }

    /// Tracks `path` with `content`, not modified; a path tracked before
    /// gets the new entry.
    pub fn track_file(&mut self, path: String, content: String)
        ensures
            workspace_wf(final(self)@),
            final(self)@ == (WorkspaceView {
                files: with_file(old(self)@.files, path@, content@),
                ..old(self)@
            }),
            file_content(final(self)@, path@) == Some(content@),
            forall|q: Seq<char>|
                q != path@ ==> #[trigger] file_content(final(self)@, q) == file_content(old(self)@, q),
            final(self)@.files.len() == old(self)@.files.len() + if file_content(old(self)@, path@) is Some {
                0int
            } else {
                1int
            },
    {
        proof {
            use_type_invariant(&*self);
        }
        let ghost w0 = self@;
        let ghost c0 = content@;
        proof {
            lemma_read_after_track(w0, path@, c0, path@);
            lemma_track_count(w0, path@, c0);
            assert forall|q: Seq<char>| q != path@ implies #[trigger] file_content(
                WorkspaceView { files: with_file(w0.files, path@, c0), ..w0 },
                q,
            ) == file_content(w0, q) by {
                lemma_read_after_track(w0, path@, c0, q);
            }
        }
        let ghost old_files = self@.files;
        let entry = FileState { path: copy_string(&path), content, modified: false };
        match self.find_file(&path) {
            Some(i) => {
                let mut files = Vec::new();
                std::mem::swap(&mut files, &mut self.files);
                files.set(i, entry);
                assert(files.deep_view() =~= old_files.update(i as int, entry@));
                self.files = files;
            },
            None => {
                let mut files = Vec::new();
                std::mem::swap(&mut files, &mut self.files);
                files.push(entry);
                assert(files.deep_view() =~= old_files.push(entry@));
                self.files = files;
            },
        }
        proof {
            use_type_invariant(&*self);
        }
    }

    /// Gives the file tracked under `path`, if any, the new `content` and
    /// marks it modified; an untracked path changes nothing.
    pub fn update_file(&mut self, path: &String, content: String)
        ensures
            workspace_wf(final(self)@),
            final(self)@ == (WorkspaceView {
                files: updated(old(self)@.files, path@, content@),
                ..old(self)@
            }),
            file_content(final(self)@, path@) == if file_content(old(self)@, path@) is Some {
                Some(content@)
            } else {
                None
            },
            forall|q: Seq<char>|
                q != path@ ==> #[trigger] file_content(final(self)@, q) == file_content(old(self)@, q),
    {
        proof {
            use_type_invariant(&*self);
        }
        let ghost w0 = self@;
        let ghost c0 = content@;
        proof {
            lemma_read_after_update(w0, path@, c0, path@);
            assert forall|q: Seq<char>| q != path@ implies #[trigger] file_content(
                WorkspaceView { files: updated(w0.files, path@, c0), ..w0 },
                q,
            ) == file_content(w0, q) by {
                lemma_read_after_update(w0, path@, c0, q);
            }
        }
        let ghost old_files = self@.files;
        match self.find_file(path) {
            Some(i) => {
                let entry = FileState { path: copy_string(path), content, modified: true };
                let mut files = Vec::new();
                std::mem::swap(&mut files, &mut self.files);
                files.set(i, entry);
                assert(files.deep_view() =~= old_files.update(i as int, entry@));
                self.files = files;
            },
            None => {},
        }
        proof {
            use_type_invariant(&*self);
        }
    }

    /// The content of the file tracked under `path`.
    pub fn get_file(&self, path: &String) -> (r: Option<String>)
        ensures
            workspace_wf(self@),
            r.deep_view() == file_content(self@, path@),
    {
        proof {
            use_type_invariant(self);
        }
        match self.find_file(path) {
            Some(i) => Some(copy_string(&self.files[i].content)),
            None => None,
        }
    }

    /// Records a message stamped with `timestamp`.
    pub fn add_message_at(
        &mut self,
        from: &str,
        to: Option<&str>,
        content: &str,
        msg_type: MessageType,
        timestamp: u64,
    )
        ensures
            workspace_wf(final(self)@),
            final(self)@ == (WorkspaceView {
                messages: old(self)@.messages.push(
                    message_of(
                        from@,
                        opt_str_view(to),
                        content@,
                        timestamp,
                        msg_type,
                    ),
                ),
                ..old(self)@
            }),
    {
        proof {
            use_type_invariant(&*self);
        }
        let ghost old_messages = self@.messages;
        let to_agent = match to {
            Some(t) => Some(String::from_str(t)),
            None => None,
        };
        let m = AgentMessage {
            from_agent: String::from_str(from),
            to_agent,
            content: String::from_str(content),
            timestamp,
            message_type: msg_type,
        };
        let mut messages = Vec::new();
        std::mem::swap(&mut messages, &mut self.messages);
        messages.push(m);
        self.messages = messages;
        assert(self@.messages =~= old_messages.push(m@));
        proof {
            use_type_invariant(&*self);
        }
    }

    /// Records a message stamped with the current time in seconds since the
    /// Unix epoch (0 when the clock reads a time before the epoch).
    pub fn add_message(&mut self, from: &str, to: Option<&str>, content: &str, msg_type: MessageType)
        ensures
            workspace_wf(final(self)@),
            exists|timestamp: u64|
                final(self)@ == (WorkspaceView {
                    messages: old(self)@.messages.push(
                        #[trigger] message_of(
                            from@,
                            opt_str_view(to),
                            content@,
                            timestamp,
                            msg_type,
                        ),
                    ),
                    ..old(self)@
                }),
    {
        proof {
            use_type_invariant(&*self);
        }
        let timestamp = match since_epoch(system_now()) {
            Some(d) => whole_secs(d),
            None => 0,
        };
        self.add_message_at(from, to, content, msg_type, timestamp);
        proof {
            use_type_invariant(&*self);
        }
    }

    /// Records a message from `from` to every agent.
    pub fn broadcast_message(&mut self, from: &str, content: &str)
        ensures
            workspace_wf(final(self)@),
            exists|timestamp: u64|
                final(self)@ == (WorkspaceView {
                    messages: old(self)@.messages.push(
                        #[trigger] message_of(from@, None, content@, timestamp, MessageType::Broadcast),
                    ),
                    ..old(self)@
                }),
    {
        proof {
            use_type_invariant(&*self);
        }
        self.add_message(from, None, content, MessageType::Broadcast);
        proof {
            use_type_invariant(&*self);
        }
    }

    /// All messages, oldest first.
    pub fn get_messages(&self) -> (r: Vec<AgentMessage>)
        ensures
            workspace_wf(self@),
            r.deep_view() == self@.messages,
    {
        proof {
            use_type_invariant(self);
        }
        let mut r: Vec<AgentMessage> = Vec::new();
        let mut i: usize = 0;
        while i < self.messages.len()
            invariant
                i <= self.messages.len(),
                r.deep_view() == self@.messages.take(i as int),
            decreases self.messages.len() - i,
        {
            let m = self.messages[i].duplicate();
            let ghost before = r.deep_view();
            r.push(m);
            assert(r.deep_view() =~= before.push(m@));
            i = i + 1;
            assert(r.deep_view() =~= self@.messages.take(i as int));
        }
        assert(self@.messages.take(self.messages.len() as int) =~= self@.messages);
        r
    }

    /// Records a pending diff.
    pub fn add_diff(
        &mut self,
        file_path: String,
        original: String,
        new: String,
        agent_id: &str,
        description: &str,
    )
        ensures
            workspace_wf(final(self)@),
            final(self)@ == (WorkspaceView {
                diffs: old(self)@.diffs.push(
                    DiffView {
                        file_path: file_path@,
                        original_content: original@,
                        new_content: new@,
                        agent_id: agent_id@,
                        description: description@,
                    },
                ),
                ..old(self)@
            }),
    {
        proof {
            use_type_invariant(&*self);
        }
        let ghost old_diffs = self@.diffs;
        let d = PendingDiff {
            file_path,
            original_content: original,
            new_content: new,
            agent_id: String::from_str(agent_id),
            description: String::from_str(description),
        };
        let mut diffs = Vec::new();
        std::mem::swap(&mut diffs, &mut self.diffs);
        diffs.push(d);
        self.diffs = diffs;
        assert(self@.diffs =~= old_diffs.push(d@));
        proof {
            use_type_invariant(&*self);
        }
    }

    /// All pending diffs, oldest first.
    pub fn get_diffs(&self) -> (r: Vec<PendingDiff>)
        ensures
            workspace_wf(self@),
            r.deep_view() == self@.diffs,
    {
        proof {
            use_type_invariant(self);
        }
        let mut r: Vec<PendingDiff> = Vec::new();
        let mut i: usize = 0;
        while i < self.diffs.len()
            invariant
                i <= self.diffs.len(),
                r.deep_view() == self@.diffs.take(i as int),
            decreases self.diffs.len() - i,
        {
            let d = self.diffs[i].duplicate();
            let ghost before = r.deep_view();
            r.push(d);
            assert(r.deep_view() =~= before.push(d@));
            i = i + 1;
            assert(r.deep_view() =~= self@.diffs.take(i as int));
        }
        assert(self@.diffs.take(self.diffs.len() as int) =~= self@.diffs);
        r
    }

    /// Registers the agent `id` as idle, with no task and no findings; an id
    /// registered before gets the new entry.
    pub fn register_agent(&mut self, id: &str, label: &str)
        ensures
            workspace_wf(final(self)@),
            final(self)@ == (WorkspaceView {
                agents: registered(old(self)@.agents, id@, label@),
                ..old(self)@
            }),
            agent_state(final(self)@, id@) == Some(fresh_agent(id@, label@)),
            forall|j: Seq<char>|
                j != id@ ==> #[trigger] agent_state(final(self)@, j) == agent_state(old(self)@, j),
            final(self)@.agents.len() == old(self)@.agents.len() + if agent_state(old(self)@, id@) is Some {
                0int
            } else {
                1int
            },
    {
        proof {
            use_type_invariant(&*self);
        }
        let ghost w0 = self@;
        proof {
            lemma_state_after_register(w0, id@, label@, id@);
            assert forall|j: Seq<char>| j != id@ implies #[trigger] agent_state(
                WorkspaceView { agents: registered(w0.agents, id@, label@), ..w0 },
                j,
            ) == agent_state(w0, j) by {
                lemma_state_after_register(w0, id@, label@, j);
            }
        }
        let ghost old_agents = self@.agents;
        let ghost old_files = self@.files;
        let entry = AgentState {
            id: String::from_str(id),
            label: String::from_str(label),
            status: AgentStatus::Idle,
            current_task: None,
            findings: Vec::new(),
        };
        assert(entry.findings.deep_view() =~= Seq::<Seq<char>>::empty());
        assert(entry@ == fresh_agent(id@, label@));
        match self.find_agent(id) {
            Some(i) => {
                let mut agents = Vec::new();
                std::mem::swap(&mut agents, &mut self.agent_states);
                agents.set(i, entry);
                assert(agents.deep_view() =~= old_agents.update(i as int, entry@));
                self.agent_states = agents;
            },
            None => {
                let mut agents = Vec::new();
                std::mem::swap(&mut agents, &mut self.agent_states);
                agents.push(entry);
                assert(agents.deep_view() =~= old_agents.push(entry@));
                self.agent_states = agents;
            },
        }
        assert(self@.files =~= old_files);
        proof {
            use_type_invariant(&*self);
        }
    }

    /// Sets the status of the agent `id`, if registered.
    pub fn update_agent_status(&mut self, id: &str, status: AgentStatus)
        ensures
            workspace_wf(final(self)@),
            final(self)@ == (WorkspaceView {
                agents: with_status(old(self)@.agents, id@, status),
                ..old(self)@
            }),
            agent_state(final(self)@, id@) == match agent_state(old(self)@, id@) {
                Some(a) => Some(AgentStateView { status, ..a }),
                None => None,
            },
            forall|j: Seq<char>|
                j != id@ ==> #[trigger] agent_state(final(self)@, j) == agent_state(old(self)@, j),
    {
        proof {
            use_type_invariant(&*self);
        }
        let ghost w0 = self@;
        proof {
            lemma_state_after_status(w0, id@, status, id@);
            assert forall|j: Seq<char>| j != id@ implies #[trigger] agent_state(
                WorkspaceView { agents: with_status(w0.agents, id@, status), ..w0 },
                j,
            ) == agent_state(w0, j) by {
                lemma_state_after_status(w0, id@, status, j);
            }
        }
        let ghost old_agents = self@.agents;
        let ghost old_files = self@.files;
        match self.find_agent(id) {
            Some(i) => {
                let mut a = self.agent_states[i].duplicate();
                a.status = status;
                let mut agents = Vec::new();
                std::mem::swap(&mut agents, &mut self.agent_states);
                agents.set(i, a);
                assert(agents.deep_view() =~= old_agents.update(
                    i as int,
                    AgentStateView { status, ..old_agents[i as int] },
                ));
                self.agent_states = agents;
            },
            None => {},
        }
        assert(self@.files =~= old_files);
        proof {
            use_type_invariant(&*self);
        }
    }

    /// Records `finding` for the agent `id`, if registered.
    pub fn add_agent_finding(&mut self, id: &str, finding: String)
        ensures
            workspace_wf(final(self)@),
            final(self)@ == (WorkspaceView {
                agents: with_finding(old(self)@.agents, id@, finding@),
                ..old(self)@
            }),
            agent_state(final(self)@, id@) == match agent_state(old(self)@, id@) {
                Some(a) => Some(AgentStateView { findings: a.findings.push(finding@), ..a }),
                None => None,
            },
            forall|j: Seq<char>|
                j != id@ ==> #[trigger] agent_state(final(self)@, j) == agent_state(old(self)@, j),
    {
        proof {
            use_type_invariant(&*self);
        }
        let ghost w0 = self@;
        let ghost f0 = finding@;
        proof {
            lemma_state_after_finding(w0, id@, f0, id@);
            assert forall|j: Seq<char>| j != id@ implies #[trigger] agent_state(
                WorkspaceView { agents: with_finding(w0.agents, id@, f0), ..w0 },
                j,
            ) == agent_state(w0, j) by {
                lemma_state_after_finding(w0, id@, f0, j);
            }
        }
        let ghost old_agents = self@.agents;
        let ghost old_files = self@.files;
        match self.find_agent(id) {
            Some(i) => {
                let mut a = self.agent_states[i].duplicate();
                let ghost before = a.findings.deep_view();
                a.findings.push(finding);
                assert(a.findings.deep_view() =~= before.push(finding@));
                let mut agents = Vec::new();
                std::mem::swap(&mut agents, &mut self.agent_states);
                agents.set(i, a);
                assert(agents.deep_view() =~= old_agents.update(
                    i as int,
                    AgentStateView {
                        findings: old_agents[i as int].findings.push(finding@),
                        ..old_agents[i as int]
                    },
                ));
                self.agent_states = agents;
            },
            None => {},
        }
        assert(self@.files =~= old_files);
        proof {
            use_type_invariant(&*self);
        }
    }

    /// The state of the agent `id`.
    pub fn get_agent_state(&self, id: &str) -> (r: Option<AgentState>)
        ensures
            workspace_wf(self@),
            r.deep_view() == agent_state(self@, id@),
    {
        proof {
            use_type_invariant(self);
        }
        match self.find_agent(id) {
            Some(i) => Some(self.agent_states[i].duplicate()),
            None => None,
        }
    }

    /// The states of all agents, in the order they were first registered.
    pub fn get_all_agent_states(&self) -> (r: Vec<AgentState>)
        ensures
            workspace_wf(self@),
            r.deep_view() == self@.agents,
    {
        proof {
            use_type_invariant(self);
        }
        let mut r: Vec<AgentState> = Vec::new();
        let mut i: usize = 0;
        while i < self.agent_states.len()
            invariant
                i <= self.agent_states.len(),
                r.deep_view() == self@.agents.take(i as int),
            decreases self.agent_states.len() - i,
        {
            let a = self.agent_states[i].duplicate();
            let ghost before = r.deep_view();
            r.push(a);
            assert(r.deep_view() =~= before.push(a@));
            i = i + 1;
            assert(r.deep_view() =~= self@.agents.take(i as int));
        }
        assert(self@.agents.take(self.agent_states.len() as int) =~= self@.agents);
        r
    }

    /// How many agents, messages, diffs and files the workspace holds.
    pub fn get_stats(&self) -> (s: WorkspaceStats)
        ensures
            workspace_wf(self@),
            s == stats_of(self@),
            s.active_agents == self@.agents.len(),
            s.total_messages == self@.messages.len(),
            s.pending_diffs == self@.diffs.len(),
            s.files_tracked == self@.files.len(),
            tracked_paths(self@).finite(),
            s.files_tracked == tracked_paths(self@).len(),
    {
        proof {
            use_type_invariant(self);
        }
        proof {
            lemma_tracked_paths_count(self@);
        }
        WorkspaceStats {
            active_agents: self.agent_states.len(),
            total_messages: self.messages.len(),
            pending_diffs: self.diffs.len(),
            files_tracked: self.files.len(),
        }
    }

    /// Forgets all files, messages, diffs and agents.
    pub fn clear(&mut self)
        ensures
            workspace_wf(final(self)@),
            final(self)@ == empty_workspace(),
    {
        proof {
            use_type_invariant(&*self);
        }
        self.files = Vec::new();
        self.messages = Vec::new();
        self.diffs = Vec::new();
        self.agent_states = Vec::new();
        assert(self@.files =~= Seq::<FileStateView>::empty());
        assert(self@.messages =~= Seq::<MessageView>::empty());
        assert(self@.diffs =~= Seq::<DiffView>::empty());
        assert(self@.agents =~= Seq::<AgentStateView>::empty());
        proof {
            use_type_invariant(&*self);
        }
    }
}

impl Default for SharedWorkspace {
    fn default() -> (w: Self)
        ensures
            w@ == empty_workspace(),
    {
        SharedWorkspace::new()
    }
}

} // verus!
