use vstd::prelude::*;
use vstd::string::StrSliceExecFns;
use crate::graph_service::GraphPaneRow;
use crate::changes::FileChange;

verus! {

/// The main area shown on screen.
#[derive(PartialEq, Eq, Debug, Structural)]
pub enum Viewport {
    Graph,
    Viewer,
    Splash,
    Settings,
}

/// The pane or modal that receives keyboard input.
#[derive(Debug, PartialEq, Eq, Clone, Copy)]
pub enum Focus {
    Viewport,
    Inspector,
    StatusTop,
    StatusBottom,
    Search,
    Branches,
    Tags,
    Stashes,
    Reflogs,
    Worktrees,
    Submodules,
    ModalCheckout,
    ModalSolo,
    ModalCommit,
    ModalCherrypick,
    ModalRevert,
    ModalCreateBranch,
    ModalRenameBranch,
    ModalCreateWorktreeName,
    ModalCreateWorktreePath,
    ModalDeleteBranch,
    ModalWorktreeChooser,
    ModalRemoveWorktree,
    ModalLockWorktree,
    ModalRemoteAction,
    ModalRemoteDelete,
    ModalRemoteName,
    ModalRemoteUrl,
    ModalGraphLaneLimit,
    ModalGrep,
    ModalFileSearch,
    ModalTag,
    ModalDeleteTag,
    ModalKeyCapture,
    ModalAuth,
    ModalNetworkProgress,
    ModalOperationProgress,
    ModalOperationConflict,
    ModalOperationSuccess,
    ModalError,
}

/// A multi-step history operation that can stop on conflicts.
#[derive(Debug, PartialEq, Eq, Clone, Copy)]
pub enum OperationKind {
    Rebase,
    Cherrypick,
    Revert,
    Merge,
}

/// The label shown for an operation.
pub open spec fn operation_label(kind: OperationKind) -> Seq<char> {
    match kind {
        OperationKind::Rebase => seq!['r', 'e', 'b', 'a', 's', 'e'],
        OperationKind::Cherrypick => seq!['c', 'h', 'e', 'r', 'r', 'y', '-', 'p', 'i', 'c', 'k'],
        OperationKind::Revert => seq!['r', 'e', 'v', 'e', 'r', 't'],
        OperationKind::Merge => seq!['m', 'e', 'r', 'g', 'e'],
    }
}

impl OperationKind {
    /// The label of the operation, as shown in progress and conflict messages.
    pub fn label(self) -> (r: &'static str)
        ensures
            r@ == operation_label(self),
    {
        match self {
            OperationKind::Rebase => {
                proof {
                    reveal_strlit("rebase");
                }
                "rebase"
            },
            OperationKind::Cherrypick => {
                proof {
                    reveal_strlit("cherry-pick");
                }
                "cherry-pick"
            },
            OperationKind::Revert => {
                proof {
                    reveal_strlit("revert");
                }
                "revert"
            },
            OperationKind::Merge => {
                proof {
                    reveal_strlit("merge");
                }
                "merge"
            },
        }
    }
}

/// The column widths the viewer layout was computed for.
#[derive(Debug, PartialEq, Eq, Clone, Copy)]
pub struct ViewerLayoutSignature {
    pub graph_width: u16,
    pub split_left_width: u16,
    pub split_right_width: u16,
}

/// What the worktree chooser does with the chosen worktree.
#[derive(Debug, PartialEq, Eq, Clone, Copy)]
pub enum WorktreeModalAction {
    Open,
    Remove,
}

/// The field of the credentials prompt that has focus.
#[derive(Debug, PartialEq, Eq, Clone, Copy)]
pub enum AuthInputField {
    Username,
    Secret,
}

/// What the branch modal does with the chosen branch.
#[derive(Debug, PartialEq, Eq, Clone, Copy)]
pub enum BranchModalAction {
    Solo,
    Toggle,
    Rename,
}

/// The remote setting that the text prompt edits.
#[derive(Debug, PartialEq, Eq, Clone, Copy)]
pub enum RemoteInputAction {
    AddName,
    AddUrl,
    Rename,
    EditUrl,
    EditPushUrl,
}

/// The rows of one side pane that were last fetched, for one graph version.
pub struct PaneWindowCache {
    pub version: u64,
    pub start: usize,
    pub end: usize,
    pub total: usize,
    pub rows: Vec<GraphPaneRow>,
}

impl PaneWindowCache {
    /// An empty cache.
    pub fn new() -> (c: PaneWindowCache)
        ensures
            c.version == 0 && c.start == 0 && c.end == 0 && c.total == 0 && c.rows@.len() == 0,
    {
        PaneWindowCache { version: 0, start: 0, end: 0, total: 0, rows: Vec::new() }
    }
}

/// What to do with the answer of a pending graph lookup.
#[derive(Clone, Copy)]
pub enum PendingGraphLookup {
    SelectIndex,
    SelectPaneRow,
    CacheGraphRow,
    OpenInspector,
    RestoreSelection,
}

/// Everything the rendered graph projection depends on.
#[derive(Clone, Copy, Debug, PartialEq, Eq)]
pub struct GraphProjectionKey {
    pub version: u64,
    pub start: usize,
    pub end: usize,
    pub head_alias: u32,
    pub selected: usize,
    pub show_reflog_labels: bool,
    pub show_ref_labels: bool,
    pub render_uncommitted_row: bool,
    pub conflict_count: usize,
    pub modified_count: usize,
    pub added_count: usize,
    pub deleted_count: usize,
}

/// A scrolling direction.
#[derive(Clone, Copy, PartialEq, Eq)]
pub enum Direction {
    Down,
    Up,
}

/// The tabs of the settings screen, in display order.
#[derive(Clone, Copy, Debug, PartialEq, Eq)]
pub enum SettingsTab {
    General,
    Display,
    Auth,
    Repo,
    Shortcuts,
}

/// The place of a tab in the tab bar.
pub open spec fn tab_index(tab: SettingsTab) -> int {
    match tab {
        SettingsTab::General => 0,
        SettingsTab::Display => 1,
        SettingsTab::Auth => 2,
        SettingsTab::Repo => 3,
        SettingsTab::Shortcuts => 4,
    }
}

/// The tab at a place of the tab bar (taken modulo the number of tabs).
pub open spec fn tab_at(index: int) -> SettingsTab {
    let i = index % 5;
    if i == 0 {
        SettingsTab::General
    } else if i == 1 {
        SettingsTab::Display
    } else if i == 2 {
        SettingsTab::Auth
    } else if i == 3 {
        SettingsTab::Repo
    } else {
        SettingsTab::Shortcuts
    }
}

/// The label shown for a settings tab.
pub open spec fn tab_label(tab: SettingsTab) -> Seq<char> {
    match tab {
        SettingsTab::General => seq!['G', 'e', 'n', 'e', 'r', 'a', 'l'],
        SettingsTab::Display => seq!['D', 'i', 's', 'p', 'l', 'a', 'y'],
        SettingsTab::Auth => seq!['A', 'u', 't', 'h'],
        SettingsTab::Repo => seq!['R', 'e', 'p', 'o'],
        SettingsTab::Shortcuts => seq!['S', 'h', 'o', 'r', 't', 'c', 'u', 't', 's'],
    }
}

impl SettingsTab {
    /// The tab's place in the tab bar.
    pub fn index(self) -> (i: usize)
        ensures
            i == tab_index(self),
    {
        match self {
            SettingsTab::General => 0,
            SettingsTab::Display => 1,
            SettingsTab::Auth => 2,
            SettingsTab::Repo => 3,
            SettingsTab::Shortcuts => 4,
        }
    }

    /// The tab at `index` of the tab bar.
    pub fn at(index: usize) -> (t: SettingsTab)
        requires
            index < 5,
        ensures
            t == tab_at(index as int),
            tab_index(t) == index,
    {
        if index == 0 {
            SettingsTab::General
        } else if index == 1 {
            SettingsTab::Display
        } else if index == 2 {
            SettingsTab::Auth
        } else if index == 3 {
            SettingsTab::Repo
        } else {
            SettingsTab::Shortcuts
        }
    }

    /// The tab's label.
    pub fn label(self) -> (r: &'static str)
        ensures
            r@ == tab_label(self),
    {
        match self {
            SettingsTab::General => {
                proof {
                    reveal_strlit("General");
                }
                "General"
            },
            SettingsTab::Display => {
                proof {
                    reveal_strlit("Display");
                }
                "Display"
            },
            SettingsTab::Auth => {
                proof {
                    reveal_strlit("Auth");
                }
                "Auth"
            },
            SettingsTab::Repo => {
                proof {
                    reveal_strlit("Repo");
                }
                "Repo"
            },
            SettingsTab::Shortcuts => {
                proof {
                    reveal_strlit("Shortcuts");
                }
                "Shortcuts"
            },
        }
    }

    /// The tab to the right, wrapping from the last to the first.
    pub fn next(self) -> (t: SettingsTab)
        ensures
            t == tab_at(tab_index(self) + 1),
    {
        let index = self.index();
        Self::at((index + 1) % 5)
    }

    /// The tab to the left, wrapping from the first to the last.
    pub fn previous(self) -> (t: SettingsTab)
        ensures
            t == tab_at(tab_index(self) + 4),
    {
        let index = self.index();
        Self::at((index + 5 - 1) % 5)
    }
}

/// Stepping to the next settings tab and back again, or back and then forward, returns to the
/// tab one started from; five steps in either direction go round the whole bar.
pub proof fn law_settings_tabs_cycle(tab: SettingsTab)
    ensures
        tab_at(tab_index(tab_at(tab_index(tab) + 1)) + 4) == tab,
        tab_at(tab_index(tab_at(tab_index(tab) + 4)) + 1) == tab,
        tab_at(tab_index(tab) + 5) == tab,
{
}

/// A line of the settings screen that can be selected.
#[derive(Debug, Clone, PartialEq, Eq)]
pub enum SettingsSelectionKind {
    Info,
    RecentRepository(usize),
    RemoteAdd,
    Remote(String),
    Language(usize),
    Theme(usize),
    SymbolTheme(usize),
    KeyBinding(usize),
    LayoutCommand(String),
    GraphLaneLimit,
}

/// The selected settings line and what it stands for.
#[derive(Debug, Clone, PartialEq, Eq)]
pub struct SettingsSelection {
    pub line: usize,
    pub kind: SettingsSelectionKind,
}

/// Where a settings tab label was drawn, for mouse hits.
#[derive(Clone, Copy, Debug, PartialEq, Eq)]
pub struct SettingsTabHitbox {
    pub tab: SettingsTab,
    pub line: usize,
    pub start: u16,
    pub end: u16,
}

/// What a context menu entry does; commands are named by their keymap identifier.
#[derive(Clone, Debug, PartialEq, Eq)]
pub enum ContextMenuAction {
    Divider,
    Spacer,
    Command(String),
    GraphCommand(String),
    OpenRecentRepository(usize),
    RemoteAction { name: String, index: usize },
    SwitchSettingsTab(SettingsTab),
    Settings,
    Splash,
    Exit,
}

/// One entry of a context menu.
#[derive(Clone, Debug, PartialEq, Eq)]
pub struct ContextMenuItem {
    pub label: String,
    pub action: ContextMenuAction,
    pub enabled: bool,
}

/// An open context menu: where it was opened, the selected entry and the entries.
#[derive(Clone, Debug, PartialEq, Eq)]
pub struct ContextMenuState {
    pub column: u16,
    pub row: u16,
    pub selected: usize,
    pub items: Vec<ContextMenuItem>,
}

/// The largest number of characters in the first `n` labels (0 for none).
pub open spec fn max_label_len(items: Seq<ContextMenuItem>, n: int) -> nat
    decreases n,
{
    if n <= 0 {
        0
    } else {
        let rest = max_label_len(items, n - 1);
        let here = items[n - 1].label@.len();
        if here > rest { here } else { rest }
    }
}

/// `min(a, b)` on integers.
pub open spec fn min_int(a: int, b: int) -> int {
    if a < b { a } else { b }
}

impl ContextMenuState {
    /// The width, in characters, of the longest label.
    pub fn label_width(&self) -> (w: usize)
        ensures
            w == max_label_len(self.items@, self.items@.len() as int),
    {
        let mut width: usize = 0;
        let mut i: usize = 0;
        while i < self.items.len()
            invariant
                i <= self.items@.len(),
                width == max_label_len(self.items@, i as int),
            decreases self.items@.len() - i,
        {
            let chars = self.items[i].label.as_str().unicode_len();
            if chars > width {
                width = chars;
            }
            i += 1;
        }
        width
    }

    /// The menu's outer width: the longest label plus room for the border, padding and marker,
    /// at most `u16::MAX`.
    pub fn width(&self) -> (w: u16)
        ensures
            w == min_int(max_label_len(self.items@, self.items@.len() as int) as int + 7, u16::MAX as int),
    {
        let width = self.label_width().saturating_add(7);
        if width > 65535 {
            65535
        } else {
            width as u16
        }
    }

    /// The menu's outer height: one line per entry plus the border and padding, at most
    /// `u16::MAX`.
    pub fn height(&self) -> (h: u16)
        ensures
            h == min_int(self.items@.len() as int + 4, u16::MAX as int),
    {
        let height = self.items.len().saturating_add(4);
        if height > 65535 {
            65535
        } else {
            height as u16
        }
    }
}

/// A splitter being dragged with the mouse.
#[derive(Clone, Copy, Debug, PartialEq, Eq)]
pub enum LayoutDrag {
    LeftPane,
    RightPane,
    BranchesTags,
    BranchesStashes,
    BranchesWorktrees,
    BranchesSubmodules,
    BranchesReflogs,
    BranchesSearch,
    TagsStashes,
    TagsWorktrees,
    TagsSubmodules,
    StashesWorktrees,
    StashesSubmodules,
    TagsReflogs,
    StashesReflogs,
    ReflogsWorktrees,
    ReflogsSubmodules,
    WorktreesSubmodules,
    TagsSearch,
    StashesSearch,
    ReflogsSearch,
    WorktreesSearch,
    SubmodulesSearch,
    InspectorStatus,
    StatusFiles,
}

/// The pane whose scrollbar is being dragged.
#[derive(Clone, Copy, Debug, PartialEq, Eq)]
pub enum ScrollbarTarget {
    Graph,
    Viewer,
    Settings,
    Branches,
    Tags,
    Stashes,
    Reflogs,
    Worktrees,
    Submodules,
    Search,
    Inspector,
    StatusTop,
    StatusBottom,
}

/// A scrollbar drag and where on the thumb it was grabbed.
#[derive(Clone, Copy, Debug, PartialEq, Eq)]
pub struct ScrollbarDrag {
    pub target: ScrollbarTarget,
    pub grab_offset: usize,
}

/// A drag that may turn into a splitter or a scrollbar drag.
#[derive(Clone, Copy, Debug, PartialEq, Eq)]
pub struct SharedMouseDrag {
    pub layout: LayoutDrag,
    pub scrollbar: ScrollbarDrag,
    pub start_column: u16,
    pub start_row: u16,
}

/// The mouse drag in progress.
#[derive(Clone, Copy, Debug, PartialEq, Eq)]
pub enum MouseDrag {
    Layout(LayoutDrag),
    Scrollbar(ScrollbarDrag),
    Shared(SharedMouseDrag),
}

/// The row a mouse selection started on.
#[derive(Clone, Copy, Debug, PartialEq, Eq)]
pub enum MouseSelectionTarget {
    Graph(usize),
    Viewer(usize),
    Branches(usize),
    Tags(usize),
    Stashes(usize),
    Reflogs(usize),
    Worktrees(usize),
    Submodules(usize),
    Inspector(usize),
    StatusTop(usize),
    StatusBottom(usize),
    Search(usize),
    Splash(usize),
    Settings(usize),
    SettingsTab(SettingsTab),
}


/// What the interface keeps of the graph service's answers: the generation it listens to, the
/// newest version seen, the row count, whether the walk is complete, and the graph window asked
/// for (request, start, end).
pub struct GraphClientState {
    pub generation: u64,
    pub version: u64,
    pub total: usize,
    pub is_complete: bool,
    pub requested_graph: Option<(u64, usize, usize)>,
}

/// What a progress report asks of the interface.
#[derive(Clone, Copy, Debug, PartialEq, Eq)]
pub struct ProgressReaction {
    /// Load the uncommitted changes now that the walk is complete.
    pub load_uncommitted: bool,
    /// Leave the splash screen for the graph on the first report.
    pub show_graph: bool,
    /// Stop the busy indicator.
    pub stop_spinner: bool,
}

/// `a` or `b`, whichever is larger.
pub open spec fn max_u64(a: u64, b: u64) -> u64 {
    if a < b { b } else { a }
}

impl GraphClientState {
    /// Listening to `generation`, with nothing received yet.
    pub fn new(generation: u64) -> (s: GraphClientState)
        ensures
            s.generation == generation && s.version == 0 && s.total == 0 && !s.is_complete && s.requested_graph is None,
    {
        GraphClientState { generation, version: 0, total: 0, is_complete: false, requested_graph: None }
    }

    /// A progress report: taken over when it is for this generation (`None` otherwise, and
    /// nothing changes).
    pub fn on_progress(&mut self, generation: u64, version: u64, total: usize, is_first: bool, is_complete: bool, uncommitted_loaded: bool, viewport: Viewport) -> (r: Option<ProgressReaction>)
        ensures
            generation != old(self).generation ==> r is None && *final(self) == *old(self),
            generation == old(self).generation ==> {
                &&& *final(self) == (GraphClientState { version, total, is_complete, ..*old(self) })
                &&& r == Some((ProgressReaction {
                    load_uncommitted: is_complete && !uncommitted_loaded,
                    show_graph: is_first && viewport == Viewport::Splash,
                    stop_spinner: is_complete,
                }))
            },
    {
        if generation != self.generation {
            return None;
        }
        self.version = version;
        self.total = total;
        self.is_complete = is_complete;
        Some(ProgressReaction {
            load_uncommitted: is_complete && !uncommitted_loaded,
            show_graph: is_first && viewport == Viewport::Splash,
            stop_spinner: is_complete,
        })
    }

    /// Ask for the graph window `[start, end)` under `request_id`.
    pub fn request_graph(&mut self, request_id: u64, start: usize, end: usize)
        ensures
            *final(self) == (GraphClientState { requested_graph: Some((request_id, start, end)), ..*old(self) }),
    {
        self.requested_graph = Some((request_id, start, end));
    }

    /// Whether a graph window answers the pending request: same generation, the same window, and
    /// a request no older than the pending one. When it does, the version only moves forward,
    /// the total is taken over and the request is settled; otherwise nothing changes.
    pub fn accept_graph_window(&mut self, generation: u64, request_id: u64, version: u64, start: usize, end: usize, total: usize) -> (accepted: bool)
        ensures
            accepted == (generation == old(self).generation && (old(self).requested_graph matches Some((id, s, e))
                && request_id >= id && start == s && end == e)),
            accepted ==> *final(self) == (GraphClientState {
                version: max_u64(old(self).version, version),
                total,
                requested_graph: None,
                ..*old(self)
            }),
            !accepted ==> *final(self) == *old(self),
    {
        if generation != self.generation {
            return false;
        }
        match self.requested_graph {
            None => false,
            Some((pending_id, pending_start, pending_end)) => {
                if request_id < pending_id || start != pending_start || end != pending_end {
                    return false;
                }
                if self.version < version {
                    self.version = version;
                }
                self.total = total;
                self.requested_graph = None;
                true
            },
        }
    }

    /// Whether announced worktrees are for this generation; the version then only moves forward.
    pub fn accept_worktrees(&mut self, generation: u64, version: u64) -> (accepted: bool)
        ensures
            accepted == (generation == old(self).generation),
            accepted ==> *final(self) == (GraphClientState { version: max_u64(old(self).version, version), ..*old(self) }),
            !accepted ==> *final(self) == *old(self),
    {
        if generation != self.generation {
            return false;
        }
        if self.version < version {
            self.version = version;
        }
        true
    }
}

/// Whether the pending lookup is request `id`.
pub open spec fn pending_for(p: Option<(u64, PendingGraphLookup)>, id: u64) -> bool {
    match p {
        Some((i, _)) => i == id,
        None => false,
    }
}

/// The action of a pending lookup.
pub open spec fn pending_action(p: Option<(u64, PendingGraphLookup)>) -> PendingGraphLookup {
    match p {
        Some((_, action)) => action,
        None => PendingGraphLookup::SelectIndex,
    }
}

/// The action waiting for the answer to lookup `request_id`, which is then no longer pending; a
/// reply to another request leaves the pending one in place.
pub fn take_pending_lookup(pending: &mut Option<(u64, PendingGraphLookup)>, request_id: u64) -> (r: Option<PendingGraphLookup>)
    ensures
        pending_for(*old(pending), request_id) ==> r == Some(pending_action(*old(pending))) && *final(pending) is None,
        !pending_for(*old(pending), request_id) ==> r is None && *final(pending) == *old(pending),
{
    match *pending {
        Some((id, action)) => {
            if id == request_id {
                *pending = None;
                Some(action)
            } else {
                None
            }
        },
        None => None,
    }
}

/// Whether answering a lookup is followed by restoring the selection: every lookup except a
/// selection restore itself.
pub fn restores_selection_after(action: PendingGraphLookup) -> (b: bool)
    ensures
        b == !(action is RestoreSelection),
{
    !matches!(action, PendingGraphLookup::RestoreSelection)
}

/// What a reload of the repository resets and keeps: the repository's path, the graph client
/// state, the heatmap, the diff shown, and the recently opened paths.
pub struct ReloadState {
    pub path: Option<String>,
    pub graph: GraphClientState,
    pub heatmap: [[usize; 53]; 7],
    pub current_diff: Vec<FileChange>,
    pub recent: Vec<String>,
}

/// `generation + 1`, staying at the largest generation once it is reached.
pub open spec fn next_generation(generation: u64) -> u64 {
    if generation < u64::MAX { (generation + 1) as u64 } else { u64::MAX }
}

/// Whether `recent` holds the text `path`.
pub open spec fn recent_has(recent: Seq<String>, path: Seq<char>) -> bool {
    exists|i: int| 0 <= i < recent.len() && (#[trigger] recent[i])@ == path
}

/// Reload for the repository at `abs` (the absolute path that opened as a repository): the graph
/// client listens to the next generation with nothing received or asked for, the heatmap is
/// empty, no diff is shown, and `abs` joins the recent paths unless it is among them. Returns
/// whether it joined them (so that they are saved).
pub fn reload_state(state: &mut ReloadState, abs: String) -> (added: bool)
    ensures
        final(state).path matches Some(p) && p@ == abs@,
        final(state).graph.generation == next_generation(old(state).graph.generation),
        final(state).graph.version == 0 && final(state).graph.total == 0,
        !final(state).graph.is_complete && final(state).graph.requested_graph is None,
        forall|d: int, w: int| 0 <= d < 7 && 0 <= w < 53 ==> final(state).heatmap@[d]@[w] == 0,
        final(state).current_diff@.len() == 0,
        added == !recent_has(old(state).recent@, abs@),
        final(state).recent@ == (if added { old(state).recent@.push(abs) } else { old(state).recent@ }),
{
    let generation = if state.graph.generation < u64::MAX { state.graph.generation + 1 } else { u64::MAX };
    state.graph = GraphClientState::new(generation);
    state.heatmap = [[0usize; 53]; 7];
    state.current_diff = Vec::new();
    let mut found = false;
    let mut i: usize = 0;
    while i < state.recent.len()
        invariant
            i <= state.recent@.len(),
            state.recent@ == old(state).recent@,
            found == exists|k: int| 0 <= k < i && (#[trigger] state.recent@[k])@ == abs@,
        decreases state.recent@.len() - i,
    {
        if state.recent[i] == abs {
            found = true;
        }
        i += 1;
    }
    state.path = Some(abs.clone());
    if !found {
        state.recent.push(abs);
    }
    !found
}

/// The scroll offset of a status list after keeping the selection in view: with no room or no
/// lines it is 0; otherwise the offset is clamped to the last full page, moved up to a selection
/// above it, or moved down so that a selection below the page is its last line. A selection past
/// the end counts as the last line.
pub open spec fn trapped_scroll(selected: int, scroll: int, total_lines: int, visible_height: int) -> int {
    if visible_height == 0 || total_lines == 0 {
        0
    } else {
        let max_scroll = if total_lines > visible_height { total_lines - visible_height } else { 0 };
        let top = if scroll < max_scroll { scroll } else { max_scroll };
        let sel = if selected < total_lines - 1 { selected } else { total_lines - 1 };
        if sel < top {
            sel
        } else if sel >= top + visible_height {
            let lowest = (if sel > visible_height { sel - visible_height } else { 0 }) + 1;
            if lowest < max_scroll { lowest } else { max_scroll }
        } else {
            top
        }
    }
}

/// Keep the selected status line in view: the new scroll offset.
pub fn trap_status_selection(selected: usize, scroll: usize, total_lines: usize, visible_height: usize) -> (r: usize)
    ensures
        r == trapped_scroll(selected as int, scroll as int, total_lines as int, visible_height as int),
        visible_height > 0 && total_lines > 0 ==> {
            let sel = if selected < total_lines - 1 { selected as int } else { total_lines - 1 };
            &&& r <= sel < r + visible_height
            &&& (r == 0 || r + visible_height <= total_lines)
        },
{
    if visible_height == 0 || total_lines == 0 {
        return 0;
    }
    let max_scroll = total_lines.saturating_sub(visible_height);
    let top = if scroll < max_scroll { scroll } else { max_scroll };
    let sel = if selected < total_lines - 1 { selected } else { total_lines - 1 };
    if sel < top {
        sel
    } else if sel - top >= visible_height {
        let lowest = sel.saturating_sub(visible_height).saturating_add(1);
        if lowest < max_scroll { lowest } else { max_scroll }
    } else {
        top
    }
}

/// The selected row and the row count of each list the status bar can count in. The status top
/// list counts the conflicts and staged files while the uncommitted row is selected
/// (`uncommitted_top_total`) and the files of the selected commit otherwise
/// (`commit_files_total`).
pub struct StatusbarCounts {
    pub graph_selected: usize,
    pub graph_total: usize,
    pub viewer_selected: usize,
    pub viewer_total: usize,
    pub status_top_selected: usize,
    pub uncommitted_top_total: usize,
    pub commit_files_total: usize,
    pub status_bottom_selected: usize,
    pub status_bottom_total: usize,
    pub branches_selected: usize,
    pub branches_total: usize,
    pub tags_selected: usize,
    pub tags_total: usize,
    pub stashes_selected: usize,
    pub stashes_total: usize,
    pub reflogs_selected: usize,
    pub reflogs_total: usize,
    pub worktrees_selected: usize,
    pub worktrees_total: usize,
    pub submodules_selected: usize,
    pub submodules_total: usize,
    pub search_selected: usize,
    pub search_total: usize,
}

/// The one-based position and the row count of the focused list, (0, 0) where nothing is
/// counted. In the branch list the position never passes the count.
pub open spec fn statusbar_pair(focus: Focus, viewport: Viewport, c: StatusbarCounts) -> (int, int) {
    match focus {
        Focus::Viewport => match viewport {
            Viewport::Graph => (c.graph_selected + 1, c.graph_total as int),
            Viewport::Viewer => (c.viewer_selected + 1, c.viewer_total as int),
            _ => (0, 0),
        },
        Focus::StatusTop => if c.graph_selected == 0 {
            (c.status_top_selected + 1, c.uncommitted_top_total as int)
        } else {
            (c.status_top_selected + 1, c.commit_files_total as int)
        },
        Focus::StatusBottom => (c.status_bottom_selected + 1, c.status_bottom_total as int),
        Focus::Branches => (if c.branches_selected + 1 < c.branches_total { c.branches_selected + 1 } else { c.branches_total as int }, c.branches_total as int),
        Focus::Tags => (c.tags_selected + 1, c.tags_total as int),
        Focus::Stashes => (c.stashes_selected + 1, c.stashes_total as int),
        Focus::Reflogs => (c.reflogs_selected + 1, c.reflogs_total as int),
        Focus::Worktrees => (c.worktrees_selected + 1, c.worktrees_total as int),
        Focus::Submodules => (c.submodules_selected + 1, c.submodules_total as int),
        Focus::Search => (c.search_selected + 1, c.search_total as int),
        _ => (0, 0),
    }
}

/// The "position/count" the status bar shows for the focused list, when that list has rows.
pub fn statusbar_position(focus: Focus, viewport: &Viewport, c: &StatusbarCounts) -> (r: Option<(usize, usize)>)
    requires
        statusbar_pair(focus, *viewport, *c).0 <= usize::MAX,
    ensures
        ({
            let (cursor, total) = statusbar_pair(focus, *viewport, *c);
            &&& total == 0 ==> r is None
            &&& total != 0 ==> r == Some((cursor as usize, total as usize))
        }),
{
    let (cursor, total): (usize, usize) = match focus {
        Focus::Viewport => match viewport {
            Viewport::Graph => (c.graph_selected + 1, c.graph_total),
            Viewport::Viewer => (c.viewer_selected + 1, c.viewer_total),
            _ => (0, 0),
        },
        Focus::StatusTop => if c.graph_selected == 0 {
            (c.status_top_selected + 1, c.uncommitted_top_total)
        } else {
            (c.status_top_selected + 1, c.commit_files_total)
        },
        Focus::StatusBottom => (c.status_bottom_selected + 1, c.status_bottom_total),
        Focus::Branches => (if c.branches_selected < c.branches_total { c.branches_selected + 1 } else { c.branches_total }, c.branches_total),
        Focus::Tags => (c.tags_selected + 1, c.tags_total),
        Focus::Stashes => (c.stashes_selected + 1, c.stashes_total),
        Focus::Reflogs => (c.reflogs_selected + 1, c.reflogs_total),
        Focus::Worktrees => (c.worktrees_selected + 1, c.worktrees_total),
        Focus::Submodules => (c.submodules_selected + 1, c.submodules_total),
        Focus::Search => (c.search_selected + 1, c.search_total),
        _ => (0, 0),
    };
    if total != 0 { Some((cursor, total)) } else { None }
}

} // verus!
