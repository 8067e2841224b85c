use vstd::prelude::*;
use crate::chunk::{Chunk, LaneRef};
use crate::snapshot::LaneSnapshot;
use crate::worktrees::WorktreeEntry;
use crate::oids::{git2_oid_bytes, git2_to_gix_oid, nibble_at};
use crate::git_types::{oid_as_bytes, oid_bytes};
use crate::oids::Oids;
use crate::reflogs::HeadReflogEntry;
use crate::text::string_from_chars;

verus! {

/// A run of graph rows, each the lanes of one commit row.
pub struct GraphHistory {
    rows: Vec<LaneSnapshot>,
}

impl View for GraphHistory {
    type V = Seq<Seq<Chunk>>;

    closed spec fn view(&self) -> Seq<Seq<Chunk>> {
        Seq::new(self.rows@.len(), |i: int| self.rows@[i]@)
    }
}

impl GraphHistory {
    pub fn new() -> (h: GraphHistory)
        ensures
            h@ == Seq::<Seq<Chunk>>::empty(),
    {
        let h = GraphHistory { rows: Vec::new() };
        assert(h@ =~= Seq::<Seq<Chunk>>::empty());
        h
    }

    pub fn is_empty(&self) -> (b: bool)
        ensures
            b == (self@.len() == 0),
    {
        self.rows.len() == 0
    }

    pub fn len(&self) -> (n: usize)
        ensures
            n == self@.len(),
    {
        self.rows.len()
    }

    /// A history holding the given rows in order.
    pub fn from_rows(rows: Vec<Vec<Chunk>>) -> (h: GraphHistory)
        ensures
            h@ == Seq::new(rows@.len(), |i: int| rows@[i]@),
    {
        let mut out: Vec<LaneSnapshot> = Vec::new();
        let mut i: usize = 0;
        while i < rows.len()
            invariant
                i <= rows@.len(),
                out@.len() == i,
                forall|k: int| 0 <= k < i ==> (#[trigger] out@[k])@ == rows@[k]@,
            decreases rows@.len() - i,
        {
            let row = &rows[i];
            let mut snapshot = LaneSnapshot::new();
            let mut j: usize = 0;
            while j < row.len()
                invariant
                    j <= row@.len(),
                    snapshot@ == row@.take(j as int),
                decreases row@.len() - j,
            {
                snapshot.push(row[j]);
                assert(row@.take(j as int + 1) =~= row@.take(j as int).push(row@[j as int]));
                j += 1;
            }
            assert(row@.take(row@.len() as int) =~= row@);
            out.push(snapshot);
            i += 1;
        }
        let h = GraphHistory { rows: out };
        assert(h@ =~= Seq::new(rows@.len(), |i: int| rows@[i]@));
        h
    }

    /// The row at `index`, when there is one.
    pub fn get(&self, index: usize) -> (r: Option<&[Chunk]>)
        ensures
            match r {
                Some(row) => index < self@.len() && row@ == self@[index as int],
                None => index >= self@.len(),
            },
    {
        if index < self.rows.len() {
            Some(self.rows[index].as_slice())
        } else {
            None
        }
    }

    /// The last row, when there is one.
    pub fn last(&self) -> (r: Option<&[Chunk]>)
        ensures
            match r {
                Some(row) => self@.len() > 0 && row@ == self@.last(),
                None => self@.len() == 0,
            },
    {
        if self.rows.len() == 0 {
            None
        } else {
            Some(self.rows[self.rows.len() - 1].as_slice())
        }
    }

    pub fn push(&mut self, row: LaneSnapshot)
        ensures
            final(self)@ == old(self)@.push(row@),
    {
        self.rows.push(row);
        assert(final(self)@ =~= old(self)@.push(row@));
    }

    /// The rows themselves.
    pub fn rows(&self) -> (r: &[LaneSnapshot])
        ensures
            r@.len() == self@.len(),
            forall|i: int| 0 <= i < r@.len() ==> (#[trigger] r@[i])@ == self@[i],
    {
        self.rows.as_slice()
    }
}


/// The side panes that list references.
#[derive(Clone, Copy, Debug, PartialEq, Eq)]
pub enum GraphPane {
    Branches,
    Tags,
    Stashes,
    Reflogs,
}

/// Which way a jump to the nearest branch row goes.
#[derive(Clone, Copy, Debug, PartialEq, Eq)]
pub enum GraphBranchJumpDirection {
    Previous,
    Next,
}

/// A branch label drawn on a graph row.
#[derive(Clone, Debug)]
pub struct GraphBranchLabel {
    pub name: String,
    pub is_local: bool,
    pub lane: Option<LaneRef>,
}

/// A tag label drawn on a graph row.
#[derive(Clone, Debug)]
pub struct GraphTagLabel {
    pub name: String,
    pub lane: Option<LaneRef>,
}

/// A reflog label drawn on a graph row.
#[derive(Clone, Debug)]
pub struct GraphReflogLabel {
    pub selector: String,
    pub message: String,
    pub lane: Option<LaneRef>,
}

/// One row of a side pane, with the graph row of its commit when that is loaded.
#[derive(Clone, Debug)]
pub enum GraphPaneRow {
    Branch { alias: u32, name: String, is_local: bool, lane: Option<LaneRef>, graph_index: Option<usize> },
    Tag { alias: u32, name: String, lane: Option<LaneRef>, graph_index: Option<usize> },
    Stash { alias: u32, summary: String, lane: Option<LaneRef>, graph_index: Option<usize> },
    Reflog { alias: u32, selector: String, message: String, lane: Option<LaneRef>, graph_index: Option<usize> },
}

/// A window `[start, end)` over `total` rows, both ends clamped to `total`.
pub fn clamp_window(total: usize, start: usize, end: usize) -> (r: (usize, usize))
    ensures
        r.0 == (if start < total { start } else { total }),
        r.1 == (if end < total { end } else { total }),
{
    let s = if start < total { start } else { total };
    let e = if end < total { end } else { total };
    (s, e)
}

/// The graph row a branch jump lands on: the nearest branch row before `from` (going back) or
/// after it (going forward), if there is one.
pub open spec fn jump_target(indices: Seq<usize>, from: usize, direction: GraphBranchJumpDirection) -> Option<usize> {
    match direction {
        GraphBranchJumpDirection::Previous => if exists|k: int| 0 <= k < indices.len() && indices[k] < from {
            Some(choose|x: usize| indices.contains(x) && x < from && forall|k: int| 0 <= k < indices.len() && indices[k] < from ==> indices[k] <= x)
        } else {
            None
        },
        GraphBranchJumpDirection::Next => if exists|k: int| 0 <= k < indices.len() && indices[k] > from {
            Some(choose|x: usize| indices.contains(x) && x > from && forall|k: int| 0 <= k < indices.len() && indices[k] > from ==> indices[k] >= x)
        } else {
            None
        },
    }
}

/// The nearest of the graph rows `indices` before `from` (`Previous`) or after it (`Next`).
pub fn branch_jump_index(indices: &Vec<usize>, from: usize, direction: GraphBranchJumpDirection) -> (r: Option<usize>)
    ensures
        r == jump_target(indices@, from, direction),
{
    let mut best: Option<usize> = None;
    let mut i: usize = 0;
    let previous = match direction {
        GraphBranchJumpDirection::Previous => true,
        GraphBranchJumpDirection::Next => false,
    };
    while i < indices.len()
        invariant
            i <= indices@.len(),
            previous == (direction == GraphBranchJumpDirection::Previous),
            previous ==> match best {
                Some(b) => (exists|k: int| 0 <= k < i && indices@[k] == b) && b < from && forall|k: int| 0 <= k < i && indices@[k] < from ==> indices@[k] <= b,
                None => forall|k: int| 0 <= k < i ==> indices@[k] >= from,
            },
            !previous ==> match best {
                Some(b) => (exists|k: int| 0 <= k < i && indices@[k] == b) && b > from && forall|k: int| 0 <= k < i && indices@[k] > from ==> indices@[k] >= b,
                None => forall|k: int| 0 <= k < i ==> indices@[k] <= from,
            },
        decreases indices@.len() - i,
    {
        let x = indices[i];
        if previous {
            if x < from {
                match best {
                    Some(b) => {
                        if x > b {
                            best = Some(x);
                        }
                    },
                    None => {
                        best = Some(x);
                    },
                }
            }
        } else {
            if x > from {
                match best {
                    Some(b) => {
                        if x < b {
                            best = Some(x);
                        }
                    },
                    None => {
                        best = Some(x);
                    },
                }
            }
        }
        i += 1;
    }
    proof {
        if let Some(b) = best {
            let k = choose|k: int| 0 <= k < indices@.len() && indices@[k] == b;
            assert(indices@.contains(b));
            if previous {
                let c = choose|x: usize| indices@.contains(x) && x < from && forall|k: int| 0 <= k < indices@.len() && indices@[k] < from ==> indices@[k] <= x;
                let kc = choose|k: int| 0 <= k < indices@.len() && indices@[k] == c;
                assert(indices@[kc] <= b);
                assert(indices@[k] <= c);
            } else {
                let c = choose|x: usize| indices@.contains(x) && x > from && forall|k: int| 0 <= k < indices@.len() && indices@[k] > from ==> indices@[k] >= x;
                let kc = choose|k: int| 0 <= k < indices@.len() && indices@[k] == c;
                assert(indices@[kc] >= b);
                assert(indices@[k] >= c);
            }
        }
    }
    best
}


/// What a lookup asks for.
#[derive(Clone, Debug)]
pub enum GraphLookupKind {
    GraphRowAt { index: usize },
    PaneRowAt { pane: GraphPane, index: usize },
    BranchIndex { from: usize, direction: GraphBranchJumpDirection },
    ShaPrefix { prefix: String },
    Oid { oid: git2::Oid },
    ParentIndex { index: usize },
    ChildIndex { index: usize },
}

/// A request to the graph service.
#[derive(Clone, Debug)]
pub enum GraphCommand {
    QueryGraphWindow { generation: u64, request_id: u64, start: usize, end: usize },
    QueryPaneWindow { generation: u64, pane: GraphPane, start: usize, end: usize },
    QueryFileHistory { generation: u64, request_id: u64, path: String },
    Lookup { generation: u64, request_id: u64, kind: GraphLookupKind },
    UpdateWorktrees { generation: u64, worktrees: Vec<WorktreeEntry> },
    Shutdown,
}

/// The generation a command is for; `None` for `Shutdown`.
pub open spec fn command_generation(command: GraphCommand) -> Option<u64> {
    match command {
        GraphCommand::QueryGraphWindow { generation, .. } => Some(generation),
        GraphCommand::QueryPaneWindow { generation, .. } => Some(generation),
        GraphCommand::QueryFileHistory { generation, .. } => Some(generation),
        GraphCommand::Lookup { generation, .. } => Some(generation),
        GraphCommand::UpdateWorktrees { generation, .. } => Some(generation),
        GraphCommand::Shutdown => None,
    }
}

/// What the graph service keeps between commands: its generation, the version of what it has
/// sent, whether the walk is complete, and the window and file history asked for but not yet
/// sent.
pub struct GraphServiceState {
    pub generation: u64,
    pub version: u64,
    pub is_first: bool,
    pub is_complete: bool,
    pub pending_graph: Option<(u64, usize, usize)>,
    pub pending_file_history: Option<(u64, String)>,
}

/// What the service does in answer to a command.
pub enum GraphServiceAction {
    /// Stop serving.
    Stop,
    /// Nothing to send now.
    Nothing,
    /// Send the rows `[start, end)` of a pane at the current version.
    SendPaneWindow { version: u64, pane: GraphPane, start: usize, end: usize },
    /// Answer a lookup.
    SendLookup { request_id: u64, kind: GraphLookupKind },
    /// Use these worktrees from now on and announce them at the new version.
    SendWorktrees { version: u64, worktrees: Vec<WorktreeEntry> },
}

/// `version + 1`, staying at the largest version once it is reached.
pub open spec fn next_version(version: u64) -> u64 {
    if version < u64::MAX { (version + 1) as u64 } else { u64::MAX }
}

impl GraphServiceState {
    /// A service for `generation` that has sent nothing and walked nothing.
    pub fn new(generation: u64) -> (s: GraphServiceState)
        ensures
            s.generation == generation,
            s.version == 0,
            s.is_first,
            !s.is_complete,
            s.pending_graph is None,
            s.pending_file_history is None,
    {
        GraphServiceState { generation, version: 0, is_first: true, is_complete: false, pending_graph: None, pending_file_history: None }
    }

    /// Decide what a command asks of the service. Commands for another generation change
    /// nothing and ask for nothing; `Shutdown` stops. A window or file history request replaces
    /// the one pending; updated worktrees move the version on.
    pub fn handle_command(&mut self, command: GraphCommand) -> (action: GraphServiceAction)
        ensures
            final(self).generation == old(self).generation,
            final(self).is_first == old(self).is_first,
            final(self).is_complete == old(self).is_complete,
            command is Shutdown ==> action is Stop && *final(self) == *old(self),
            command_generation(command) matches Some(g) && g != old(self).generation ==> action is Nothing && *final(self) == *old(self),
            command_generation(command) == Some(old(self).generation) ==> match command {
                GraphCommand::QueryGraphWindow { request_id, start, end, .. } => action is Nothing
                    && final(self).pending_graph == Some((request_id, start, end))
                    && final(self).pending_file_history == old(self).pending_file_history
                    && final(self).version == old(self).version,
                GraphCommand::QueryPaneWindow { pane, start, end, .. } => action == (GraphServiceAction::SendPaneWindow { version: old(self).version, pane, start, end })
                    && *final(self) == *old(self),
                GraphCommand::QueryFileHistory { request_id, path, .. } => action is Nothing
                    && final(self).pending_file_history == Some((request_id, path))
                    && final(self).pending_graph == old(self).pending_graph
                    && final(self).version == old(self).version,
                GraphCommand::Lookup { request_id, kind, .. } => action == (GraphServiceAction::SendLookup { request_id, kind })
                    && *final(self) == *old(self),
                GraphCommand::UpdateWorktrees { worktrees, .. } => action == (GraphServiceAction::SendWorktrees { version: next_version(old(self).version), worktrees })
                    && final(self).version == next_version(old(self).version)
                    && final(self).pending_graph == old(self).pending_graph
                    && final(self).pending_file_history == old(self).pending_file_history,
                GraphCommand::Shutdown => true,
            },
    {
        match command {
            GraphCommand::Shutdown => GraphServiceAction::Stop,
            GraphCommand::QueryGraphWindow { generation, request_id, start, end } => {
                if generation == self.generation {
                    self.pending_graph = Some((request_id, start, end));
                }
                GraphServiceAction::Nothing
            },
            GraphCommand::QueryPaneWindow { generation, pane, start, end } => {
                if generation == self.generation {
                    GraphServiceAction::SendPaneWindow { version: self.version, pane, start, end }
                } else {
                    GraphServiceAction::Nothing
                }
            },
            GraphCommand::QueryFileHistory { generation, request_id, path } => {
                if generation == self.generation {
                    self.pending_file_history = Some((request_id, path));
                }
                GraphServiceAction::Nothing
            },
            GraphCommand::Lookup { generation, request_id, kind } => {
                if generation == self.generation {
                    GraphServiceAction::SendLookup { request_id, kind }
                } else {
                    GraphServiceAction::Nothing
                }
            },
            GraphCommand::UpdateWorktrees { generation, worktrees } => {
                if generation == self.generation {
                    self.version = if self.version < u64::MAX { self.version + 1 } else { u64::MAX };
                    GraphServiceAction::SendWorktrees { version: self.version, worktrees }
                } else {
                    GraphServiceAction::Nothing
                }
            },
        }
    }

    /// Record one step of the walk: the version moves on, the walk is complete when the step
    /// reports no more work, and the first progress report is behind. Returns the progress to
    /// report: version, whether it is the first report, and whether the walk is complete.
    pub fn record_walk_step(&mut self, is_again: bool) -> (progress: (u64, bool, bool))
        ensures
            final(self).version == next_version(old(self).version),
            final(self).is_complete == !is_again,
            !final(self).is_first,
            final(self).generation == old(self).generation,
            final(self).pending_graph == old(self).pending_graph,
            final(self).pending_file_history == old(self).pending_file_history,
            progress == (final(self).version, old(self).is_first, !is_again),
    {
        self.version = if self.version < u64::MAX { self.version + 1 } else { u64::MAX };
        self.is_complete = !is_again;
        let was_first = self.is_first;
        self.is_first = false;
        (self.version, was_first, !is_again)
    }

    /// The pending graph window, which is sent (and no longer pending).
    pub fn take_pending_graph(&mut self) -> (r: Option<(u64, usize, usize)>)
        ensures
            r == old(self).pending_graph,
            final(self).pending_graph is None,
            final(self).generation == old(self).generation,
            final(self).version == old(self).version,
            final(self).is_first == old(self).is_first,
            final(self).is_complete == old(self).is_complete,
            final(self).pending_file_history == old(self).pending_file_history,
    {
        self.pending_graph.take()
    }

    /// The pending file history once the walk is complete (it is then no longer pending);
    /// `None` while the walk goes on, leaving it pending.
    pub fn take_ready_file_history(&mut self) -> (r: Option<(u64, String)>)
        ensures
            old(self).is_complete ==> r == old(self).pending_file_history && final(self).pending_file_history is None,
            !old(self).is_complete ==> r is None && final(self).pending_file_history == old(self).pending_file_history,
            final(self).generation == old(self).generation,
            final(self).version == old(self).version,
            final(self).is_first == old(self).is_first,
            final(self).is_complete == old(self).is_complete,
            final(self).pending_graph == old(self).pending_graph,
    {
        if self.is_complete {
            self.pending_file_history.take()
        } else {
            None
        }
    }
}


/// What the service loop does next: walk on, or, once the walk is complete, only answer
/// commands.
#[derive(Clone, Copy, Debug, PartialEq, Eq, Structural)]
pub enum ServiceStep {
    Walk,
    WaitForCommand,
}

/// What one step of the walk reports: a progress event (generation, version, whether it is the
/// first and whether the walk is complete), then the heatmap where the walk is complete.
#[derive(Clone, Copy, Debug, PartialEq, Eq, Structural)]
pub struct WalkReport {
    pub generation: u64,
    pub version: u64,
    pub is_first: bool,
    pub is_complete: bool,
    pub send_heatmap: bool,
}

/// How a service starts: with an error event when its walker cannot be made, else serving.
pub enum ServiceStart {
    Failed { generation: u64, message: String },
    Serving(GraphServiceState),
}

/// Whether `r` serves `generation` with a state that has sent and walked nothing.
pub open spec fn fresh_start(r: ServiceStart, generation: u64) -> bool {
    match r {
        ServiceStart::Serving(s) => s.generation == generation && s.version == 0 && s.is_first && !s.is_complete
            && s.pending_graph is None && s.pending_file_history is None,
        _ => false,
    }
}

/// Start the service for `generation` given how making its walker went: the error event with
/// the walker's message, or a fresh state.
pub fn start_service(generation: u64, walker: Result<(), String>) -> (r: ServiceStart)
    ensures
        walker matches Err(m) ==> r == (ServiceStart::Failed { generation, message: m }),
        walker is Ok ==> fresh_start(r, generation),
{
    match walker {
        Err(message) => ServiceStart::Failed { generation, message },
        Ok(()) => ServiceStart::Serving(GraphServiceState::new(generation)),
    }
}

/// Whether `reports` start with the first report only where `first` says so, carry
/// `generation`, have non-decreasing versions, and have a complete one only at the end, followed
/// by the heatmap there and nowhere else.
pub open spec fn reports_in_order(reports: Seq<WalkReport>, generation: u64, first: bool) -> bool {
    &&& forall|i: int| 0 <= i < reports.len() ==> (#[trigger] reports[i]).generation == generation
        && reports[i].send_heatmap == reports[i].is_complete
        && reports[i].is_first == (i == 0 && first)
        && (reports[i].is_complete ==> i == reports.len() - 1)
    &&& forall|i: int, j: int| 0 <= i < j < reports.len() ==> (#[trigger] reports[i]).version <= (#[trigger] reports[j]).version
}

impl GraphServiceState {
    /// Walk while the walk is not complete; then wait for commands.
    pub fn next_step(&self) -> (s: ServiceStep)
        ensures
            s == (if self.is_complete { ServiceStep::WaitForCommand } else { ServiceStep::Walk }),
    {
        if self.is_complete { ServiceStep::WaitForCommand } else { ServiceStep::Walk }
    }

    /// Record a walk step (see `record_walk_step`) and say what it reports.
    pub fn report_walk_step(&mut self, is_again: bool) -> (r: WalkReport)
        ensures
            final(self).version == next_version(old(self).version),
            final(self).is_complete == !is_again,
            !final(self).is_first,
            final(self).generation == old(self).generation,
            final(self).pending_graph == old(self).pending_graph,
            final(self).pending_file_history == old(self).pending_file_history,
            r == (WalkReport { generation: old(self).generation, version: final(self).version, is_first: old(self).is_first, is_complete: !is_again, send_heatmap: !is_again }),
    {
        let (version, is_first, is_complete) = self.record_walk_step(is_again);
        WalkReport { generation: self.generation, version, is_first, is_complete, send_heatmap: is_complete }
    }

    /// Run the walk part of the service loop over the step results `steps` (whether each walk
    /// step has more to do): a report per step while the walk is not complete, none after.
    pub fn walk_reports(&mut self, steps: &Vec<bool>) -> (r: Vec<WalkReport>)
        ensures
            reports_in_order(r@, old(self).generation, old(self).is_first && !old(self).is_complete),
            old(self).is_complete ==> r@.len() == 0 && *final(self) == *old(self),
            r@.len() <= steps@.len(),
            !old(self).is_complete ==> (r@.len() == steps@.len() || final(self).is_complete),
            final(self).generation == old(self).generation,
            r@.len() > 0 ==> final(self).is_complete == r@.last().is_complete,
    {
        let mut reports: Vec<WalkReport> = Vec::new();
        let mut i: usize = 0;
        while i < steps.len() && self.next_step() == ServiceStep::Walk
            invariant
                i <= steps@.len(),
                reports@.len() == i,
                self.generation == old(self).generation,
                old(self).is_complete ==> i == 0 && *self == *old(self),
                i > 0 ==> !self.is_first,
                i == 0 ==> self.is_first == old(self).is_first,
                reports_in_order(reports@, old(self).generation, old(self).is_first && !old(self).is_complete),
                forall|k: int| 0 <= k < reports@.len() ==> (#[trigger] reports@[k]).version <= self.version,
                forall|k: int| 0 <= k < reports@.len() ==> !(#[trigger] reports@[k]).is_complete,
                i > 0 ==> !self.is_complete,
            decreases steps@.len() - i,
        {
            let report = self.report_walk_step(steps[i]);
            let ghost before = reports@;
            reports.push(report);
            proof {
                assert forall|k: int| 0 <= k < reports@.len() implies (#[trigger] reports@[k]).generation == old(self).generation
                    && reports@[k].send_heatmap == reports@[k].is_complete
                    && reports@[k].is_first == (k == 0 && old(self).is_first && !old(self).is_complete)
                    && (reports@[k].is_complete ==> k == reports@.len() - 1) by {
                    if k < before.len() {
                        assert(reports@[k] == before[k]);
                    }
                }
                assert forall|a: int, b: int| 0 <= a < b < reports@.len() implies (#[trigger] reports@[a]).version <= (#[trigger] reports@[b]).version by {
                    if b < before.len() {
                        assert(reports@[a] == before[a] && reports@[b] == before[b]);
                    } else {
                        assert(reports@[a] == before[a]);
                    }
                }
            }
            if report.is_complete {
                return reports;
            }
            i += 1;
        }
        reports
    }
}

/// The lowercase hexadecimal digit for a nibble.
pub open spec fn hex_digit(n: u8) -> char {
    if n < 10 { (48 + n) as char } else { (87 + n) as char }
}

/// The first `n` digits of the lowercase hexadecimal form of `bytes`.
pub open spec fn hex_text(bytes: Seq<u8>, n: int) -> Seq<char> {
    Seq::new(n as nat, |i: int| hex_digit(nibble_at(bytes, i)))
}

/// How many digits of an id's hexadecimal form a short form of `n` digits shows.
pub open spec fn shown_digits(bytes: Seq<u8>, n: int) -> int {
    if n < 2 * bytes.len() { n } else { 2 * bytes.len() as int }
}

/// The first `n` lowercase hexadecimal digits of an id (all of them when it has fewer).
fn oid_hex_prefix(oid: git2::Oid, n: usize) -> (s: String)
    ensures
        s@ == hex_text(git2_oid_bytes(oid), shown_digits(git2_oid_bytes(oid), n as int)),
{
    let gix_oid = git2_to_gix_oid(oid);
    let bytes = oid_as_bytes(&gix_oid);
    let cap = if bytes.len() <= usize::MAX / 2 { 2 * bytes.len() } else { usize::MAX };
    let total = if n < cap { n } else { cap };
    let mut chars: Vec<char> = Vec::new();
    let mut i: usize = 0;
    while i < total
        invariant
            i <= total,
            total <= 2 * bytes@.len(),
            bytes@ == git2_oid_bytes(oid),
            chars@ == hex_text(bytes@, i as int),
        decreases total - i,
    {
        let byte = bytes[i / 2];
        let nibble: u8 = if i % 2 == 0 { byte >> 4u8 } else { byte & 15u8 };
        assert(nibble == nibble_at(bytes@, i as int));
        assert(nibble < 16) by (bit_vector)
            requires nibble == (if i % 2 == 0 { byte >> 4u8 } else { byte & 15u8 });
        let digit: char = if nibble < 10 { (nibble + 48) as char } else { (nibble + 87) as char };
        chars.push(digit);
        assert(chars@ =~= hex_text(bytes@, i + 1));
        i += 1;
    }
    string_from_chars(&chars)
}

/// The eight-digit short form of an id used in file history rows.
pub fn short_oid(oid: git2::Oid) -> (s: String)
    ensures
        s@ == hex_text(git2_oid_bytes(oid), shown_digits(git2_oid_bytes(oid), 8)),
{
    oid_hex_prefix(oid, 8)
}

/// The nine-digit short form of an id used in graph rows.
pub fn graph_short_oid(oid: git2::Oid) -> (s: String)
    ensures
        s@ == hex_text(git2_oid_bytes(oid), shown_digits(git2_oid_bytes(oid), 9)),
{
    oid_hex_prefix(oid, 9)
}


/// The text shown for a commit: its summary, committer date and committer name.
pub struct CommitMetadata {
    pub summary: String,
    pub committer_date: String,
    pub committer_name: String,
}

impl CommitMetadata {
    /// Whether two values hold the same texts.
    pub open spec fn same_text(&self, other: CommitMetadata) -> bool {
        &&& self.summary@ == other.summary@
        &&& self.committer_date@ == other.committer_date@
        &&& self.committer_name@ == other.committer_name@
    }

    /// A copy with the same texts.
    pub fn duplicate(&self) -> (r: CommitMetadata)
        ensures
            r.same_text(*self),
    {
        CommitMetadata { summary: self.summary.clone(), committer_date: self.committer_date.clone(), committer_name: self.committer_name.clone() }
    }
}

/// The commit texts already loaded, by alias.
pub struct CommitMetadataCache {
    pub entries: std::collections::HashMap<u32, CommitMetadata>,
}

impl CommitMetadataCache {
    /// An empty cache.
    pub fn new() -> (c: CommitMetadataCache)
        ensures
            c.entries@ == Map::<u32, CommitMetadata>::empty(),
    {
        CommitMetadataCache { entries: std::collections::HashMap::new() }
    }

    /// The texts cached for `alias`, or those that `load` gives, which are then cached.
    pub fn get_or_insert_with<F: FnOnce() -> CommitMetadata>(&mut self, alias: u32, load: F) -> (r: CommitMetadata)
        requires
            call_requires(load, ()),
        ensures
            old(self).entries@.contains_key(alias) ==> r.same_text(old(self).entries@[alias]) && final(self).entries@ == old(self).entries@,
            !old(self).entries@.contains_key(alias) ==> exists|m: CommitMetadata| #[trigger] call_ensures(load, (), m)
                && final(self).entries@ == old(self).entries@.insert(alias, m) && r.same_text(m),
    {
        broadcast use vstd::std_specs::hash::group_hash_axioms;
        match self.entries.get(&alias) {
            Some(metadata) => {
                return metadata.duplicate();
            },
            None => {},
        }
        let metadata = load();
        let copy = metadata.duplicate();
        self.entries.insert(alias, metadata);
        copy
    }

    /// How many aliases have cached texts.
    pub fn len(&self) -> (n: usize)
        ensures
            n == self.entries@.len(),
    {
        broadcast use vstd::std_specs::hash::group_hash_axioms;
        self.entries.len()
    }
}


/// The first place of `alias` in the graph order `sorted`, if it is there.
pub open spec fn first_place(sorted: Seq<u32>, alias: u32) -> Option<int> {
    if sorted.contains(alias) {
        Some(choose|i: int| 0 <= i < sorted.len() && sorted[i] == alias && forall|j: int| 0 <= j < i ==> sorted[j] != alias)
    } else {
        None
    }
}

proof fn lemma_first_place(sorted: Seq<u32>, alias: u32, i: int)
    requires
        0 <= i < sorted.len(),
        sorted[i] == alias,
        forall|j: int| 0 <= j < i ==> sorted[j] != alias,
    ensures
        first_place(sorted, alias) == Some(i),
{
    assert(sorted.contains(alias));
    let c = choose|c: int| 0 <= c < sorted.len() && sorted[c] == alias && forall|j: int| 0 <= j < c ==> sorted[j] != alias;
    assert(0 <= c < sorted.len() && sorted[c] == alias && forall|j: int| 0 <= j < c ==> sorted[j] != alias) by {
        assert(0 <= i < sorted.len() && sorted[i] == alias && forall|j: int| 0 <= j < i ==> sorted[j] != alias);
    }
    if c < i {
        assert(sorted[c] != alias);
    }
    if i < c {
        assert(sorted[i] != alias);
    }
}

/// The graph row of `alias`: its first place in the graph order.
pub fn alias_position(sorted: &Vec<u32>, alias: u32) -> (r: Option<usize>)
    ensures
        match r {
            Some(i) => first_place(sorted@, alias) == Some(i as int),
            None => first_place(sorted@, alias) is None,
        },
{
    let mut i: usize = 0;
    while i < sorted.len()
        invariant
            i <= sorted@.len(),
            forall|j: int| 0 <= j < i ==> sorted@[j] != alias,
        decreases sorted@.len() - i,
    {
        if sorted[i] == alias {
            proof {
                lemma_first_place(sorted@, alias, i as int);
            }
            return Some(i);
        }
        i += 1;
    }
    proof {
        if sorted@.contains(alias) {
            let k = choose|k: int| 0 <= k < sorted@.len() && sorted@[k] == alias;
            assert(sorted@[k] != alias);
        }
    }
    None
}

/// Whether `a` is among the first `n` items of `s`.
pub open spec fn within_first(s: Seq<u32>, n: int, a: u32) -> bool {
    exists|j: int| 0 <= j < n && #[trigger] s[j] == a
}

proof fn lemma_within_first_step(s: Seq<u32>, n: int)
    requires
        0 <= n < s.len(),
    ensures
        forall|a: u32| #[trigger] within_first(s, n + 1, a) <==> (within_first(s, n, a) || a == s[n]),
{
    assert forall|a: u32| #[trigger] within_first(s, n + 1, a) <==> (within_first(s, n, a) || a == s[n]) by {
        if within_first(s, n + 1, a) {
            let j = choose|j: int| 0 <= j < n + 1 && #[trigger] s[j] == a;
            if j < n {
                assert(within_first(s, n, a));
            }
        }
        if a == s[n] {
            assert(s[n] == a);
        }
    }
}

proof fn lemma_within_all(s: Seq<u32>)
    ensures
        forall|a: u32| #[trigger] within_first(s, s.len() as int, a) <==> s.contains(a),
{
    assert forall|a: u32| #[trigger] within_first(s, s.len() as int, a) <==> s.contains(a) by {
        if s.contains(a) {
            let j = choose|j: int| 0 <= j < s.len() && s[j] == a;
            assert(s[j] == a);
        }
    }
}

/// The graph rows of the wanted aliases: each one in the graph order maps to its first place.
pub fn alias_indices_for(sorted: &Vec<u32>, aliases: &Vec<u32>) -> (r: std::collections::HashMap<u32, usize>)
    ensures
        forall|a: u32| #[trigger] r@.contains_key(a) <==> aliases@.contains(a) && sorted@.contains(a),
        forall|a: u32| #[trigger] r@.contains_key(a) ==> first_place(sorted@, a) == Some(r@[a] as int),
{
    broadcast use vstd::std_specs::hash::group_hash_axioms;
    proof {
        lemma_within_all(aliases@);
        lemma_within_all(sorted@);
    }
    let mut wanted: std::collections::HashSet<u32> = std::collections::HashSet::new();
    let mut k: usize = 0;
    while k < aliases.len()
        invariant
            k <= aliases@.len(),
            forall|a: u32| #[trigger] wanted@.contains(a) <==> within_first(aliases@, k as int, a),
        decreases aliases@.len() - k,
    {
        proof {
            lemma_within_first_step(aliases@, k as int);
        }
        wanted.insert(aliases[k]);
        k += 1;
    }
    let mut indices: std::collections::HashMap<u32, usize> = std::collections::HashMap::new();
    if wanted.is_empty() {
        proof {
            assert forall|a: u32| !aliases@.contains(a) by {
                if aliases@.contains(a) {
                    assert(within_first(aliases@, aliases@.len() as int, a));
                    assert(wanted@.contains(a));
                }
            }
        }
        return indices;
    }
    let mut idx: usize = 0;
    while idx < sorted.len()
        invariant_except_break
            idx <= sorted@.len(),
            forall|a: u32| #[trigger] wanted@.contains(a) <==> aliases@.contains(a) && !within_first(sorted@, idx as int, a),
            forall|a: u32| #[trigger] indices@.contains_key(a) <==> aliases@.contains(a) && within_first(sorted@, idx as int, a),
            forall|a: u32| #[trigger] indices@.contains_key(a) ==> first_place(sorted@, a) == Some(indices@[a] as int),
        ensures
            forall|a: u32| #[trigger] indices@.contains_key(a) <==> aliases@.contains(a) && sorted@.contains(a),
            forall|a: u32| #[trigger] indices@.contains_key(a) ==> first_place(sorted@, a) == Some(indices@[a] as int),
        decreases sorted@.len() - idx,
    {
        let alias = sorted[idx];
        proof {
            lemma_within_first_step(sorted@, idx as int);
        }
        if wanted.remove(&alias) {
            proof {
                assert forall|j: int| 0 <= j < idx implies sorted@[j] != alias by {
                    if sorted@[j] == alias {
                        assert(within_first(sorted@, idx as int, alias));
                    }
                }
                lemma_first_place(sorted@, alias, idx as int);
            }
            indices.insert(alias, idx);
            if wanted.is_empty() {
                proof {
                    assert forall|a: u32| #[trigger] indices@.contains_key(a) <==> aliases@.contains(a) && sorted@.contains(a) by {
                        if aliases@.contains(a) && sorted@.contains(a) && !indices@.contains_key(a) {
                            assert(!within_first(sorted@, idx + 1, a));
                            assert(wanted@.contains(a));
                        }
                        if indices@.contains_key(a) {
                            let j = choose|j: int| 0 <= j < idx + 1 && #[trigger] sorted@[j] == a;
                            assert(sorted@[j] == a);
                        }
                    }
                }
                break;
            }
        }
        idx += 1;
    }
    indices
}

/// The graph row of a commit id: the first place of its alias, if it has one.
pub fn graph_index_of_oid(oids: &Oids, oid: git2::Oid) -> (r: Option<usize>)
    ensures
        match oids.alias_of(git2_oid_bytes(oid)) {
            Some(a) => match r {
                Some(i) => first_place(oids.sorted_aliases@, a) == Some(i as int),
                None => first_place(oids.sorted_aliases@, a) is None,
            },
            None => r is None,
        },
{
    match oids.get_existing_alias(oid) {
        Some(alias) => alias_position(oids.get_sorted_aliases(), alias),
        None => None,
    }
}

/// Whether `prefix` begins the lowercase hexadecimal form of `bytes` (as text, so case counts).
pub open spec fn hex_text_starts_with(bytes: Seq<u8>, prefix: Seq<char>) -> bool {
    prefix.len() <= 2 * bytes.len() && prefix == hex_text(bytes, prefix.len() as int)
}

/// Whether `prefix` begins the id's lowercase hexadecimal text.
pub fn oid_text_starts_with(oid: &gix::ObjectId, prefix: &Vec<char>) -> (r: bool)
    ensures
        r == hex_text_starts_with(oid_bytes(*oid), prefix@),
{
    let bytes = oid_as_bytes(oid);
    if prefix.len() / 2 > bytes.len() || (prefix.len() / 2 == bytes.len() && prefix.len() % 2 == 1) {
        return false;
    }
    let mut i: usize = 0;
    while i < prefix.len()
        invariant
            i <= prefix@.len(),
            prefix@.len() <= 2 * bytes@.len(),
            bytes@ == oid_bytes(*oid),
            forall|k: int| 0 <= k < i ==> prefix@[k] == hex_digit(nibble_at(bytes@, k)),
        decreases prefix@.len() - i,
    {
        let byte = bytes[i / 2];
        let nibble: u8 = if i % 2 == 0 { byte >> 4u8 } else { byte & 15u8 };
        assert(nibble == nibble_at(bytes@, i as int));
        assert(nibble < 16) by (bit_vector)
            requires nibble == (if i % 2 == 0 { byte >> 4u8 } else { byte & 15u8 });
        let digit: char = if nibble < 10 { (nibble + 48) as char } else { (nibble + 87) as char };
        if prefix[i] != digit {
            return false;
        }
        i += 1;
    }
    assert(prefix@ =~= hex_text(bytes@, prefix@.len() as int));
    true
}

/// Whether alias `a` is the first, in alias order, whose id's hexadecimal text begins with
/// `prefix`.
pub open spec fn is_first_prefix_alias(oids: Oids, prefix: Seq<char>, a: int) -> bool {
    &&& 0 <= a < oids.by_alias@.len()
    &&& hex_text_starts_with(oid_bytes(oids.by_alias@[a]), prefix)
    &&& forall|b: int| 0 <= b < a ==> !hex_text_starts_with(oid_bytes(#[trigger] oids.by_alias@[b]), prefix)
}

/// The graph row of the first id, in alias order, whose hexadecimal text begins with `prefix`.
pub fn graph_index_of_prefix(oids: &Oids, prefix: &str) -> (r: Option<usize>)
    requires
        oids.wf(),
    ensures
        (forall|a: int| 0 <= a < oids.by_alias@.len() ==> !hex_text_starts_with(oid_bytes(#[trigger] oids.by_alias@[a]), prefix@)) ==> r is None,
        r matches Some(i) ==> exists|a: int| 0 <= a < oids.by_alias@.len() && hex_text_starts_with(oid_bytes(#[trigger] oids.by_alias@[a]), prefix@)
            && (forall|b: int| 0 <= b < a ==> !hex_text_starts_with(oid_bytes(#[trigger] oids.by_alias@[b]), prefix@))
            && first_place(oids.sorted_aliases@, a as u32) == Some(i as int),
        forall|a: int| #[trigger] is_first_prefix_alias(*oids, prefix@, a) ==> match r {
            Some(i) => first_place(oids.sorted_aliases@, a as u32) == Some(i as int),
            None => first_place(oids.sorted_aliases@, a as u32) is None,
        },
{
    let chars = crate::text::str_chars(prefix);
    let ids = oids.iter_oids();
    let mut a: usize = 0;
    while a < ids.len()
        invariant
            a <= ids@.len(),
            ids@ == oids.by_alias@,
            chars@ == prefix@,
            forall|b: int| 0 <= b < a ==> !hex_text_starts_with(oid_bytes(#[trigger] oids.by_alias@[b]), prefix@),
        decreases ids@.len() - a,
    {
        if oid_text_starts_with(&ids[a], &chars) {
            let alias = a as u32;
            proof {
                assert(is_first_prefix_alias(*oids, prefix@, a as int));
                assert forall|c: int| #[trigger] is_first_prefix_alias(*oids, prefix@, c) implies c == a as int by {
                    if c < a {
                        assert(!hex_text_starts_with(oid_bytes(oids.by_alias@[c]), prefix@));
                    } else if c > a {
                        assert(!hex_text_starts_with(oid_bytes(oids.by_alias@[a as int]), prefix@));
                    }
                }
            }
            return alias_position(oids.get_sorted_aliases(), alias);
        }
        a += 1;
    }
    None
}

/// The parent ids of the commit with this id; none when it cannot be read.
fn commit_parent_ids(repo: &gix::Repository, oid: gix::ObjectId) -> Vec<gix::ObjectId> {
    match crate::git_types::find_commit(repo, oid) {
        Ok(commit) => crate::git_types::commit_parents(&commit),
        Err(_) => Vec::new(),
    }
}

/// The graph row of the first parent of the commit at row `index`, given that commit's parent
/// ids: the row after the uncommitted-changes row when `index` holds it (if there is one).
pub fn parent_index_from(oids: &Oids, index: usize, parents: &Vec<gix::ObjectId>) -> (r: Option<usize>)
    ensures
        index >= oids.sorted_aliases@.len() ==> r is None,
        index < oids.sorted_aliases@.len() && oid_bytes(oids.zero) == oid_bytes(oid_at_row(*oids, index as int)) ==>
            r == (if 1 < oids.sorted_aliases@.len() { Some(1usize) } else { None }),
        index < oids.sorted_aliases@.len() && oid_bytes(oids.zero) != oid_bytes(oid_at_row(*oids, index as int)) ==> match (if parents@.len() > 0 { oids.alias_of(oid_bytes(parents@[0])) } else { None }) {
            Some(a) => match r {
                Some(i) => first_place(oids.sorted_aliases@, a) == Some(i as int),
                None => first_place(oids.sorted_aliases@, a) is None,
            },
            None => r is None,
        },
{
    if index >= oids.get_commit_count() {
        return None;
    }
    let oid = oids.get_oid_by_alias(oids.get_alias_by_idx(index));
    if oids.is_zero(oid) {
        return if 1 < oids.get_commit_count() { Some(1) } else { None };
    }
    if parents.len() == 0 {
        return None;
    }
    match oids.get_existing_alias(parents[0]) {
        Some(alias) => alias_position(oids.get_sorted_aliases(), alias),
        None => None,
    }
}

/// The id shown at row `index`: that of its alias, or the zero id.
pub open spec fn oid_at_row(oids: Oids, index: int) -> gix::ObjectId {
    let alias = oids.sorted_aliases@[index];
    if alias < oids.by_alias@.len() { oids.by_alias@[alias as int] } else { oids.zero }
}

/// The graph row of the first parent of the commit at row `index` (see `parent_index_from`),
/// with the parents read from the repository.
pub fn parent_index(oids: &Oids, repo: &gix::Repository, index: usize) -> (r: Option<usize>)
    ensures
        index >= oids.sorted_aliases@.len() ==> r is None,
        index < oids.sorted_aliases@.len() && oid_bytes(oids.zero) == oid_bytes(oid_at_row(*oids, index as int)) ==>
            r == (if 1 < oids.sorted_aliases@.len() { Some(1usize) } else { None }),
{
    if index >= oids.get_commit_count() {
        return None;
    }
    let oid = *oids.get_oid_by_alias(oids.get_alias_by_idx(index));
    let parents = if oids.is_zero(&oid) { Vec::new() } else { commit_parent_ids(repo, oid) };
    parent_index_from(oids, index, &parents)
}

/// The first row before `index` whose commit has the commit at `index` as a parent; none for
/// the uncommitted-changes row or a row past the end.
pub fn child_index(oids: &Oids, repo: &gix::Repository, index: usize) -> (r: Option<usize>)
    ensures
        index >= oids.sorted_aliases@.len() ==> r is None,
        index < oids.sorted_aliases@.len() && oid_bytes(oids.zero) == oid_bytes(oid_at_row(*oids, index as int)) ==> r is None,
        r matches Some(i) ==> i < index,
{
    if index >= oids.get_commit_count() {
        return None;
    }
    let oid = *oids.get_oid_by_alias(oids.get_alias_by_idx(index));
    if oids.is_zero(&oid) {
        return None;
    }
    let mut idx: usize = 0;
    while idx < index
        invariant
            idx <= index,
            index < oids.sorted_aliases@.len(),
            oid_bytes(oids.zero) != oid_bytes(oid_at_row(*oids, index as int)),
        decreases index - idx,
    {
        let child = *oids.get_oid_by_alias(oids.get_alias_by_idx(idx));
        let parents = commit_parent_ids(repo, child);
        let mut k: usize = 0;
        while k < parents.len()
            invariant
                k <= parents@.len(),
                idx < index,
                index < oids.sorted_aliases@.len(),
                oid_bytes(oids.zero) != oid_bytes(oid_at_row(*oids, index as int)),
            decreases parents@.len() - k,
        {
            if crate::git_types::oid_eq(&parents[k], &oid) {
                return Some(idx);
            }
            k += 1;
        }
        idx += 1;
    }
    None
}


/// The text of an optional string.
pub open spec fn opt_text(o: Option<String>) -> Option<Seq<char>> {
    match o {
        Some(s) => Some(s@),
        None => None,
    }
}

/// Whether `c` is `e` with its alias set to `alias` (texts compared by their characters).
pub open spec fn worktree_with_alias(c: WorktreeEntry, e: WorktreeEntry, alias: u32) -> bool {
    &&& c.name@ == e.name@
    &&& c.path@ == e.path@
    &&& opt_text(c.branch) == opt_text(e.branch)
    &&& c.head == e.head
    &&& c.alias == Some(alias)
    &&& c.kind == e.kind
    &&& c.is_current == e.is_current
    &&& c.is_valid == e.is_valid
    &&& c.is_prunable == e.is_prunable
    &&& opt_text(c.locked_reason) == opt_text(e.locked_reason)
    &&& c.is_dirty == e.is_dirty
}

/// Whether a worktree's checked-out commit has alias `alias`.
pub open spec fn worktree_on(e: WorktreeEntry, oids: Oids, alias: u32) -> bool {
    e.head matches Some(h) && oids.alias_of(oid_bytes(h)) == Some(alias)
}

/// The indices of the first `n` worktrees whose commit has alias `alias`.
pub open spec fn worktrees_on(entries: Seq<WorktreeEntry>, oids: Oids, alias: u32, n: int) -> Seq<int>
    decreases n,
{
    if n <= 0 {
        Seq::empty()
    } else if worktree_on(entries[n - 1], oids, alias) {
        worktrees_on(entries, oids, alias, n - 1).push(n - 1)
    } else {
        worktrees_on(entries, oids, alias, n - 1)
    }
}

fn copy_text(o: &Option<String>) -> (r: Option<String>)
    ensures
        opt_text(r) == opt_text(*o),
{
    match o {
        Some(s) => Some(s.clone()),
        None => None,
    }
}

/// The worktrees whose checked-out commit has alias `alias`, in order, each marked with it.
pub fn worktrees_for_alias(entries: &Vec<WorktreeEntry>, oids: &Oids, alias: u32) -> (r: Vec<WorktreeEntry>)
    ensures
        r@.len() == worktrees_on(entries@, *oids, alias, entries@.len() as int).len(),
        forall|j: int| 0 <= j < r@.len() ==> worktree_with_alias(#[trigger] r@[j], entries@[worktrees_on(entries@, *oids, alias, entries@.len() as int)[j]], alias),
{
    let mut out: Vec<WorktreeEntry> = Vec::new();
    let mut i: usize = 0;
    while i < entries.len()
        invariant
            i <= entries@.len(),
            out@.len() == worktrees_on(entries@, *oids, alias, i as int).len(),
            forall|j: int| 0 <= j < out@.len() ==> worktree_with_alias(#[trigger] out@[j], entries@[worktrees_on(entries@, *oids, alias, i as int)[j]], alias),
        decreases entries@.len() - i,
    {
        let e = &entries[i];
        let on = match e.head {
            Some(h) => match oids.get_existing_alias(h) {
                Some(a) => a == alias,
                None => false,
            },
            None => false,
        };
        if on {
            let copy = WorktreeEntry {
                name: e.name.clone(),
                path: e.path.clone(),
                branch: copy_text(&e.branch),
                head: e.head,
                alias: Some(alias),
                kind: e.kind,
                is_current: e.is_current,
                is_valid: e.is_valid,
                is_prunable: e.is_prunable,
                locked_reason: copy_text(&e.locked_reason),
                is_dirty: e.is_dirty,
            };
            let ghost before = out@;
            out.push(copy);
            proof {
                assert forall|j: int| 0 <= j < out@.len() implies worktree_with_alias(#[trigger] out@[j], entries@[worktrees_on(entries@, *oids, alias, i + 1)[j]], alias) by {
                    if j < before.len() {
                        assert(out@[j] == before[j]);
                    }
                }
            }
        }
        i += 1;
    }
    out
}

/// The first reflog entry for each commit alias: the map holds an alias exactly when an entry's
/// new id has it, with the index of the first such entry.
pub fn latest_reflogs_by_alias(oids: &Oids, entries: &Vec<HeadReflogEntry>) -> (r: std::collections::HashMap<u32, usize>)
    ensures
        forall|a: u32| #[trigger] r@.contains_key(a) <==> exists|k: int| 0 <= k < entries@.len() && #[trigger] oids.alias_of(oid_bytes(entries@[k].new_oid)) == Some(a),
        forall|a: u32| #[trigger] r@.contains_key(a) ==> {
            &&& r@[a] < entries@.len()
            &&& oids.alias_of(oid_bytes(entries@[r@[a] as int].new_oid)) == Some(a)
            &&& forall|k: int| 0 <= k < r@[a] ==> oids.alias_of(oid_bytes(#[trigger] entries@[k].new_oid)) != Some(a)
        },
{
    broadcast use vstd::std_specs::hash::group_hash_axioms;
    let mut latest: std::collections::HashMap<u32, usize> = std::collections::HashMap::new();
    let mut i: usize = 0;
    while i < entries.len()
        invariant
            i <= entries@.len(),
            forall|a: u32| #[trigger] latest@.contains_key(a) <==> exists|k: int| 0 <= k < i && #[trigger] oids.alias_of(oid_bytes(entries@[k].new_oid)) == Some(a),
            forall|a: u32| #[trigger] latest@.contains_key(a) ==> {
                &&& latest@[a] < i
                &&& oids.alias_of(oid_bytes(entries@[latest@[a] as int].new_oid)) == Some(a)
                &&& forall|k: int| 0 <= k < latest@[a] ==> oids.alias_of(oid_bytes(#[trigger] entries@[k].new_oid)) != Some(a)
            },
        decreases entries@.len() - i,
    {
        if let Some(alias) = oids.get_existing_alias(entries[i].new_oid) {
            if !latest.contains_key(&alias) {
                proof {
                    assert forall|k: int| 0 <= k < i implies oids.alias_of(oid_bytes(#[trigger] entries@[k].new_oid)) != Some(alias) by {
                        if oids.alias_of(oid_bytes(entries@[k].new_oid)) == Some(alias) {
                            assert(latest@.contains_key(alias));
                        }
                    }
                }
                latest.insert(alias, i);
            }
        }
        i += 1;
    }
    latest
}

} // verus!
