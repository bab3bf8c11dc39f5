//! The state of the native GUI and the decisions behind it: which layers it
//! lists, what each worker message does to that list, what a destroy run
//! reports. Windows, controls, threads and message boxes live elsewhere; they
//! hand this module what happened and do what it answers.

use vstd::prelude::*;

use crate::errors::{error_text, DcmFreeError};
use crate::cli::{
    add_to_stats, lemma_total_size_prefix, no_stats, orphans, stats_of, total_size, LayerStats,
};
use crate::format::{age, bytes, bytesize_text};
use crate::layers::LayerInfo;
use crate::text::{decimal, decimal_digits};
use crate::time::SystemTime;

verus! {

/// What the GUI is busy with. A scan and a destroy run share one channel,
/// so at most one is in flight.
#[derive(Debug, Clone, Copy, PartialEq, Eq, Structural)]
pub enum Job {
    Idle,
    Scanning,
    Destroying,
}

/// What became of one layer of a destroy run.
#[derive(Debug)]
pub enum OutcomeKind {
    Destroyed,
    Failed(String),
    Cancelled,
}

/// One line of a destroy run's report.
#[derive(Debug)]
pub struct OutcomeRow {
    pub id: String,
    pub size_bytes: u64,
    pub outcome: OutcomeKind,
}

/// Messages from the worker threads.
#[derive(Debug)]
pub enum WorkerMsg {
    /// One layer fully stat-ed; ready to be displayed.
    ScanLayer(Box<LayerInfo>),
    /// Whole layers dir failed to enumerate (e.g. not found).
    ScanError(String),
    /// Scan complete.
    ScanFinished,
    /// Starting work on layer at `index` (id supplied for the status label).
    DestroyStarting { index: usize, id: String },
    /// Layer finished: its outcome and the row index that was acted on.
    DestroyDone { layers_index: usize, row: OutcomeRow },
    /// Worker finished the whole batch (or was cancelled before starting some).
    DestroyFinished,
}

/// One row of the layer list: the layer, and the number it was listed under
/// when the list was last numbered (by the scan that added it, or when the
/// destroy run in flight began). Worker messages name rows by that number,
/// which removing other rows does not change.
#[derive(Debug)]
pub struct ListedLayer {
    pub origin: usize,
    pub layer: LayerInfo,
}

/// The GUI's model: the rows listed, the job in flight, and the results of
/// the destroy run in flight.
#[derive(Debug)]
pub struct GuiState {
    pub layers_dir: String,
    pub rows: Vec<ListedLayer>,
    pub job: Job,
    pub results: Vec<OutcomeRow>,
    pub total_targets: usize,
}

/// The layers of `rows`, in list order.
pub open spec fn listed(rows: Seq<ListedLayer>) -> Seq<LayerInfo> {
    rows.map_values(|r: ListedLayer| r.layer)
}

/// `layers` as rows numbered by their positions.
pub open spec fn numbered(layers: Seq<LayerInfo>) -> Seq<ListedLayer> {
    Seq::new(layers.len(), |k: int| ListedLayer { origin: k as usize, layer: layers[k] })
}

/// The rows of `rows` whose number is not in `gone`, in list order.
pub open spec fn without_origins(rows: Seq<ListedLayer>, gone: Seq<usize>) -> Seq<ListedLayer> {
    rows.filter(|r: ListedLayer| !gone.contains(r.origin))
}

/// The layers of `start` whose positions are not in `gone`, in order.
pub open spec fn without_positions(start: Seq<LayerInfo>, gone: Seq<usize>) -> Seq<LayerInfo>
    decreases start.len(),
{
    if start.len() == 0 {
        start
    } else {
        without_positions(start.drop_last(), gone) + if gone.contains((start.len() - 1) as usize) {
            Seq::empty()
        } else {
            seq![start.last()]
        }
    }
}

/// The text cells of one row of the layer list, except the two timestamps,
/// which are rendered in the local time zone by the caller.
#[derive(Debug)]
pub struct LayerCells {
    pub size: String,
    pub files: String,
    pub age: String,
    pub created_at: SystemTime,
    pub last_modified: SystemTime,
    pub status: String,
    pub id: String,
}

/// The status cell of a layer.
pub open spec fn status_text(orphan: bool) -> Seq<char> {
    if orphan {
        "orphan"@
    } else {
        "in use"@
    }
}

/// `c` holds the cells of the row for `l` seen at `now`.
pub open spec fn cells_of(c: LayerCells, l: LayerInfo, now: SystemTime) -> bool {
    &&& c.size@ == bytesize_text(l.size_bytes)
    &&& c.files@ == decimal_digits(l.file_count as nat)
    &&& c.age@ == crate::cli::layer_age_text(l, now)
    &&& c.created_at == l.created_at
    &&& c.last_modified == l.last_modified
    &&& c.status@ == status_text(l.orphan)
    &&& c.id@ == l.id@
}

/// The cells of the row for `l`, seen at `now`.
pub fn layer_cells(l: &LayerInfo, now: SystemTime) -> (c: LayerCells)
    ensures
        cells_of(c, *l, now),
{
    LayerCells {
        size: bytes(l.size_bytes),
        files: decimal(l.file_count),
        age: age(l.age(now)),
        created_at: l.created_at,
        last_modified: l.last_modified,
        status: if l.orphan {
            "orphan".to_owned()
        } else {
            "in use".to_owned()
        },
        id: l.id.clone(),
    }
}

/// What the GUI does in answer to one worker message.
#[derive(Debug)]
pub enum MsgEffect {
    /// Append a row at `row` showing `cells`.
    AppendRow { row: usize, cells: LayerCells },
    /// Show `text` in the status bar.
    Status(String),
    /// The scan failed with this message.
    ScanFailed(String),
    /// The scan is complete.
    ScanFinished,
    /// The layer of the row numbered this was destroyed and its row must go.
    RowDestroyed(usize),
    /// The destroy run is complete.
    DestroyFinished,
    /// Nothing to show.
    Nothing,
}

/// The status line while the `progress`-th of `total` layers is being
/// destroyed.
pub open spec fn destroying_text(progress: nat, total: nat, id: Seq<char>, index: nat) -> Seq<
    char,
> {
    "Destroying "@ + decimal_digits(progress) + "/"@ + decimal_digits(total) + ": "@ + id
        + "  (idx "@ + decimal_digits(index) + ")"@
}

impl GuiState {
    /// A model with nothing listed for the layers directory `dir`.
    pub fn new(dir: String) -> (st: GuiState)
        ensures
            st.layers_dir == dir,
            st.rows@.len() == 0,
            st.job == Job::Idle,
            st.results@.len() == 0,
            st.total_targets == 0,
    {
        GuiState { layers_dir: dir, rows: Vec::new(), job: Job::Idle, results: Vec::new(), total_targets: 0 }
    }

    /// Take in one worker message. A scanned layer is appended to the list,
    /// numbered by its position (and shown at the next row); a destroy run's
    /// start of work on a layer is shown with the run's progress; its outcome
    /// is added to the results, and a destroyed layer's row is named, by its
    /// number, for removal.
    pub fn apply_message(&mut self, msg: WorkerMsg, now: SystemTime) -> (eff: MsgEffect)
        requires
            old(self).results@.len() < usize::MAX,
        ensures
            final(self).layers_dir == old(self).layers_dir,
            final(self).job == old(self).job,
            final(self).total_targets == old(self).total_targets,
            match msg {
                WorkerMsg::ScanLayer(info) => {
                    &&& final(self).rows@ == old(self).rows@.push(
                        ListedLayer { origin: old(self).rows@.len() as usize, layer: *info },
                    )
                    &&& final(self).results@ == old(self).results@
                    &&& eff matches MsgEffect::AppendRow { row, cells } && row == old(
                        self,
                    ).rows@.len() && cells_of(cells, *info, now)
                },
                WorkerMsg::ScanError(e) => {
                    &&& final(self).rows@ == old(self).rows@
                    &&& final(self).results@ == old(self).results@
                    &&& eff == MsgEffect::ScanFailed(e)
                },
                WorkerMsg::ScanFinished => {
                    &&& final(self).rows@ == old(self).rows@
                    &&& final(self).results@ == old(self).results@
                    &&& eff is ScanFinished
                },
                WorkerMsg::DestroyStarting { index, id } => {
                    &&& final(self).rows@ == old(self).rows@
                    &&& final(self).results@ == old(self).results@
                    &&& eff matches MsgEffect::Status(t) && t@ == destroying_text(
                        (old(self).results@.len() + 1) as nat,
                        old(self).total_targets as nat,
                        id@,
                        index as nat,
                    )
                },
                WorkerMsg::DestroyDone { layers_index, row } => {
                    &&& final(self).rows@ == old(self).rows@
                    &&& final(self).results@ == old(self).results@.push(row)
                    &&& if row.outcome is Destroyed {
                        eff == MsgEffect::RowDestroyed(layers_index)
                    } else {
                        eff is Nothing
                    }
                },
                WorkerMsg::DestroyFinished => {
                    &&& final(self).rows@ == old(self).rows@
                    &&& final(self).results@ == old(self).results@
                    &&& eff is DestroyFinished
                },
            },
    {
        match msg {
            WorkerMsg::ScanLayer(info) => {
                let row = self.rows.len();
                let cells = layer_cells(&info, now);
                self.rows.push(ListedLayer { origin: row, layer: *info });
                MsgEffect::AppendRow { row, cells }
            },
            WorkerMsg::ScanError(e) => MsgEffect::ScanFailed(e),
            WorkerMsg::ScanFinished => MsgEffect::ScanFinished,
            WorkerMsg::DestroyStarting { index, id } => {
                let progress = self.results.len() + 1;
                let mut t = "Destroying ".to_owned();
                let p = decimal(progress as u64);
                t.append(p.as_str());
                t.append("/");
                let total = decimal(self.total_targets as u64);
                t.append(total.as_str());
                t.append(": ");
                t.append(id.as_str());
                t.append("  (idx ");
                let i = decimal(index as u64);
                t.append(i.as_str());
                t.append(")");
                MsgEffect::Status(t)
            },
            WorkerMsg::DestroyDone { layers_index, row } => {
                let destroyed = match row.outcome {
                    OutcomeKind::Destroyed => true,
                    _ => false,
                };
                self.results.push(row);
                if destroyed {
                    MsgEffect::RowDestroyed(layers_index)
                } else {
                    MsgEffect::Nothing
                }
            },
            WorkerMsg::DestroyFinished => MsgEffect::DestroyFinished,
        }
    }
}

/// `s` after removing, in turn, the element at each index of `order` that is
/// still within it.
pub open spec fn remove_rows<A>(s: Seq<A>, order: Seq<usize>) -> Seq<A>
    decreases order.len(),
{
    if order.len() == 0 {
        s
    } else {
        let rest = remove_rows(s, order.drop_last());
        if (order.last() as int) < rest.len() {
            rest.remove(order.last() as int)
        } else {
            rest
        }
    }
}

/// `s` is in strictly descending order.
pub open spec fn descending(s: Seq<usize>) -> bool {
    forall|i: int, j: int| 0 <= i < j < s.len() ==> s[i] > s[j]
}

/// Whether `v` holds `x`.
fn holds(v: &Vec<usize>, x: usize) -> (b: bool)
    ensures
        b == v@.contains(x),
{
    let n = v.len();
    for i in 0..n
        invariant
            n == v@.len(),
            forall|k: int| 0 <= k < i ==> v@[k] != x,
    {
        if v[i] == x {
            return true;
        }
    }
    false
}

impl GuiState {
    /// Remove the rows whose layers were destroyed, `gone` naming them by
    /// their numbers (as the worker reported them), working from the end of
    /// the list. Returns the positions removed, in the order they were
    /// removed, so that a list view removing the same positions in the same
    /// order stays in step. Numbers that name no row are skipped.
    pub fn remove_destroyed(&mut self, gone: &Vec<usize>) -> (positions: Vec<usize>)
        ensures
            final(self).rows@ == without_origins(old(self).rows@, gone@),
            final(self).rows@ == remove_rows(old(self).rows@, positions@),
            descending(positions@),
            forall|k: int|
                0 <= k < positions@.len() ==> #[trigger] positions@[k] < old(self).rows@.len()
                    && gone@.contains(old(self).rows@[positions@[k] as int].origin),
            final(self).layers_dir == old(self).layers_dir,
            final(self).job == old(self).job,
            final(self).results@ == old(self).results@,
            final(self).total_targets == old(self).total_targets,
    {
        let ghost start = self.rows@;
        let ghost keep = |r: ListedLayer| !gone@.contains(r.origin);
        let mut positions: Vec<usize> = Vec::new();
        let mut p = self.rows.len();
        proof {
            assert(start.skip(p as int) =~= Seq::<ListedLayer>::empty());
            assert(start.skip(p as int).filter(keep) =~= Seq::<ListedLayer>::empty());
            assert(self.rows@ =~= start.take(p as int) + start.skip(p as int).filter(keep));
        }
        while p > 0
            invariant
                p <= start.len(),
                keep == (|r: ListedLayer| !gone@.contains(r.origin)),
                self.rows@ == start.take(p as int) + start.skip(p as int).filter(keep),
                self.rows@ == remove_rows(start, positions@),
                descending(positions@),
                forall|k: int|
                    0 <= k < positions@.len() ==> #[trigger] positions@[k] >= p && positions@[k]
                        < start.len() && gone@.contains(start[positions@[k] as int].origin),
                self.layers_dir == old(self).layers_dir,
                self.job == old(self).job,
                self.results@ == old(self).results@,
                self.total_targets == old(self).total_targets,
            decreases p,
        {
            p = p - 1;
            let ghost rest = start.skip(p + 1).filter(keep);
            proof {
                assert(start.skip(p as int) =~= seq![start[p as int]] + start.skip(p + 1));
                start.skip(p + 1).lemma_filter_prepend(start[p as int], keep);
                assert(self.rows@[p as int] == start[p as int]);
            }
            let origin = self.rows[p].origin;
            if holds(gone, origin) {
                self.rows.remove(p);
                let ghost before = positions@;
                positions.push(p);
                proof {
                    assert(self.rows@ =~= start.take(p as int) + rest);
                    assert(positions@.drop_last() =~= before);
                }
            } else {
                proof {
                    assert(start.take(p + 1) =~= start.take(p as int).push(start[p as int]));
                    assert(self.rows@ =~= start.take(p as int) + start.skip(p as int).filter(keep));
                }
            }
        }
        proof {
            assert(start.take(0) + start.skip(0).filter(keep) =~= start.filter(keep));
        }
        positions
    }

    /// The flags of the listed layers, in list order, for selecting the orphans.
    pub fn orphan_flags(&self) -> (flags: Vec<bool>)
        ensures
            flags@.len() == self.rows@.len(),
            forall|i: int| 0 <= i < flags@.len() ==> #[trigger] flags@[i] == listed(self.rows@)[i].orphan,
    {
        let mut flags: Vec<bool> = Vec::new();
        let n = self.rows.len();
        for i in 0..n
            invariant
                n == self.rows@.len(),
                flags@.len() == i,
                forall|k: int| 0 <= k < i ==> #[trigger] flags@[k] == listed(self.rows@)[k].orphan,
        {
            flags.push(self.rows[i].layer.orphan);
        }
        flags
    }
}

/// Removing the rows of the layers destroyed in one batch of worker
/// messages, and then those of a later batch, leaves the same rows in the
/// same order as removing the rows of both batches at once.
pub proof fn law_destroy_batches_compose(rows: Seq<ListedLayer>, first: Seq<usize>, second: Seq<usize>)
    ensures
        without_origins(without_origins(rows, first), second) == without_origins(rows, first + second),
    decreases rows.len(),
{
    if rows.len() > 0 {
        let init = rows.drop_last();
        let x = rows.last();
        law_destroy_batches_compose(init, first, second);
        assert(rows =~= init.push(x));
        let k1 = |r: ListedLayer| !first.contains(r.origin);
        let k2 = |r: ListedLayer| !second.contains(r.origin);
        let k12 = |r: ListedLayer| !(first + second).contains(r.origin);
        init.lemma_filter_push(x, k1);
        init.lemma_filter_push(x, k12);
        init.filter(k1).lemma_filter_push(x, k2);
        assert((first + second).contains(x.origin) == (first.contains(x.origin) || second.contains(
            x.origin,
        ))) by {
            if first.contains(x.origin) {
                let j = choose|j: int| 0 <= j < first.len() && first[j] == x.origin;
                assert((first + second)[j] == x.origin);
            }
            if second.contains(x.origin) {
                let j = choose|j: int| 0 <= j < second.len() && second[j] == x.origin;
                assert((first + second)[first.len() + j] == x.origin);
            }
            if (first + second).contains(x.origin) {
                let j = choose|j: int| 0 <= j < (first + second).len() && (first + second)[j] == x.origin;
                if j < first.len() {
                    assert(first[j] == x.origin);
                } else {
                    assert(second[j - first.len()] == x.origin);
                }
            }
        }
        if !first.contains(x.origin) {
            assert(without_origins(rows, first) == without_origins(init, first).push(x));
        } else {
            assert(without_origins(rows, first) == without_origins(init, first));
        }
    } else {
        assert(without_origins(rows, first) =~= rows);
        assert(without_origins(rows, first + second) =~= rows);
        assert(without_origins(without_origins(rows, first), second) =~= rows);
    }
}

/// Every number `batches` name, batch after batch.
pub open spec fn all_gone(batches: Seq<Seq<usize>>) -> Seq<usize>
    decreases batches.len(),
{
    if batches.len() == 0 {
        Seq::empty()
    } else {
        all_gone(batches.drop_last()) + batches.last()
    }
}

/// `rows` after removing, batch after batch, the rows each batch names.
pub open spec fn after_batches(rows: Seq<ListedLayer>, batches: Seq<Seq<usize>>) -> Seq<ListedLayer>
    decreases batches.len(),
{
    if batches.len() == 0 {
        rows
    } else {
        without_origins(after_batches(rows, batches.drop_last()), batches.last())
    }
}

/// Removing no rows leaves the rows as they are.
proof fn lemma_without_nothing(rows: Seq<ListedLayer>)
    ensures
        without_origins(rows, Seq::empty()) == rows,
    decreases rows.len(),
{
    let keep = |r: ListedLayer| !Seq::<usize>::empty().contains(r.origin);
    if rows.len() == 0 {
        assert(rows.filter(keep) =~= rows);
    } else {
        lemma_without_nothing(rows.drop_last());
        assert(rows =~= rows.drop_last().push(rows.last()));
        rows.drop_last().lemma_filter_push(rows.last(), keep);
    }
}

/// Removing the rows of the destroyed layers batch after batch, over any
/// number of batches, leaves the same rows in the same order as removing
/// those of all the batches at once; so once a destroy run that began on the
/// list `start` is over, the rows hold the layers of `start` at the positions
/// that were not destroyed, in their order.
pub proof fn law_destroy_batches_accumulate(
    rows: Seq<ListedLayer>,
    start: Seq<LayerInfo>,
    batches: Seq<Seq<usize>>,
)
    requires
        start.len() <= usize::MAX,
    ensures
        after_batches(rows, batches) == without_origins(rows, all_gone(batches)),
        listed(after_batches(numbered(start), batches)) == without_positions(start, all_gone(batches)),
    decreases batches.len(),
{
    if batches.len() == 0 {
        lemma_without_nothing(rows);
        lemma_without_nothing(numbered(start));
        law_removal_keeps_the_rest_in_order(start, all_gone(batches));
    } else {
        let init = batches.drop_last();
        law_destroy_batches_accumulate(rows, start, init);
        law_destroy_batches_accumulate(numbered(start), start, init);
        law_destroy_batches_compose(rows, all_gone(init), batches.last());
        law_destroy_batches_compose(numbered(start), all_gone(init), batches.last());
        law_removal_keeps_the_rest_in_order(start, all_gone(batches));
    }
}

/// When a destroy run began on the list `start`, the rows left after
/// removing those whose layers were destroyed hold exactly the layers of
/// `start` at the positions that were not destroyed, in their order.
pub proof fn law_removal_keeps_the_rest_in_order(start: Seq<LayerInfo>, gone: Seq<usize>)
    requires
        start.len() <= usize::MAX,
    ensures
        listed(without_origins(numbered(start), gone)) == without_positions(start, gone),
    decreases start.len(),
{
    let keep = |r: ListedLayer| !gone.contains(r.origin);
    if start.len() == 0 {
        assert(numbered(start) =~= Seq::<ListedLayer>::empty());
        assert(without_origins(numbered(start), gone) =~= Seq::<ListedLayer>::empty());
        assert(listed(without_origins(numbered(start), gone)) =~= start);
    } else {
        let init = start.drop_last();
        law_removal_keeps_the_rest_in_order(init, gone);
        let x = ListedLayer { origin: (start.len() - 1) as usize, layer: start.last() };
        assert(numbered(start) =~= numbered(init).push(x));
        numbered(init).lemma_filter_push(x, keep);
        let f = without_origins(numbered(init), gone);
        if gone.contains(x.origin) {
            assert(without_origins(numbered(start), gone) == f);
            assert(without_positions(start, gone) =~= without_positions(init, gone));
        } else {
            assert(without_origins(numbered(start), gone) == f.push(x));
            assert(listed(f.push(x)) =~= listed(f).push(start.last()));
            assert(without_positions(start, gone) =~= without_positions(init, gone).push(
                start.last(),
            ));
        }
    }
}

/// The total size of the listed layers that `selected` names; indices past
/// the end of the list count for nothing.
pub open spec fn selected_size(layers: Seq<LayerInfo>, selected: Seq<usize>) -> nat
    decreases selected.len(),
{
    if selected.len() == 0 {
        0
    } else {
        selected_size(layers, selected.drop_last()) + if (selected.last() as int) < layers.len() {
            layers[selected.last() as int].size_bytes as nat
        } else {
            0nat
        }
    }
}

proof fn lemma_selected_size_prefix(layers: Seq<LayerInfo>, selected: Seq<usize>, k: int)
    requires
        0 <= k <= selected.len(),
    ensures
        selected_size(layers, selected.take(k)) <= selected_size(layers, selected),
    decreases selected.len() - k,
{
    if k < selected.len() {
        lemma_selected_size_prefix(layers, selected, k + 1);
        assert(selected.take(k + 1).drop_last() =~= selected.take(k));
    } else {
        assert(selected.take(k) =~= selected);
    }
}

/// The summary line above the list.
pub open spec fn info_text_spec(layers: Seq<LayerInfo>, selected: Seq<usize>) -> Seq<char> {
    "Layers: "@ + decimal_digits(layers.len()) + "    Orphans: "@ + decimal_digits(
        orphans(layers).len(),
    ) + " ("@ + bytesize_text(total_size(orphans(layers)) as u64) + ")    On disk: "@
        + bytesize_text(total_size(layers) as u64) + "    Selected: "@ + decimal_digits(
        selected.len(),
    ) + " ("@ + bytesize_text(selected_size(layers, selected) as u64) + ")"@
}

/// The text the confirmation dialog shows before destroying `n` selected
/// layers of `size` bytes in all.
pub open spec fn confirm_text_spec(n: nat, size: u64) -> Seq<char> {
    "About to destroy "@ + decimal_digits(n) + " layer(s), reclaiming approximately "@
        + bytesize_text(size)
        + ".\n\nThis is irreversible. You can cancel mid-process; layers already destroyed cannot be recovered.\n\nContinue?"@
}

/// One layer handed to the destroy worker: `layers_index` is its row's
/// position, which is also the row's number once the run has begun.
#[derive(Debug)]
pub struct DestroyItem {
    pub layers_index: usize,
    pub id: String,
    pub size_bytes: u64,
    pub path: String,
}

/// The selected positions that a destroy run acts on: those that name a
/// listed layer that is an orphan, in selection order. Layers Docker reports
/// as in use are never handed to the worker.
pub open spec fn payload_selection(layers: Seq<LayerInfo>, selected: Seq<usize>) -> Seq<usize> {
    selected.filter(|i: usize| (i as nat) < layers.len() && layers[i as int].orphan)
}

/// The next step when the user asks to destroy the selection.
#[derive(Debug, Clone, Copy, PartialEq, Eq, Structural)]
pub enum DestroyStep {
    /// Nothing is selected: say so.
    NothingSelected,
    /// Find out whether the process is elevated.
    CheckElevation,
    /// The process is not elevated: explain that Administrator is required.
    RequireAdmin,
    /// Ask the user to confirm.
    AskConfirmation,
    /// The user cancelled: do nothing.
    Abandon,
    /// Enable the backup and restore privileges.
    EnablePrivileges,
    /// The privileges could not be enabled: report it.
    PrivilegesFailed,
    /// Start the destroy worker.
    Start,
}

/// The decision behind the "Destroy selected" button, given the number of
/// selected rows and what has been found out so far (`None`: not yet).
pub open spec fn destroy_step_spec(
    n_selected: nat,
    elevated: Option<bool>,
    confirmed: Option<bool>,
    privileges: Option<bool>,
) -> DestroyStep {
    if n_selected == 0 {
        DestroyStep::NothingSelected
    } else if elevated is None {
        DestroyStep::CheckElevation
    } else if elevated == Some(false) {
        DestroyStep::RequireAdmin
    } else if confirmed is None {
        DestroyStep::AskConfirmation
    } else if confirmed == Some(false) {
        DestroyStep::Abandon
    } else if privileges is None {
        DestroyStep::EnablePrivileges
    } else if privileges == Some(false) {
        DestroyStep::PrivilegesFailed
    } else {
        DestroyStep::Start
    }
}

/// The next step when the user asks to destroy the selection.
pub fn destroy_next(
    n_selected: usize,
    elevated: Option<bool>,
    confirmed: Option<bool>,
    privileges: Option<bool>,
) -> (step: DestroyStep)
    ensures
        step == destroy_step_spec(n_selected as nat, elevated, confirmed, privileges),
{
    if n_selected == 0 {
        return DestroyStep::NothingSelected;
    }
    match elevated {
        None => DestroyStep::CheckElevation,
        Some(false) => DestroyStep::RequireAdmin,
        Some(true) => match confirmed {
            None => DestroyStep::AskConfirmation,
            Some(false) => DestroyStep::Abandon,
            Some(true) => match privileges {
                None => DestroyStep::EnablePrivileges,
                Some(false) => DestroyStep::PrivilegesFailed,
                Some(true) => DestroyStep::Start,
            },
        },
    }
}

/// The orphans of a list never hold more bytes than the whole list, and
/// hold strictly fewer when some layer in use takes up space.
pub proof fn law_orphans_within_all_layers(layers: Seq<LayerInfo>)
    ensures
        total_size(orphans(layers)) <= total_size(layers),
        (exists|k: int|
            0 <= k < layers.len() && !(#[trigger] layers[k]).orphan && layers[k].size_bytes > 0)
            ==> total_size(orphans(layers)) < total_size(layers),
    decreases layers.len(),
{
    if layers.len() > 0 {
        let init = layers.drop_last();
        let x = layers.last();
        law_orphans_within_all_layers(init);
        assert(layers =~= init.push(x));
        init.lemma_filter_push(x, |l: LayerInfo| l.orphan);
        if x.orphan {
            assert(orphans(layers).drop_last() =~= orphans(init));
        } else {
            assert(orphans(layers) =~= orphans(init));
        }
        if exists|k: int|
            0 <= k < layers.len() && !(#[trigger] layers[k]).orphan && layers[k].size_bytes > 0 {
            let k = choose|k: int|
                0 <= k < layers.len() && !(#[trigger] layers[k]).orphan && layers[k].size_bytes > 0;
            if k < layers.len() - 1 {
                assert(init[k] == layers[k]);
            }
        }
    }
}

/// `middle` with `pre` before it and `post` after it.
pub open spec fn framed(pre: Seq<char>, middle: Seq<char>, post: Seq<char>) -> Seq<char> {
    pre + middle + post
}

/// The summary line shows, after the orphans' bytes, the bytes of every
/// listed layer as "On disk", in use or not, followed by the selection.
pub proof fn law_summary_shows_all_layers_on_disk(layers: Seq<LayerInfo>, selected: Seq<usize>)
    ensures
        exists|pre: Seq<char>, post: Seq<char>|
            info_text_spec(layers, selected) == #[trigger] framed(
                pre,
                " ("@ + bytesize_text(total_size(orphans(layers)) as u64) + ")    On disk: "@
                    + bytesize_text(total_size(layers) as u64) + "    Selected: "@,
                post,
            ),
{
    let pre = "Layers: "@ + decimal_digits(layers.len()) + "    Orphans: "@ + decimal_digits(
        orphans(layers).len(),
    );
    let post = decimal_digits(selected.len()) + " ("@ + bytesize_text(
        selected_size(layers, selected) as u64,
    ) + ")"@;
    let middle = " ("@ + bytesize_text(total_size(orphans(layers)) as u64) + ")    On disk: "@
        + bytesize_text(total_size(layers) as u64) + "    Selected: "@;
    assert(info_text_spec(layers, selected) =~= framed(pre, middle, post));
}

/// A destroy run acts on every selected position that names a listed
/// orphan, whatever its size, and on nothing else: each position it acts on
/// was selected and names a listed orphan; when every selected position
/// names a listed orphan, it acts on the whole selection, in order.
pub proof fn law_payload_is_the_selected_orphans(layers: Seq<LayerInfo>, selected: Seq<usize>)
    ensures
        forall|k: int|
            0 <= k < selected.len() && (selected[k] as int) < layers.len() && layers[selected[k] as int].orphan
                ==> payload_selection(layers, selected).contains(#[trigger] selected[k]),
        forall|i: usize|
            #[trigger] payload_selection(layers, selected).contains(i) ==> selected.contains(i) && (i
                as int) < layers.len() && layers[i as int].orphan,
        (forall|k: int|
            0 <= k < selected.len() ==> (#[trigger] selected[k] as int) < layers.len()
                && layers[selected[k] as int].orphan) ==> payload_selection(layers, selected)
            == selected,
    decreases selected.len(),
{
    let keep = |i: usize| (i as nat) < layers.len() && layers[i as int].orphan;
    if selected.len() > 0 {
        let init = selected.drop_last();
        let x = selected.last();
        law_payload_is_the_selected_orphans(layers, init);
        assert(selected =~= init.push(x));
        init.lemma_filter_push(x, keep);
        let p = payload_selection(layers, selected);
        let q = payload_selection(layers, init);
        assert forall|k: int|
            0 <= k < selected.len() && (selected[k] as int) < layers.len()
                && layers[selected[k] as int].orphan implies p.contains(#[trigger] selected[k]) by {
            if k < selected.len() - 1 {
                assert(init[k] == selected[k]);
                assert(q.contains(init[k]));
                let j = choose|j: int| 0 <= j < q.len() && q[j] == init[k];
                assert(p[j] == q[j]);
            } else {
                assert(p[p.len() - 1] == x);
            }
        }
        assert forall|i: usize| #[trigger] p.contains(i) implies selected.contains(i) && (i as int)
            < layers.len() && layers[i as int].orphan by {
            let j = choose|j: int| 0 <= j < p.len() && p[j] == i;
            if keep(x) && j == p.len() - 1 {
                assert(selected[selected.len() - 1] == i);
            } else {
                assert(q[j] == i);
                assert(q.contains(i));
                let m = choose|m: int| 0 <= m < init.len() && init[m] == i;
                assert(selected[m] == i);
            }
        }
        if forall|k: int|
            0 <= k < selected.len() ==> (#[trigger] selected[k] as int) < layers.len()
                && layers[selected[k] as int].orphan {
            assert forall|k: int|
                0 <= k < init.len() implies (#[trigger] init[k] as int) < layers.len()
                    && layers[init[k] as int].orphan by {
                assert(init[k] == selected[k]);
            }
            assert(keep(x));
        }
    } else {
        assert(payload_selection(layers, selected) =~= selected);
    }
}

/// The GUI starts destroying only with consent: something is selected, the
/// process is elevated, the user confirmed, and the privileges are enabled.
pub proof fn law_gui_destroys_only_with_consent(
    n_selected: nat,
    elevated: Option<bool>,
    confirmed: Option<bool>,
    privileges: Option<bool>,
)
    ensures
        destroy_step_spec(n_selected, elevated, confirmed, privileges) == DestroyStep::Start ==> {
            &&& n_selected > 0
            &&& elevated == Some(true)
            &&& confirmed == Some(true)
            &&& privileges == Some(true)
        },
{
}

impl GuiState {
    /// The summary line above the list for the selection `selected`; `None`
    /// when a total does not fit in a `u64`.
    pub fn info_text(&self, selected: &Vec<usize>) -> (r: Option<String>)
        ensures
            r is Some <==> total_size(listed(self.rows@)) <= u64::MAX && selected_size(
                listed(self.rows@),
                selected@,
            ) <= u64::MAX,
            r matches Some(t) ==> t@ == info_text_spec(listed(self.rows@), selected@),
    {
        let sel = match self.selected_bytes(selected) {
            Some(b) => b,
            None => {
                return None;
            },
        };
        let stats = match self.listed_stats() {
            Some(st) => st,
            None => {
                return None;
            },
        };
        let mut t = "Layers: ".to_owned();
        let a = decimal(stats.layer_count as u64);
        t.append(a.as_str());
        t.append("    Orphans: ");
        let b = decimal(stats.orphan_count as u64);
        t.append(b.as_str());
        t.append(" (");
        let c = bytes(stats.orphan_bytes);
        t.append(c.as_str());
        t.append(")    On disk: ");
        let d = bytes(stats.total_bytes);
        t.append(d.as_str());
        t.append("    Selected: ");
        let e = decimal(selected.len() as u64);
        t.append(e.as_str());
        t.append(" (");
        let f = bytes(sel);
        t.append(f.as_str());
        t.append(")");
        Some(t)
    }

    /// Count and total the listed layers and their orphans; `None` when the
    /// total size does not fit in a `u64`.
    fn listed_stats(&self) -> (r: Option<LayerStats>)
        ensures
            r is Some <==> total_size(listed(self.rows@)) <= u64::MAX,
            r matches Some(st) ==> stats_of(st, listed(self.rows@)),
    {
        let ghost layers = listed(self.rows@);
        let n = self.rows.len();
        let mut st = no_stats();
        proof {
            assert(layers.take(0) =~= Seq::<LayerInfo>::empty());
        }
        for i in 0..n
            invariant
                n == layers.len(),
                layers == listed(self.rows@),
                stats_of(st, layers.take(i as int)),
        {
            proof {
                assert(layers.take(i + 1) =~= layers.take(i as int).push(layers[i as int]));
            }
            match add_to_stats(st, &self.rows[i].layer, Ghost(layers.take(i as int))) {
                Some(next) => {
                    st = next;
                },
                None => {
                    proof {
                        lemma_total_size_prefix(layers, i + 1);
                    }
                    return None;
                },
            }
        }
        proof {
            assert(layers.take(n as int) =~= layers);
        }
        Some(st)
    }

    /// The total size of the selected layers; `None` when it does not fit in a `u64`.
    pub fn selected_bytes(&self, selected: &Vec<usize>) -> (r: Option<u64>)
        ensures
            r is Some <==> selected_size(listed(self.rows@), selected@) <= u64::MAX,
            r matches Some(b) ==> b == selected_size(listed(self.rows@), selected@),
    {
        let ghost layers = listed(self.rows@);
        let n = selected.len();
        let mut total: u64 = 0;
        for k in 0..n
            invariant
                n == selected@.len(),
                layers == listed(self.rows@),
                total == selected_size(layers, selected@.take(k as int)),
        {
            proof {
                assert(selected@.take(k + 1).drop_last() =~= selected@.take(k as int));
            }
            let i = selected[k];
            if i < self.rows.len() {
                match total.checked_add(self.rows[i].layer.size_bytes) {
                    Some(t) => {
                        total = t;
                    },
                    None => {
                        proof {
                            lemma_selected_size_prefix(layers, selected@, k + 1);
                        }
                        return None;
                    },
                }
            }
        }
        proof {
            assert(selected@.take(n as int) =~= selected@);
        }
        Some(total)
    }

    /// Whether the "Destroy selected" button is enabled: no job in flight
    /// and something selected.
    pub fn destroy_enabled(&self, n_selected: usize) -> (b: bool)
        ensures
            b == (self.job == Job::Idle && n_selected > 0),
    {
        self.job == Job::Idle && n_selected > 0
    }

    /// The positions of the selection `selected` that a destroy run acts on:
    /// those of listed orphans, in selection order.
    pub fn payload_indices(&self, selected: &Vec<usize>) -> (p: Vec<usize>)
        ensures
            p@ == payload_selection(listed(self.rows@), selected@),
            forall|k: int|
                0 <= k < selected@.len() && (selected@[k] as int) < self.rows@.len()
                    && self.rows@[selected@[k] as int].layer.orphan ==> p@.contains(
                    #[trigger] selected@[k],
                ),
    {
        let ghost layers = listed(self.rows@);
        let ghost keep = |i: usize| (i as nat) < layers.len() && layers[i as int].orphan;
        let mut p: Vec<usize> = Vec::new();
        let n = selected.len();
        for k in 0..n
            invariant
                n == selected@.len(),
                layers == listed(self.rows@),
                keep == (|i: usize| (i as nat) < layers.len() && layers[i as int].orphan),
                p@ == selected@.take(k as int).filter(keep),
        {
            let ghost prefix = selected@.take(k as int);
            proof {
                assert(selected@.take(k + 1) =~= prefix.push(selected@[k as int]));
                prefix.lemma_filter_push(selected@[k as int], keep);
            }
            let i = selected[k];
            if i < self.rows.len() && self.rows[i].layer.orphan {
                p.push(i);
            }
        }
        proof {
            assert(selected@.take(n as int) =~= selected@);
            law_payload_is_the_selected_orphans(layers, selected@);
            assert forall|k: int|
                0 <= k < selected@.len() && (selected@[k] as int) < self.rows@.len()
                    && self.rows@[selected@[k] as int].layer.orphan implies p@.contains(
                    #[trigger] selected@[k],
                ) by {
                assert(layers[selected@[k] as int] == self.rows@[selected@[k] as int].layer);
            }
        }
        p
    }

    /// The confirmation text before destroying the selection `selected`: it
    /// counts and totals the layers the run will act on (the selected
    /// orphans); `None` when their total size does not fit in a `u64`.
    pub fn confirm_text(&self, selected: &Vec<usize>) -> (r: Option<String>)
        ensures
            r is Some <==> selected_size(
                listed(self.rows@),
                payload_selection(listed(self.rows@), selected@),
            ) <= u64::MAX,
            r matches Some(t) ==> t@ == confirm_text_spec(
                payload_selection(listed(self.rows@), selected@).len(),
                selected_size(listed(self.rows@), payload_selection(listed(self.rows@), selected@))
                    as u64,
            ),
    {
        let payload = self.payload_indices(selected);
        let size = match self.selected_bytes(&payload) {
            Some(b) => b,
            None => {
                return None;
            },
        };
        let mut t = "About to destroy ".to_owned();
        let n = decimal(payload.len() as u64);
        t.append(n.as_str());
        t.append(" layer(s), reclaiming approximately ");
        let b = bytes(size);
        t.append(b.as_str());
        t.append(
            ".\n\nThis is irreversible. You can cancel mid-process; layers already destroyed cannot be recovered.\n\nContinue?",
        );
        Some(t)
    }

    /// What the destroy worker is handed for the selection `selected`: the
    /// position, id, size and path of each selected layer that is listed and
    /// an orphan, in selection order. Layers in use are left out.
    pub fn destroy_payload(&self, selected: &Vec<usize>) -> (items: Vec<DestroyItem>)
        ensures
            items@.len() == payload_selection(listed(self.rows@), selected@).len(),
            forall|k: int|
                0 <= k < items@.len() ==> {
                    let i = payload_selection(listed(self.rows@), selected@)[k];
                    &&& #[trigger] items@[k].layers_index == i
                    &&& items@[k].id == listed(self.rows@)[i as int].id
                    &&& items@[k].size_bytes == listed(self.rows@)[i as int].size_bytes
                    &&& items@[k].path == listed(self.rows@)[i as int].path
                },
            forall|k: int|
                0 <= k < items@.len() ==> (#[trigger] items@[k].layers_index as int) < self.rows@.len()
                    && listed(self.rows@)[items@[k].layers_index as int].orphan,
    {
        let ghost layers = listed(self.rows@);
        let payload = self.payload_indices(selected);
        let mut items: Vec<DestroyItem> = Vec::new();
        let n = payload.len();
        proof {
            let keep = |i: usize| (i as nat) < layers.len() && layers[i as int].orphan;
            assert forall|k: int| 0 <= k < payload@.len() implies keep(#[trigger] payload@[k]) by {
                selected@.lemma_filter_pred(keep, k);
            }
        }
        for k in 0..n
            invariant
                n == payload@.len(),
                layers == listed(self.rows@),
                payload@ == payload_selection(layers, selected@),
                forall|j: int|
                    0 <= j < payload@.len() ==> (#[trigger] payload@[j] as int) < layers.len()
                        && layers[payload@[j] as int].orphan,
                items@.len() == k,
                forall|j: int|
                    0 <= j < k ==> {
                        let i = payload@[j];
                        &&& #[trigger] items@[j].layers_index == i
                        &&& items@[j].id == layers[i as int].id
                        &&& items@[j].size_bytes == layers[i as int].size_bytes
                        &&& items@[j].path == layers[i as int].path
                    },
        {
            let i = payload[k];
            let l = &self.rows[i].layer;
            items.push(
                DestroyItem {
                    layers_index: i,
                    id: l.id.clone(),
                    size_bytes: l.size_bytes,
                    path: l.path.clone(),
                },
            );
        }
        items
    }

    /// Start a destroy run of `n_targets` layers: no results yet, and the
    /// rows are numbered by their positions, so that the worker's messages
    /// name each row by the position it had when the run began.
    pub fn begin_destroy(&mut self, n_targets: usize)
        ensures
            final(self).job == Job::Destroying,
            final(self).results@.len() == 0,
            final(self).total_targets == n_targets,
            final(self).rows@ == numbered(listed(old(self).rows@)),
            final(self).layers_dir == old(self).layers_dir,
    {
        self.job = Job::Destroying;
        self.results = Vec::new();
        self.total_targets = n_targets;
        let ghost start = self.rows@;
        let n = self.rows.len();
        for i in 0..n
            invariant
                n == self.rows@.len(),
                n == start.len(),
                forall|k: int| 0 <= k < i ==> #[trigger] self.rows@[k] == (ListedLayer { origin: k as usize, layer: start[k].layer }),
                forall|k: int| i <= k < n ==> #[trigger] self.rows@[k] == start[k],
                self.job == Job::Destroying,
                self.results@.len() == 0,
                self.total_targets == n_targets,
                self.layers_dir == old(self).layers_dir,
        {
            self.rows[i].origin = i;
        }
        proof {
            assert(self.rows@ =~= numbered(listed(start)));
        }
    }

    /// End a destroy run: the job is over, and its results and number of
    /// targets are handed back for the report.
    pub fn finish_destroy(&mut self) -> (r: (Vec<OutcomeRow>, usize))
        ensures
            r.0@ == old(self).results@,
            r.1 == old(self).total_targets,
            final(self).job == Job::Idle,
            final(self).results@.len() == 0,
            final(self).rows@ == old(self).rows@,
            final(self).layers_dir == old(self).layers_dir,
            final(self).total_targets == old(self).total_targets,
    {
        self.job = Job::Idle;
        let mut results: Vec<OutcomeRow> = Vec::new();
        std::mem::swap(&mut results, &mut self.results);
        (results, self.total_targets)
    }

    /// Start a scan unless a job is in flight: the list is emptied and the
    /// status line to show is handed back; `None` (and no change) while busy.
    pub fn begin_scan(&mut self) -> (r: Option<String>)
        ensures
            old(self).job != Job::Idle ==> r is None && final(self).job == old(self).job
                && final(self).rows@ == old(self).rows@,
            old(self).job == Job::Idle ==> {
                &&& final(self).job == Job::Scanning
                &&& final(self).rows@.len() == 0
                &&& r matches Some(t) && t@ == "Scanning layers in "@ + old(self).layers_dir@
                    + "..."@
            },
            final(self).layers_dir == old(self).layers_dir,
            final(self).results@ == old(self).results@,
            final(self).total_targets == old(self).total_targets,
    {
        if self.job != Job::Idle {
            return None;
        }
        self.rows.clear();
        self.job = Job::Scanning;
        let mut t = "Scanning layers in ".to_owned();
        t.append(self.layers_dir.as_str());
        t.append("...");
        Some(t)
    }

    /// End a scan: the job is over, and the status line to show is handed
    /// back: the error if the scan failed, else how many layers were loaded
    /// from where.
    pub fn finish_scan(&mut self, error: Option<String>) -> (status: String)
        ensures
            final(self).job == Job::Idle,
            final(self).rows@ == old(self).rows@,
            final(self).layers_dir == old(self).layers_dir,
            final(self).results@ == old(self).results@,
            final(self).total_targets == old(self).total_targets,
            match error {
                Some(e) => status == e,
                None => status@ == "Loaded "@ + decimal_digits(old(self).rows@.len())
                    + " layer(s) from "@ + old(self).layers_dir@,
            },
    {
        self.job = Job::Idle;
        match error {
            Some(e) => e,
            None => {
                let mut t = "Loaded ".to_owned();
                let n = decimal(self.rows.len() as u64);
                t.append(n.as_str());
                t.append(" layer(s) from ");
                t.append(self.layers_dir.as_str());
                t
            },
        }
    }
}

/// The message the destroy worker sends before acting on `item`.
pub fn destroy_starting(item: &DestroyItem) -> (msg: WorkerMsg)
    ensures
        msg matches WorkerMsg::DestroyStarting { index, id } && index == item.layers_index && id@
            == item.id@,
{
    WorkerMsg::DestroyStarting { index: item.layers_index, id: item.id.clone() }
}

/// The message the destroy worker sends once done with `item`: `result` is
/// what destroying it gave, or `None` when the run was cancelled before the
/// worker reached it (then it was not touched).
pub fn destroy_done(item: DestroyItem, result: Option<Result<(), DcmFreeError>>) -> (msg: WorkerMsg)
    ensures
        msg matches WorkerMsg::DestroyDone { layers_index, row } && {
            &&& layers_index == item.layers_index
            &&& row.id == item.id
            &&& row.size_bytes == item.size_bytes
            &&& match result {
                None => row.outcome is Cancelled,
                Some(Ok(())) => row.outcome is Destroyed,
                Some(Err(e)) => row.outcome matches OutcomeKind::Failed(m) && (!(e is Io) ==> m@
                    == error_text(e)) && (e is Io ==> m@.take(error_text(e).len() as int)
                    == error_text(e)),
            }
        },
{
    let outcome = match result {
        None => OutcomeKind::Cancelled,
        Some(r) => outcome_of(r),
    };
    WorkerMsg::DestroyDone {
        layers_index: item.layers_index,
        row: OutcomeRow { id: item.id, size_bytes: item.size_bytes, outcome },
    }
}

/// What became of a layer whose destruction was attempted: destroyed, or
/// failed with the error's message.
pub fn outcome_of(result: Result<(), DcmFreeError>) -> (o: OutcomeKind)
    ensures
        match result {
            Ok(()) => o is Destroyed,
            Err(e) => o matches OutcomeKind::Failed(m) && (!(e is Io) ==> m@ == error_text(e)) && (
            e is Io ==> m@.take(error_text(e).len() as int) == error_text(e)),
        },
{
    match result {
        Ok(()) => OutcomeKind::Destroyed,
        Err(e) => OutcomeKind::Failed(e.message()),
    }
}

/// Counts over a destroy run's results.
#[derive(Debug, Clone, Copy, PartialEq, Eq, Structural)]
pub struct OutcomeCounts {
    pub destroyed: usize,
    pub failed: usize,
    pub cancelled: usize,
    pub bytes_freed: u64,
}

/// The destroyed results.
pub open spec fn destroyed_rows(rs: Seq<OutcomeRow>) -> Seq<OutcomeRow> {
    rs.filter(|r: OutcomeRow| r.outcome is Destroyed)
}

/// The failed results.
pub open spec fn failed_rows(rs: Seq<OutcomeRow>) -> Seq<OutcomeRow> {
    rs.filter(|r: OutcomeRow| r.outcome is Failed)
}

/// The cancelled results.
pub open spec fn cancelled_rows(rs: Seq<OutcomeRow>) -> Seq<OutcomeRow> {
    rs.filter(|r: OutcomeRow| r.outcome is Cancelled)
}

/// The total size of a sequence of results.
pub open spec fn rows_size(rs: Seq<OutcomeRow>) -> nat
    decreases rs.len(),
{
    if rs.len() == 0 {
        0
    } else {
        rows_size(rs.drop_last()) + rs.last().size_bytes as nat
    }
}

proof fn lemma_rows_size_prefix(rs: Seq<OutcomeRow>, k: int)
    requires
        0 <= k <= rs.len(),
    ensures
        rows_size(destroyed_rows(rs.take(k))) <= rows_size(destroyed_rows(rs)),
    decreases rs.len() - k,
{
    if k < rs.len() {
        lemma_rows_size_prefix(rs, k + 1);
        let p = rs.take(k);
        assert(rs.take(k + 1) =~= p.push(rs[k]));
        p.lemma_filter_push(rs[k], |r: OutcomeRow| r.outcome is Destroyed);
        if rs[k].outcome is Destroyed {
            assert(destroyed_rows(rs.take(k + 1)).drop_last() =~= destroyed_rows(p));
        }
    } else {
        assert(rs.take(k) =~= rs);
    }
}

/// Count the destroyed, failed and cancelled results and total the bytes the
/// destroyed ones freed; `None` when that total does not fit in a `u64`.
pub fn tally_outcomes(results: &Vec<OutcomeRow>) -> (r: Option<OutcomeCounts>)
    ensures
        r is Some <==> rows_size(destroyed_rows(results@)) <= u64::MAX,
        r matches Some(c) ==> {
            &&& c.destroyed == destroyed_rows(results@).len()
            &&& c.failed == failed_rows(results@).len()
            &&& c.cancelled == cancelled_rows(results@).len()
            &&& c.bytes_freed == rows_size(destroyed_rows(results@))
        },
{
    let n = results.len();
    let mut c = OutcomeCounts { destroyed: 0, failed: 0, cancelled: 0, bytes_freed: 0 };
    let ghost pd = |r: OutcomeRow| r.outcome is Destroyed;
    let ghost pf = |r: OutcomeRow| r.outcome is Failed;
    let ghost pc = |r: OutcomeRow| r.outcome is Cancelled;
    for k in 0..n
        invariant
            n == results@.len(),
            pd == (|r: OutcomeRow| r.outcome is Destroyed),
            pf == (|r: OutcomeRow| r.outcome is Failed),
            pc == (|r: OutcomeRow| r.outcome is Cancelled),
            c.destroyed == destroyed_rows(results@.take(k as int)).len(),
            c.failed == failed_rows(results@.take(k as int)).len(),
            c.cancelled == cancelled_rows(results@.take(k as int)).len(),
            c.bytes_freed == rows_size(destroyed_rows(results@.take(k as int))),
            c.destroyed + c.failed + c.cancelled == k,
    {
        let ghost p = results@.take(k as int);
        let ghost x = results@[k as int];
        proof {
            assert(results@.take(k + 1) =~= p.push(x));
            p.lemma_filter_push(x, pd);
            p.lemma_filter_push(x, pf);
            p.lemma_filter_push(x, pc);
        }
        let r = &results[k];
        match r.outcome {
            OutcomeKind::Destroyed => {
                proof {
                    assert(destroyed_rows(results@.take(k + 1)).drop_last() =~= destroyed_rows(p));
                }
                match c.bytes_freed.checked_add(r.size_bytes) {
                    Some(b) => {
                        c.bytes_freed = b;
                    },
                    None => {
                        proof {
                            lemma_rows_size_prefix(results@, k + 1);
                        }
                        return None;
                    },
                }
                c.destroyed = c.destroyed + 1;
            },
            OutcomeKind::Failed(_) => {
                c.failed = c.failed + 1;
            },
            OutcomeKind::Cancelled => {
                c.cancelled = c.cancelled + 1;
            },
        }
    }
    proof {
        assert(results@.take(n as int) =~= results@);
    }
    Some(c)
}

/// The status line after a destroy run over `total_targets` layers.
pub open spec fn done_text(c: OutcomeCounts, total_targets: nat) -> Seq<char> {
    "Done: "@ + decimal_digits(c.destroyed as nat) + "/"@ + decimal_digits(total_targets)
        + " destroyed, "@ + decimal_digits(c.failed as nat) + " failed, "@ + decimal_digits(
        c.cancelled as nat,
    ) + " cancelled. Freed approximately "@ + bytesize_text(c.bytes_freed) + "."@
}

/// The status line after a destroy run over `total_targets` layers.
pub fn done_status(c: &OutcomeCounts, total_targets: usize) -> (t: String)
    ensures
        t@ == done_text(*c, total_targets as nat),
{
    let mut t = "Done: ".to_owned();
    let a = decimal(c.destroyed as u64);
    t.append(a.as_str());
    t.append("/");
    let b = decimal(total_targets as u64);
    t.append(b.as_str());
    t.append(" destroyed, ");
    let f = decimal(c.failed as u64);
    t.append(f.as_str());
    t.append(" failed, ");
    let x = decimal(c.cancelled as u64);
    t.append(x.as_str());
    t.append(" cancelled. Freed approximately ");
    let y = bytes(c.bytes_freed);
    t.append(y.as_str());
    t.append(".");
    t
}

/// The summary line of the report dialog.
pub open spec fn report_summary_text(c: OutcomeCounts) -> Seq<char> {
    "Destroyed: "@ + decimal_digits(c.destroyed as nat) + "   Failed: "@ + decimal_digits(
        c.failed as nat,
    ) + "   Cancelled: "@ + decimal_digits(c.cancelled as nat) + "   Freed: "@ + bytesize_text(
        c.bytes_freed,
    )
}

/// The summary line of the report dialog.
pub fn report_summary(c: &OutcomeCounts) -> (t: String)
    ensures
        t@ == report_summary_text(*c),
{
    let mut t = "Destroyed: ".to_owned();
    let a = decimal(c.destroyed as u64);
    t.append(a.as_str());
    t.append("   Failed: ");
    let f = decimal(c.failed as u64);
    t.append(f.as_str());
    t.append("   Cancelled: ");
    let x = decimal(c.cancelled as u64);
    t.append(x.as_str());
    t.append("   Freed: ");
    let y = bytes(c.bytes_freed);
    t.append(y.as_str());
    t
}

/// The cells of one report row: the outcome, the size, and the id (followed
/// by the failure message for a failure).
pub fn report_row(r: &OutcomeRow) -> (cells: (String, String, String))
    ensures
        cells.1@ == bytesize_text(r.size_bytes),
        match r.outcome {
            OutcomeKind::Destroyed => cells.0@ == "destroyed"@ && cells.2@ == r.id@,
            OutcomeKind::Failed(why) => cells.0@ == "failed"@ && cells.2@ == r.id@ + " - "@ + why@,
            OutcomeKind::Cancelled => cells.0@ == "cancelled"@ && cells.2@ == r.id@,
        },
{
    let size = bytes(r.size_bytes);
    match &r.outcome {
        OutcomeKind::Destroyed => ("destroyed".to_owned(), size, r.id.clone()),
        OutcomeKind::Failed(why) => {
            let mut d = r.id.clone();
            d.append(" - ");
            d.append(why.as_str());
            ("failed".to_owned(), size, d)
        },
        OutcomeKind::Cancelled => ("cancelled".to_owned(), size, r.id.clone()),
    }
}

} // verus!
