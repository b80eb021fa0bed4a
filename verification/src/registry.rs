//! The root registry: an arena of task nodes plus the ordered list of
//! top-level tasks and the renderer start-once flag. Every lifecycle
//! transition of a node is a verified operation on this registry.

use vstd::prelude::*;

use crate::types::apply_op;
use crate::types::apply_ops;
use crate::types::fresh_data;
use crate::types::with_state;
use crate::types::HandleOp;
use crate::types::Task;
use crate::types::TaskDataView;
use crate::types::TaskState;

verus! {

/// Per-node well-formedness inside the arena: every child index points
/// further right in the arena (so the tree is acyclic and traversals
/// terminate), and a parent always stands left of its child.
pub open spec fn node_wf(nodes: Seq<Task>, i: int) -> bool {
    &&& forall|k: int|
        0 <= k < nodes[i].data.children@.len() ==> i < (#[trigger] nodes[i].data.children@[k])
            < nodes.len()
    &&& match nodes[i].parent {
        Option::Some(p) => p < i,
        Option::None => true,
    }
}

/// Arena-wide well-formedness.
pub open spec fn wf_nodes(nodes: Seq<Task>) -> bool {
    forall|i: int| 0 <= i < nodes.len() ==> #[trigger] node_wf(nodes, i)
}

/// Every root index points at a node of the arena.
pub open spec fn roots_wf(nodes: Seq<Task>, roots: Seq<usize>) -> bool {
    forall|r: int| 0 <= r < roots.len() ==> (#[trigger] roots[r]) < nodes.len()
}

/// The value of the diagnostic output a node receives when its body fails.
pub open spec fn failure_diagnostic() -> Seq<char> {
    "Task panicked"@
}

/// What a node's data becomes when its body returns normally: the automatic
/// `Success` transition fires only if the node is still `Loading`; a state
/// the body already moved to `Warning` or `Error` is kept.
pub open spec fn finish_returned(d: TaskDataView) -> TaskDataView {
    if d.state == TaskState::Loading {
        with_state(d, TaskState::Success)
    } else {
        d
    }
}

/// What a node's data becomes when its body fails: `Error`, with the fixed
/// diagnostic as output.
pub open spec fn finish_failed(d: TaskDataView) -> TaskDataView {
    TaskDataView { state: TaskState::Error, output: Option::Some(failure_diagnostic()), ..d }
}

/// Relates two registry values where exactly the node at `idx` had its data
/// replaced by `d`: every other node, the node's own parent link, the root
/// list and the start flag are unchanged.
pub open spec fn updated_node(
    prev: RootRegistry,
    cur: RootRegistry,
    idx: int,
    d: TaskDataView,
) -> bool {
    &&& cur.nodes@.len() == prev.nodes@.len()
    &&& forall|i: int|
        0 <= i < prev.nodes@.len() && i != idx ==> cur.nodes@[i] == prev.nodes@[i]
    &&& cur.nodes@[idx].data@ == d
    &&& cur.nodes@[idx].parent == prev.nodes@[idx].parent
    &&& cur.roots@ == prev.roots@
    &&& cur.started == prev.started
}

/// Process-wide root state: the arena of all nodes, the ordered, append-only
/// list of top-level tasks, and the flag that guards renderer startup.
pub struct RootRegistry {
    pub nodes: Vec<Task>,
    pub roots: Vec<usize>,
    pub started: bool,
}

impl RootRegistry {
    pub open spec fn wf(self) -> bool {
        wf_nodes(self.nodes@) && roots_wf(self.nodes@, self.roots@)
    }

    /// An empty registry: no nodes, no roots, renderer not started.
    pub fn new() -> (reg: RootRegistry)
        ensures
            reg.nodes@.len() == 0,
            reg.roots@.len() == 0,
            !reg.started,
            reg.wf(),
    {
        RootRegistry { nodes: Vec::new(), roots: Vec::new(), started: false }
    }

    /// Create a fresh `Pending` node and append it to the root list. Root
    /// order is registration order and is never changed afterwards.
    pub fn register_root(&mut self, title: String) -> (idx: usize)
        requires
            old(self).wf(),
        ensures
            final(self).wf(),
            idx == old(self).nodes@.len(),
            final(self).nodes@.len() == old(self).nodes@.len() + 1,
            forall|i: int|
                0 <= i < old(self).nodes@.len() ==> final(self).nodes@[i] == old(self).nodes@[i],
            final(self).nodes@[idx as int].data@ == fresh_data(title@),
            final(self).nodes@[idx as int].parent is None,
            final(self).roots@ == old(self).roots@.push(idx),
            final(self).started == old(self).started,
    {
        let idx = self.nodes.len();
        let t = Task::new(title);
        self.nodes.push(t);
        self.roots.push(idx);
        proof {
            assert forall|i: int| 0 <= i < self.nodes@.len() implies #[trigger] node_wf(
                self.nodes@,
                i,
            ) by {
                if i < old(self).nodes@.len() {
                    assert(node_wf(old(self).nodes@, i));
                }
            }
        }
        idx
    }

    /// Flip the start-once flag; returns whether this call was the first,
    /// i.e. whether the caller must now spawn the renderer.
    pub fn claim_renderer_start(&mut self) -> (first: bool)
        ensures
            final(self).started,
            first == !old(self).started,
            final(self).nodes@ == old(self).nodes@,
            final(self).roots@ == old(self).roots@,
            final(self).wf() == old(self).wf(),
    {
        let first = !self.started;
        self.started = true;
        first
    }

    /// The `Pending -> Loading` transition, fired just before the body runs.
    pub fn mark_loading(&mut self, idx: usize)
        requires
            old(self).wf(),
            idx < old(self).nodes@.len(),
        ensures
            final(self).wf(),
            updated_node(
                *old(self),
                *final(self),
                idx as int,
                with_state(old(self).nodes@[idx as int].data@, TaskState::Loading),
            ),
    {
        self.nodes[idx].data.state = TaskState::Loading;
        proof {
            self.lemma_data_update_keeps_wf(*old(self), idx as int);
        }
    }

    /// The automatic transition when the body returns normally: `Loading`
    /// becomes `Success`; a terminal state the body already set is kept.
    pub fn complete_body(&mut self, idx: usize)
        requires
            old(self).wf(),
            idx < old(self).nodes@.len(),
        ensures
            final(self).wf(),
            updated_node(
                *old(self),
                *final(self),
                idx as int,
                finish_returned(old(self).nodes@[idx as int].data@),
            ),
    {
        if self.nodes[idx].data.state == TaskState::Loading {
            self.nodes[idx].data.state = TaskState::Success;
        }
        proof {
            self.lemma_data_update_keeps_wf(*old(self), idx as int);
            assert(final(self).nodes@[idx as int].data@ =~= finish_returned(
                old(self).nodes@[idx as int].data@,
            ));
        }
    }

    /// The failure path: the node becomes `Error` and its output is replaced
    /// by the fixed diagnostic, before the failure is handed back to the
    /// caller.
    pub fn record_failure(&mut self, idx: usize)
        requires
            old(self).wf(),
            idx < old(self).nodes@.len(),
        ensures
            final(self).wf(),
            updated_node(
                *old(self),
                *final(self),
                idx as int,
                finish_failed(old(self).nodes@[idx as int].data@),
            ),
    {
        self.nodes[idx].data.state = TaskState::Error;
        self.nodes[idx].data.output = Option::Some("Task panicked".to_owned());
        proof {
            self.lemma_data_update_keeps_wf(*old(self), idx as int);
            assert(final(self).nodes@[idx as int].data@ =~= finish_failed(
                old(self).nodes@[idx as int].data@,
            ));
        }
    }

    /// An update that touched one node's data but left its children and every
    /// other node unchanged preserves well-formedness.
    pub(crate) proof fn lemma_data_update_keeps_wf(self, prev: RootRegistry, idx: int)
        requires
            prev.wf(),
            0 <= idx < prev.nodes@.len(),
            self.nodes@.len() == prev.nodes@.len(),
            forall|i: int| 0 <= i < prev.nodes@.len() && i != idx ==> self.nodes@[i] == prev.nodes@[i],
            self.nodes@[idx].data.children@ == prev.nodes@[idx].data.children@,
            self.nodes@[idx].parent == prev.nodes@[idx].parent,
            self.roots@ == prev.roots@,
        ensures
            self.wf(),
    {
        assert forall|i: int| 0 <= i < self.nodes@.len() implies #[trigger] node_wf(
            self.nodes@,
            i,
        ) by {
            assert(node_wf(prev.nodes@, i));
        }
    }
}

/// No handle operation can take a node out of {Loading, Warning, Error} once
/// the body has started: the only writes a body can make either keep the
/// state or move it to `Warning` or `Error`.
proof fn lemma_ops_keep_live(d: TaskDataView, ops: Seq<HandleOp>)
    requires
        d.state == TaskState::Loading || d.state == TaskState::Warning || d.state
            == TaskState::Error,
    ensures
        apply_ops(d, ops).state == TaskState::Loading || apply_ops(d, ops).state
            == TaskState::Warning || apply_ops(d, ops).state == TaskState::Error,
    decreases ops.len(),
{
    if ops.len() > 0 {
        lemma_ops_keep_live(apply_op(d, ops[0]), ops.drop_first());
    }
}

/// Operations that preserve the state do exactly that, over a whole sequence.
proof fn lemma_state_preserving_ops(d: TaskDataView, ops: Seq<HandleOp>)
    requires
        forall|i: int| 0 <= i < ops.len() ==> (#[trigger] ops[i]).preserves_state(),
    ensures
        apply_ops(d, ops).state == d.state,
    decreases ops.len(),
{
    if ops.len() > 0 {
        assert(ops[0].preserves_state());
        lemma_state_preserving_ops(apply_op(d, ops[0]), ops.drop_first());
    }
}

/// The lifecycle law: a node's data starts `Pending`; it is `Loading` when
/// the body starts; and whatever handle operations the body performs, each of
/// the two ways a body can end leaves the node in a terminal state.
pub proof fn lemma_task_lifecycle(title: Seq<char>, ops: Seq<HandleOp>)
    ensures
        fresh_data(title).state == TaskState::Pending,
        with_state(fresh_data(title), TaskState::Loading).state == TaskState::Loading,
        finish_returned(
            apply_ops(with_state(fresh_data(title), TaskState::Loading), ops),
        ).state.is_terminal(),
        finish_failed(
            apply_ops(with_state(fresh_data(title), TaskState::Loading), ops),
        ).state.is_terminal(),
{
    lemma_ops_keep_live(with_state(fresh_data(title), TaskState::Loading), ops);
}

/// A body that returns normally without ever calling `set_warning` or
/// `set_error` ends in `Success`.
pub proof fn lemma_normal_return_is_success(d: TaskDataView, ops: Seq<HandleOp>)
    requires
        d.state == TaskState::Loading,
        forall|i: int| 0 <= i < ops.len() ==> (#[trigger] ops[i]).preserves_state(),
    ensures
        finish_returned(apply_ops(d, ops)).state == TaskState::Success,
{
    lemma_state_preserving_ops(d, ops);
}

/// A body that calls `set_warning(msg)` and then returns normally ends in
/// `Warning` with output `msg`: the automatic Success transition does not
/// overwrite an explicit terminal state.
pub proof fn lemma_warning_not_overwritten(d: TaskDataView, msg: Seq<char>)
    ensures
        finish_returned(apply_op(d, HandleOp::SetWarning(msg))).state == TaskState::Warning,
        finish_returned(apply_op(d, HandleOp::SetWarning(msg))).output == Option::Some(msg),
{
}

/// No automatic transition leaves a terminal state: a node whose state is
/// already terminal when its body returns is left exactly as it is.
pub proof fn lemma_terminal_state_is_kept(d: TaskDataView)
    requires
        d.state.is_terminal(),
    ensures
        finish_returned(d) == d,
{
}

/// A body that fails leaves its node in `Error`, with the fixed diagnostic
/// text as its output, whatever the body had set before.
pub proof fn lemma_failure_is_visible(d: TaskDataView)
    ensures
        finish_failed(d).state == TaskState::Error,
        finish_failed(d).output == Option::Some(failure_diagnostic()),
{
}

} // verus!
