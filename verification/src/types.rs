//! Task nodes: the state machine of a single unit of work, its data fields,
//! and the view-level model that contracts are stated over.

use vstd::prelude::*;

use crate::registry::updated_node;
use crate::registry::RootRegistry;

verus! {

/// The lifecycle state of a task. A task starts `Pending`, is `Loading` while
/// its body runs, and ends in exactly one of the terminal states.
#[derive(Clone, Copy, Debug, PartialEq, Eq, Structural)]
pub enum TaskState {
    Pending,
    Loading,
    Error,
    Warning,
    Success,
}

impl TaskState {
    /// A terminal state is never left again.
    pub open spec fn is_terminal(self) -> bool {
        self == TaskState::Success || self == TaskState::Warning || self == TaskState::Error
    }
}

/// The mutable fields of a task node. Children are arena indices into the
/// registry's node list; insertion order is display order.
pub struct TaskData {
    pub title: String,
    pub state: TaskState,
    pub status: Option<String>,
    pub output: Option<String>,
    pub children: Vec<usize>,
}

/// The mathematical value of a `TaskData`: every text field as a sequence of
/// characters.
#[verifier::ext_equal]
pub struct TaskDataView {
    pub title: Seq<char>,
    pub state: TaskState,
    pub status: Option<Seq<char>>,
    pub output: Option<Seq<char>>,
    pub children: Seq<usize>,
}

impl View for TaskData {
    type V = TaskDataView;

    open spec fn view(&self) -> TaskDataView {
        TaskDataView {
            title: self.title@,
            state: self.state,
            status: match self.status {
                Option::Some(s) => Option::Some(s@),
                Option::None => Option::None,
            },
            output: match self.output {
                Option::Some(s) => Option::Some(s@),
                Option::None => Option::None,
            },
            children: self.children@,
        }
    }
}

/// A node of the task tree: its data plus the arena index of its parent, if
/// any. The parent link is plain data, not an owning handle, so no cycle can
/// arise.
pub struct Task {
    pub data: TaskData,
    pub parent: Option<usize>,
}

/// The data a freshly created node carries: `Pending`, no status, no output,
/// no children.
pub open spec fn fresh_data(title: Seq<char>) -> TaskDataView {
    TaskDataView {
        title: title,
        state: TaskState::Pending,
        status: Option::None,
        output: Option::None,
        children: Seq::empty(),
    }
}

/// `d` with its state replaced.
pub open spec fn with_state(d: TaskDataView, s: TaskState) -> TaskDataView {
    TaskDataView { state: s, ..d }
}

/// One operation a body may perform through its task handle. The payload is
/// the text handed over.
pub enum HandleOp {
    SetTitle(Seq<char>),
    SetStatus(Seq<char>),
    SetOutput(Seq<char>),
    SetWarning(Seq<char>),
    SetError(Seq<char>),
}

impl HandleOp {
    /// The operations that never change a node's state.
    pub open spec fn preserves_state(self) -> bool {
        match self {
            HandleOp::SetTitle(_) => true,
            HandleOp::SetStatus(_) => true,
            HandleOp::SetOutput(_) => true,
            HandleOp::SetWarning(_) => false,
            HandleOp::SetError(_) => false,
        }
    }
}

/// The effect of one handle operation on a node's data. `set_warning` and
/// `set_error` move the state and overwrite the output; the others touch a
/// single text field. Last write wins throughout.
pub open spec fn apply_op(d: TaskDataView, op: HandleOp) -> TaskDataView {
    match op {
        HandleOp::SetTitle(t) => TaskDataView { title: t, ..d },
        HandleOp::SetStatus(s) => TaskDataView { status: Option::Some(s), ..d },
        HandleOp::SetOutput(o) => TaskDataView { output: Option::Some(o), ..d },
        HandleOp::SetWarning(m) => TaskDataView {
            state: TaskState::Warning,
            output: Option::Some(m),
            ..d
        },
        HandleOp::SetError(m) => TaskDataView {
            state: TaskState::Error,
            output: Option::Some(m),
            ..d
        },
    }
}

/// The effect of a whole sequence of handle operations, first to last.
pub open spec fn apply_ops(d: TaskDataView, ops: Seq<HandleOp>) -> TaskDataView
    decreases ops.len(),
{
    if ops.len() == 0 {
        d
    } else {
        apply_ops(apply_op(d, ops[0]), ops.drop_first())
    }
}

impl Task {
    /// A fresh root-level node in `Pending` state.
    pub fn new(title: String) -> (t: Task)
        ensures
            t.data@ == fresh_data(title@),
            t.parent == Option::<usize>::None,
    {
        let t = Task {
            data: TaskData {
                title: title,
                state: TaskState::Pending,
                status: Option::None,
                output: Option::None,
                children: Vec::new(),
            },
            parent: Option::None,
        };
        proof {
            assert(t.data@ =~= fresh_data(title@));
        }
        t
    }

    /// Create a fresh `Pending` node as the last child of `parent`. Children
    /// are appended in call order and never reordered or removed.
    pub fn add_child(reg: &mut RootRegistry, parent: usize, title: String) -> (child: usize)
        requires
            old(reg).wf(),
            parent < old(reg).nodes@.len(),
        ensures
            final(reg).wf(),
            child == old(reg).nodes@.len(),
            final(reg).nodes@.len() == old(reg).nodes@.len() + 1,
            forall|i: int|
                0 <= i < old(reg).nodes@.len() && i != parent ==> final(reg).nodes@[i] == old(
                    reg,
                ).nodes@[i],
            final(reg).nodes@[child as int].data@ == fresh_data(title@),
            final(reg).nodes@[child as int].parent == Option::Some(parent),
            final(reg).nodes@[parent as int].data@ == with_child(
                old(reg).nodes@[parent as int].data@,
                child,
            ),
            final(reg).nodes@[parent as int].parent == old(reg).nodes@[parent as int].parent,
            final(reg).roots@ == old(reg).roots@,
            final(reg).started == old(reg).started,
    {
        let child = reg.nodes.len();
        let t = Task {
            data: TaskData {
                title: title,
                state: TaskState::Pending,
                status: Option::None,
                output: Option::None,
                children: Vec::new(),
            },
            parent: Option::Some(parent),
        };
        reg.nodes.push(t);
        reg.nodes[parent].data.children.push(child);
        proof {
            assert(reg.nodes@[child as int].data@ =~= fresh_data(title@));
            assert(reg.nodes@[parent as int].data@ =~= with_child(
                old(reg).nodes@[parent as int].data@,
                child,
            ));
            assert forall|i: int| 0 <= i < reg.nodes@.len() implies #[trigger] crate::registry::node_wf(
                reg.nodes@,
                i,
            ) by {
                if i < old(reg).nodes@.len() {
                    assert(crate::registry::node_wf(old(reg).nodes@, i));
                }
            }
        }
        child
    }
}

/// `d` with one more child index appended.
pub open spec fn with_child(d: TaskDataView, child: usize) -> TaskDataView {
    TaskDataView { children: d.children.push(child), ..d }
}

/// The capability handed to a running body: it addresses the body's own node
/// by its arena index, and may update exactly that node.
pub struct TaskInnerApi {
    pub task: usize,
}

impl TaskInnerApi {
    /// Replace the node's title.
    pub fn set_title(&self, reg: &mut RootRegistry, title: String)
        requires
            old(reg).wf(),
            self.task < old(reg).nodes@.len(),
        ensures
            final(reg).wf(),
            updated_node(
                *old(reg),
                *final(reg),
                self.task as int,
                apply_op(
                    old(reg).nodes@[self.task as int].data@,
                    HandleOp::SetTitle(title@),
                ),
            ),
    {
        reg.nodes[self.task].data.title = title;
        proof {
            reg.lemma_data_update_keeps_wf(*old(reg), self.task as int);
        }
    }

    /// Set the node's transient status annotation, shown in brackets after
    /// the title.
    pub fn set_status(&self, reg: &mut RootRegistry, status: String)
        requires
            old(reg).wf(),
            self.task < old(reg).nodes@.len(),
        ensures
            final(reg).wf(),
            updated_node(
                *old(reg),
                *final(reg),
                self.task as int,
                apply_op(
                    old(reg).nodes@[self.task as int].data@,
                    HandleOp::SetStatus(status@),
                ),
            ),
    {
        reg.nodes[self.task].data.status = Option::Some(status);
        proof {
            reg.lemma_data_update_keeps_wf(*old(reg), self.task as int);
        }
    }

    /// Set the node's output text, shown below the title line.
    pub fn set_output(&self, reg: &mut RootRegistry, output: String)
        requires
            old(reg).wf(),
            self.task < old(reg).nodes@.len(),
        ensures
            final(reg).wf(),
            updated_node(
                *old(reg),
                *final(reg),
                self.task as int,
                apply_op(
                    old(reg).nodes@[self.task as int].data@,
                    HandleOp::SetOutput(output@),
                ),
            ),
    {
        reg.nodes[self.task].data.output = Option::Some(output);
        proof {
            reg.lemma_data_update_keeps_wf(*old(reg), self.task as int);
        }
    }

    /// Move the node to `Warning` and replace its output with the message.
    pub fn set_warning(&self, reg: &mut RootRegistry, warning: String)
        requires
            old(reg).wf(),
            self.task < old(reg).nodes@.len(),
        ensures
            final(reg).wf(),
            updated_node(
                *old(reg),
                *final(reg),
                self.task as int,
                apply_op(
                    old(reg).nodes@[self.task as int].data@,
                    HandleOp::SetWarning(warning@),
                ),
            ),
    {
        reg.nodes[self.task].data.state = TaskState::Warning;
        reg.nodes[self.task].data.output = Option::Some(warning);
        proof {
            reg.lemma_data_update_keeps_wf(*old(reg), self.task as int);
        }
    }

    /// Move the node to `Error` and replace its output with the message.
    pub fn set_error(&self, reg: &mut RootRegistry, error: String)
        requires
            old(reg).wf(),
            self.task < old(reg).nodes@.len(),
        ensures
            final(reg).wf(),
            updated_node(
                *old(reg),
                *final(reg),
                self.task as int,
                apply_op(
                    old(reg).nodes@[self.task as int].data@,
                    HandleOp::SetError(error@),
                ),
            ),
    {
        reg.nodes[self.task].data.state = TaskState::Error;
        reg.nodes[self.task].data.output = Option::Some(error);
        proof {
            reg.lemma_data_update_keeps_wf(*old(reg), self.task as int);
        }
    }
}

} // verus!
