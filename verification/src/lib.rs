//! A verified core for a terminal task-progress tree: a registry of task
//! nodes with a five-state lifecycle, handle operations a running body uses
//! to update its own node, and a renderer that flattens the tree into the
//! exact display lines of a frame together with the erase count for the
//! previous frame.
//!
//! Everything here is pure state and computation. The surrounding binary
//! supplies the concurrency substrate (locks, a broadcast wake signal, an
//! async runtime) and the terminal surface, and calls into this crate for
//! every decision and every rendered line.

pub mod registry;
pub mod renderer;
pub mod types;

pub use registry::RootRegistry;
pub use renderer::Renderer;
pub use types::Task;
pub use types::TaskData;
pub use types::TaskDataView;
pub use types::TaskInnerApi;
pub use types::TaskState;
