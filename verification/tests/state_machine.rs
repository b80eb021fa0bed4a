use tasuku_rs::RootRegistry;
use tasuku_rs::Task;
use tasuku_rs::TaskInnerApi;
use tasuku_rs::TaskState;

#[test]
fn fresh_root_is_pending() {
    let mut reg = RootRegistry::new();
    let idx = reg.register_root("A".to_string());
    assert_eq!(idx, 0);
    assert_eq!(reg.nodes[0].data.state, TaskState::Pending);
    assert_eq!(reg.nodes[0].data.title, "A".to_string());
    assert_eq!(reg.nodes[0].data.status, None);
    assert_eq!(reg.nodes[0].data.output, None);
    assert!(reg.nodes[0].data.children.is_empty());
    assert!(reg.nodes[0].parent.is_none());
    assert_eq!(reg.roots, vec![0]);
}

#[test]
fn lifecycle_loading_before_body_then_success() {
    let mut reg = RootRegistry::new();
    let idx = reg.register_root("A".to_string());
    assert_eq!(reg.nodes[idx].data.state, TaskState::Pending);
    reg.mark_loading(idx);
    assert_eq!(reg.nodes[idx].data.state, TaskState::Loading);
    reg.complete_body(idx);
    assert_eq!(reg.nodes[idx].data.state, TaskState::Success);
}

#[test]
fn plain_updates_still_end_in_success() {
    let mut reg = RootRegistry::new();
    let idx = reg.register_root("B".to_string());
    reg.mark_loading(idx);
    let api = TaskInnerApi { task: idx };
    api.set_title(&mut reg, "B2".to_string());
    api.set_status(&mut reg, "installing...".to_string());
    api.set_status(&mut reg, "finished".to_string());
    api.set_output(&mut reg, "Installed 5 packages".to_string());
    assert_eq!(reg.nodes[idx].data.state, TaskState::Loading);
    reg.complete_body(idx);
    assert_eq!(reg.nodes[idx].data.state, TaskState::Success);
    assert_eq!(reg.nodes[idx].data.title, "B2".to_string());
    assert_eq!(reg.nodes[idx].data.status, Some("finished".to_string()));
    assert_eq!(reg.nodes[idx].data.output, Some("Installed 5 packages".to_string()));
}

#[test]
fn warning_is_not_overwritten_by_normal_return() {
    let mut reg = RootRegistry::new();
    let idx = reg.register_root("C".to_string());
    reg.mark_loading(idx);
    let api = TaskInnerApi { task: idx };
    api.set_warning(&mut reg, "x".to_string());
    assert_eq!(reg.nodes[idx].data.state, TaskState::Warning);
    reg.complete_body(idx);
    assert_eq!(reg.nodes[idx].data.state, TaskState::Warning);
    assert_eq!(reg.nodes[idx].data.output, Some("x".to_string()));
}

#[test]
fn explicit_error_is_not_overwritten_by_normal_return() {
    let mut reg = RootRegistry::new();
    let idx = reg.register_root("C".to_string());
    reg.mark_loading(idx);
    let api = TaskInnerApi { task: idx };
    api.set_error(&mut reg, "boom".to_string());
    reg.complete_body(idx);
    assert_eq!(reg.nodes[idx].data.state, TaskState::Error);
    assert_eq!(reg.nodes[idx].data.output, Some("boom".to_string()));
}

#[test]
fn failed_body_shows_fixed_diagnostic() {
    let mut reg = RootRegistry::new();
    let idx = reg.register_root("C".to_string());
    reg.mark_loading(idx);
    reg.record_failure(idx);
    assert_eq!(reg.nodes[idx].data.state, TaskState::Error);
    assert_eq!(reg.nodes[idx].data.output, Some("Task panicked".to_string()));
}

#[test]
fn last_write_wins_for_warning_then_error() {
    let mut reg = RootRegistry::new();
    let idx = reg.register_root("C".to_string());
    reg.mark_loading(idx);
    let api = TaskInnerApi { task: idx };
    api.set_warning(&mut reg, "first".to_string());
    api.set_error(&mut reg, "second".to_string());
    assert_eq!(reg.nodes[idx].data.state, TaskState::Error);
    assert_eq!(reg.nodes[idx].data.output, Some("second".to_string()));
}

#[test]
fn renderer_start_flag_flips_once() {
    let mut reg = RootRegistry::new();
    assert!(!reg.started);
    assert!(reg.claim_renderer_start());
    assert!(reg.started);
    assert!(!reg.claim_renderer_start());
    assert!(reg.started);
}

#[test]
fn children_keep_insertion_order_and_parent_link() {
    let mut reg = RootRegistry::new();
    let root = reg.register_root("P".to_string());
    let c1 = Task::add_child(&mut reg, root, "one".to_string());
    let c2 = Task::add_child(&mut reg, root, "two".to_string());
    assert_eq!(reg.nodes[root].data.children, vec![c1, c2]);
    assert_eq!(reg.nodes[c1].parent, Some(root));
    assert_eq!(reg.nodes[c2].parent, Some(root));
    assert_eq!(reg.nodes[c1].data.state, TaskState::Pending);
    assert_eq!(reg.nodes[c1].data.title, "one".to_string());
    assert_eq!(reg.roots, vec![root]);
}

#[test]
fn roots_are_append_only_in_call_order() {
    let mut reg = RootRegistry::new();
    let a = reg.register_root("A".to_string());
    let b = reg.register_root("B".to_string());
    let c = reg.register_root("C".to_string());
    assert_eq!(reg.roots, vec![a, b, c]);
    assert_eq!(reg.nodes[a].data.title, "A".to_string());
    assert_eq!(reg.nodes[b].data.title, "B".to_string());
    assert_eq!(reg.nodes[c].data.title, "C".to_string());
}
