use tasuku_rs::renderer::split_lines;
use tasuku_rs::Renderer;
use tasuku_rs::RootRegistry;
use tasuku_rs::Task;
use tasuku_rs::TaskInnerApi;

fn roots_of(reg: &RootRegistry) -> Vec<usize> {
    reg.roots.clone()
}

#[test]
fn split_lines_basic() {
    assert_eq!(split_lines("a\nb"), vec!["a".to_string(), "b".to_string()]);
    assert_eq!(split_lines("a\r\nb"), vec!["a".to_string(), "b".to_string()]);
    assert_eq!(split_lines("a\n"), vec!["a".to_string()]);
    assert_eq!(split_lines(""), Vec::<String>::new());
    assert_eq!(split_lines("a\r"), vec!["a\r".to_string()]);
    assert_eq!(split_lines("\n\n"), vec!["".to_string(), "".to_string()]);
}

#[test]
fn final_frame_for_plain_success() {
    let mut reg = RootRegistry::new();
    let idx = reg.register_root("A".to_string());
    reg.mark_loading(idx);
    reg.complete_body(idx);
    let mut renderer = Renderer::new(roots_of(&reg));
    let (erase, lines) = renderer.render(&reg);
    assert_eq!(erase, 0);
    assert_eq!(lines, vec!["✔ A".to_string()]);
}

#[test]
fn final_frame_with_status_and_output() {
    let mut reg = RootRegistry::new();
    let idx = reg.register_root("B".to_string());
    reg.mark_loading(idx);
    let api = TaskInnerApi { task: idx };
    api.set_status(&mut reg, "installing...".to_string());
    api.set_status(&mut reg, "finished".to_string());
    api.set_output(&mut reg, "Installed 5 packages".to_string());
    reg.complete_body(idx);
    let mut renderer = Renderer::new(roots_of(&reg));
    let (_, lines) = renderer.render(&reg);
    assert_eq!(
        lines,
        vec!["✔ B [finished]".to_string(), "  → Installed 5 packages".to_string()]
    );
}

#[test]
fn final_frame_for_warning() {
    let mut reg = RootRegistry::new();
    let idx = reg.register_root("C".to_string());
    reg.mark_loading(idx);
    let api = TaskInnerApi { task: idx };
    api.set_warning(&mut reg, "flaky".to_string());
    reg.complete_body(idx);
    let mut renderer = Renderer::new(roots_of(&reg));
    let (_, lines) = renderer.render(&reg);
    assert_eq!(lines, vec!["⚠ C".to_string(), "  → flaky".to_string()]);
}

#[test]
fn final_frame_for_failed_body() {
    let mut reg = RootRegistry::new();
    let idx = reg.register_root("C".to_string());
    reg.mark_loading(idx);
    reg.record_failure(idx);
    let mut renderer = Renderer::new(roots_of(&reg));
    let (_, lines) = renderer.render(&reg);
    assert_eq!(lines, vec!["✖ C".to_string(), "  → Task panicked".to_string()]);
}

#[test]
fn roots_render_in_registration_order() {
    let mut reg = RootRegistry::new();
    let a = reg.register_root("A".to_string());
    let b = reg.register_root("B".to_string());
    let c = reg.register_root("C".to_string());
    reg.mark_loading(a);
    reg.mark_loading(b);
    reg.mark_loading(c);
    // completion in reverse order does not reorder the rendered tree
    reg.complete_body(c);
    reg.complete_body(b);
    reg.complete_body(a);
    let mut renderer = Renderer::new(roots_of(&reg));
    let (_, lines) = renderer.render(&reg);
    assert_eq!(
        lines,
        vec!["✔ A".to_string(), "✔ B".to_string(), "✔ C".to_string()]
    );
}

#[test]
fn redraw_differs_only_in_spinner() {
    let mut reg = RootRegistry::new();
    let spin = reg.register_root("L".to_string());
    let done = reg.register_root("D".to_string());
    reg.mark_loading(spin);
    reg.mark_loading(done);
    reg.complete_body(done);
    let mut renderer = Renderer::new(roots_of(&reg));
    let (_, first) = renderer.render(&reg);
    let (_, second) = renderer.render(&reg);
    assert_eq!(first.len(), second.len());
    // the loading leaf animates...
    assert_eq!(first[0], "⠋ L".to_string());
    assert_eq!(second[0], "⠙ L".to_string());
    // ...while every settled line is identical
    assert_eq!(first[1], second[1]);
    assert_eq!(first[1], "✔ D".to_string());
}

#[test]
fn erase_count_equals_previous_frame_lines() {
    let mut reg = RootRegistry::new();
    let idx = reg.register_root("A".to_string());
    reg.mark_loading(idx);
    let api = TaskInnerApi { task: idx };
    api.set_output(&mut reg, "one\ntwo".to_string());
    let mut renderer = Renderer::new(roots_of(&reg));
    let (erase1, frame1) = renderer.render(&reg);
    assert_eq!(erase1, 0);
    assert_eq!(frame1.len(), 3);
    let (erase2, frame2) = renderer.render(&reg);
    assert_eq!(erase2, frame1.len());
    let (erase3, _) = renderer.render(&reg);
    assert_eq!(erase3, frame2.len());
}

#[test]
fn multi_line_output_prefixes_only_first_line() {
    let mut reg = RootRegistry::new();
    let idx = reg.register_root("A".to_string());
    reg.mark_loading(idx);
    let api = TaskInnerApi { task: idx };
    api.set_output(&mut reg, "one\ntwo".to_string());
    reg.complete_body(idx);
    let mut renderer = Renderer::new(roots_of(&reg));
    let (_, lines) = renderer.render(&reg);
    assert_eq!(
        lines,
        vec!["✔ A".to_string(), "  → one".to_string(), "  two".to_string()]
    );
}

#[test]
fn parent_with_children_uses_pointer_icon_and_indents() {
    let mut reg = RootRegistry::new();
    let root = reg.register_root("P".to_string());
    let child = Task::add_child(&mut reg, root, "C".to_string());
    reg.mark_loading(root);
    let mut renderer = Renderer::new(roots_of(&reg));
    let (_, lines) = renderer.render(&reg);
    // a loading node with children shows the pointer, not the spinner;
    // the pending child sits one indent level deeper
    assert_eq!(lines, vec!["❯ P".to_string(), "  ◼ C".to_string()]);
    reg.mark_loading(child);
    reg.complete_body(child);
    reg.complete_body(root);
    let (_, done) = renderer.render(&reg);
    assert_eq!(done, vec!["❯ P".to_string(), "  ✔ C".to_string()]);
}

#[test]
fn grandchild_renders_two_levels_deep() {
    let mut reg = RootRegistry::new();
    let root = reg.register_root("P".to_string());
    let child = Task::add_child(&mut reg, root, "C".to_string());
    let grandchild = Task::add_child(&mut reg, child, "G".to_string());
    reg.mark_loading(grandchild);
    reg.complete_body(grandchild);
    let api = TaskInnerApi { task: grandchild };
    api.set_output(&mut reg, "done".to_string());
    let mut renderer = Renderer::new(roots_of(&reg));
    let (_, lines) = renderer.render(&reg);
    assert_eq!(
        lines,
        vec![
            "◼ P".to_string(),
            "  ◼ C".to_string(),
            "    ✔ G".to_string(),
            "      → done".to_string(),
        ]
    );
}

#[test]
fn title_update_shows_in_next_frame() {
    let mut reg = RootRegistry::new();
    let idx = reg.register_root("old name".to_string());
    reg.mark_loading(idx);
    reg.complete_body(idx);
    let mut renderer = Renderer::new(roots_of(&reg));
    let (_, before) = renderer.render(&reg);
    assert_eq!(before, vec!["✔ old name".to_string()]);
    let api = TaskInnerApi { task: idx };
    api.set_title(&mut reg, "new name".to_string());
    let (_, after) = renderer.render(&reg);
    assert_eq!(after, vec!["✔ new name".to_string()]);
}

#[test]
fn pending_node_shows_square_icon() {
    let mut reg = RootRegistry::new();
    reg.register_root("A".to_string());
    let mut renderer = Renderer::new(roots_of(&reg));
    let (_, lines) = renderer.render(&reg);
    assert_eq!(lines, vec!["◼ A".to_string()]);
}

#[test]
fn spinner_wraps_after_ten_frames() {
    let mut reg = RootRegistry::new();
    let idx = reg.register_root("L".to_string());
    reg.mark_loading(idx);
    let mut renderer = Renderer::new(roots_of(&reg));
    let expected = ["⠋", "⠙", "⠹", "⠸", "⠼", "⠴", "⠦", "⠧", "⠇", "⠏", "⠋"];
    for want in expected.iter() {
        let (_, lines) = renderer.render(&reg);
        assert_eq!(lines[0], format!("{} L", want));
    }
}

#[test]
fn refresh_adopts_new_roots_only_on_length_change() {
    let mut reg = RootRegistry::new();
    let a = reg.register_root("A".to_string());
    let mut renderer = Renderer::new(roots_of(&reg));
    renderer.refresh_tasks(roots_of(&reg));
    assert_eq!(renderer.tasks, vec![a]);
    let b = reg.register_root("B".to_string());
    renderer.refresh_tasks(roots_of(&reg));
    assert_eq!(renderer.tasks, vec![a, b]);
    let (_, lines) = renderer.render(&reg);
    assert_eq!(lines, vec!["◼ A".to_string(), "◼ B".to_string()]);
}
