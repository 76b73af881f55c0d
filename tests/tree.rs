use progress_view::line::Span;
use progress_view::tree::{App, Widget};
use progress_view::widget::WidgetType;

fn text(spans: &[Span]) -> String {
    spans.iter().map(|s| s.text.as_str()).collect()
}

fn family() -> Widget {
    Widget::new_task("root").add_children(vec![Widget::new_task("a"), Widget::new_task("b"), Widget::new_task("c")])
}

#[test]
fn empty_group_aggregates_to_done() {
    let mut t = Widget::new_task("group");
    let (done, active) = t.aggregate();
    assert!(done);
    assert!(!active);
    assert_eq!(t.widget, WidgetType::Task { done: false });
}

#[test]
fn tree_constructors() {
    assert_eq!(Widget::new_progress("p").widget, WidgetType::Percentage { progress: 0 });
    assert_eq!(Widget::new_discrete_progress("d", 4).widget, WidgetType::Progress { progress: 0, total: 4 });
    assert_eq!(Widget::new_text("t").widget, WidgetType::Text);
    assert_eq!(Widget::new_error("e").widget, WidgetType::Error);
    let w = Widget::new_task("r").add_child(Widget::new_text("x"));
    assert_eq!(w.children.len(), 1);
    assert_eq!(w.children[0].message, "x");
}

#[test]
fn tree_end_to_end() {
    let mut root = family();
    root.children[0].set_done();
    root.children[1].set_done();
    root.children[2].update_task_done(false);
    let (done, active) = root.aggregate();
    assert!(!done);
    assert!(active);
    assert!(!root.is_done());
    assert!(root.is_active());
    root.children[2].set_done();
    let (done, _) = root.aggregate();
    assert!(done);
    assert!(root.is_done());
    assert_eq!(text(&root.render(0)), "[\u{2713}] root");
}

#[test]
fn nested_leaf_not_done_blocks_root() {
    let mut root = Widget::new_text("header")
        .add_child(Widget::new_task("group").add_child(Widget::new_discrete_progress("files", 3)));
    let (done, active) = root.aggregate();
    assert!(!done);
    assert!(active);
    root.children[0].children[0].update_discrete_progress(3);
    let (done, _) = root.aggregate();
    assert!(done);
    assert!(root.children[0].is_done());
}

#[test]
fn tree_app_frame_has_guides() {
    let mut app = App::new();
    app.add_widget(family());
    app.add_widget(Widget::new_text("after"));
    let frame = app.render(0);
    assert!(!frame.done);
    assert_eq!(frame.move_up, 5);
    let lines: Vec<String> = frame.lines.iter().map(|l| text(l)).collect();
    assert_eq!(
        lines,
        vec![
            "[ ] root".to_string(),
            " \u{2514}\u{252c}\u{2500}[ ] a".to_string(),
            "  \u{251c}\u{2500}[ ] b".to_string(),
            "  \u{2514}\u{2500}[ ] c".to_string(),
            "after".to_string(),
        ]
    );
}

#[test]
fn tree_app_done_when_all_settled() {
    let mut app = App::new();
    let mut root = family();
    for c in root.children.iter_mut() {
        c.set_done();
    }
    app.add_widget(root);
    let frame = app.render(0);
    assert!(frame.done);
    assert!(app.widgets[0].is_done());
    assert!(text(&frame.lines[0]).starts_with("[\u{2713}]"));
}

#[test]
fn deeper_children_are_indented() {
    let mut app = App::new();
    app.add_widget(Widget::new_task("r").add_child(Widget::new_task("m").add_child(Widget::new_task("l"))));
    let frame = app.render(0);
    let lines: Vec<String> = frame.lines.iter().map(|l| text(l)).collect();
    assert_eq!(lines[2], "     \u{2514}\u{252c}\u{2500}[ ] l");
}

#[test]
fn tree_updates_and_set_done_twice() {
    let mut p = Widget::new_progress("p");
    p.update_progress(400);
    assert_eq!(p.widget, WidgetType::Percentage { progress: 400 });
    assert!(p.active);
    let mut t = Widget::new_task("t");
    t.update_discrete_progress(3);
    assert_eq!(t.widget, WidgetType::Task { done: false });
    assert!(!t.active);
    t.set_done();
    let once = t.widget;
    t.set_done();
    assert_eq!(t.widget, once);
    assert!(t.is_done() && t.is_active());
}

#[test]
fn tree_active_leaf_activates_ancestors_only() {
    let mut root = Widget::new_task("root").add_child(Widget::new_task("mid").add_child(Widget::new_task("leaf")));
    root.children[0].children[0].update_task_done(false);
    let (_, active) = root.aggregate();
    assert!(active);
    assert!(root.active);
    assert!(root.children[0].active);
    let mut idle = Widget::new_task("idle").add_child(Widget::new_task("leaf"));
    let (_, active) = idle.aggregate();
    assert!(!active);
    assert!(!idle.active);
}

#[test]
fn tree_finished_task_stays_done() {
    let mut t = Widget::new_task("t");
    t.set_done();
    t.update_task_done(false);
    assert!(t.is_done());
}

#[test]
fn tree_group_completed_this_tick_activates_its_parent() {
    let mut root = Widget::new_task("root").add_children(vec![
        Widget::new_task("group").add_child(Widget::new_discrete_progress("nothing to do", 0)),
        Widget::new_task("pending"),
    ]);
    let (done, active) = root.aggregate();
    assert!(!done);
    assert!(active);
    assert!(root.active);
    assert!(root.children[0].is_done());
}
