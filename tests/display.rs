use progress_view::display::{App, UpdateError};
use progress_view::line::Span;
use progress_view::update::{Update, WidgetUpdate};
use progress_view::widget::Widget;

fn text(spans: &[Span]) -> String {
    spans.iter().map(|s| s.text.as_str()).collect()
}

fn app_with(widgets: Vec<Widget>) -> App {
    let mut app = App::new();
    app.add_widgets(widgets);
    app
}

fn one_root_three_children() -> App {
    app_with(vec![
        Widget::new_task("root", 0),
        Widget::new_task("a", 1),
        Widget::new_task("b", 1),
        Widget::new_task("c", 1),
    ])
}

#[test]
fn add_widget_returns_index() {
    let mut app = App::new();
    assert_eq!(app.add_widget(Widget::new_task("a", 0)), 0);
    assert_eq!(app.add_widget(Widget::new_task("b", 1)), 1);
    assert_eq!(app.widgets.len(), 2);
}

#[test]
fn root_done_once_every_leaf_is_done() {
    let mut app = app_with(vec![
        Widget::new_task("root", 0),
        Widget::new_task("group", 1),
        Widget::new_task("leaf 1", 2),
        Widget::new_task("leaf 2", 2),
        Widget::new_text("note", 1),
    ]);
    app.widgets[2].set_done();
    assert!(!app.update_widget_status());
    assert!(!app.widgets[0].is_done());
    assert!(!app.widgets[1].is_done());
    app.widgets[3].set_done();
    assert!(app.update_widget_status());
    assert!(app.widgets[0].is_done());
    assert!(app.widgets[1].is_done());
}

#[test]
fn one_leaf_not_done_keeps_root_not_done() {
    let mut app = app_with(vec![Widget::new_task("root", 0), Widget::new_task("a", 1), Widget::new_progress("b", 1, 3)]);
    app.widgets[1].set_done();
    app.widgets[2].update_discrete_progress(2);
    assert!(!app.update_widget_status());
    assert!(!app.widgets[0].is_done());
}

#[test]
fn text_header_does_not_hide_pending_children() {
    let mut app = app_with(vec![Widget::new_text("header", 0), Widget::new_task("work", 1)]);
    assert!(!app.all_done());
    assert!(!app.update_widget_status());
}

#[test]
fn active_descendant_activates_every_ancestor() {
    let mut app = app_with(vec![
        Widget::new_task("root", 0),
        Widget::new_task("mid", 1),
        Widget::new_task("leaf", 2),
        Widget::new_task("other", 0),
    ]);
    app.widgets[2].update_task_done(false);
    app.update_widget_status();
    assert!(app.widgets[0].active);
    assert!(app.widgets[1].active);
    assert!(!app.widgets[3].active);
}

#[test]
fn no_active_descendant_keeps_own_flag() {
    let mut app = app_with(vec![Widget::new_task("root", 0), Widget::new_task("leaf", 1)]);
    app.update_widget_status();
    assert!(!app.widgets[0].active);
    app.widgets[0].active = true;
    app.update_widget_status();
    assert!(app.widgets[0].active);
}

#[test]
fn end_to_end_root_with_three_children() {
    let mut app = one_root_three_children();
    let updates = vec![
        WidgetUpdate::new(Update::SetDone, 1),
        WidgetUpdate::new(Update::SetDone, 2),
        WidgetUpdate::new(Update::SetActive, 3),
    ];
    let frame = app.tick(&updates, 0);
    assert!(!frame.done);
    assert!(!app.widgets[0].is_done());
    assert!(app.widgets[0].is_active());
    assert_eq!(text(&frame.lines[0]), "[\u{280b}] root");
    let frame = app.tick(&vec![WidgetUpdate::new(Update::SetDone, 3)], 0);
    assert!(frame.done);
    assert!(app.widgets[0].is_done());
    assert_eq!(text(&app.widgets[0].render(0)), "[\u{2713}] root");
    assert_eq!(text(&frame.lines[0]), "[\u{2713}] root");
}

#[test]
fn updates_apply_in_send_order() {
    let mut app = one_root_three_children();
    let updates = vec![
        WidgetUpdate::new(Update::set_message("first"), 1),
        WidgetUpdate::new(Update::SetActive, 1),
        WidgetUpdate::new(Update::SetDone, 1),
        WidgetUpdate::new(Update::set_message("last"), 1),
    ];
    app.apply_updates(&updates);
    assert_eq!(app.widgets[1].message, "last");
    assert!(app.widgets[1].is_done());
    assert!(app.widgets[1].is_active());
    assert_eq!(app.widgets[2].message, "b");
}

#[test]
fn unknown_widget_is_reported_and_nothing_applies() {
    let mut app = one_root_three_children();
    let updates = vec![
        WidgetUpdate::new(Update::SetDone, 1),
        WidgetUpdate::new(Update::SetDone, 9),
        WidgetUpdate::new(Update::SetDone, 7),
    ];
    assert_eq!(app.first_unknown_target(&updates), Some(9));
    assert_eq!(app.first_unknown_target(&updates[..1].to_vec()), None);
    let s = app.update_sender(1);
    s.sender.try_send(s.message(Update::SetDone)).unwrap();
    s.sender.try_send(WidgetUpdate::new(Update::SetDone, 9)).unwrap();
    assert_eq!(app.render(0).err(), Some(UpdateError::UnknownWidget(9)));
    assert!(!app.widgets[1].is_done());
}

#[test]
fn channel_updates_are_drained_each_tick() {
    let mut app = one_root_three_children();
    let s = app.update_sender(2);
    assert_eq!(s.index, 2);
    s.sender.try_send(s.message(Update::SetActive)).unwrap();
    s.sender.try_send(s.message(Update::set_message("one"))).unwrap();
    s.sender.try_send(s.message(Update::set_message("two"))).unwrap();
    s.sender.try_send(s.message(Update::SetDone)).unwrap();
    let frame = app.render(0).unwrap();
    assert_eq!(app.widgets[2].message, "two");
    assert!(app.widgets[2].is_done());
    assert!(!frame.done);
    assert_eq!(app.receive_updates().len(), 0);
}

#[test]
fn render_with_an_empty_channel_only_aggregates() {
    let mut app = app_with(vec![Widget::new_task("root", 0), Widget::new_text("info", 1)]);
    let frame = app.render(0).unwrap();
    assert!(frame.done);
    assert!(app.widgets[0].is_done());
}

#[test]
fn frame_lines_carry_indent_guides() {
    let mut app = app_with(vec![Widget::new_task("root", 0), Widget::new_task("child", 1), Widget::new_task("grandchild", 2)]);
    let frame = app.tick(&Vec::new(), 0);
    assert_eq!(frame.move_up, 3);
    assert_eq!(frame.lines.len(), 3);
    assert_eq!(text(&frame.lines[0]), "[ ] root");
    assert_eq!(text(&frame.lines[1]), " \u{2022} [ ] child");
    assert_eq!(text(&frame.lines[2]), "    \u{2022} [ ] grandchild");
}

#[test]
fn empty_display_is_done() {
    let mut app = App::new();
    let frame = app.tick(&Vec::new(), 0);
    assert!(frame.done);
    assert_eq!(frame.move_up, 0);
}

#[test]
fn update_constructors() {
    let u = WidgetUpdate::new(Update::set_message("hi"), 4);
    assert_eq!(u.index, 4);
    assert!(matches!(u.update_type, Update::SetMessage(ref m) if m == "hi"));
    assert!(matches!(WidgetUpdate::new(Update::SetDone, 0).update_type, Update::SetDone));
}

#[test]
fn group_completed_this_tick_activates_its_parent() {
    let mut app = app_with(vec![
        Widget::new_task("root", 0),
        Widget::new_task("group", 1),
        Widget::new_progress("nothing to do", 2, 0),
        Widget::new_task("pending", 1),
    ]);
    assert!(!app.update_widget_status());
    assert!(app.widgets[1].is_done());
    assert!(app.widgets[1].active);
    assert!(app.widgets[0].active);
    assert!(!app.widgets[0].is_done());
}
