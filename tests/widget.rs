use progress_view::bar::percentage;
use progress_view::line::{Span, Style};
use progress_view::text::decimal_width;
use progress_view::widget::{Widget, WidgetType, PERCENT_SCALE};

fn text(spans: &[Span]) -> String {
    spans.iter().map(|s| s.text.as_str()).collect()
}

fn every_kind() -> Vec<Widget> {
    vec![
        Widget::new_text("t", 0),
        Widget::new_percentage("p", 0),
        Widget::new_progress("d", 0, 20),
        Widget::new_task("k", 0),
        Widget::new_error("e", 0),
    ]
}

#[test]
fn test_make_widget() {
    let task = Widget::new_task("Lorem ipsum", 0);
    assert_eq!(task.widget, WidgetType::Task { done: false });
    assert_eq!(task.message, "Lorem ipsum");
    assert_eq!(task.indent, 0);
    assert!(!task.active);
    let text = Widget::new_text("Lorem ipsum", 0);
    assert_eq!(text.widget, WidgetType::Text);
    assert_eq!(text.message, "Lorem ipsum");
    let progress = Widget::new_progress("Lorem ipsum", 0, 100);
    assert_eq!(progress.widget, WidgetType::Progress { progress: 0, total: 100 });
    assert_eq!(progress.message, "Lorem ipsum");
    let percentage = Widget::new_percentage("Lorem ipsum", 0);
    assert_eq!(percentage.widget, WidgetType::Percentage { progress: 0 });
    assert_eq!(percentage.message, "Lorem ipsum");
    assert!(!percentage.active);
}

#[test]
fn finished_task_stays_done() {
    let mut t = Widget::new_task("t", 0);
    t.update_task_done(true);
    t.update_task_done(false);
    assert!(t.is_done());
    assert_eq!(t.widget, WidgetType::Task { done: true });
}

#[test]
fn constructors_start_idle_and_not_done() {
    let w = Widget::new_task("root", 2);
    assert_eq!(w.widget, WidgetType::Task { done: false });
    assert!(!w.active);
    assert_eq!(w.message, "root");
    assert_eq!(w.indent, 2);
    assert!(!w.is_done());
    assert!(!w.is_active());
    let p = Widget::new_progress("p", 0, 100);
    assert_eq!(p.widget, WidgetType::Progress { progress: 0, total: 100 });
    assert!(!p.is_done());
    assert_eq!(Widget::new_percentage("q", 0).widget, WidgetType::Percentage { progress: 0 });
    assert_ne!(Widget::new_task("a", 0), Widget::new_task("b", 0));
}

#[test]
fn informational_kinds_are_done_and_active() {
    for w in [Widget::new_text("t", 0), Widget::new_error("e", 0)] {
        assert!(w.is_done());
        assert!(w.is_active());
    }
}

#[test]
fn done_follows_each_kind() {
    let mut p = Widget::new_percentage("p", 0);
    p.update_progress(999);
    assert!(!p.is_done());
    p.update_progress(PERCENT_SCALE);
    assert!(p.is_done());
    let mut d = Widget::new_progress("d", 0, 20);
    d.update_discrete_progress(19);
    assert!(!d.is_done());
    d.update_discrete_progress(25);
    assert!(d.is_done());
    let mut t = Widget::new_task("t", 0);
    t.update_task_done(true);
    assert!(t.is_done());
    assert!(Widget::new_progress("zero", 0, 0).is_done());
}

#[test]
fn updates_touch_only_their_kind() {
    let mut t = Widget::new_task("t", 0);
    t.update_progress(500);
    t.update_discrete_progress(3);
    assert_eq!(t, Widget::new_task("t", 0));
    let mut p = Widget::new_percentage("p", 0);
    p.update_progress(250);
    assert_eq!(p.widget, WidgetType::Percentage { progress: 250 });
    assert!(p.active);
}

#[test]
fn set_done_completes_every_kind() {
    for mut w in every_kind() {
        w.set_done();
        assert!(w.is_done());
        assert!(w.is_active());
        assert!(w.active);
    }
    let mut d = Widget::new_progress("d", 0, 20);
    d.set_done();
    assert_eq!(d.widget, WidgetType::Progress { progress: 20, total: 20 });
    let mut p = Widget::new_percentage("p", 0);
    p.set_done();
    assert_eq!(p.widget, WidgetType::Percentage { progress: PERCENT_SCALE });
}

#[test]
fn set_done_twice_equals_once() {
    for w in every_kind() {
        let mut once = Widget { widget: w.widget, active: w.active, message: w.message.clone(), indent: 0 };
        let mut twice = Widget { widget: w.widget, active: w.active, message: w.message.clone(), indent: 0 };
        once.set_done();
        twice.set_done();
        twice.set_done();
        assert_eq!(once, twice);
    }
}

#[test]
fn set_message_keeps_status() {
    let mut t = Widget::new_task("before", 1);
    t.update_task_done(true);
    t.set_message("after");
    assert_eq!(t.message, "after");
    assert_eq!(t.widget, WidgetType::Task { done: true });
    assert!(t.active);
    assert_eq!(t.indent, 1);
}

#[test]
fn task_glyph_idle_spinner_and_check() {
    let mut t = Widget::new_task("job", 0);
    assert_eq!(text(&t.render(0)), "[ ] job");
    t.update_task_done(false);
    assert_eq!(text(&t.render(0)), "[\u{280b}] job");
    assert_eq!(text(&t.render(150)), "[\u{2819}] job");
    assert_eq!(text(&t.render(550)), "[\u{2846}] job");
    assert_eq!(text(&t.render(600)), "[\u{280b}] job");
    t.set_done();
    let spans = t.render(0);
    assert_eq!(text(&spans), "[\u{2713}] job");
    assert_eq!(spans[1].style, Style::Green);
}

#[test]
fn text_and_error_lines() {
    let spans = Widget::new_text("hello", 0).render(0);
    assert_eq!(spans.len(), 1);
    assert_eq!(text(&spans), "hello");
    assert_eq!(spans[0].style, Style::Plain);
    let spans = Widget::new_error("oops", 0).render(0);
    assert_eq!(text(&spans), "[\u{26a0}\u{fe0f}] oops");
    assert_eq!(spans[0].style, Style::Red);
}

#[test]
fn bar_at_zero_is_unfilled() {
    let (filled, rest) = percentage(0, 1000, 25, "[0.0%]");
    assert_eq!(filled, "");
    assert_eq!(rest, format!("{}[0.0%]{}", " ".repeat(9), " ".repeat(10)));
}

#[test]
fn bar_at_one_is_filled() {
    let (filled, rest) = percentage(1000, 1000, 25, "[100.0%]");
    assert_eq!(filled, format!("{}[100.0%]{}", "\u{2501}".repeat(8), "\u{2501}".repeat(9)));
    assert_eq!(rest, "");
}

#[test]
fn bar_at_half_splits_at_twelve_and_a_half() {
    let (filled, rest) = percentage(500, 1000, 25, "[50.0%]");
    assert_eq!(filled.chars().count(), 13);
    assert_eq!(filled, format!("{}[50.", "\u{2501}".repeat(9)));
    assert_eq!(rest, format!("0%]{}", " ".repeat(9)));
    let (filled, rest) = percentage(500, 1000, 25, "");
    assert_eq!(filled, format!("{}\u{2578}", "\u{2501}".repeat(12)));
    assert_eq!(rest, " ".repeat(12));
}

#[test]
fn bar_half_tick_left_of_label() {
    let (filled, rest) = percentage(1, 10, 25, "[ 1/10]");
    assert_eq!(filled, format!("{}\u{2578}", "\u{2501}".repeat(2)));
    assert_eq!(rest, format!("{}[ 1/10]{}", " ".repeat(6), " ".repeat(9)));
}

#[test]
fn percentage_line() {
    let mut p = Widget::new_percentage("copy", 0);
    p.update_progress(555);
    let spans = p.render(0);
    assert_eq!(spans.len(), 6);
    assert_eq!(spans[3].style, Style::Green);
    let line = text(&spans);
    assert!(line.starts_with("[\u{280b}] ["));
    assert!(line.contains("[55.5%]"));
    assert!(line.ends_with("] copy"));
    assert_eq!(spans[3].text.chars().count() + spans[4].text.chars().count(), 25);
    assert_eq!(spans[3].text.chars().count(), 14);
}

#[test]
fn progress_line_pads_to_digit_width() {
    let mut d = Widget::new_progress("files", 0, 20);
    d.update_discrete_progress(5);
    let line = text(&d.render(0));
    assert!(line.contains("[ 5/20]"));
    let mut e = Widget::new_progress("files", 0, 100);
    e.update_discrete_progress(7);
    assert!(text(&e.render(0)).contains("[  7/100]"));
    d.set_done();
    let spans = d.render(0);
    assert!(text(&spans).starts_with("[\u{2713}]"));
    assert_eq!(spans[4].text, "");
}

#[test]
fn wide_labels_widen_the_bar() {
    let mut d = Widget::new_progress("big", 0, usize::MAX);
    d.update_discrete_progress(1);
    let spans = d.render(0);
    let width = spans[3].text.chars().count() + spans[4].text.chars().count();
    assert_eq!(width, 43);
}

#[test]
fn digit_widths() {
    assert_eq!(decimal_width(0), 1);
    assert_eq!(decimal_width(9), 1);
    assert_eq!(decimal_width(10), 2);
    assert_eq!(decimal_width(100), 3);
    assert_eq!(decimal_width(usize::MAX), 20);
}

#[test]
fn percentage_progress_is_clamped() {
    let mut p = Widget::new_percentage("p", 0);
    p.update_progress(2000);
    assert_eq!(p.widget, WidgetType::Percentage { progress: PERCENT_SCALE });
    let mut t = progress_view::tree::Widget::new_progress("p");
    t.update_progress(1500);
    assert_eq!(t.widget, WidgetType::Percentage { progress: PERCENT_SCALE });
    t.update_progress(300);
    assert_eq!(t.widget, WidgetType::Percentage { progress: 300 });
}
