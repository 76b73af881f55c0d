//! A single displayable progress line and its state transitions.

use vstd::prelude::*;
use crate::bar::{BAR_WIDTH, bar_text, filled_halves, filled_len, percentage};
use crate::line::{Span, Style, glyph, glyph_span, span, view_spans};
use crate::text::{decimal, decimal_width, digit, digit_char, lemma_decimal_len_usize, pad_left, push_char, push_decimal, push_padding};

verus! {

/// Percentage progress is counted in thousandths: this value is complete.
pub const PERCENT_SCALE: u32 = 1000;

/// Percentage progress kept within `[0, PERCENT_SCALE]`.
pub open spec fn clamp_percent(progress: u32) -> u32 {
    if progress > PERCENT_SCALE {
        PERCENT_SCALE
    } else {
        progress
    }
}

/// What a widget shows, with only the fields that its kind needs.
#[derive(Clone, Copy, Debug, PartialEq, Eq, Structural)]
#[allow(inconsistent_fields)]
pub enum WidgetType {
    /// `{message}`
    Text,
    /// `[s] [━━━━━━━━[55.0%]        ] {message}`, progress in thousandths.
    Percentage { progress: u32 },
    /// `[s] [━━━━━╸  [ 5/20]         ] {message}`
    Progress { progress: usize, total: usize },
    /// `[s] {message}`
    Task { done: bool },
    /// `[⚠️] {message}`
    Error,
}

impl WidgetType {
    /// Whether a widget of this kind and state has completed. Text and error
    /// lines are informational and count as complete from the start.
    pub open spec fn spec_is_done(self) -> bool {
        match self {
            WidgetType::Text => true,
            WidgetType::Percentage { progress } => progress >= PERCENT_SCALE,
            WidgetType::Progress { progress, total } => progress >= total,
            WidgetType::Task { done } => done,
            WidgetType::Error => true,
        }
    }

    /// Whether the kind has no progress of its own (text and error lines).
    pub open spec fn is_informational(self) -> bool {
        self is Text || self is Error
    }

    /// The same kind, forced into its completed state.
    pub open spec fn completed(self) -> WidgetType {
        match self {
            WidgetType::Percentage { .. } => WidgetType::Percentage { progress: PERCENT_SCALE },
            WidgetType::Progress { total, .. } => WidgetType::Progress { progress: total, total },
            WidgetType::Task { .. } => WidgetType::Task { done: true },
            _ => self,
        }
    }
}

/// The label of a percentage bar: `[NN.N%]` from thousandths.
pub open spec fn percent_label(progress: u32) -> Seq<char> {
    seq!['['] + decimal((progress / 10) as nat) + seq!['.', digit_char((progress % 10) as nat), '%', ']']
}

/// The label of a discrete bar: `[i/total]`, `i` padded on the left to the
/// digit width of `total`.
pub open spec fn fraction_label(progress: usize, total: usize) -> Seq<char> {
    seq!['['] + pad_left(decimal(progress as nat), decimal(total as nat).len()) + seq!['/'] + decimal(
        total as nat,
    ) + seq![']']
}

/// The width of a bar that carries `label`: the usual width, widened when
/// the label is longer.
pub open spec fn bar_width_for(label: Seq<char>) -> nat {
    if label.len() > BAR_WIDTH {
        label.len()
    } else {
        BAR_WIDTH as nat
    }
}

/// A line with a status glyph, a bar at `done` of `total` and a message.
pub open spec fn meter_line(
    glyph: (Seq<char>, Style),
    done: nat,
    total: nat,
    label: Seq<char>,
    message: Seq<char>,
) -> Seq<(Seq<char>, Style)> {
    let width = bar_width_for(label);
    let halves = filled_halves(done, total, width);
    let bar = bar_text(halves, width, label);
    let k = filled_len(halves) as int;
    seq![
        (seq!['['], Style::Plain),
        glyph,
        (seq![']', ' ', '['], Style::Plain),
        (bar.take(k), Style::Green),
        (bar.skip(k), Style::Plain),
        (seq![']', ' '] + message, Style::Plain),
    ]
}

/// The warning sign in front of an error line.
pub open spec fn error_prefix() -> Seq<char> {
    seq!['[', '\u{26a0}', '\u{fe0f}', ']', ' ']
}

fn percent_label_string(progress: u32) -> (r: String)
    ensures
        r@ == percent_label(progress),
{
    let mut s = String::new();
    push_char(&mut s, '[');
    push_decimal(&mut s, (progress / 10) as usize);
    push_char(&mut s, '.');
    push_char(&mut s, digit((progress % 10) as usize));
    push_char(&mut s, '%');
    push_char(&mut s, ']');
    assert(s@ =~= percent_label(progress));
    s
}

fn fraction_label_string(progress: usize, total: usize) -> (r: String)
    ensures
        r@ == fraction_label(progress, total),
{
    let mut s = String::new();
    push_char(&mut s, '[');
    push_padding(&mut s, decimal_width(progress), decimal_width(total));
    push_decimal(&mut s, progress);
    push_char(&mut s, '/');
    push_decimal(&mut s, total);
    push_char(&mut s, ']');
    assert(s@ =~= fraction_label(progress, total));
    s
}

/// `prefix` followed by `message`.
fn prefixed(prefix: &str, message: &String) -> (r: String)
    ensures
        r@ == prefix@ + message@,
{
    let mut s = prefix.to_string();
    s.append(message.as_str());
    s
}

/// The styled text of the line of a widget of `kind`, with its `active`
/// flag and `message`, at `now_ms` milliseconds since the epoch.
pub open spec fn render_line(kind: WidgetType, active: bool, message: Seq<char>, now_ms: u64) -> Seq<(Seq<char>, Style)> {
    let g = glyph(active, kind.spec_is_done(), now_ms);
    match kind {
        WidgetType::Text => seq![(message, Style::Plain)],
        WidgetType::Percentage { progress } => meter_line(
            g,
            progress as nat,
            PERCENT_SCALE as nat,
            percent_label(progress),
            message,
        ),
        WidgetType::Progress { progress, total } => meter_line(
            g,
            progress as nat,
            total as nat,
            fraction_label(progress, total),
            message,
        ),
        WidgetType::Task { .. } => seq![
            (seq!['['], Style::Plain),
            g,
            (seq![']', ' '] + message, Style::Plain),
        ],
        WidgetType::Error => seq![(error_prefix() + message, Style::Red)],
    }
}

/// The longest label a bar can carry: two 20-digit numbers, a slash and
/// the brackets.
pub const LONGEST_LABEL: usize = 43;

/// `kind` forced into its completed state.
pub fn completed_kind(kind: WidgetType) -> (r: WidgetType)
    ensures
        r == kind.completed(),
{
    match kind {
        WidgetType::Text => WidgetType::Text,
        WidgetType::Percentage { .. } => WidgetType::Percentage { progress: PERCENT_SCALE },
        WidgetType::Progress { total, .. } => WidgetType::Progress { progress: total, total },
        WidgetType::Task { .. } => WidgetType::Task { done: true },
        WidgetType::Error => WidgetType::Error,
    }
}

/// Whether a widget of `kind` has completed.
pub fn kind_is_done(kind: WidgetType) -> (r: bool)
    ensures
        r == kind.spec_is_done(),
{
    match kind {
        WidgetType::Text => true,
        WidgetType::Percentage { progress } => progress >= PERCENT_SCALE,
        WidgetType::Progress { progress, total } => progress >= total,
        WidgetType::Task { done } => done,
        WidgetType::Error => true,
    }
}

fn meter(
    kind: WidgetType,
    active: bool,
    message: &String,
    now_ms: u64,
    done: usize,
    total: usize,
    label: String,
) -> (r: Vec<Span>)
    requires
        label@.len() <= LONGEST_LABEL,
    ensures
        view_spans(r@) == meter_line(
            glyph(active, kind.spec_is_done(), now_ms),
            done as nat,
            total as nat,
            label@,
            message@,
        ),
{
    let lw = label.as_str().unicode_len();
    let width = if lw > BAR_WIDTH {
        lw
    } else {
        BAR_WIDTH
    };
    let (filled, rest) = percentage(done, total, width, label.as_str());
    let mut open = String::new();
    push_char(&mut open, '[');
    let mut mid = String::new();
    push_char(&mut mid, ']');
    push_char(&mut mid, ' ');
    push_char(&mut mid, '[');
    let mut v = Vec::new();
    v.push(span(open, Style::Plain));
    v.push(glyph_span(active, kind_is_done(kind), now_ms));
    v.push(span(mid, Style::Plain));
    v.push(span(filled, Style::Green));
    v.push(span(rest, Style::Plain));
    v.push(span(prefixed("] ", message), Style::Plain));
    proof {
        reveal_strlit("] ");
        assert("] "@ =~= seq![']', ' ']);
        assert(width as nat == bar_width_for(label@));
        assert(open@ =~= seq!['[']);
        assert(mid@ =~= seq![']', ' ', '[']);
    }
    assert(view_spans(v@) =~= meter_line(
        glyph(active, kind.spec_is_done(), now_ms),
        done as nat,
        total as nat,
        label@,
        message@,
    ));
    v
}

/// The styled text of the line of a widget of `kind`; `now_ms`,
/// milliseconds since the epoch, picks the spinner frame.
pub fn render_kind(kind: WidgetType, active: bool, message: &String, now_ms: u64) -> (r: Vec<Span>)
    ensures
        view_spans(r@) == render_line(kind, active, message@, now_ms),
{
    let mut v = Vec::new();
    match kind {
        WidgetType::Text => {
            v.push(span(message.clone(), Style::Plain));
        },
        WidgetType::Percentage { progress } => {
            let label = percent_label_string(progress);
            proof {
                lemma_decimal_len_usize((progress / 10) as usize);
            }
            v = meter(kind, active, message, now_ms, progress as usize, PERCENT_SCALE as usize, label);
        },
        WidgetType::Progress { progress, total } => {
            let label = fraction_label_string(progress, total);
            proof {
                lemma_decimal_len_usize(progress);
                lemma_decimal_len_usize(total);
            }
            v = meter(kind, active, message, now_ms, progress, total, label);
        },
        WidgetType::Task { .. } => {
            let mut open = String::new();
            push_char(&mut open, '[');
            v.push(span(open, Style::Plain));
            v.push(glyph_span(active, kind_is_done(kind), now_ms));
            v.push(span(prefixed("] ", message), Style::Plain));
            proof {
                reveal_strlit("] ");
                assert("] "@ =~= seq![']', ' ']);
                assert(open@ =~= seq!['[']);
            }
        },
        WidgetType::Error => {
            proof {
                reveal_strlit("[\u{26a0}\u{fe0f}] ");
                assert("[\u{26a0}\u{fe0f}] "@ =~= error_prefix());
            }
            v.push(span(prefixed("[\u{26a0}\u{fe0f}] ", message), Style::Red));
        },
    }
    assert(view_spans(v@) =~= render_line(kind, active, message@, now_ms));
    v
}

/// One line of the display, tagged with its nesting depth: a widget's
/// descendants are the widgets that follow it with a greater indent.
#[derive(Debug)]
pub struct Widget {
    pub widget: WidgetType,
    pub active: bool,
    pub message: String,
    pub indent: usize,
}

impl Widget {
    pub open spec fn spec_is_done(&self) -> bool {
        self.widget.spec_is_done()
    }

    /// The styled text of this widget's line at `now_ms` milliseconds since
    /// the epoch.
    pub open spec fn spec_render(&self, now_ms: u64) -> Seq<(Seq<char>, Style)> {
        render_line(self.widget, self.active, self.message@, now_ms)
    }

    pub open spec fn spec_is_active(&self) -> bool {
        self.widget.is_informational() || self.active
    }

    /// The state after `set_done`.
    pub open spec fn completed(self) -> Widget {
        Widget { widget: self.widget.completed(), active: true, message: self.message, indent: self.indent }
    }

    /// The state after setting the active flag.
    pub open spec fn activated(self) -> Widget {
        Widget { widget: self.widget, active: true, message: self.message, indent: self.indent }
    }

    fn new(message: &str, indent: usize, widget: WidgetType) -> (r: Self)
        ensures
            r.widget == widget,
            !r.active,
            r.message@ == message@,
            r.indent == indent,
    {
        Widget { widget, active: false, message: message.to_string(), indent }
    }

    /// Creates a new text widget.
    pub fn new_text(message: &str, indent: usize) -> (r: Self)
        ensures
            r.widget == WidgetType::Text,
            !r.active,
            r.message@ == message@,
            r.indent == indent,
    {
        Self::new(message, indent, WidgetType::Text)
    }

    /// Creates a new discrete progress widget, at `0` of `total`.
    pub fn new_progress(message: &str, indent: usize, total: usize) -> (r: Self)
        ensures
            r.widget == (WidgetType::Progress { progress: 0, total }),
            !r.active,
            r.message@ == message@,
            r.indent == indent,
    {
        Self::new(message, indent, WidgetType::Progress { progress: 0, total })
    }

    /// Creates a new percentage widget, at zero.
    pub fn new_percentage(message: &str, indent: usize) -> (r: Self)
        ensures
            r.widget == (WidgetType::Percentage { progress: 0 }),
            !r.active,
            r.message@ == message@,
            r.indent == indent,
    {
        Self::new(message, indent, WidgetType::Percentage { progress: 0 })
    }

    /// Creates a new task widget, not done.
    pub fn new_task(message: &str, indent: usize) -> (r: Self)
        ensures
            r.widget == (WidgetType::Task { done: false }),
            !r.active,
            r.message@ == message@,
            r.indent == indent,
    {
        Self::new(message, indent, WidgetType::Task { done: false })
    }

    /// Creates a new error widget.
    pub fn new_error(message: &str, indent: usize) -> (r: Self)
        ensures
            r.widget == WidgetType::Error,
            !r.active,
            r.message@ == message@,
            r.indent == indent,
    {
        Self::new(message, indent, WidgetType::Error)
    }

    /// Sets the progress, in thousandths, of a percentage widget and marks it
    /// active; progress past `PERCENT_SCALE` is clamped to it. Other kinds are
    /// left as they are.
    pub fn update_progress(&mut self, progress: u32)
        ensures
            old(self).widget is Percentage ==> *final(self) == (Widget {
                widget: WidgetType::Percentage { progress: clamp_percent(progress) },
                ..old(self).activated()
            }),
            !(old(self).widget is Percentage) ==> *final(self) == *old(self),
    {
        if let WidgetType::Percentage { .. } = self.widget {
            self.active = true;
            let progress = if progress > PERCENT_SCALE {
                PERCENT_SCALE
            } else {
                progress
            };
            self.widget = WidgetType::Percentage { progress };
        }
    }

    /// Sets the progress of a discrete progress widget and marks it active;
    /// other kinds are left as they are.
    pub fn update_discrete_progress(&mut self, progress: usize)
        ensures
            old(self).widget matches WidgetType::Progress { total, .. } ==> *final(self) == (Widget {
                widget: WidgetType::Progress { progress, total },
                ..old(self).activated()
            }),
            !(old(self).widget is Progress) ==> *final(self) == *old(self),
    {
        if let WidgetType::Progress { total, .. } = self.widget {
            self.active = true;
            self.widget = WidgetType::Progress { progress, total };
        }
    }

    /// Sets whether a task widget is done and marks it active; other kinds
    /// are left as they are. A task that is done stays done.
    pub fn update_task_done(&mut self, done: bool)
        ensures
            old(self).widget matches WidgetType::Task { done: was_done } ==> *final(self) == (Widget {
                widget: WidgetType::Task { done: done || was_done },
                ..old(self).activated()
            }),
            !(old(self).widget is Task) ==> *final(self) == *old(self),
    {
        if let WidgetType::Task { done: was_done } = self.widget {
            self.active = true;
            self.widget = WidgetType::Task { done: done || was_done };
        }
    }

    /// Whether this widget has completed.
    #[verifier::when_used_as_spec(spec_is_done)]
    pub fn is_done(&self) -> (r: bool)
        ensures
            r == self.spec_is_done(),
    {
        kind_is_done(self.widget)
    }

    /// Whether this widget should animate; widgets that do not track
    /// progress are always active.
    #[verifier::when_used_as_spec(spec_is_active)]
    pub fn is_active(&self) -> (r: bool)
        ensures
            r == self.spec_is_active(),
    {
        match self.widget {
            WidgetType::Text => true,
            WidgetType::Percentage { .. } => self.active,
            WidgetType::Progress { .. } => self.active,
            WidgetType::Task { .. } => self.active,
            WidgetType::Error => true,
        }
    }

    /// Forces the widget into its completed state and marks it active.
    pub fn set_done(&mut self)
        ensures
            *final(self) == old(self).completed(),
            final(self).is_done(),
            final(self).is_active(),
    {
        self.active = true;
        self.widget = completed_kind(self.widget);
    }

    /// The styled text of this widget's line; `now_ms`, milliseconds since
    /// the epoch, picks the spinner frame.
    pub fn render(&self, now_ms: u64) -> (r: Vec<Span>)
        ensures
            view_spans(r@) == self.spec_render(now_ms),
    {
        render_kind(self.widget, self.active, &self.message, now_ms)
    }

    /// Replaces the display text; done and active are unchanged.
    pub fn set_message(&mut self, message: &str)
        ensures
            final(self).message@ == message@,
            final(self).widget == old(self).widget,
            final(self).active == old(self).active,
            final(self).indent == old(self).indent,
    {
        self.message = message.to_string();
    }
}

/// Completing a widget twice leaves it as completing it once, whatever its
/// kind.
pub proof fn lemma_set_done_idempotent(w: Widget)
    ensures
        w.completed().completed() == w.completed(),
        w.widget.completed().completed() == w.widget.completed(),
        w.completed().spec_is_done(),
{
}

impl PartialEq for Widget {
    fn eq(&self, other: &Widget) -> (r: bool)
        ensures
            r == (self.widget == other.widget && self.active == other.active && self.message@
                == other.message@ && self.indent == other.indent),
    {
        self.widget == other.widget && self.active == other.active && self.message == other.message
            && self.indent == other.indent
    }
}

impl vstd::std_specs::cmp::PartialEqSpecImpl for Widget {
    open spec fn obeys_eq_spec() -> bool {
        true
    }

    open spec fn eq_spec(&self, other: &Widget) -> bool {
        self.widget == other.widget && self.active == other.active && self.message@ == other.message@
            && self.indent == other.indent
    }
}

} // verus!
