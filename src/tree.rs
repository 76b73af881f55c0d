//! The widget tree: each widget owns its children, and a parent takes its
//! status from the widgets below it.

use vstd::prelude::*;
use crate::line::{Span, Style, view_spans};
use crate::text::{push_char, push_repeat, repeat};
use crate::display::Frame;
use crate::widget::{PERCENT_SCALE, WidgetType, clamp_percent, completed_kind, kind_is_done, render_kind, render_line};

verus! {

/// A widget of the tree, with the children it owns, in display order.
#[derive(Debug)]
pub struct Widget {
    pub widget: WidgetType,
    pub message: String,
    pub active: bool,
    pub children: Vec<Widget>,
}

/// Whether the subtree of `w` counts as done for the widget above it: a
/// leaf by its own state, a parent when all its children are.
pub open spec fn settled(w: Widget) -> bool
    decreases w,
{
    if w.children@.len() == 0 {
        w.spec_is_done()
    } else {
        all_settled(w.children@)
    }
}

/// Whether every subtree of `cs` is settled.
pub open spec fn all_settled(cs: Seq<Widget>) -> bool
    decreases cs,
{
    if cs.len() == 0 {
        true
    } else {
        all_settled(cs.drop_last()) && settled(cs.last())
    }
}

/// Whether `w` is active once an aggregation pass is over: it is active
/// already, the pass completes it (which marks it active), or some widget
/// below it ends the pass active.
pub open spec fn busy(w: Widget) -> bool
    decreases w,
{
    w.spec_is_active() || (w.children@.len() > 0 && all_settled(w.children@)) || any_busy(w.children@)
}

/// Whether some subtree of `cs` holds an active widget.
pub open spec fn any_busy(cs: Seq<Widget>) -> bool
    decreases cs,
{
    if cs.len() == 0 {
        false
    } else {
        any_busy(cs.drop_last()) || busy(cs.last())
    }
}

/// Whether `post` is the subtree of `w` after one aggregation pass: each
/// parent becomes done when its children are settled and active when a
/// widget below it is active, judged by the state before the pass. Leaves
/// keep their state.
pub open spec fn aggregates_to(w: Widget, post: Widget) -> bool
    decreases w,
{
    &&& all_aggregate(w.children@, post.children@)
    &&& post.message == w.message
    &&& if w.children@.len() == 0 {
        post.widget == w.widget && post.active == w.active
    } else {
        &&& post.widget == if all_settled(w.children@) { w.widget.completed() } else { w.widget }
        &&& post.active == (w.active || all_settled(w.children@) || any_busy(w.children@))
    }
}

/// Whether `ps` are the subtrees of `cs` after one aggregation pass.
pub open spec fn all_aggregate(cs: Seq<Widget>, ps: Seq<Widget>) -> bool
    decreases cs,
{
    if cs.len() == 0 {
        ps.len() == 0
    } else {
        &&& ps.len() == cs.len()
        &&& all_aggregate(cs.drop_last(), ps.drop_last())
        &&& aggregates_to(cs.last(), ps.last())
    }
}

/// The guide in front of child `i` of `n`, under a parent whose own guide
/// was indented by `pad`: the first child branches down, the last one ends
/// the branch, the others continue it.
pub open spec fn guide(pad: Seq<char>, i: int, n: int) -> Seq<char> {
    if i == 0 {
        pad + seq![' ', '\u{2514}', '\u{252c}', '\u{2500}']
    } else {
        pad + seq![' ', ' ', if i == n - 1 { '\u{2514}' } else { '\u{251c}' }, '\u{2500}']
    }
}

/// The line of `w` behind `prefix`.
pub open spec fn node_line(w: Widget, prefix: Seq<char>, now_ms: u64) -> Seq<(Seq<char>, Style)> {
    if prefix.len() == 0 {
        w.spec_render(now_ms)
    } else {
        seq![(prefix, Style::Plain)] + w.spec_render(now_ms)
    }
}

/// The lines of the subtree of `w` in pre-order: its own line behind
/// `prefix`, then each child's subtree behind its guide, indented by `pad`.
pub open spec fn tree_lines(w: Widget, prefix: Seq<char>, pad: Seq<char>, now_ms: u64) -> Seq<
    Seq<(Seq<char>, Style)>,
>
    decreases w,
{
    seq![node_line(w, prefix, now_ms)] + children_lines(w.children@, w.children@.len() as int, pad, now_ms)
}

/// The lines of the subtrees of `cs`, the first children of a parent with
/// `n` children.
pub open spec fn children_lines(cs: Seq<Widget>, n: int, pad: Seq<char>, now_ms: u64) -> Seq<
    Seq<(Seq<char>, Style)>,
>
    decreases cs,
{
    if cs.len() == 0 {
        Seq::empty()
    } else {
        children_lines(cs.drop_last(), n, pad, now_ms) + tree_lines(
            cs.last(),
            guide(pad, cs.len() - 1, n),
            pad + repeat(' ', 4),
            now_ms,
        )
    }
}

/// The text and style of each span of each line.
pub open spec fn view_lines(lines: Seq<Vec<Span>>) -> Seq<Seq<(Seq<char>, Style)>> {
    lines.map_values(|l: Vec<Span>| view_spans(l@))
}

/// Each child lies below its parent, for recursion over the tree.
proof fn lemma_children_smaller(w: Widget)
    ensures
        forall|i: int| 0 <= i < w.children@.len() ==> decreases_to!(w => #[trigger] w.children@[i]),
{
    assert forall|i: int| 0 <= i < w.children@.len() implies decreases_to!(w => #[trigger] w.children@[i]) by {
        assert(decreases_to!(w => w.children));
        assert(decreases_to!(w.children => w.children@[i]));
    }
}

/// `all_settled` holds exactly when each subtree is settled.
pub proof fn lemma_all_settled(cs: Seq<Widget>)
    ensures
        all_settled(cs) == forall|i: int| 0 <= i < cs.len() ==> #[trigger] settled(cs[i]),
    decreases cs.len(),
{
    if cs.len() > 0 {
        let init = cs.drop_last();
        lemma_all_settled(init);
        if all_settled(cs) {
            assert forall|i: int| 0 <= i < cs.len() implies #[trigger] settled(cs[i]) by {
                if i < cs.len() - 1 {
                    assert(settled(init[i]));
                }
            }
        }
        if forall|i: int| 0 <= i < cs.len() ==> #[trigger] settled(cs[i]) {
            assert(settled(cs[cs.len() - 1]));
            assert forall|i: int| 0 <= i < init.len() implies #[trigger] settled(init[i]) by {
                assert(settled(cs[i]));
            }
        }
    }
}

/// `any_busy` holds exactly when some subtree is busy.
pub proof fn lemma_any_busy(cs: Seq<Widget>)
    ensures
        any_busy(cs) == exists|i: int| 0 <= i < cs.len() && #[trigger] busy(cs[i]),
    decreases cs.len(),
{
    if cs.len() > 0 {
        let init = cs.drop_last();
        lemma_any_busy(init);
        if any_busy(init) {
            let i = choose|i: int| 0 <= i < init.len() && #[trigger] busy(init[i]);
            assert(busy(cs[i]));
        }
        if busy(cs.last()) {
            assert(busy(cs[cs.len() - 1]));
        }
        if exists|i: int| 0 <= i < cs.len() && #[trigger] busy(cs[i]) {
            let i = choose|i: int| 0 <= i < cs.len() && #[trigger] busy(cs[i]);
            if i < cs.len() - 1 {
                assert(busy(init[i]));
            }
        }
    }
}

/// Renders the guide in front of child `i` of `n`.
fn guide_string(pad: &String, i: usize, n: usize) -> (r: String)
    ensures
        r@ == guide(pad@, i as int, n as int),
{
    let mut s = pad.clone();
    push_char(&mut s, ' ');
    if i == 0 {
        push_char(&mut s, '\u{2514}');
        push_char(&mut s, '\u{252c}');
    } else {
        push_char(&mut s, ' ');
        push_char(&mut s, if n > 0 && i == n - 1 { '\u{2514}' } else { '\u{251c}' });
    }
    push_char(&mut s, '\u{2500}');
    assert(s@ =~= guide(pad@, i as int, n as int));
    s
}

impl Widget {
    pub open spec fn spec_is_done(&self) -> bool {
        self.widget.spec_is_done()
    }

    pub open spec fn spec_is_active(&self) -> bool {
        self.widget.is_informational() || self.active
    }

    /// The styled text of this widget's own line.
    pub open spec fn spec_render(&self, now_ms: u64) -> Seq<(Seq<char>, Style)> {
        render_line(self.widget, self.active, self.message@, now_ms)
    }

    /// The widget of `widget` kind showing `message`, with no children.
    pub fn new(message: &str, widget: WidgetType) -> (r: Self)
        ensures
            r.widget == widget,
            !r.active,
            r.message@ == message@,
            r.children@.len() == 0,
    {
        Widget { widget, message: message.to_string(), active: false, children: Vec::new() }
    }

    /// Creates a new text widget.
    pub fn new_text(message: &str) -> (r: Self)
        ensures
            r.widget == WidgetType::Text,
            !r.active,
            r.message@ == message@,
            r.children@.len() == 0,
    {
        Self::new(message, WidgetType::Text)
    }

    /// Creates a new percentage widget, at zero.
    pub fn new_progress(message: &str) -> (r: Self)
        ensures
            r.widget == (WidgetType::Percentage { progress: 0 }),
            !r.active,
            r.message@ == message@,
            r.children@.len() == 0,
    {
        Self::new(message, WidgetType::Percentage { progress: 0 })
    }

    /// Creates a new discrete progress widget, at `0` of `total`.
    pub fn new_discrete_progress(message: &str, total: usize) -> (r: Self)
        ensures
            r.widget == (WidgetType::Progress { progress: 0, total }),
            !r.active,
            r.message@ == message@,
            r.children@.len() == 0,
    {
        Self::new(message, WidgetType::Progress { progress: 0, total })
    }

    /// Creates a new task widget, not done.
    pub fn new_task(message: &str) -> (r: Self)
        ensures
            r.widget == (WidgetType::Task { done: false }),
            !r.active,
            r.message@ == message@,
            r.children@.len() == 0,
    {
        Self::new(message, WidgetType::Task { done: false })
    }

    /// Creates a new error widget.
    pub fn new_error(message: &str) -> (r: Self)
        ensures
            r.widget == WidgetType::Error,
            !r.active,
            r.message@ == message@,
            r.children@.len() == 0,
    {
        Self::new(message, WidgetType::Error)
    }

    /// Sets the progress, in thousandths, of a percentage widget and marks it
    /// active; progress past `PERCENT_SCALE` is clamped to it. Other kinds are
    /// left as they are.
    pub fn update_progress(&mut self, progress: u32)
        ensures
            old(self).widget is Percentage ==> final(self).widget == (WidgetType::Percentage {
                progress: clamp_percent(progress),
            }) && final(self).active,
            !(old(self).widget is Percentage) ==> final(self).widget == old(self).widget && final(self).active
                == old(self).active,
            final(self).message == old(self).message,
            final(self).children == old(self).children,
    {
        if let WidgetType::Percentage { .. } = self.widget {
            self.active = true;
            let progress = if progress > PERCENT_SCALE {
                PERCENT_SCALE
            } else {
                progress
            };
            self.widget = WidgetType::Percentage { progress };
        }
    }

    /// Sets the progress of a discrete progress widget and marks it active;
    /// other kinds are left as they are.
    pub fn update_discrete_progress(&mut self, progress: usize)
        ensures
            old(self).widget matches WidgetType::Progress { total, .. } ==> final(self).widget == (WidgetType::Progress {
                progress,
                total,
            }) && final(self).active,
            !(old(self).widget is Progress) ==> final(self).widget == old(self).widget && final(self).active
                == old(self).active,
            final(self).message == old(self).message,
            final(self).children == old(self).children,
    {
        if let WidgetType::Progress { total, .. } = self.widget {
            self.active = true;
            self.widget = WidgetType::Progress { progress, total };
        }
    }

    /// Sets whether a task widget is done and marks it active; other kinds
    /// are left as they are. A task that is done stays done.
    pub fn update_task_done(&mut self, done: bool)
        ensures
            old(self).widget matches WidgetType::Task { done: was_done } ==> final(self).widget == (WidgetType::Task {
                done: done || was_done,
            }) && final(self).active,
            !(old(self).widget is Task) ==> final(self).widget == old(self).widget && final(self).active
                == old(self).active,
            final(self).message == old(self).message,
            final(self).children == old(self).children,
    {
        if let WidgetType::Task { done: was_done } = self.widget {
            self.active = true;
            self.widget = WidgetType::Task { done: done || was_done };
        }
    }

    /// Adds `widget` as the last child.
    pub fn add_child(self, widget: Widget) -> (r: Self)
        ensures
            r.children@ == self.children@.push(widget),
            r.widget == self.widget,
            r.active == self.active,
            r.message == self.message,
    {
        let mut w = self;
        w.children.push(widget);
        w
    }

    /// Adds `children` after the existing children, in order.
    pub fn add_children(self, children: Vec<Widget>) -> (r: Self)
        ensures
            r.children@ == self.children@ + children@,
            r.widget == self.widget,
            r.active == self.active,
            r.message == self.message,
    {
        let mut w = self;
        let mut children = children;
        w.children.append(&mut children);
        w
    }

    /// Whether this widget has completed.
    #[verifier::when_used_as_spec(spec_is_done)]
    pub fn is_done(&self) -> (r: bool)
        ensures
            r == self.spec_is_done(),
    {
        kind_is_done(self.widget)
    }

    /// Whether this widget should animate; widgets that do not track
    /// progress are always active.
    #[verifier::when_used_as_spec(spec_is_active)]
    pub fn is_active(&self) -> (r: bool)
        ensures
            r == self.spec_is_active(),
    {
        match self.widget {
            WidgetType::Text => true,
            WidgetType::Error => true,
            _ => self.active,
        }
    }

    /// Forces the widget into its completed state and marks it active.
    pub fn set_done(&mut self)
        ensures
            final(self).widget == old(self).widget.completed(),
            final(self).active,
            final(self).message == old(self).message,
            final(self).children == old(self).children,
    {
        self.active = true;
        self.widget = completed_kind(self.widget);
    }

    /// One aggregation pass over this subtree, children first. Returns the
    /// aggregate done status (all children settled, so true for a widget
    /// without children) and whether this widget is active after the pass.
    /// Children are aggregated first, so a child that the pass completes
    /// counts as active for its parent.
    pub fn aggregate(&mut self) -> (r: (bool, bool))
        ensures
            r.0 == all_settled(old(self).children@),
            r.1 == busy(*old(self)),
            aggregates_to(*old(self), *final(self)),
        decreases *old(self),
    {
        let ghost pre = *self;
        proof {
            lemma_children_smaller(pre);
        }
        let own_active = self.is_active();
        let n = self.children.len();
        let mut done = true;
        let mut active = false;
        let mut i: usize = 0;
        while i < n
            invariant
                i <= n,
                n == pre.children@.len(),
                *old(self) == pre,
                forall|k: int| 0 <= k < n ==> decreases_to!(pre => #[trigger] pre.children@[k]),
                self.children@.len() == n,
                self.widget == pre.widget,
                self.active == pre.active,
                self.message == pre.message,
                all_aggregate(pre.children@.take(i as int), self.children@.take(i as int)),
                forall|k: int| i <= k < n ==> #[trigger] self.children@[k] == pre.children@[k],
                done == all_settled(pre.children@.take(i as int)),
                active == any_busy(pre.children@.take(i as int)),
            decreases n - i,
        {
            let ghost before = self.children@[i as int];
            let ghost done_so_far = self.children@.take(i as int);
            let (child_done, child_active) = self.children[i].aggregate();
            let settled_now = if self.children[i].children.len() == 0 {
                self.children[i].is_done()
            } else {
                child_done
            };
            proof {
                let after = self.children@[i as int];
                assert(before == pre.children@[i as int]);
                assert(pre.children@.take(i + 1).drop_last() =~= pre.children@.take(i as int));
                assert(self.children@.take(i + 1).drop_last() =~= done_so_far);
                assert(pre.children@.take(i + 1).last() == before);
                assert(self.children@.take(i + 1).last() == after);
                assert(settled_now == settled(before));
            }
            if !settled_now {
                done = false;
            }
            if child_active {
                active = true;
            }
            i = i + 1;
        }
        proof {
            assert(pre.children@.take(n as int) =~= pre.children@);
            assert(self.children@.take(n as int) =~= self.children@);
        }
        if n > 0 {
            if done {
                self.set_done();
            }
            if active {
                self.active = true;
            }
        }
        (done, own_active || (n > 0 && done) || active)
    }

    /// The spans of this widget's own line.
    pub fn render(&self, now_ms: u64) -> (r: Vec<Span>)
        ensures
            view_spans(r@) == self.spec_render(now_ms),
    {
        render_kind(self.widget, self.active, &self.message, now_ms)
    }

    /// Appends the lines of this subtree in pre-order: this widget's line
    /// behind `prefix`, then each child's subtree behind its guide.
    pub fn render_into(&self, prefix: &String, pad: &String, now_ms: u64, out: &mut Vec<Vec<Span>>)
        ensures
            view_lines(final(out)@) == view_lines(old(out)@) + tree_lines(*self, prefix@, pad@, now_ms),
        decreases *self,
    {
        proof {
            lemma_children_smaller(*self);
        }
        let mut line = Vec::new();
        if prefix.as_str().unicode_len() > 0 {
            line.push(Span { text: prefix.clone(), style: Style::Plain });
        }
        let mut own = self.render(now_ms);
        let ghost first = line@;
        let ghost tail = own@;
        line.append(&mut own);
        assert(view_spans(line@) =~= view_spans(first) + view_spans(tail));
        assert(view_spans(line@) =~= node_line(*self, prefix@, now_ms));
        let ghost start = out@;
        out.push(line);
        assert(view_lines(out@) =~= view_lines(start) + seq![node_line(*self, prefix@, now_ms)]);
        let mut deeper = pad.clone();
        push_repeat(&mut deeper, ' ', 4);
        let n = self.children.len();
        let mut i: usize = 0;
        while i < n
            invariant
                i <= n,
                n == self.children@.len(),
                forall|k: int| 0 <= k < n ==> decreases_to!(*self => #[trigger] self.children@[k]),
                deeper@ == pad@ + repeat(' ', 4),
                view_lines(out@) == view_lines(start) + seq![node_line(*self, prefix@, now_ms)]
                    + children_lines(self.children@.take(i as int), n as int, pad@, now_ms),
            decreases n - i,
        {
            let g = guide_string(pad, i, n);
            let ghost before = out@;
            self.children[i].render_into(&g, &deeper, now_ms, out);
            proof {
                let cs = self.children@.take(i + 1);
                assert(cs.drop_last() =~= self.children@.take(i as int));
                assert(cs.last() == self.children@[i as int]);
                assert(cs.len() - 1 == i);
            }
            i = i + 1;
        }
        assert(self.children@.take(n as int) =~= self.children@);
        assert(view_lines(out@) =~= view_lines(start) + tree_lines(*self, prefix@, pad@, now_ms));
    }
}

/// The lines of the trees `roots`, one after the other.
pub open spec fn forest_lines(roots: Seq<Widget>, now_ms: u64) -> Seq<Seq<(Seq<char>, Style)>>
    decreases roots.len(),
{
    if roots.len() == 0 {
        Seq::empty()
    } else {
        forest_lines(roots.drop_last(), now_ms) + tree_lines(roots.last(), Seq::empty(), Seq::empty(), now_ms)
    }
}

/// A display made of trees of widgets, owned top-down.
pub struct App {
    pub widgets: Vec<Widget>,
}

impl App {
    /// A display with no widgets.
    pub fn new() -> (r: Self)
        ensures
            r.widgets@.len() == 0,
    {
        App { widgets: Vec::new() }
    }

    /// Adds a tree after the existing ones.
    pub fn add_widget(&mut self, widget: Widget)
        ensures
            final(self).widgets@ == old(self).widgets@.push(widget),
    {
        self.widgets.push(widget);
    }

    /// One tick: aggregates every tree, children first, and returns the frame
    /// to paint, with the lines of every tree in pre-order. The display is
    /// done when every tree is settled.
    pub fn render(&mut self, now_ms: u64) -> (r: Frame)
        ensures
            all_aggregate(old(self).widgets@, final(self).widgets@),
            r.done == all_settled(old(self).widgets@),
            view_lines(r.lines@) == forest_lines(final(self).widgets@, now_ms),
            r.move_up == r.lines@.len(),
    {
        let ghost pre = self.widgets@;
        let n = self.widgets.len();
        let mut done = true;
        let mut i: usize = 0;
        while i < n
            invariant
                i <= n,
                n == pre.len(),
                self.widgets@.len() == n,
                all_aggregate(pre.take(i as int), self.widgets@.take(i as int)),
                forall|k: int| i <= k < n ==> #[trigger] self.widgets@[k] == pre[k],
                done == all_settled(pre.take(i as int)),
            decreases n - i,
        {
            let ghost before = self.widgets@[i as int];
            let ghost done_so_far = self.widgets@.take(i as int);
            let (child_done, _) = self.widgets[i].aggregate();
            let settled_now = if self.widgets[i].children.len() == 0 {
                self.widgets[i].is_done()
            } else {
                child_done
            };
            proof {
                let after = self.widgets@[i as int];
                assert(pre.take(i + 1).drop_last() =~= pre.take(i as int));
                assert(self.widgets@.take(i + 1).drop_last() =~= done_so_far);
                assert(pre.take(i + 1).last() == before);
                assert(self.widgets@.take(i + 1).last() == after);
                assert(settled_now == settled(before));
            }
            if !settled_now {
                done = false;
            }
            i = i + 1;
        }
        proof {
            assert(pre.take(n as int) =~= pre);
            assert(self.widgets@.take(n as int) =~= self.widgets@);
        }
        let mut lines: Vec<Vec<Span>> = Vec::new();
        let empty = String::new();
        let mut k: usize = 0;
        while k < n
            invariant
                k <= n,
                n == self.widgets@.len(),
                empty@ == Seq::<char>::empty(),
                view_lines(lines@) == forest_lines(self.widgets@.take(k as int), now_ms),
            decreases n - k,
        {
            self.widgets[k].render_into(&empty, &empty, now_ms, &mut lines);
            proof {
                let ws = self.widgets@.take(k + 1);
                assert(ws.drop_last() =~= self.widgets@.take(k as int));
                assert(ws.last() == self.widgets@[k as int]);
            }
            k = k + 1;
        }
        assert(self.widgets@.take(n as int) =~= self.widgets@);
        let count = lines.len();
        Frame { done, move_up: count, lines }
    }
}

/// The widget reached from `w` by following `path`, one child index per
/// level, if there is one.
pub open spec fn node_at(w: Widget, path: Seq<int>) -> Option<Widget>
    decreases path.len(),
{
    if path.len() == 0 {
        Some(w)
    } else if 0 <= path[0] < w.children@.len() {
        node_at(w.children@[path[0]], path.drop_first())
    } else {
        None
    }
}

/// Whether `o` is no widget, a widget with children, or a done leaf.
pub open spec fn leaf_ok(o: Option<Widget>) -> bool {
    match o {
        Some(l) => l.children@.len() == 0 ==> l.spec_is_done(),
        None => true,
    }
}

/// Whether `o` is an active widget.
pub open spec fn active_node(o: Option<Widget>) -> bool {
    match o {
        Some(d) => d.spec_is_active(),
        None => false,
    }
}

/// Whether every leaf of the tree of `w` is done.
pub open spec fn leaves_done(w: Widget) -> bool {
    forall|p: Seq<int>| #[trigger] leaf_ok(node_at(w, p))
}

/// Whether some widget of the tree of `w` is active.
pub open spec fn has_active(w: Widget) -> bool {
    exists|p: Seq<int>| #[trigger] active_node(node_at(w, p))
}

/// Following child `i` first, then `q`.
proof fn lemma_node_at_child(w: Widget, i: int, q: Seq<int>)
    requires
        0 <= i < w.children@.len(),
    ensures
        node_at(w, seq![i] + q) == node_at(w.children@[i], q),
{
    assert((seq![i] + q).drop_first() =~= q);
}

/// A subtree is settled exactly when all of its leaves are done.
pub proof fn lemma_settled_iff_leaves_done(w: Widget)
    ensures
        settled(w) == leaves_done(w),
    decreases w,
{
    lemma_children_smaller(w);
    let cs = w.children@;
    if cs.len() == 0 {
        assert(node_at(w, Seq::empty()) == Some(w));
        if w.spec_is_done() {
            assert forall|p: Seq<int>| #[trigger] leaf_ok(node_at(w, p)) by {
                if p.len() > 0 {
                    assert(node_at(w, p) is None);
                }
            }
        }
        if leaves_done(w) {
            assert(leaf_ok(node_at(w, Seq::empty())));
        }
    } else {
        lemma_all_settled(cs);
        assert forall|i: int| 0 <= i < cs.len() implies #[trigger] settled(cs[i]) == leaves_done(cs[i]) by {
            lemma_settled_iff_leaves_done(cs[i]);
        }
        assert(settled(w) == all_settled(cs));
        if settled(w) {
            assert forall|p: Seq<int>| #[trigger] leaf_ok(node_at(w, p)) by {
                if p.len() > 0 && 0 <= p[0] < cs.len() {
                    assert(settled(cs[p[0]]));
                    assert(leaves_done(cs[p[0]]));
                    assert(node_at(w, p) == node_at(cs[p[0]], p.drop_first()));
                    assert(leaf_ok(node_at(cs[p[0]], p.drop_first())));
                }
            }
        }
        if leaves_done(w) {
            assert forall|i: int| 0 <= i < cs.len() implies #[trigger] settled(cs[i]) by {
                assert forall|q: Seq<int>| #[trigger] leaf_ok(node_at(cs[i], q)) by {
                    lemma_node_at_child(w, i, q);
                    assert(leaf_ok(node_at(w, seq![i] + q)));
                }
            }
        }
    }
}

/// A subtree with an active widget in it is busy.
pub proof fn lemma_has_active_busy(w: Widget)
    ensures
        has_active(w) ==> busy(w),
    decreases w,
{
    lemma_children_smaller(w);
    let cs = w.children@;
    lemma_any_busy(cs);
    assert forall|i: int| 0 <= i < cs.len() implies has_active(cs[i]) ==> #[trigger] busy(cs[i]) by {
        lemma_has_active_busy(cs[i]);
    }
    if has_active(w) && !w.spec_is_active() {
        let p = choose|p: Seq<int>| #[trigger] active_node(node_at(w, p));
        assert(node_at(w, Seq::empty()) == Some(w));
        assert(p.len() > 0);
        assert(0 <= p[0] < cs.len());
        assert(node_at(cs[p[0]], p.drop_first()) == node_at(w, p));
        assert(active_node(node_at(cs[p[0]], p.drop_first())));
        assert(has_active(cs[p[0]]));
        assert(busy(cs[p[0]]));
        assert(any_busy(cs));
    }
}

/// Aggregation reaches the root: the aggregate done status of a widget with
/// children holds exactly when every leaf below it is done, and then the
/// widget itself is done after the pass. (A widget without children
/// aggregates to done whatever its own state, so it is left out here.)
pub proof fn lemma_aggregation_reaches_root(root: Widget, post: Widget)
    requires
        root.children@.len() > 0,
        aggregates_to(root, post),
    ensures
        all_settled(root.children@) == leaves_done(root),
        leaves_done(root) ==> post.spec_is_done() && post.spec_is_active(),
{
    lemma_settled_iff_leaves_done(root);
}

/// Activity reaches every ancestor: a widget with an active widget below it
/// is active after the pass. With nothing active below it, its active flag
/// stays as it was set, unless all its children are settled (completing a
/// widget also marks it active).
pub proof fn lemma_active_reaches_ancestors(w: Widget, post: Widget)
    requires
        aggregates_to(w, post),
    ensures
        (exists|p: Seq<int>| p.len() > 0 && #[trigger] active_node(node_at(w, p))) ==> {
            &&& post.active
            &&& post.spec_is_active()
        },
        !any_busy(w.children@) && !(w.children@.len() > 0 && all_settled(w.children@)) ==> post.active == w.active,
{
    lemma_children_smaller(w);
    let cs = w.children@;
    if exists|p: Seq<int>| p.len() > 0 && #[trigger] active_node(node_at(w, p)) {
        let p = choose|p: Seq<int>| p.len() > 0 && #[trigger] active_node(node_at(w, p));
        assert(0 <= p[0] < cs.len());
        let c = cs[p[0]];
        assert(node_at(c, p.drop_first()) == node_at(w, p));
        assert(active_node(node_at(c, p.drop_first())));
        assert(has_active(c));
        lemma_has_active_busy(c);
        lemma_any_busy(cs);
    }
}

/// `all_aggregate` holds exactly when the lists are as long and each
/// subtree aggregates to the one at its place.
pub proof fn lemma_all_aggregate(cs: Seq<Widget>, ps: Seq<Widget>)
    ensures
        all_aggregate(cs, ps) == (ps.len() == cs.len() && forall|i: int|
            0 <= i < cs.len() ==> #[trigger] aggregates_to(cs[i], ps[i])),
    decreases cs.len(),
{
    if cs.len() > 0 {
        let (ci, pi) = (cs.drop_last(), ps.drop_last());
        lemma_all_aggregate(ci, pi);
        if all_aggregate(cs, ps) {
            assert forall|i: int| 0 <= i < cs.len() implies #[trigger] aggregates_to(cs[i], ps[i]) by {
                if i < cs.len() - 1 {
                    assert(aggregates_to(ci[i], pi[i]));
                }
            }
        }
        if ps.len() == cs.len() && forall|i: int| 0 <= i < cs.len() ==> #[trigger] aggregates_to(cs[i], ps[i]) {
            assert(aggregates_to(cs[cs.len() - 1], ps[ps.len() - 1]));
            assert forall|i: int| 0 <= i < ci.len() implies #[trigger] aggregates_to(ci[i], pi[i]) by {
                assert(aggregates_to(cs[i], ps[i]));
            }
        }
    }
}

/// Whether `o` is a widget whose active flag is set.
pub open spec fn flag_set(o: Option<Widget>) -> bool {
    match o {
        Some(a) => a.active,
        None => false,
    }
}

/// Activity reaches every ancestor: when the widget at `p` below `w` is
/// active, every widget on the way down to it, from `w` on, has its active
/// flag set after the pass.
pub proof fn lemma_active_reaches_path(w: Widget, post: Widget, p: Seq<int>, k: int)
    requires
        aggregates_to(w, post),
        p.len() > 0,
        active_node(node_at(w, p)),
        0 <= k < p.len(),
    ensures
        flag_set(node_at(post, p.take(k))),
    decreases p.len(),
{
    if k == 0 {
        assert(p.take(0) =~= Seq::<int>::empty());
        lemma_active_reaches_ancestors(w, post);
        assert(p.len() > 0 && active_node(node_at(w, p)));
    } else {
        lemma_children_smaller(w);
        let cs = w.children@;
        let i = p[0];
        assert(0 <= i < cs.len());
        assert(all_aggregate(cs, post.children@));
        lemma_all_aggregate(cs, post.children@);
        let c = cs[i];
        let pc = post.children@[i];
        assert(aggregates_to(c, pc));
        let q = p.drop_first();
        assert(node_at(w, p) == node_at(c, q));
        assert(p.take(k).drop_first() =~= q.take(k - 1));
        assert(node_at(post, p.take(k)) == node_at(pc, q.take(k - 1)));
        lemma_active_reaches_path(c, pc, q, k - 1);
    }
}

} // verus!
