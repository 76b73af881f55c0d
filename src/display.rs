//! The widget list that the render loop owns: updates from the channel are
//! applied to it, parents take their status from their descendants, and
//! each tick yields the frame to paint.
//!
//! The list is a pre-order flattening of the widget tree: the descendants
//! of a widget are the widgets right after it with a greater indent.

use vstd::prelude::*;
use tokio::sync::mpsc::{Receiver, Sender};
use crate::line::{Span, Style, view_spans};
use crate::text::{repeat, push_char, push_repeat};
use crate::update::{Update, WidgetUpdate};
use crate::widget::Widget;

verus! {

/// The capacity of the update channel: senders wait while it is full.
pub const CHANNEL_CAPACITY: usize = 64;

/// Whether `j` lies inside the subtree below `i`.
pub open spec fn is_descendant(ws: Seq<Widget>, i: int, j: int) -> bool {
    &&& 0 <= i < j < ws.len()
    &&& forall|k: int| i < k <= j ==> #[trigger] ws[k].indent > ws[i].indent
}

/// Whether the widget at `j` has no descendants.
pub open spec fn is_leaf(ws: Seq<Widget>, j: int) -> bool {
    j + 1 >= ws.len() || ws[j + 1].indent <= ws[j].indent
}

/// Whether every leaf below `i` is done: the aggregate done status of `i`.
/// A widget without descendants aggregates to done.
pub open spec fn subtree_done(ws: Seq<Widget>, i: int) -> bool {
    forall|j: int| #[trigger] is_descendant(ws, i, j) && is_leaf(ws, j) ==> ws[j].is_done()
}

/// Whether some widget below `i` is active.
pub open spec fn active_below(ws: Seq<Widget>, i: int) -> bool {
    exists|j: int| #[trigger] is_descendant(ws, i, j) && ws[j].is_active()
}

/// Whether the widget at `j` is active once a pass is over, as its parent
/// sees it: active already, or a widget with descendants that the pass
/// completes (completing a widget marks it active).
pub open spec fn ends_active(ws: Seq<Widget>, j: int) -> bool {
    ws[j].is_active() || (!is_leaf(ws, j) && subtree_done(ws, j))
}

/// Whether some widget below `i` ends the pass active: the aggregate active
/// status of `i`.
pub open spec fn subtree_active(ws: Seq<Widget>, i: int) -> bool {
    exists|j: int| #[trigger] is_descendant(ws, i, j) && ends_active(ws, j)
}

/// The widget at `i` once its descendants' status is applied to it: done
/// when all leaves below it are done, active when any widget below it ends
/// the pass active. A leaf keeps its own state.
pub open spec fn aggregated(ws: Seq<Widget>, i: int) -> Widget {
    let w = ws[i];
    if is_leaf(ws, i) {
        w
    } else {
        let w1 = if subtree_done(ws, i) { w.completed() } else { w };
        if subtree_active(ws, i) { w1.activated() } else { w1 }
    }
}

/// One aggregation pass over the whole list, descendants before their
/// ancestors.
pub open spec fn aggregate_all(ws: Seq<Widget>) -> Seq<Widget> {
    Seq::new(ws.len(), |i: int| aggregated(ws, i))
}

/// Whether every leaf of the list is done.
pub open spec fn all_done(ws: Seq<Widget>) -> bool {
    forall|j: int| 0 <= j < ws.len() && #[trigger] is_leaf(ws, j) ==> ws[j].is_done()
}

/// The widget after one update.
pub open spec fn apply_update(w: Widget, u: Update) -> Widget {
    match u {
        Update::SetActive => w.activated(),
        Update::SetDone => w.completed(),
        Update::SetMessage(m) => Widget { message: m, ..w },
    }
}

/// Whether every update addresses a widget of the list.
pub open spec fn targets_valid(ws: Seq<Widget>, us: Seq<WidgetUpdate>) -> bool {
    forall|k: int| 0 <= k < us.len() ==> #[trigger] us[k].index < ws.len()
}

/// The list after the updates, applied in order.
pub open spec fn apply_updates(ws: Seq<Widget>, us: Seq<WidgetUpdate>) -> Seq<Widget>
    decreases us.len(),
{
    if us.len() == 0 {
        ws
    } else {
        let prev = apply_updates(ws, us.drop_last());
        let u = us.last();
        prev.update(u.index as int, apply_update(prev[u.index as int], u.update_type))
    }
}

/// The guide in front of a nested line: spaces and a bullet.
pub open spec fn indent_guide(indent: nat) -> Seq<char> {
    repeat(' ', (3 * indent - 2) as nat) + seq!['\u{2022}', ' ']
}

/// The styled text of the line of `w`.
pub open spec fn frame_line(w: Widget, now_ms: u64) -> Seq<(Seq<char>, Style)> {
    if w.indent > 0 {
        seq![(indent_guide(w.indent as nat), Style::Plain)] + w.spec_render(now_ms)
    } else {
        w.spec_render(now_ms)
    }
}

/// Whether `f` paints `ws`: the cursor moves up over one line per widget
/// and each widget gets its line.
pub open spec fn frame_matches(f: Frame, ws: Seq<Widget>, now_ms: u64) -> bool {
    &&& f.move_up == ws.len()
    &&& f.lines@.len() == ws.len()
    &&& forall|k: int| 0 <= k < ws.len() ==> view_spans(#[trigger] f.lines@[k]@) == frame_line(ws[k], now_ms)
}

/// Whether `f` and `after` are what one tick with `us`, which all address
/// a widget, makes of a list that was `before`: the updates are applied in
/// order, and the list is aggregated and painted.
pub open spec fn tick_frame(before: Seq<Widget>, us: Seq<WidgetUpdate>, now_ms: u64, after: Seq<Widget>, f: Frame) -> bool {
    &&& after == aggregate_all(apply_updates(before, us))
    &&& f.done == all_done(apply_updates(before, us))
    &&& frame_matches(f, after, now_ms)
}

/// What a tick with `us` does to a list that was `before`: when the updates
/// all address a widget, what `tick_frame` says; otherwise the first bad
/// index is reported and the list is left alone.
pub open spec fn tick_result(
    before: Seq<Widget>,
    us: Seq<WidgetUpdate>,
    now_ms: u64,
    after: Seq<Widget>,
    r: Result<Frame, UpdateError>,
) -> bool {
    match r {
        Ok(f) => targets_valid(before, us) && tick_frame(before, us, now_ms, after, f),
        Err(e) => first_bad_target(before, us, e) && after == before,
    }
}

/// Whether `e` reports the first update of `us` that addresses no widget.
pub open spec fn first_bad_target(ws: Seq<Widget>, us: Seq<WidgetUpdate>, e: UpdateError) -> bool {
    exists|k: int|
        0 <= k < us.len() && us[k].index >= ws.len() && targets_valid(ws, us.take(k)) && e
            == UpdateError::UnknownWidget(#[trigger] us[k].index)
}

/// Being below is transitive.
proof fn lemma_descendant_trans(ws: Seq<Widget>, i: int, j: int, m: int)
    requires
        is_descendant(ws, i, j),
        is_descendant(ws, j, m),
    ensures
        is_descendant(ws, i, m),
{
    assert forall|k: int| i < k <= m implies #[trigger] ws[k].indent > ws[i].indent by {
        if k > j {
            assert(ws[k].indent > ws[j].indent);
            assert(ws[j].indent > ws[i].indent);
        }
    }
}

/// Two lists with the same indents have the same shape.
proof fn lemma_same_shape(a: Seq<Widget>, b: Seq<Widget>)
    requires
        a.len() == b.len(),
        forall|k: int| 0 <= k < a.len() ==> #[trigger] a[k].indent == b[k].indent,
    ensures
        forall|i: int, j: int| #[trigger] is_descendant(a, i, j) == #[trigger] is_descendant(b, i, j),
        forall|j: int| 0 <= j < a.len() ==> #[trigger] is_leaf(a, j) == is_leaf(b, j),
{
    assert forall|i: int, j: int| #[trigger] is_descendant(a, i, j) == #[trigger] is_descendant(b, i, j) by {
        if 0 <= i < j < a.len() {
            if is_descendant(a, i, j) {
                assert forall|k: int| i < k <= j implies #[trigger] b[k].indent > b[i].indent by {
                    assert(a[k].indent > a[i].indent);
                }
            }
            if is_descendant(b, i, j) {
                assert forall|k: int| i < k <= j implies #[trigger] a[k].indent > a[i].indent by {
                    assert(b[k].indent > b[i].indent);
                }
            }
        }
    }
    assert forall|j: int| 0 <= j < a.len() implies #[trigger] is_leaf(a, j) == is_leaf(b, j) by {
        if j + 1 < a.len() {
            assert(a[j + 1].indent == b[j + 1].indent);
        }
    }
}

/// Midway through a backward pass (widgets after `i` aggregated, the rest
/// as before), the widgets below `i` show what `i` should take from them.
proof fn lemma_pass_agrees(pre: Seq<Widget>, cur: Seq<Widget>, i: int)
    requires
        0 <= i < pre.len(),
        cur.len() == pre.len(),
        forall|k: int| i < k < pre.len() ==> #[trigger] cur[k] == aggregated(pre, k),
        forall|k: int| 0 <= k <= i ==> #[trigger] cur[k] == pre[k],
    ensures
        cur[i] == pre[i],
        is_leaf(cur, i) == is_leaf(pre, i),
        subtree_done(cur, i) == subtree_done(pre, i),
        active_below(cur, i) == subtree_active(pre, i),
{
    assert forall|k: int| 0 <= k < pre.len() implies #[trigger] cur[k].indent == pre[k].indent by {
        if k > i {
            assert(cur[k] == aggregated(pre, k));
        } else {
            assert(cur[k] == pre[k]);
        }
    }
    lemma_same_shape(cur, pre);
    assert(cur[i] == pre[i]);
    assert forall|j: int| #[trigger] is_descendant(pre, i, j) && is_leaf(pre, j) implies cur[j] == pre[j] by {
        assert(cur[j] == aggregated(pre, j));
    }
    if subtree_done(pre, i) {
        assert forall|j: int| #[trigger] is_descendant(cur, i, j) && is_leaf(cur, j) implies cur[j].is_done() by {
            assert(is_descendant(pre, i, j));
            assert(cur[j] == pre[j]);
        }
    }
    if subtree_done(cur, i) {
        assert forall|j: int| #[trigger] is_descendant(pre, i, j) && is_leaf(pre, j) implies pre[j].is_done() by {
            assert(is_descendant(cur, i, j));
            assert(cur[j] == pre[j]);
        }
    }
    if active_below(cur, i) {
        let j = choose|j: int| #[trigger] is_descendant(cur, i, j) && cur[j].is_active();
        assert(is_descendant(pre, i, j));
        assert(cur[j] == aggregated(pre, j));
        if ends_active(pre, j) {
        } else {
            assert(!is_leaf(pre, j));
            assert(subtree_active(pre, j));
            let m = choose|m: int| #[trigger] is_descendant(pre, j, m) && ends_active(pre, m);
            lemma_descendant_trans(pre, i, j, m);
        }
        assert(subtree_active(pre, i));
    }
    if subtree_active(pre, i) {
        let j = choose|j: int| #[trigger] is_descendant(pre, i, j) && ends_active(pre, j);
        assert(is_descendant(cur, i, j));
        assert(cur[j] == aggregated(pre, j));
        assert(cur[j].is_active());
    }
}

/// Whether the widget at `i` has descendants, whether all leaves below it
/// are done, and whether any widget below it is active.
fn scan_descendants(ws: &Vec<Widget>, i: usize) -> (r: (bool, bool, bool))
    requires
        i < ws@.len(),
    ensures
        r.0 == !is_leaf(ws@, i as int),
        r.1 == subtree_done(ws@, i as int),
        r.2 == active_below(ws@, i as int),
{
    let n = ws.len();
    let base = ws[i].indent;
    let mut j = i + 1;
    let mut done = true;
    let mut active = false;
    while j < n && ws[j].indent > base
        invariant
            i < j <= n,
            n == ws@.len(),
            base == ws@[i as int].indent,
            forall|k: int| i < k < j ==> #[trigger] ws@[k].indent > base,
            done == (forall|k: int| i < k < j && #[trigger] is_leaf(ws@, k) ==> ws@[k].is_done()),
            active == (exists|k: int| i < k < j && #[trigger] ws@[k].is_active()),
        decreases n - j,
    {
        let leaf = j + 1 >= n || ws[j + 1].indent <= ws[j].indent;
        assert(leaf == is_leaf(ws@, j as int));
        if leaf && !ws[j].is_done() {
            done = false;
        }
        if ws[j].is_active() {
            active = true;
        }
        j = j + 1;
    }
    let ghost w = ws@;
    proof {
        assert forall|k: int| #[trigger] is_descendant(w, i as int, k) <==> i < k < j by {
            if i < k < j {
                assert forall|m: int| i < m <= k implies #[trigger] w[m].indent > w[i as int].indent by {
                    assert(w[m].indent > base);
                }
            }
            if is_descendant(w, i as int, k) && k >= j {
                assert(w[j as int].indent > w[i as int].indent);
            }
        }
        if active {
            let k = choose|k: int| i < k < j && #[trigger] w[k].is_active();
            assert(is_descendant(w, i as int, k));
        }
        if active_below(w, i as int) {
            let k = choose|k: int| #[trigger] is_descendant(w, i as int, k) && w[k].is_active();
            assert(i < k < j);
        }
        if done {
            assert forall|k: int| #[trigger] is_descendant(w, i as int, k) && is_leaf(w, k) implies w[k].is_done() by {
                assert(i < k < j);
            }
        }
        if subtree_done(w, i as int) {
            assert forall|k: int| i < k < j && #[trigger] is_leaf(w, k) implies w[k].is_done() by {
                assert(is_descendant(w, i as int, k));
            }
        }
    }
    let has = i + 1 < n && ws[i + 1].indent > base;
    (has, done, active)
}

/// The guide in front of a nested line.
fn indent_guide_string(indent: usize) -> (r: String)
    requires
        indent > 0,
    ensures
        r@ == indent_guide(indent as nat),
{
    let mut s = String::new();
    push_char(&mut s, ' ');
    let mut k: usize = 1;
    while k < indent
        invariant
            1 <= k <= indent,
            s@ == repeat(' ', (3 * k - 2) as nat),
        decreases indent - k,
    {
        push_repeat(&mut s, ' ', 3);
        k = k + 1;
        assert(s@ =~= repeat(' ', (3 * k - 2) as nat));
    }
    assert(s@ =~= repeat(' ', (3 * indent - 2) as nat));
    push_char(&mut s, '\u{2022}');
    push_char(&mut s, ' ');
    assert(s@ =~= indent_guide(indent as nat));
    s
}

/// The spans of the line of `w`.
fn widget_line(w: &Widget, now_ms: u64) -> (r: Vec<Span>)
    ensures
        view_spans(r@) == frame_line(*w, now_ms),
{
    let mut spans = Vec::new();
    if w.indent > 0 {
        spans.push(Span { text: indent_guide_string(w.indent), style: Style::Plain });
    }
    let mut rest = w.render(now_ms);
    let ghost first = spans@;
    let ghost tail = rest@;
    spans.append(&mut rest);
    assert(view_spans(spans@) =~= view_spans(first) + view_spans(tail));
    assert(view_spans(spans@) =~= frame_line(*w, now_ms));
    spans
}

/// What to paint for one tick: move the cursor up over the previous frame,
/// then clear and write each line in turn.
pub struct Frame {
    /// Whether every leaf is done, which ends the render loop.
    pub done: bool,
    /// How many lines the cursor moves up before painting.
    pub move_up: usize,
    /// The lines, one per widget.
    pub lines: Vec<Vec<Span>>,
}

/// Why a batch of updates was refused.
#[derive(Clone, Copy, Debug, PartialEq, Eq, Structural)]
pub enum UpdateError {
    /// An update addressed a widget index that the list does not have.
    UnknownWidget(usize),
}

/// A handle for a background task: it posts updates for one widget.
#[derive(Clone)]
pub struct UpdateSender {
    pub sender: Sender<WidgetUpdate>,
    pub index: usize,
}

impl UpdateSender {
    pub fn new(sender: Sender<WidgetUpdate>, index: usize) -> (r: Self)
        ensures
            r.sender == sender,
            r.index == index,
    {
        UpdateSender { sender, index }
    }

    /// The message that carries `update` to this handle's widget.
    pub fn message(&self, update: Update) -> (r: WidgetUpdate)
        ensures
            r.update_type == update,
            r.index == self.index,
    {
        WidgetUpdate::new(update, self.index)
    }
}

/// The widgets of a display and the channel that updates them.
pub struct App {
    pub widgets: Vec<Widget>,
    pub reciever: Receiver<WidgetUpdate>,
    pub sender: Sender<WidgetUpdate>,
}

impl App {
    /// An empty display with a fresh update channel.
    pub fn new() -> (r: Self)
        ensures
            r.widgets@.len() == 0,
    {
        proof {
            let m: usize = usize::MAX;
            assert(m >= 0xffff_ffffusize);
            assert(64 <= m >> 3usize) by (bit_vector)
                requires
                    m >= 0xffff_ffffusize,
            ;
        }
        let (sender, reciever) = tokio::sync::mpsc::channel(CHANNEL_CAPACITY);
        App { widgets: Vec::new(), reciever, sender }
    }

    /// Adds a widget at the end of the list and returns its index.
    pub fn add_widget(&mut self, widget: Widget) -> (r: usize)
        requires
            old(self).widgets@.len() < usize::MAX,
        ensures
            final(self).widgets@ == old(self).widgets@.push(widget),
            r == old(self).widgets@.len(),
    {
        self.widgets.push(widget);
        self.widgets.len() - 1
    }

    /// Adds widgets at the end of the list, in order.
    pub fn add_widgets(&mut self, widgets: Vec<Widget>)
        ensures
            final(self).widgets@ == old(self).widgets@ + widgets@,
    {
        let mut widgets = widgets;
        self.widgets.append(&mut widgets);
    }

    /// A handle that posts updates for the widget at `index`.
    pub fn update_sender(&self, index: usize) -> (r: UpdateSender)
        ensures
            r.index == index,
    {
        UpdateSender::new(self.sender.clone(), index)
    }

    /// Applies one update to the widget it addresses.
    pub fn apply_update(&mut self, update: &WidgetUpdate)
        requires
            update.index < old(self).widgets@.len(),
        ensures
            final(self).widgets@ == old(self).widgets@.update(
                update.index as int,
                apply_update(old(self).widgets@[update.index as int], update.update_type),
            ),
    {
        let i = update.index;
        match &update.update_type {
            Update::SetActive => {
                self.widgets[i].active = true;
            },
            Update::SetDone => {
                self.widgets[i].set_done();
            },
            Update::SetMessage(message) => {
                self.widgets[i].message = message.clone();
            },
        }
        assert(self.widgets@ =~= old(self).widgets@.update(
            update.index as int,
            apply_update(old(self).widgets@[update.index as int], update.update_type),
        ));
    }

    /// The index of the first update that addresses no widget of the list,
    /// if there is one.
    pub fn first_unknown_target(&self, updates: &Vec<WidgetUpdate>) -> (r: Option<usize>)
        ensures
            r is None <==> targets_valid(self.widgets@, updates@),
            r matches Some(i) ==> first_bad_target(self.widgets@, updates@, UpdateError::UnknownWidget(i)),
    {
        let n = self.widgets.len();
        let mut k: usize = 0;
        while k < updates.len()
            invariant
                k <= updates@.len(),
                n == self.widgets@.len(),
                targets_valid(self.widgets@, updates@.take(k as int)),
            decreases updates@.len() - k,
        {
            if updates[k].index >= n {
                let i = updates[k].index;
                assert(first_bad_target(self.widgets@, updates@, UpdateError::UnknownWidget(i)));
                return Some(i);
            }
            k = k + 1;
            assert(targets_valid(self.widgets@, updates@.take(k as int))) by {
                assert forall|m: int| 0 <= m < k implies #[trigger] updates@.take(k as int)[m].index < n by {
                    if m < k - 1 {
                        assert(updates@.take(k as int)[m] == updates@.take(k - 1)[m]);
                    }
                }
            }
        }
        assert(updates@.take(k as int) =~= updates@);
        None
    }

    /// Applies the updates in order; each must address a widget of the list.
    pub fn apply_updates(&mut self, updates: &Vec<WidgetUpdate>)
        requires
            targets_valid(old(self).widgets@, updates@),
        ensures
            final(self).widgets@ == apply_updates(old(self).widgets@, updates@),
    {
        let ghost start = self.widgets@;
        let mut k: usize = 0;
        while k < updates.len()
            invariant
                k <= updates@.len(),
                targets_valid(start, updates@),
                self.widgets@ == apply_updates(start, updates@.take(k as int)),
                self.widgets@.len() == start.len(),
            decreases updates@.len() - k,
        {
            proof {
                assert forall|m: int| 0 <= m < k implies #[trigger] updates@.take(k as int)[m].index < start.len() by {
                    assert(updates@.take(k as int)[m] == updates@[m]);
                }
                lemma_apply_updates_len(start, updates@.take(k as int));
                assert(updates@.take(k + 1).drop_last() =~= updates@.take(k as int));
            }
            self.apply_update(&updates[k]);
            k = k + 1;
        }
        assert(updates@.take(k as int) =~= updates@);
    }

    /// Whether every leaf of the list is done.
    pub fn all_done(&self) -> (r: bool)
        ensures
            r == all_done(self.widgets@),
    {
        let n = self.widgets.len();
        let mut j: usize = 0;
        let mut done = true;
        while j < n
            invariant
                j <= n,
                n == self.widgets@.len(),
                done == (forall|k: int| 0 <= k < j && #[trigger] is_leaf(self.widgets@, k) ==> self.widgets@[k].is_done()),
            decreases n - j,
        {
            let leaf = j + 1 >= n || self.widgets[j + 1].indent <= self.widgets[j].indent;
            assert(leaf == is_leaf(self.widgets@, j as int));
            if leaf && !self.widgets[j].is_done() {
                done = false;
            }
            j = j + 1;
        }
        done
    }

    /// One aggregation pass, from the last widget back to the first, so that
    /// each widget sees its descendants already aggregated: a widget with
    /// descendants becomes done when all leaves below it are done, and
    /// active when any widget below it ends the pass active. Returns whether
    /// every leaf is done.
    pub fn update_widget_status(&mut self) -> (r: bool)
        ensures
            final(self).widgets@ == aggregate_all(old(self).widgets@),
            r == all_done(old(self).widgets@),
    {
        let r = self.all_done();
        let ghost pre = self.widgets@;
        let n = self.widgets.len();
        let mut i: usize = n;
        while i > 0
            invariant
                i <= n,
                n == pre.len(),
                self.widgets@.len() == n,
                forall|k: int| i <= k < n ==> self.widgets@[k] == #[trigger] aggregated(pre, k),
                forall|k: int| 0 <= k < i ==> #[trigger] self.widgets@[k] == pre[k],
            decreases i,
        {
            i = i - 1;
            let (has, done, active) = scan_descendants(&self.widgets, i);
            proof {
                lemma_pass_agrees(pre, self.widgets@, i as int);
            }
            if has {
                if done {
                    self.widgets[i].set_done();
                }
                if active {
                    self.widgets[i].active = true;
                }
            }
            assert(self.widgets@[i as int] == aggregated(pre, i as int));
        }
        assert(self.widgets@ =~= aggregate_all(pre));
        r
    }

    /// The lines of every widget, in list order.
    pub fn render_widgets(&self, now_ms: u64) -> (r: Vec<Vec<Span>>)
        ensures
            r@.len() == self.widgets@.len(),
            forall|k: int|
                0 <= k < self.widgets@.len() ==> view_spans(#[trigger] r@[k]@) == frame_line(
                    self.widgets@[k],
                    now_ms,
                ),
    {
        let mut lines: Vec<Vec<Span>> = Vec::new();
        let mut k: usize = 0;
        while k < self.widgets.len()
            invariant
                k <= self.widgets@.len(),
                lines@.len() == k,
                forall|m: int| 0 <= m < k ==> view_spans(#[trigger] lines@[m]@) == frame_line(self.widgets@[m], now_ms),
            decreases self.widgets@.len() - k,
        {
            lines.push(widget_line(&self.widgets[k], now_ms));
            k = k + 1;
        }
        lines
    }

    /// One tick on the updates drained from the channel: apply them in
    /// order, aggregate, and produce the frame to paint. Every update must
    /// address a widget of the list.
    pub fn tick(&mut self, updates: &Vec<WidgetUpdate>, now_ms: u64) -> (r: Frame)
        requires
            targets_valid(old(self).widgets@, updates@),
        ensures
            tick_frame(old(self).widgets@, updates@, now_ms, final(self).widgets@, r),
    {
        self.apply_updates(updates);
        let done = self.update_widget_status();
        let lines = self.render_widgets(now_ms);
        Frame { done, move_up: self.widgets.len(), lines }
    }

    /// One tick on a drained batch: when every update addresses a widget,
    /// what `tick` does; otherwise the first bad index is reported and the
    /// list is left alone.
    pub fn tick_checked(&mut self, updates: &Vec<WidgetUpdate>, now_ms: u64) -> (r: Result<Frame, UpdateError>)
        ensures
            tick_result(old(self).widgets@, updates@, now_ms, final(self).widgets@, r),
    {
        match self.first_unknown_target(updates) {
            Some(i) => Err(UpdateError::UnknownWidget(i)),
            None => Ok(self.tick(updates, now_ms)),
        }
    }

    /// The updates waiting in the channel now, in arrival order; the
    /// widgets are left alone.
    pub fn receive_updates(&mut self) -> (r: Vec<WidgetUpdate>)
        ensures
            final(self).widgets == old(self).widgets,
    {
        let available = self.reciever.len();
        let mut received = Vec::new();
        let mut k: usize = 0;
        while k < available
            invariant
                k <= available,
                self.widgets == old(self).widgets,
            decreases available - k,
        {
            match self.reciever.try_recv() {
                Ok(update) => {
                    received.push(update);
                    k = k + 1;
                },
                Err(_) => {
                    k = available;
                },
            }
        }
        received
    }

    /// Drains the channel and runs one tick on what came: the result is
    /// that of `tick` on some sequence of updates. An update for a widget
    /// that does not exist is a caller's bug: it is reported, and the list is
    /// left alone.
    pub fn render(&mut self, now_ms: u64) -> (r: Result<Frame, UpdateError>)
        ensures
            exists|us: Seq<WidgetUpdate>| tick_result(old(self).widgets@, us, now_ms, final(self).widgets@, r),
    {
        let updates = self.receive_updates();
        let r = self.tick_checked(&updates, now_ms);
        assert(tick_result(old(self).widgets@, updates@, now_ms, self.widgets@, r));
        r
    }
}

/// Updates change no list's length.
pub proof fn lemma_apply_updates_len(ws: Seq<Widget>, us: Seq<WidgetUpdate>)
    requires
        targets_valid(ws, us),
    ensures
        apply_updates(ws, us).len() == ws.len(),
    decreases us.len(),
{
    if us.len() > 0 {
        assert forall|k: int| 0 <= k < us.drop_last().len() implies #[trigger] us.drop_last()[k].index < ws.len() by {
            assert(us.drop_last()[k] == us[k]);
        }
        lemma_apply_updates_len(ws, us.drop_last());
        assert(us[us.len() - 1].index < ws.len());
    }
}

/// The message a widget shows after `us`, all addressed to it, when it
/// showed `m` before: that of the last `SetMessage`.
pub open spec fn last_message(m: String, us: Seq<WidgetUpdate>) -> String
    decreases us.len(),
{
    if us.len() == 0 {
        m
    } else {
        match us.last().update_type {
            Update::SetMessage(n) => n,
            _ => last_message(m, us.drop_last()),
        }
    }
}

/// Updates that all address one widget, applied in order, leave the other
/// widgets alone; the last `SetMessage` wins, a `SetDone` leaves the widget
/// done and active whatever came before or after it, and a `SetActive`
/// leaves it active.
pub proof fn lemma_updates_apply_in_order(ws: Seq<Widget>, us: Seq<WidgetUpdate>, t: int)
    requires
        0 <= t < ws.len(),
        forall|k: int| 0 <= k < us.len() ==> #[trigger] us[k].index == t,
    ensures
        apply_updates(ws, us).len() == ws.len(),
        forall|j: int| 0 <= j < ws.len() && j != t ==> #[trigger] apply_updates(ws, us)[j] == ws[j],
        apply_updates(ws, us)[t].message == last_message(ws[t].message, us),
        apply_updates(ws, us)[t].indent == ws[t].indent,
        (exists|k: int| 0 <= k < us.len() && #[trigger] us[k].update_type is SetDone) ==> {
            &&& apply_updates(ws, us)[t].is_done()
            &&& apply_updates(ws, us)[t].is_active()
        },
        (exists|k: int| 0 <= k < us.len() && (#[trigger] us[k].update_type is SetDone || us[k].update_type is SetActive))
            ==> apply_updates(ws, us)[t].active,
        (forall|k: int| 0 <= k < us.len() ==> !(#[trigger] us[k].update_type is SetDone)) ==> apply_updates(
            ws,
            us,
        )[t].widget == ws[t].widget,
    decreases us.len(),
{
    if us.len() > 0 {
        let init = us.drop_last();
        assert forall|k: int| 0 <= k < init.len() implies #[trigger] init[k].index == t by {
            assert(init[k] == us[k]);
        }
        lemma_updates_apply_in_order(ws, init, t);
        let last = us.last();
        assert(last == us[us.len() - 1]);
        if exists|k: int| 0 <= k < us.len() && #[trigger] us[k].update_type is SetDone {
            let k = choose|k: int| 0 <= k < us.len() && #[trigger] us[k].update_type is SetDone;
            if k < us.len() - 1 {
                assert(init[k] == us[k]);
            }
        }
        if exists|k: int| 0 <= k < us.len() && (#[trigger] us[k].update_type is SetDone || us[k].update_type is SetActive) {
            let k = choose|k: int| 0 <= k < us.len() && (#[trigger] us[k].update_type is SetDone || us[k].update_type is SetActive);
            if k < us.len() - 1 {
                assert(init[k] == us[k]);
            }
        }
        if forall|k: int| 0 <= k < us.len() ==> !(#[trigger] us[k].update_type is SetDone) {
            assert forall|k: int| 0 <= k < init.len() implies !(#[trigger] init[k].update_type is SetDone) by {
                assert(init[k] == us[k]);
            }
        }
    }
}

/// Aggregation reaches the top: when every leaf below `i` is done, `i` and
/// every widget below it are done after one pass; when some leaf below `i`
/// is not done, neither is the aggregate of `i`, nor the whole list.
pub proof fn lemma_aggregation_monotone(ws: Seq<Widget>, i: int)
    requires
        0 <= i < ws.len(),
        !is_leaf(ws, i),
    ensures
        subtree_done(ws, i) ==> aggregate_all(ws)[i].is_done(),
        subtree_done(ws, i) ==> forall|j: int| #[trigger] is_descendant(ws, i, j) ==> aggregate_all(ws)[j].is_done(),
        (exists|j: int| #[trigger] is_descendant(ws, i, j) && is_leaf(ws, j) && !ws[j].is_done()) ==> {
            &&& !subtree_done(ws, i)
            &&& !all_done(ws)
        },
{
    if subtree_done(ws, i) {
        assert forall|j: int| #[trigger] is_descendant(ws, i, j) implies aggregate_all(ws)[j].is_done() by {
            if is_leaf(ws, j) {
            } else {
                assert forall|m: int| #[trigger] is_descendant(ws, j, m) && is_leaf(ws, m) implies ws[m].is_done() by {
                    assert forall|k: int| i < k <= m implies #[trigger] ws[k].indent > ws[i].indent by {
                        if k > j {
                            assert(ws[k].indent > ws[j].indent);
                        }
                    }
                    assert(is_descendant(ws, i, m));
                }
            }
        }
    }
    if exists|j: int| #[trigger] is_descendant(ws, i, j) && is_leaf(ws, j) && !ws[j].is_done() {
        let j = choose|j: int| #[trigger] is_descendant(ws, i, j) && is_leaf(ws, j) && !ws[j].is_done();
        assert(is_leaf(ws, j));
    }
}

/// Activity reaches the top: a widget with an active widget below it is
/// active after one pass. With nothing active below it, its active flag
/// stays as it was set, unless all leaves below it are done (completing a
/// widget also marks it active).
pub proof fn lemma_active_propagates(ws: Seq<Widget>, i: int)
    requires
        0 <= i < ws.len(),
    ensures
        forall|j: int| #[trigger] is_descendant(ws, i, j) && ws[j].is_active() ==> {
            &&& aggregate_all(ws)[i].active
            &&& aggregate_all(ws)[i].is_active()
        },
        !subtree_active(ws, i) && !(subtree_done(ws, i) && !is_leaf(ws, i)) ==> aggregate_all(ws)[i].active == ws[i].active,
{
    assert forall|j: int| #[trigger] is_descendant(ws, i, j) && ws[j].is_active() implies {
        &&& aggregate_all(ws)[i].active
        &&& aggregate_all(ws)[i].is_active()
    } by {
        assert(ws[i + 1].indent > ws[i].indent);
        assert(ends_active(ws, j));
        assert(subtree_active(ws, i));
    }
}

} // verus!
