//! Messages that background tasks post to mutate one widget.

use vstd::prelude::*;

verus! {

/// A change to a single widget's state.
#[derive(Debug, Clone)]
pub enum Update {
    /// The widget's task has started: show it as active.
    SetActive,
    /// The widget's work is complete.
    SetDone,
    /// Replace the widget's display text.
    SetMessage(String),
}

/// An update addressed to the widget at `index` of the widget list.
#[derive(Debug, Clone)]
pub struct WidgetUpdate {
    pub update_type: Update,
    pub index: usize,
}

impl Update {
    /// An update that replaces the widget's message with `message`.
    pub fn set_message(message: &str) -> (r: Self)
        ensures
            r matches Update::SetMessage(m) && m@ == message@,
    {
        Update::SetMessage(message.to_string())
    }
}

impl WidgetUpdate {
    /// Creates a new update addressed to the widget at `widget_index`.
    pub fn new(update_type: Update, widget_index: usize) -> (r: Self)
        ensures
            r.update_type == update_type,
            r.index == widget_index,
    {
        WidgetUpdate { update_type, index: widget_index }
    }
}

} // verus!
