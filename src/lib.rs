//! A live, in-place-updating tree of progress indicators: widget state,
//! the status aggregation that runs every tick, the update messages that
//! background tasks post, and the frame that a terminal writer paints.

pub mod bar;
pub mod channel;
pub mod display;
pub mod line;
pub mod text;
pub mod tree;
pub mod update;
pub mod widget;
