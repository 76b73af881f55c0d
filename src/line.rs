//! Styled text for one terminal line, and the status glyph in front of it.

use vstd::prelude::*;

verus! {

/// How a run of text is coloured when it is written.
#[derive(Clone, Copy, Debug, PartialEq, Eq, Structural)]
pub enum Style {
    Plain,
    White,
    Green,
    Red,
}

/// A run of text written in one style.
#[derive(Debug)]
pub struct Span {
    pub text: String,
    pub style: Style,
}

/// The text and style of each span.
pub open spec fn view_spans(spans: Seq<Span>) -> Seq<(Seq<char>, Style)> {
    spans.map_values(|s: Span| (s.text@, s.style))
}

/// Milliseconds that each spinner frame stays on screen.
pub const SPINNER_PERIOD_MS: u64 = 100;

/// The number of frames of the spinner animation.
pub const SPINNER_FRAMES: u64 = 6;

/// The spinner animation, frame `i` for `i < SPINNER_FRAMES`.
pub open spec fn spinner_frame(i: nat) -> char {
    if i == 0 {
        '⠋'
    } else if i == 1 {
        '⠙'
    } else if i == 2 {
        '⠸'
    } else if i == 3 {
        '⣠'
    } else if i == 4 {
        '⣄'
    } else {
        '⡆'
    }
}

/// The frame shown at `now_ms` milliseconds since the epoch.
pub open spec fn spinner_at(now_ms: u64) -> char {
    spinner_frame(((now_ms / SPINNER_PERIOD_MS) % SPINNER_FRAMES) as nat)
}

/// The status glyph: blank while idle, a spinner while active and not
/// done, a check mark once active and done.
pub open spec fn glyph(active: bool, done: bool, now_ms: u64) -> (Seq<char>, Style) {
    if !active {
        (seq![' '], Style::White)
    } else if done {
        (seq!['✓'], Style::Green)
    } else {
        (seq![spinner_at(now_ms)], Style::White)
    }
}

pub fn spinner(now_ms: u64) -> (c: char)
    ensures
        c == spinner_at(now_ms),
{
    let i = (now_ms / SPINNER_PERIOD_MS) % SPINNER_FRAMES;
    if i == 0 {
        '⠋'
    } else if i == 1 {
        '⠙'
    } else if i == 2 {
        '⠸'
    } else if i == 3 {
        '⣠'
    } else if i == 4 {
        '⣄'
    } else {
        '⡆'
    }
}

/// The span of the status glyph.
pub fn glyph_span(active: bool, done: bool, now_ms: u64) -> (r: Span)
    ensures
        (r.text@, r.style) == glyph(active, done, now_ms),
{
    let (c, style) = if !active {
        (' ', Style::White)
    } else if done {
        ('✓', Style::Green)
    } else {
        (spinner(now_ms), Style::White)
    };
    let mut text = String::new();
    crate::text::push_char(&mut text, c);
    assert(text@ =~= seq![c]);
    Span { text, style }
}

/// A span of `text` in `style`.
pub fn span(text: String, style: Style) -> (r: Span)
    ensures
        r.text == text,
        r.style == style,
{
    Span { text, style }
}

} // verus!
