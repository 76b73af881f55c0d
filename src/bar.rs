//! The fixed-width progress bar with a centred label.

use vstd::prelude::*;
use crate::text::{push_char, push_repeat, push_padding};

verus! {

/// The width of the bar, in characters, when its label fits.
pub const BAR_WIDTH: usize = 25;

/// A full bar character.
pub open spec fn full() -> char {
    '━'
}

/// The half bar character that ends an odd number of half ticks.
pub open spec fn half() -> char {
    '╸'
}

/// How many half characters of a `width` bar are filled at `done` of
/// `total`: `floor(done / total * width * 2)`, full once `done >= total`.
pub open spec fn filled_halves(done: nat, total: nat, width: nat) -> nat {
    if total == 0 || done >= total {
        2 * width
    } else {
        (done * (2 * width)) / total
    }
}

/// Character `i` of the uncoloured bar: the label sits in the middle
/// (left of centre when the spare width is odd); elsewhere the first
/// `halves / 2` characters are full, the next is a half character when
/// `halves` is odd, and the rest are blank.
pub open spec fn bar_char(halves: nat, width: nat, label: Seq<char>, i: int) -> char {
    let lw = (width - label.len()) / 2;
    if lw <= i < lw + label.len() {
        label[i - lw]
    } else if i < halves / 2 {
        full()
    } else if i == halves / 2 && halves % 2 == 1 {
        half()
    } else {
        ' '
    }
}

/// The uncoloured bar, `width` characters.
pub open spec fn bar_text(halves: nat, width: nat, label: Seq<char>) -> Seq<char> {
    Seq::new(width, |i: int| bar_char(halves, width, label, i))
}

/// The number of leading characters that are coloured as filled: whole
/// characters plus the half one.
pub open spec fn filled_len(halves: nat) -> nat {
    (halves + 1) / 2
}

proof fn lemma_halves_bound(done: nat, total: nat, width: nat)
    requires
        done < total,
    ensures
        (done * (2 * width)) / total < 2 * width || width == 0,
        (done * (2 * width)) / total <= 2 * width,
{
    let w2 = 2 * width;
    assert(done * w2 <= total * w2) by (nonlinear_arith)
        requires
            done < total,
    ;
    if width > 0 {
        assert(done * w2 < total * w2) by (nonlinear_arith)
            requires
                done < total,
                w2 > 0,
        ;
        assert((done * w2) / total < w2) by (nonlinear_arith)
            requires
                done * w2 < total * w2,
                total > 0,
        ;
    } else {
        assert(done * w2 == 0) by (nonlinear_arith)
            requires
                w2 == 0,
        ;
    }
}

/// `filled_halves` on machine integers.
fn halves_of(done: usize, total: usize, width: usize) -> (r: usize)
    requires
        2 * width <= usize::MAX,
    ensures
        r == filled_halves(done as nat, total as nat, width as nat),
        r <= 2 * width,
{
    if total == 0 || done >= total {
        2 * width
    } else {
        proof {
            lemma_halves_bound(done as nat, total as nat, width as nat);
            assert((done as nat) * (2 * width as nat) <= u64::MAX * u64::MAX) by (nonlinear_arith)
                requires
                    done <= u64::MAX,
                    2 * width <= u64::MAX,
            ;
        }
        ((done as u128) * (2 * width as u128) / (total as u128)) as usize
    }
}

/// The whole uncoloured bar.
fn bar_string(halves: usize, width: usize, center_msg: &str) -> (r: String)
    requires
        center_msg@.len() <= width,
        halves <= 2 * width,
    ensures
        r@ == bar_text(halves as nat, width as nat, center_msg@),
        r@.len() == width,
{
    let cw = center_msg.unicode_len();
    let lw = (width - cw) / 2;
    let rw = width - lw - cw;
    let chunks = halves / 2;
    let tick = halves % 2 == 1;
    let ghost label = center_msg@;
    let ghost bar = bar_text(halves as nat, width as nat, label);
    let mut whole = String::new();
    if chunks < lw {
        push_repeat(&mut whole, '━', chunks);
        if tick {
            push_char(&mut whole, '╸');
        }
        push_padding(&mut whole, chunks + if tick { 1 } else { 0 }, lw);
    } else {
        push_repeat(&mut whole, '━', lw);
    }
    let ghost left = whole@;
    assert(left.len() == lw);
    assert forall|i: int| 0 <= i < lw implies #[trigger] left[i] == bar[i] by {
        assert(bar[i] == bar_char(halves as nat, width as nat, label, i));
    }
    whole.append(center_msg);
    let ghost mid = whole@;
    if chunks >= lw + cw {
        let n = chunks - lw - cw;
        push_repeat(&mut whole, '━', n);
        if tick {
            push_char(&mut whole, '╸');
        }
        push_padding(&mut whole, n + if tick { 1 } else { 0 }, rw);
    } else {
        push_repeat(&mut whole, ' ', rw);
    }
    proof {
        let right = whole@.skip(mid.len() as int);
        assert(whole@ =~= mid + right);
        assert(right.len() == rw);
        assert forall|j: int| 0 <= j < rw implies #[trigger] right[j] == bar[lw + cw + j] by {
            assert(bar[lw + cw + j] == bar_char(halves as nat, width as nat, label, lw + cw + j));
        }
        assert forall|i: int| 0 <= i < width implies #[trigger] whole@[i] == bar[i] by {
            if i < lw {
                assert(whole@[i] == left[i]);
            } else if i < lw + cw {
                assert(whole@[i] == label[i - lw]);
                assert(bar[i] == bar_char(halves as nat, width as nat, label, i));
            } else {
                assert(whole@[i] == right[i - lw - cw]);
            }
        }
        assert(whole@ =~= bar);
    }
    whole
}

/// The first `k` characters of `whole`, and the rest.
fn split_chars(whole: &String, k: usize) -> (r: (String, String))
    requires
        k <= whole@.len(),
    ensures
        r.0@ == whole@.take(k as int),
        r.1@ == whole@.skip(k as int),
{
    let ghost w = whole@;
    let n = whole.as_str().unicode_len();
    let mut filled = String::new();
    let mut rest = String::new();
    let mut i: usize = 0;
    while i < n
        invariant
            whole@ == w,
            n == w.len(),
            k <= n,
            i <= n,
            filled@ == w.take(if i < k { i as int } else { k as int }),
            rest@ == if i < k { Seq::empty() } else { w.subrange(k as int, i as int) },
        decreases n - i,
    {
        let c = whole.as_str().get_char(i);
        if i < k {
            push_char(&mut filled, c);
        } else {
            push_char(&mut rest, c);
        }
        i = i + 1;
        assert(filled@ =~= w.take(if i < k { i as int } else { k as int }));
        assert(rest@ =~= if i < k { Seq::empty() } else { w.subrange(k as int, i as int) });
    }
    assert(rest@ =~= w.skip(k as int));
    (filled, rest)
}

/// Renders a `width` bar at `done` of `total` with `center_msg` over its
/// middle. Returns the filled part and the rest, which together are the
/// whole bar.
pub fn percentage(done: usize, total: usize, width: usize, center_msg: &str) -> (r: (String, String))
    requires
        center_msg@.len() <= width,
        2 * width <= usize::MAX,
    ensures
        r.0@ == bar_text(filled_halves(done as nat, total as nat, width as nat), width as nat, center_msg@).take(
            filled_len(filled_halves(done as nat, total as nat, width as nat)) as int,
        ),
        r.1@ == bar_text(filled_halves(done as nat, total as nat, width as nat), width as nat, center_msg@).skip(
            filled_len(filled_halves(done as nat, total as nat, width as nat)) as int,
        ),
{
    let halves = halves_of(done, total, width);
    let whole = bar_string(halves, width, center_msg);
    split_chars(&whole, (halves + 1) / 2)
}

} // verus!
