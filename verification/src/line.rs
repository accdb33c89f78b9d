//! Straight line segments on the integer grid.
//!
//! A segment from `a` to `b` is walked in `span(a, b)` equal steps, where the
//! span is the larger of the two coordinate distances. After `i` steps each
//! coordinate has moved by its share `i / span` of the whole distance,
//! rounded to the nearest integer with halves rounded up.
//!
//! The executable walk keeps one quotient and one remainder per axis. It
//! divides once, at the step where the segment can first enter the grid,
//! and from there on only adds, subtracts and compares.

use vstd::prelude::*;
use vstd::arithmetic::div_mod::lemma_fundamental_div_mod_converse;
use crate::buffer::{
    lemma_paint_inside, lemma_paint_nothing, lemma_paint_union, lemma_union_step, paint,
    union_of, FrameBuffer, Glyph,
};

verus! {

/// A position on the grid: column `x`, row `y`.
#[derive(Clone, Copy, Debug, PartialEq, Eq, Structural)]
pub struct Pixel {
    pub x: i32,
    pub y: i32,
}

impl View for Pixel {
    type V = (int, int);

    /// The position as a pair of integers, column first.
    open spec fn view(&self) -> (int, int) {
        (self.x as int, self.y as int)
    }
}

/// The absolute value of `d`.
pub open spec fn magnitude(d: int) -> int {
    if d < 0 {
        -d
    } else {
        d
    }
}

/// The number of steps from `a` to `b`: the larger of the horizontal and
/// the vertical distance.
pub open spec fn span(a: (int, int), b: (int, int)) -> int {
    let w = magnitude(b.0 - a.0);
    let h = magnitude(b.1 - a.1);
    if w >= h {
        w
    } else {
        h
    }
}

/// How far a coordinate that travels `d` in `n` steps has moved after `i`
/// of them: `d * i / n` rounded to the nearest integer, halves rounded up.
pub open spec fn share(d: int, i: int, n: int) -> int {
    if n > 0 {
        (2 * i * d + n) / (2 * n)
    } else {
        0
    }
}

/// The `i`-th position on the segment from `a` to `b`, counted from `a`.
pub open spec fn segment_point(a: (int, int), b: (int, int), i: int) -> (int, int) {
    (a.0 + share(b.0 - a.0, i, span(a, b)), a.1 + share(b.1 - a.1, i, span(a, b)))
}

/// The segment from `a` to `b` step by step: the one cell of each step.
pub open spec fn segment_steps(a: (int, int), b: (int, int)) -> spec_fn(int) -> Set<(int, int)> {
    |i: int| set![segment_point(a, b, i)]
}

/// The positions number `lo` up to but not including `hi` on the segment
/// from `a` to `b`.
pub open spec fn segment_range(a: (int, int), b: (int, int), lo: int, hi: int) -> Set<(int, int)> {
    union_of(segment_steps(a, b), lo, hi)
}

/// Every position that the segment from `a` to `b` covers, both ends
/// included.
pub open spec fn segment(a: (int, int), b: (int, int)) -> Set<(int, int)> {
    segment_range(a, b, 0, span(a, b) + 1)
}

/// Division with remainder: `a` is `m` times its quotient plus its
/// remainder, and the remainder lies in `0..m`.
proof fn lemma_division(a: int, m: int)
    requires
        m > 0,
    ensures
        a == m * (a / m) + a % m,
        0 <= a % m < m,
{
    vstd::arithmetic::div_mod::lemma_fundamental_div_mod(a, m);
    vstd::arithmetic::div_mod::lemma_mod_bound(a, m);
}

/// The quotient of `a` by a positive `m` lies between `lo` and `hi` when
/// `a` lies between `lo * m` and `(hi + 1) * m`.
proof fn lemma_quotient_between(a: int, m: int, lo: int, hi: int)
    by (nonlinear_arith)
    requires
        m > 0,
        lo * m <= a < (hi + 1) * m,
    ensures
        lo <= a / m <= hi,
{
    lemma_division(a, m);
    if a / m < lo {
        assert(m * (a / m) <= m * (lo - 1));
    }
    if a / m > hi {
        assert(m * (a / m) >= m * (hi + 1));
    }
}

/// A share never overshoots: it lies between nothing and the whole distance.
pub proof fn lemma_share_bounded(d: int, i: int, n: int)
    requires
        0 <= i <= n,
        magnitude(d) <= n,
    ensures
        d >= 0 ==> 0 <= share(d, i, n) <= d,
        d <= 0 ==> d <= share(d, i, n) <= 0,
{
    if n > 0 {
        let a = 2 * i * d + n;
        let m = 2 * n;
        if d >= 0 {
            assert(0 <= 2 * i * d <= 2 * n * d) by (nonlinear_arith)
                requires
                    0 <= i <= n,
                    d >= 0,
            ;
            assert((d + 1) * m == 2 * n * d + 2 * n) by (nonlinear_arith)
                requires
                    m == 2 * n,
            ;
            assert(0 * m == 0) by (nonlinear_arith);
            lemma_quotient_between(a, m, 0, d);
        } else {
            assert(2 * n * d <= 2 * i * d <= 0) by (nonlinear_arith)
                requires
                    0 <= i <= n,
                    d < 0,
            ;
            assert(d * m == 2 * n * d) by (nonlinear_arith)
                requires
                    m == 2 * n,
            ;
            assert((0 + 1) * m == m) by (nonlinear_arith);
            lemma_quotient_between(a, m, d, 0);
        }
    }
}

/// A share is the nearest whole number to the exact fraction: it is off
/// by at most half a cell, and by exactly half only upwards. The two
/// bounds leave room for one whole number only, so they fix the share
/// without a division.
pub proof fn lemma_share_nearest(d: int, i: int, n: int)
    requires
        n > 0,
    ensures
        2 * i * d - n < 2 * n * share(d, i, n) <= 2 * i * d + n,
{
    let a = 2 * i * d + n;
    let m = 2 * n;
    lemma_division(a, m);
    assert(2 * n * (a / m) == m * (a / m)) by (nonlinear_arith)
        requires
            m == 2 * n,
    ;
}

/// A segment starts at its first end and, after `span` steps, reaches its
/// second end.
pub proof fn lemma_segment_ends(a: (int, int), b: (int, int))
    ensures
        segment_point(a, b, 0) == a,
        segment_point(a, b, span(a, b)) == b,
        segment(a, b).contains(a),
        segment(a, b).contains(b),
{
    let n = span(a, b);
    if n > 0 {
        lemma_share_whole(b.0 - a.0, n);
        lemma_share_whole(b.1 - a.1, n);
    }
    assert(segment_point(a, b, 0) == a);
    assert(segment_point(a, b, n) == b);
    let steps = segment_steps(a, b);
    assert(steps(0).contains(a));
    assert(steps(n).contains(b));
}

/// With no step taken nothing has moved; with all steps taken the whole
/// distance is covered.
proof fn lemma_share_whole(d: int, n: int)
    requires
        n > 0,
    ensures
        share(d, 0, n) == 0,
        share(d, n, n) == d,
{
    assert(2 * 0 * d + n == 0 * (2 * n) + n) by (nonlinear_arith);
    lemma_fundamental_div_mod_converse(2 * 0 * d + n, 2 * n, 0, n);
    assert(2 * n * d + n == d * (2 * n) + n) by (nonlinear_arith);
    lemma_fundamental_div_mod_converse(2 * n * d + n, 2 * n, d, n);
}

/// Every position of a segment lies in the box spanned by its two ends.
pub proof fn lemma_segment_in_box(a: (int, int), b: (int, int), i: int)
    requires
        0 <= i <= span(a, b),
    ensures
        a.0 <= segment_point(a, b, i).0 <= b.0 || b.0 <= segment_point(a, b, i).0 <= a.0,
        a.1 <= segment_point(a, b, i).1 <= b.1 || b.1 <= segment_point(a, b, i).1 <= a.1,
{
    lemma_share_bounded(b.0 - a.0, i, span(a, b));
    lemma_share_bounded(b.1 - a.1, i, span(a, b));
}

/// From one step to the next a share stays or moves by one towards the
/// far end, and it moves at every step where the distance is the span.
proof fn lemma_share_step(d: int, i: int, n: int)
    requires
        0 <= i < n,
        magnitude(d) <= n,
    ensures
        d >= 0 ==> share(d, i, n) <= share(d, i + 1, n) <= share(d, i, n) + 1,
        d <= 0 ==> share(d, i, n) - 1 <= share(d, i + 1, n) <= share(d, i, n),
        d == n ==> share(d, i + 1, n) == share(d, i, n) + 1,
        d == -n ==> share(d, i + 1, n) == share(d, i, n) - 1,
{
    let m = 2 * n;
    let now = 2 * i * d + n;
    let then = 2 * (i + 1) * d + n;
    let q = now / m;
    assert(then == now + 2 * d) by (nonlinear_arith)
        requires
            now == 2 * i * d + n,
            then == 2 * (i + 1) * d + n,
    ;
    lemma_division(now, m);
    assert((q + 1) * m == m * q + m && (q + 2) * m == m * q + 2 * m && (q - 1) * m == m * q - m
        && q * m == m * q) by (nonlinear_arith);
    if d >= 0 {
        lemma_quotient_between(then, m, q, q + 1);
    } else {
        lemma_quotient_between(then, m, q - 1, q);
    }
    if d == n {
        lemma_fundamental_div_mod_converse(then, m, q + 1, now % m);
    }
    if d == -n {
        lemma_fundamental_div_mod_converse(then, m, q - 1, now % m);
    }
}

/// A segment keeps its shape wherever it lies: moving both ends by `t`
/// moves every position by `t`.
pub proof fn lemma_segment_shifted(a: (int, int), b: (int, int), t: (int, int), i: int)
    ensures
        span((a.0 + t.0, a.1 + t.1), (b.0 + t.0, b.1 + t.1)) == span(a, b),
        segment_point((a.0 + t.0, a.1 + t.1), (b.0 + t.0, b.1 + t.1), i) == (
            segment_point(a, b, i).0 + t.0,
            segment_point(a, b, i).1 + t.1,
        ),
{
}

/// A segment has no gaps: each position is a neighbour of the one before,
/// at most one column and one row away, and never the same cell.
pub proof fn lemma_segment_connected(a: (int, int), b: (int, int), i: int)
    requires
        0 <= i < span(a, b),
    ensures
        magnitude(segment_point(a, b, i + 1).0 - segment_point(a, b, i).0) <= 1,
        magnitude(segment_point(a, b, i + 1).1 - segment_point(a, b, i).1) <= 1,
        segment_point(a, b, i + 1) != segment_point(a, b, i),
{
    lemma_share_step(b.0 - a.0, i, span(a, b));
    lemma_share_step(b.1 - a.1, i, span(a, b));
}

/// Walking a distance backwards covers, step for step, what is left of
/// walking it forwards.
proof fn lemma_share_reversed(d: int, i: int, n: int)
    requires
        n > 0,
    ensures
        share(-d, i, n) == share(d, n - i, n) - d,
{
    let m = 2 * n;
    let back = 2 * i * (-d) + n;
    let q = back / m;
    let r = back % m;
    lemma_division(back, m);
    assert(2 * (n - i) * d + n == (q + d) * m + r) by (nonlinear_arith)
        requires
            back == 2 * i * (-d) + n,
            back == m * q + r,
            m == 2 * n,
    ;
    lemma_fundamental_div_mod_converse(2 * (n - i) * d + n, m, q + d, r);
}

/// A segment covers the same cells whichever end it is drawn from, so an
/// edge that two faces share looks the same from either.
pub proof fn lemma_segment_symmetric(a: (int, int), b: (int, int))
    ensures
        span(b, a) == span(a, b),
        forall|i: int|
            0 <= i <= span(a, b) ==> #[trigger] segment_point(b, a, i) == segment_point(
                a,
                b,
                span(a, b) - i,
            ),
        segment(b, a) == segment(a, b),
{
    let n = span(a, b);
    assert(span(b, a) == n);
    assert forall|i: int| 0 <= i <= n implies #[trigger] segment_point(b, a, i) == segment_point(
        a,
        b,
        n - i,
    ) by {
        if n > 0 {
            lemma_share_reversed(b.0 - a.0, i, n);
            lemma_share_reversed(b.1 - a.1, i, n);
        }
    }
    let forth = segment_steps(a, b);
    let back = segment_steps(b, a);
    assert forall|p: (int, int)| segment(b, a).contains(p) <==> segment(a, b).contains(p) by {
        if segment(b, a).contains(p) {
            let i = choose|i: int| 0 <= i < n + 1 && (#[trigger] back(i)).contains(p);
            assert(segment_point(b, a, i) == segment_point(a, b, n - i));
            assert(forth(n - i).contains(p));
        }
        if segment(a, b).contains(p) {
            let i = choose|i: int| 0 <= i < n + 1 && (#[trigger] forth(i)).contains(p);
            assert(segment_point(b, a, n - i) == segment_point(a, b, n - (n - i)));
            assert(back(n - i).contains(p));
        }
    }
    assert(segment(b, a) =~= segment(a, b));
}

/// The steps, from the first to the last, at which a coordinate lies in
/// `0..size` when it starts at `c` and moves by one cell per step, up if
/// `d` is positive and down otherwise, for `n` steps. The range is empty
/// if the first is greater than the last.
spec fn visible_steps(c: int, d: int, n: int, size: int) -> (int, int) {
    if d > 0 {
        (
            if c < 0 {
                -c
            } else {
                0
            },
            if size - 1 - c < n {
                size - 1 - c
            } else {
                n
            },
        )
    } else {
        (
            if c - size + 1 > 0 {
                c - size + 1
            } else {
                0
            },
            if c < n {
                c
            } else {
                n
            },
        )
    }
}

/// The steps of the segment from `a` to `b` that can fall into a grid of
/// `cols` columns and `rows` rows, judged by the coordinate that moves at
/// every step.
spec fn visible_range(a: (int, int), b: (int, int), cols: int, rows: int) -> (int, int) {
    if magnitude(b.0 - a.0) >= magnitude(b.1 - a.1) {
        visible_steps(a.0, b.0 - a.0, span(a, b), cols)
    } else {
        visible_steps(a.1, b.1 - a.1, span(a, b), rows)
    }
}

/// A position of a segment that lies inside the grid is reached at one of
/// the visible steps.
proof fn lemma_visible_range(a: (int, int), b: (int, int), cols: int, rows: int, i: int)
    requires
        0 < span(a, b),
        0 <= i <= span(a, b),
        0 <= segment_point(a, b, i).0 < cols,
        0 <= segment_point(a, b, i).1 < rows,
    ensures
        visible_range(a, b, cols, rows).0 <= i <= visible_range(a, b, cols, rows).1,
{
    let n = span(a, b);
    let d = if magnitude(b.0 - a.0) >= magnitude(b.1 - a.1) {
        b.0 - a.0
    } else {
        b.1 - a.1
    };
    if d > 0 {
        assert(2 * i * d + n == i * (2 * n) + n) by (nonlinear_arith)
            requires
                d == n,
        ;
        lemma_fundamental_div_mod_converse(2 * i * d + n, 2 * n, i, n);
    } else {
        assert(2 * i * d + n == (-i) * (2 * n) + n) by (nonlinear_arith)
            requires
                d == -n,
        ;
        lemma_fundamental_div_mod_converse(2 * i * d + n, 2 * n, -i, n);
    }
}

/// The state of one axis of the walk after `i` steps: `quot` is the share
/// covered so far and `rem` the remainder of the rounding division.
spec fn axis_state(d: int, n: int, i: int, quot: int, rem: int) -> bool {
    &&& 0 <= rem < 2 * n
    &&& 2 * i * d + n == quot * (2 * n) + rem
}

/// The quotient kept by the walk is the share that the segment is defined
/// by.
proof fn lemma_axis_share(d: int, n: int, i: int, quot: int, rem: int)
    requires
        n > 0,
        axis_state(d, n, i, quot, rem),
    ensures
        share(d, i, n) == quot,
{
    lemma_fundamental_div_mod_converse(2 * i * d + n, 2 * n, quot, rem);
}

/// Computes the state of one axis at step `first`, where the walk sets in.
fn axis_start(d: i64, n: i64, first: i64) -> (state: (i64, i64))
    requires
        0 < n <= 0xffff_ffff,
        -n <= d <= n,
        0 <= first <= n,
    ensures
        axis_state(d as int, n as int, first as int, state.0 as int, state.1 as int),
{
    let m: u128 = 2 * (n as u128);
    let dist: u128 = if d < 0 {
        (-d) as u128
    } else {
        d as u128
    };
    proof {
        assert(0 <= first * dist <= n * n <= 0xffff_ffff * 0xffff_ffff) by (nonlinear_arith)
            requires
                0 <= first <= n,
                0 <= dist <= n,
                n <= 0xffff_ffff,
        ;
        assert(2 * first * dist == 2 * (first * dist)) by (nonlinear_arith);
        assert((n + 1) * m == 2 * (n * n) + 2 * n) by (nonlinear_arith)
            requires
                m == 2 * n,
        ;
        assert(0 * m == 0) by (nonlinear_arith);
    }
    let travelled: u128 = 2 * (first as u128) * dist;
    if d >= 0 {
        let a: u128 = travelled + n as u128;
        let quot: u128 = a / m;
        let rem: u128 = a % m;
        proof {
            lemma_division(a as int, m as int);
            lemma_quotient_between(a as int, m as int, 0, n as int);
            assert(quot * m == m * quot) by (nonlinear_arith);
            assert(2 * first * d == travelled);
        }
        (quot as i64, rem as i64)
    } else if travelled <= n as u128 {
        proof {
            assert(2 * first * d == -travelled) by (nonlinear_arith)
                requires
                    travelled == 2 * first * dist,
                    dist == -d,
            ;
            assert(0 * (2 * n) == 0) by (nonlinear_arith);
        }
        (0, (n as u128 - travelled) as i64)
    } else {
        let behind: u128 = travelled - n as u128;
        let lifted: u128 = behind + m - 1;
        let quot: u128 = lifted / m;
        proof {
            lemma_division(lifted as int, m as int);
            lemma_quotient_between(lifted as int, m as int, 0, n as int);
            assert(quot * m == m * quot) by (nonlinear_arith);
        }
        let rem: u128 = quot * m - behind;
        proof {
            assert(2 * first * d == -travelled) by (nonlinear_arith)
                requires
                    travelled == 2 * first * dist,
                    dist == -d,
            ;
            assert((-quot) * (2 * n) == -(quot * m)) by (nonlinear_arith)
                requires
                    m == 2 * n,
            ;
        }
        (-(quot as i64), rem as i64)
    }
}

/// Advances one axis of the walk by a step.
fn axis_step(d: i64, n: i64, quot: i64, rem: i64, Ghost(i): Ghost<int>) -> (next: (i64, i64))
    requires
        0 < n <= 0xffff_ffff,
        -n <= d <= n,
        -n <= quot <= n,
        axis_state(d as int, n as int, i, quot as int, rem as int),
    ensures
        axis_state(d as int, n as int, i + 1, next.0 as int, next.1 as int),
        quot - 1 <= next.0 <= quot + 1,
{
    proof {
        assert(2 * (i + 1) * d == 2 * i * d + 2 * d) by (nonlinear_arith);
        assert((quot + 1) * (2 * n) == quot * (2 * n) + 2 * n) by (nonlinear_arith);
        assert((quot - 1) * (2 * n) == quot * (2 * n) - 2 * n) by (nonlinear_arith);
    }
    let moved: i64 = rem + 2 * d;
    if moved >= 2 * n {
        (quot + 1, moved - 2 * n)
    } else if moved < 0 {
        (quot - 1, moved + 2 * n)
    } else {
        (quot, moved)
    }
}

/// Computes the first and the last step at which a coordinate that moves
/// at every step lies in `0..size`.
fn clip_steps(c: i64, d: i64, n: i64, size: i64) -> (steps: (i64, i64))
    requires
        -0x8000_0000 <= c <= 0x7fff_ffff,
        0 < n <= 0xffff_ffff,
        0 <= size <= 0xffff,
    ensures
        (steps.0 as int, steps.1 as int) == visible_steps(c as int, d as int, n as int, size as int),
        0 <= steps.0,
        steps.1 <= n,
{
    if d > 0 {
        (
            if c < 0 {
                -c
            } else {
                0
            },
            if size - 1 - c < n {
                size - 1 - c
            } else {
                n
            },
        )
    } else {
        (
            if c - size + 1 > 0 {
                c - size + 1
            } else {
                0
            },
            if c < n {
                c
            } else {
                n
            },
        )
    }
}

/// Draws the segment between two positions: writes `glyph` at every
/// position of `segment(from, to)` that lies inside the grid and leaves all
/// other cells alone. The ends may lie anywhere.
///
/// Only the steps of the segment that can fall inside the grid are walked,
/// so the work is bounded by the size of the grid however far away the ends
/// are.
pub fn draw_line(buf: &mut FrameBuffer, from: Pixel, to: Pixel, glyph: Glyph)
    requires
        old(buf).wf(),
    ensures
        final(buf).wf(),
        final(buf).cols() == old(buf).cols(),
        final(buf).rows() == old(buf).rows(),
        final(buf)@ == paint(old(buf)@, segment(from@, to@), glyph),
{
    let dx: i64 = to.x as i64 - from.x as i64;
    let dy: i64 = to.y as i64 - from.y as i64;
    let w: i64 = if dx < 0 {
        -dx
    } else {
        dx
    };
    let h: i64 = if dy < 0 {
        -dy
    } else {
        dy
    };
    let n: i64 = if w >= h {
        w
    } else {
        h
    };
    let ghost a = from@;
    let ghost b = to@;
    let ghost cols = buf.cols() as int;
    let ghost rows = buf.rows() as int;
    assert(n == span(a, b));
    proof {
        buf.lemma_shape();
    }
    if n == 0 {
        buf.plot(from.x, from.y, glyph);
        proof {
            assert(segment_point(a, b, 0) == a);
            lemma_union_step(segment_steps(a, b), 0, 0);
            assert(segment(a, b) == set![a]);
        }
        return ;
    }
    let (first, last) = if w >= h {
        clip_steps(from.x as i64, dx, n, buf.width() as i64)
    } else {
        clip_steps(from.y as i64, dy, n, buf.height() as i64)
    };
    assert((first as int, last as int) == visible_range(a, b, cols, rows));
    proof {
        lemma_union_step(segment_steps(a, b), first as int, first as int);
        lemma_paint_nothing(buf@, glyph);
    }
    if first <= last {
        let start_x = axis_start(dx, n, first);
        let start_y = axis_start(dy, n, first);
        let mut i: i64 = first;
        let mut qx: i64 = start_x.0;
        let mut rx: i64 = start_x.1;
        let mut qy: i64 = start_y.0;
        let mut ry: i64 = start_y.1;
        while i <= last
            invariant
                0 < n <= 0xffff_ffff,
                n == span(a, b),
                a == from@,
                b == to@,
                dx == b.0 - a.0,
                dy == b.1 - a.1,
                -n <= dx <= n,
                -n <= dy <= n,
                0 <= first <= i <= last + 1,
                last <= n,
                axis_state(dx as int, n as int, i as int, qx as int, rx as int),
                axis_state(dy as int, n as int, i as int, qy as int, ry as int),
                buf.wf(),
                buf.cols() == old(buf).cols(),
                buf.rows() == old(buf).rows(),
                buf@ == paint(old(buf)@, segment_range(a, b, first as int, i as int), glyph),
            decreases last + 1 - i,
        {
            proof {
                lemma_axis_share(dx as int, n as int, i as int, qx as int, rx as int);
                lemma_axis_share(dy as int, n as int, i as int, qy as int, ry as int);
                lemma_share_bounded(dx as int, i as int, n as int);
                lemma_share_bounded(dy as int, i as int, n as int);
                lemma_union_step(segment_steps(a, b), first as int, i as int);
                lemma_paint_union(
                    old(buf)@,
                    segment_range(a, b, first as int, i as int),
                    set![segment_point(a, b, i as int)],
                    glyph,
                );
            }
            let x: i64 = from.x as i64 + qx;
            let y: i64 = from.y as i64 + qy;
            buf.plot(x as i32, y as i32, glyph);
            let next_x = axis_step(dx, n, qx, rx, Ghost(i as int));
            let next_y = axis_step(dy, n, qy, ry, Ghost(i as int));
            qx = next_x.0;
            rx = next_x.1;
            qy = next_y.0;
            ry = next_y.1;
            i += 1;
        }
    }
    proof {
        let walked = if first <= last {
            segment_range(a, b, first as int, last as int + 1)
        } else {
            Set::<(int, int)>::empty()
        };
        assert(buf@ == paint(old(buf)@, walked, glyph));
        assert forall|x: int, y: int|
            0 <= y < old(buf)@.len() && 0 <= x < old(buf)@[y].len() implies (walked.contains((x, y))
            <==> segment(a, b).contains((x, y))) by {
            let steps = segment_steps(a, b);
            if segment(a, b).contains((x, y)) {
                let i = choose|i: int| 0 <= i < n + 1 && (#[trigger] steps(i)).contains((x, y));
                lemma_visible_range(a, b, cols, rows, i);
                assert(steps(i).contains((x, y)));
                assert(walked.contains((x, y)));
            }
            if walked.contains((x, y)) {
                let i = choose|i: int|
                    first <= i < last + 1 && (#[trigger] steps(i)).contains((x, y));
                assert(0 <= i < n + 1 && steps(i).contains((x, y)));
            }
        }
        lemma_paint_inside(old(buf)@, walked, segment(a, b), glyph);
    }
}

} // verus!
