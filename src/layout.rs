//! The space distribution of a stack, stated over one axis and over a
//! function `m` that gives, for child `i` and suggested bounds `b`, the bounds
//! that child reports.
use vstd::prelude::*;
use crate::geometry::{Bounds, Padding, SizingHint, clamp};

verus! {

/// The size used to probe how far a child is willing to grow.
pub const PROBE: u32 = 999;

/// The highest flexibility score a child can get.
pub const MAX_SCORE: u32 = 6;

/// The axis along which a stack lines up its children.
#[derive(Clone, Copy, Debug, PartialEq, Eq, Structural)]
pub enum Axis {
    Horizontal,
    Vertical,
}

/// Where a child sits on the cross axis.
#[derive(Clone, Copy, Debug, PartialEq, Eq, Structural)]
pub enum Placement {
    Start,
    Center,
    End,
}

/// Where a child is painted and with which bounds.
#[derive(Clone, Copy, Debug)]
pub struct Frame {
    pub x: u32,
    pub y: u32,
    pub bounds: Bounds,
}

pub open spec fn main_of(b: Bounds, a: Axis) -> u32 {
    match a {
        Axis::Horizontal => b.width,
        Axis::Vertical => b.height,
    }
}

pub open spec fn cross_of(b: Bounds, a: Axis) -> u32 {
    match a {
        Axis::Horizontal => b.height,
        Axis::Vertical => b.width,
    }
}

/// `b` with its main-axis size replaced.
pub open spec fn with_main(b: Bounds, a: Axis, v: u32) -> Bounds {
    match a {
        Axis::Horizontal => Bounds { width: v, ..b },
        Axis::Vertical => Bounds { height: v, ..b },
    }
}

/// Optimal-hinted bounds from a main-axis and a cross-axis size.
pub open spec fn from_axes(a: Axis, main: u32, cross: u32) -> Bounds {
    match a {
        Axis::Horizontal => Bounds { width: main, height: cross, hint: SizingHint::Optimal },
        Axis::Vertical => Bounds { width: cross, height: main, hint: SizingHint::Optimal },
    }
}

pub open spec fn probe(hint: SizingHint) -> Bounds {
    Bounds { width: PROBE, height: PROBE, hint }
}

pub open spec fn zero_probe() -> Bounds {
    Bounds { width: 0, height: 0, hint: SizingHint::ZeroSpace }
}

/// How willing a child is to flex along the axis: 3 if it grows to fill a
/// large probe, plus 3 if it collapses to nothing under the zero hint, or 2
/// if it merely shrinks below its optimal size there.
pub open spec fn flex_score(grown: u32, collapsed: u32, optimal: u32) -> u32 {
    let growing: u32 = if grown == PROBE { 3 } else { 0 };
    let shrinking: u32 = if collapsed == 0 {
        3
    } else if collapsed < optimal {
        2
    } else {
        0
    };
    (growing + shrinking) as u32
}

pub open spec fn child_score(m: spec_fn(int, Bounds) -> Bounds, a: Axis, i: int) -> u32 {
    flex_score(
        main_of(m(i, probe(SizingHint::InfiniteSpace)), a),
        main_of(m(i, zero_probe()), a),
        main_of(m(i, probe(SizingHint::Optimal)), a),
    )
}

pub open spec fn scores(m: spec_fn(int, Bounds) -> Bounds, a: Axis, n: nat) -> Seq<u32> {
    Seq::new(n, |i: int| child_score(m, a, i))
}

/// The indices below `k` whose score is `level`, in increasing order.
pub open spec fn with_score(scores: Seq<u32>, level: u32, k: int) -> Seq<int>
    decreases k,
{
    if k <= 0 {
        seq![]
    } else if scores[k - 1] == level {
        with_score(scores, level, k - 1).push(k - 1)
    } else {
        with_score(scores, level, k - 1)
    }
}

/// The indices whose score is at most `level`: lower scores first, and in
/// sibling order among equal scores.
pub open spec fn ranked(scores: Seq<u32>, level: int) -> Seq<int>
    decreases level + 1,
{
    if level < 0 {
        seq![]
    } else {
        ranked(scores, level - 1) + with_score(scores, level as u32, scores.len() as int)
    }
}

/// The order in which children are offered space: least flexible first,
/// ties kept in sibling order.
pub open spec fn flex_order(scores: Seq<u32>) -> Seq<int> {
    ranked(scores, MAX_SCORE as int)
}

/// Sum of the children's main-axis sizes under `s`, over the first `k`.
pub open spec fn total_main(m: spec_fn(int, Bounds) -> Bounds, a: Axis, s: Bounds, k: int) -> int
    decreases k,
{
    if k <= 0 {
        0
    } else {
        total_main(m, a, s, k - 1) + main_of(m(k - 1, s), a)
    }
}

/// The space taken by gaps between `n` children.
pub open spec fn gaps(n: int, spacing: u32) -> int {
    if n > 0 {
        (n - 1) * spacing
    } else {
        0
    }
}

/// The main-axis space handed out among the children: what they ask for
/// (all of `s` under the infinite hint), at most `s`, and at most what the
/// gaps leave of `s`.
pub open spec fn budget(m: spec_fn(int, Bounds) -> Bounds, n: int, a: Axis, spacing: u32, s: Bounds) -> int {
    let main = main_of(s, a) as int;
    let wanted = match s.hint {
        SizingHint::InfiniteSpace => main,
        _ => total_main(m, a, s, n),
    };
    let room = if gaps(n, spacing) > main {
        0
    } else {
        main - gaps(n, spacing)
    };
    let asked = if wanted < main {
        wanted
    } else {
        main
    };
    if asked < room {
        asked
    } else {
        room
    }
}

/// The first `k` steps of the greedy distribution: the space left over, and
/// the main-axis size of each child, by sibling index. Each step offers the
/// next child an equal share of what is left and subtracts what it took,
/// never going below zero.
pub open spec fn distribute(
    m: spec_fn(int, Bounds) -> Bounds,
    a: Axis,
    s: Bounds,
    order: Seq<int>,
    n: nat,
    initial: int,
    k: int,
) -> (int, Seq<u32>)
    decreases k,
{
    if k <= 0 {
        (initial, Seq::new(n, |i: int| 0u32))
    } else {
        let (left, sizes) = distribute(m, a, s, order, n, initial, k - 1);
        let idx = order[k - 1];
        let offer = left / (order.len() - (k - 1));
        let actual = main_of(m(idx, with_main(s, a, offer as u32)), a);
        let rest = if left >= actual {
            left - actual
        } else {
            0
        };
        if 0 <= idx < sizes.len() {
            (rest, sizes.update(idx, actual))
        } else {
            (rest, sizes)
        }
    }
}

/// The main-axis size each child gets, in sibling order.
pub open spec fn line_sizes(m: spec_fn(int, Bounds) -> Bounds, n: nat, a: Axis, spacing: u32, s: Bounds) -> Seq<u32> {
    let order = flex_order(scores(m, a, n));
    distribute(m, a, s, order, n, budget(m, n as int, a, spacing, s), order.len() as int).1
}

/// The unclamped offset of child `i`: the sizes before it, each followed by
/// one gap.
pub open spec fn run_length(sizes: Seq<u32>, spacing: u32, i: int) -> int
    decreases i,
{
    if i <= 0 {
        0
    } else {
        run_length(sizes, spacing, i - 1) + sizes[i - 1] + spacing
    }
}

/// The main-axis offset of child `i`.
pub open spec fn offset(sizes: Seq<u32>, spacing: u32, i: int) -> u32 {
    clamp(run_length(sizes, spacing, i))
}

/// Where the last child ends.
pub open spec fn line_length(sizes: Seq<u32>, spacing: u32) -> u32 {
    if sizes.len() == 0 {
        0
    } else {
        clamp(offset(sizes, spacing, sizes.len() - 1) + sizes.last())
    }
}

/// The largest cross-axis size of the first `k` children under `s`.
pub open spec fn max_cross(m: spec_fn(int, Bounds) -> Bounds, a: Axis, s: Bounds, k: int) -> u32
    decreases k,
{
    if k <= 0 {
        0
    } else {
        let c = cross_of(m(k - 1, s), a);
        let rest = max_cross(m, a, s, k - 1);
        if c > rest {
            c
        } else {
            rest
        }
    }
}

/// The space inside the padding.
pub open spec fn inner(s: Bounds, padding: Padding) -> Bounds {
    s.minus(padding.total())
}

/// What a stack of `n` children reports: the end of its last child plus the
/// main-axis padding, and its widest child plus the cross-axis padding.
pub open spec fn stack_measure(
    m: spec_fn(int, Bounds) -> Bounds,
    n: nat,
    a: Axis,
    spacing: u32,
    padding: Padding,
    s: Bounds,
) -> Bounds {
    let sizes = line_sizes(m, n, a, spacing, inner(s, padding));
    from_axes(
        a,
        clamp(line_length(sizes, spacing) + main_of(padding.total(), a)),
        clamp(max_cross(m, a, s, n as int) + cross_of(padding.total(), a)),
    )
}

pub open spec fn start_pad(padding: Padding, a: Axis) -> u32 {
    match a {
        Axis::Horizontal => padding.left,
        Axis::Vertical => padding.top,
    }
}

pub open spec fn end_pad(padding: Padding, a: Axis) -> u32 {
    match a {
        Axis::Horizontal => padding.right,
        Axis::Vertical => padding.bottom,
    }
}

/// The space across the stack inside its padding.
pub open spec fn inside(avail: u32, first: u32, last: u32) -> u32 {
    clamp(avail - clamp(first + last))
}

/// The cross-axis position of a child of size `child` in a stack at `origin`
/// that was offered `avail`, padded by `first` and `last`: at the near
/// padding edge; at the far padding edge less the child; or halfway across
/// the space inside the padding, rounding toward the start.
pub open spec fn cross_position(
    place: Placement,
    origin: u32,
    first: u32,
    last: u32,
    avail: u32,
    child: u32,
) -> u32 {
    match place {
        Placement::Start => clamp(origin + first),
        Placement::End => clamp(clamp(origin + first + inside(avail, first, last)) - child),
        Placement::Center => clamp(origin + first + clamp(inside(avail, first, last) - child) / 2),
    }
}

/// Where child `i` of a stack at `(x, y)` is painted, and with what bounds:
/// the bounds it reports for its share of the main axis and the whole inner
/// cross axis.
pub open spec fn frame(
    m: spec_fn(int, Bounds) -> Bounds,
    n: nat,
    a: Axis,
    spacing: u32,
    padding: Padding,
    place: Placement,
    x: u32,
    y: u32,
    s: Bounds,
    i: int,
) -> Frame {
    let room = inner(s, padding);
    let sizes = line_sizes(m, n, a, spacing, room);
    let child = m(i, with_main(room, a, sizes[i]));
    let cross_axis = match a {
        Axis::Horizontal => Axis::Vertical,
        Axis::Vertical => Axis::Horizontal,
    };
    let (main_origin, cross_origin) = match a {
        Axis::Horizontal => (x, y),
        Axis::Vertical => (y, x),
    };
    let main_pos = clamp(main_origin + start_pad(padding, a) + offset(sizes, spacing, i));
    let cross_pos = cross_position(
        place,
        cross_origin,
        start_pad(padding, cross_axis),
        end_pad(padding, cross_axis),
        cross_of(s, a),
        cross_of(child, a),
    );
    match a {
        Axis::Horizontal => Frame { x: main_pos, y: cross_pos, bounds: child },
        Axis::Vertical => Frame { x: cross_pos, y: main_pos, bounds: child },
    }
}


/// The size of `b` along the axis.
pub fn main_len(b: Bounds, a: Axis) -> (r: u32)
    ensures
        r == main_of(b, a),
{
    match a {
        Axis::Horizontal => b.width,
        Axis::Vertical => b.height,
    }
}

/// The size of `b` across the axis.
pub fn cross_len(b: Bounds, a: Axis) -> (r: u32)
    ensures
        r == cross_of(b, a),
{
    match a {
        Axis::Horizontal => b.height,
        Axis::Vertical => b.width,
    }
}

/// `b` with another size along the axis.
pub fn main_adjusted(b: Bounds, a: Axis, v: u32) -> (r: Bounds)
    ensures
        r == with_main(b, a, v),
{
    match a {
        Axis::Horizontal => b.width_adjusted(v),
        Axis::Vertical => b.height_adjusted(v),
    }
}

/// Optimal-hinted bounds from sizes along and across the axis.
pub fn axes_bounds(a: Axis, main: u32, cross: u32) -> (r: Bounds)
    ensures
        r == from_axes(a, main, cross),
{
    match a {
        Axis::Horizontal => Bounds::new(main, cross),
        Axis::Vertical => Bounds::new(cross, main),
    }
}

/// The flexibility score from the three probes' results.
pub fn score_of(grown: u32, collapsed: u32, optimal: u32) -> (r: u32)
    ensures
        r == flex_score(grown, collapsed, optimal),
        r <= MAX_SCORE,
{
    let growing: u32 = if grown == PROBE { 3 } else { 0 };
    let shrinking: u32 = if collapsed == 0 {
        3
    } else if collapsed < optimal {
        2
    } else {
        0
    };
    growing + shrinking
}

/// The cross-axis position of a child.
pub fn position_across(
    place: Placement,
    origin: u32,
    first: u32,
    last: u32,
    avail: u32,
    child: u32,
) -> (r: u32)
    ensures
        r == cross_position(place, origin, first, last, avail, child),
{
    let room = avail.saturating_sub(first.saturating_add(last));
    match place {
        Placement::Start => origin.saturating_add(first),
        Placement::End => origin.saturating_add(first).saturating_add(room).saturating_sub(child),
        Placement::Center => origin.saturating_add(first).saturating_add(room.saturating_sub(child) / 2),
    }
}

/// Saturating twice is saturating once.
pub proof fn lemma_clamp_add(x: int, v: int)
    requires
        x >= 0,
        v >= 0,
    ensures
        clamp(clamp(x) + v) == clamp(x + v),
{
}

pub proof fn lemma_total_main_nonneg(m: spec_fn(int, Bounds) -> Bounds, a: Axis, s: Bounds, k: int)
    ensures
        total_main(m, a, s, k) >= 0,
    decreases k,
{
    if k > 0 {
        lemma_total_main_nonneg(m, a, s, k - 1);
    }
}

pub proof fn lemma_run_length_nonneg(sizes: Seq<u32>, spacing: u32, i: int)
    ensures
        run_length(sizes, spacing, i) >= 0,
    decreases i,
{
    if i > 0 {
        lemma_run_length_nonneg(sizes, spacing, i - 1);
    }
}

/// Where the last child ends, offsets and gaps saturating.
pub fn line_length_of(sizes: &Vec<u32>, spacing: u32) -> (r: u32)
    ensures
        r == line_length(sizes@, spacing),
{
    let n = sizes.len();
    if n == 0 {
        return 0;
    }
    let mut off: u32 = 0;
    let mut i: usize = 0;
    while i + 1 < n
        invariant
            n == sizes@.len(),
            n > 0,
            i + 1 <= n,
            off == offset(sizes@, spacing, i as int),
        decreases n - i,
    {
        proof {
            lemma_run_length_nonneg(sizes@, spacing, i as int);
            lemma_clamp_add(run_length(sizes@, spacing, i as int), sizes@[i as int] as int);
            lemma_clamp_add(run_length(sizes@, spacing, i as int) + sizes@[i as int], spacing as int);
        }
        off = off.saturating_add(sizes[i]).saturating_add(spacing);
        i = i + 1;
    }
    proof {
        lemma_run_length_nonneg(sizes@, spacing, i as int);
    }
    off.saturating_add(sizes[n - 1])
}

pub proof fn lemma_distribute_shape(
    m: spec_fn(int, Bounds) -> Bounds,
    a: Axis,
    s: Bounds,
    order: Seq<int>,
    n: nat,
    initial: int,
    k: int,
)
    requires
        0 <= initial <= u32::MAX,
        k <= order.len(),
    ensures
        distribute(m, a, s, order, n, initial, k).1.len() == n,
        0 <= distribute(m, a, s, order, n, initial, k).0 <= initial,
    decreases k,
{
    if k > 0 {
        lemma_distribute_shape(m, a, s, order, n, initial, k - 1);
    }
}

pub proof fn lemma_budget_range(m: spec_fn(int, Bounds) -> Bounds, n: int, a: Axis, spacing: u32, s: Bounds)
    ensures
        0 <= budget(m, n, a, spacing, s) <= main_of(s, a),
{
    lemma_total_main_nonneg(m, a, s, n);
}

pub proof fn lemma_run_length_grows(sizes: Seq<u32>, spacing: u32, i: int, j: int)
    requires
        0 <= i < j <= sizes.len(),
    ensures
        run_length(sizes, spacing, j) >= run_length(sizes, spacing, i) + sizes[i],
    decreases j - i,
{
    if j > i + 1 {
        lemma_run_length_grows(sizes, spacing, i, j - 1);
    }
}

/// An empty stack reports its padding and nothing else, whatever it is
/// offered and under any hint; without padding that is (0, 0).
pub proof fn lemma_empty_stack(m: spec_fn(int, Bounds) -> Bounds, a: Axis, spacing: u32, padding: Padding, s: Bounds)
    ensures
        stack_measure(m, 0, a, spacing, padding, s) == from_axes(
            a,
            main_of(padding.total(), a),
            cross_of(padding.total(), a),
        ),
        stack_measure(m, 0, a, spacing, Padding::zero_spec(), s) == (Bounds {
            width: 0,
            height: 0,
            hint: SizingHint::Optimal,
        }),
{
    let room = inner(s, padding);
    let order = flex_order(scores(m, a, 0));
    lemma_distribute_shape(m, a, room, order, 0, budget(m, 0, a, spacing, room), order.len() as int);
    let room0 = inner(s, Padding::zero_spec());
    lemma_distribute_shape(m, a, room0, order, 0, budget(m, 0, a, spacing, room0), order.len() as int);
}

/// No child is cut short: a stack's main-axis size covers the full size of
/// each child, so a child that needs more than the stack was offered makes
/// the stack report more than it was offered.
pub proof fn lemma_no_truncation(
    m: spec_fn(int, Bounds) -> Bounds,
    n: nat,
    a: Axis,
    spacing: u32,
    padding: Padding,
    s: Bounds,
    i: int,
)
    requires
        0 <= i < n,
    ensures
        main_of(stack_measure(m, n, a, spacing, padding, s), a) >= line_sizes(
            m,
            n,
            a,
            spacing,
            inner(s, padding),
        )[i],
        line_sizes(m, n, a, spacing, inner(s, padding))[i] > main_of(s, a) ==> main_of(
            stack_measure(m, n, a, spacing, padding, s),
            a,
        ) > main_of(s, a),
{
    let room = inner(s, padding);
    let order = flex_order(scores(m, a, n));
    let initial = budget(m, n as int, a, spacing, room);
    lemma_budget_range(m, n as int, a, spacing, room);
    lemma_distribute_shape(m, a, room, order, n, initial, order.len() as int);
    let sizes = line_sizes(m, n, a, spacing, room);
    lemma_run_length_nonneg(sizes, spacing, i);
    lemma_run_length_nonneg(sizes, spacing, n - 1);
    if i < n - 1 {
        lemma_run_length_grows(sizes, spacing, i, n - 1);
    }
}

/// Padding is never given up: whatever the hint, a stack reports at least
/// its padding on each axis.
pub proof fn lemma_padding_kept(
    m: spec_fn(int, Bounds) -> Bounds,
    n: nat,
    a: Axis,
    spacing: u32,
    padding: Padding,
    s: Bounds,
)
    ensures
        stack_measure(m, n, a, spacing, padding, s).width >= padding.total().width,
        stack_measure(m, n, a, spacing, padding, s).height >= padding.total().height,
{
}

/// Where a child sits across the stack: at the near padding edge; at the
/// far padding edge less the child's size; or halfway across the space
/// inside the padding, rounding toward the start. The formulas hold exactly
/// wherever nothing saturates.
pub proof fn lemma_alignment(origin: u32, first: u32, last: u32, avail: u32, child: u32)
    ensures
        origin + first <= u32::MAX ==> cross_position(Placement::Start, origin, first, last, avail, child)
            == origin + first,
        origin + avail <= u32::MAX && avail >= first + last && origin + avail - last >= child ==> cross_position(
            Placement::End,
            origin,
            first,
            last,
            avail,
            child,
        ) == origin + avail - last - child,
        origin + avail <= u32::MAX && avail >= first + last + child ==> cross_position(
            Placement::Center,
            origin,
            first,
            last,
            avail,
            child,
        ) == origin + first + (avail - first - last - child) / 2,
{
}

/// A child that grows to fill the probe and collapses to nothing gets the
/// highest score; one that keeps some size under the zero hint scores
/// lower.
pub proof fn lemma_score_order(grown: u32, collapsed: u32, optimal: u32)
    ensures
        grown == PROBE && collapsed == 0 ==> flex_score(grown, collapsed, optimal) == MAX_SCORE,
        collapsed > 0 ==> flex_score(grown, collapsed, optimal) < MAX_SCORE,
        flex_score(grown, collapsed, optimal) <= MAX_SCORE,
{
}

/// When the last two children to be placed take exactly what they are
/// offered, they split what is left: the earlier one gets the floor of half
/// of it and the later one the rest.
pub proof fn lemma_even_split(
    m: spec_fn(int, Bounds) -> Bounds,
    a: Axis,
    s: Bounds,
    order: Seq<int>,
    n: nat,
    initial: int,
)
    requires
        0 <= initial <= u32::MAX,
        order.len() >= 2,
        0 <= order[order.len() - 2] < n,
        0 <= order[order.len() - 1] < n,
        order[order.len() - 2] != order[order.len() - 1],
        forall|b: Bounds|
            b.hint == s.hint ==> main_of(#[trigger] m(order[order.len() - 2], b), a) == main_of(b, a),
        forall|b: Bounds|
            b.hint == s.hint ==> main_of(#[trigger] m(order[order.len() - 1], b), a) == main_of(b, a),
    ensures
        ({
            let left = distribute(m, a, s, order, n, initial, order.len() - 2).0;
            let sizes = distribute(m, a, s, order, n, initial, order.len() as int).1;
            &&& sizes[order[order.len() - 2]] == left / 2
            &&& sizes[order[order.len() - 1]] == left - left / 2
        }),
{
    let k = order.len() - 2;
    lemma_distribute_shape(m, a, s, order, n, initial, k);
    lemma_distribute_shape(m, a, s, order, n, initial, k + 1);
    let left = distribute(m, a, s, order, n, initial, k).0;
    let i1 = order[k];
    let i2 = order[k + 1];
    let b1 = with_main(s, a, (left / 2) as u32);
    assert(main_of(m(i1, b1), a) == left / 2);
    let left1 = distribute(m, a, s, order, n, initial, k + 1).0;
    assert(left1 == left - left / 2);
    let b2 = with_main(s, a, (left1 / 1) as u32);
    assert(main_of(m(i2, b2), a) == left1);
}


pub proof fn lemma_with_score_has(scores: Seq<u32>, i: int, k: int)
    requires
        0 <= i < k <= scores.len(),
    ensures
        with_score(scores, scores[i], k).contains(i),
    decreases k,
{
    if k - 1 == i {
        assert(with_score(scores, scores[i], k).last() == i);
    } else {
        lemma_with_score_has(scores, i, k - 1);
        let prev = with_score(scores, scores[i], k - 1);
        let j = choose|j: int| 0 <= j < prev.len() && prev[j] == i;
        if scores[k - 1] == scores[i] {
            assert(with_score(scores, scores[i], k)[j] == i);
        }
    }
}

pub proof fn lemma_ranked_has(scores: Seq<u32>, i: int, level: int)
    requires
        0 <= i < scores.len(),
        scores[i] <= level,
    ensures
        ranked(scores, level).contains(i),
    decreases level + 1,
{
    let head = ranked(scores, level - 1);
    let tail = with_score(scores, level as u32, scores.len() as int);
    if scores[i] == level {
        lemma_with_score_has(scores, i, scores.len() as int);
        let j = choose|j: int| 0 <= j < tail.len() && tail[j] == i;
        assert((head + tail)[head.len() + j] == i);
    } else {
        lemma_ranked_has(scores, i, level - 1);
        let j = choose|j: int| 0 <= j < head.len() && head[j] == i;
        assert((head + tail)[j] == i);
    }
}

/// Every child is offered space: each index appears in the order.
pub proof fn lemma_order_complete(scores: Seq<u32>, i: int)
    requires
        0 <= i < scores.len(),
        scores[i] <= MAX_SCORE,
    ensures
        flex_order(scores).contains(i),
{
    lemma_ranked_has(scores, i, MAX_SCORE as int);
}

/// With nothing to hand out, each child placed so far has the size it
/// reports under `s` with a main axis of zero.
pub proof fn lemma_nothing_to_share(
    m: spec_fn(int, Bounds) -> Bounds,
    a: Axis,
    s: Bounds,
    order: Seq<int>,
    n: nat,
    k: int,
)
    requires
        main_of(s, a) == 0,
        0 <= k <= order.len(),
    ensures
        forall|t: int|
            0 <= t < k && 0 <= order[t] < n ==> distribute(m, a, s, order, n, 0, k).1[order[t]] == main_of(
                #[trigger] m(order[t], s),
                a,
            ),
    decreases k,
{
    if k > 0 {
        lemma_nothing_to_share(m, a, s, order, n, k - 1);
        lemma_distribute_shape(m, a, s, order, n, 0, k - 1);
        assert(with_main(s, a, 0) == s);
    }
}

/// A stack is less flexible than a bare spacer along the same axis as soon
/// as one of its children keeps some size under the zero hint: then the
/// stack does too, and its score stays below the highest.
pub proof fn lemma_nested_stack_less_flexible(
    m: spec_fn(int, Bounds) -> Bounds,
    n: nat,
    a: Axis,
    spacing: u32,
    padding: Padding,
    i: int,
)
    requires
        0 <= i < n,
        main_of(m(i, zero_probe()), a) > 0,
    ensures
        main_of(stack_measure(m, n, a, spacing, padding, zero_probe()), a) > 0,
        flex_score(
            main_of(stack_measure(m, n, a, spacing, padding, probe(SizingHint::InfiniteSpace)), a),
            main_of(stack_measure(m, n, a, spacing, padding, zero_probe()), a),
            main_of(stack_measure(m, n, a, spacing, padding, probe(SizingHint::Optimal)), a),
        ) < MAX_SCORE,
{
    let room = inner(zero_probe(), padding);
    assert(room == zero_probe());
    let sc = scores(m, a, n);
    let order = flex_order(sc);
    lemma_score_order(
        main_of(m(i, probe(SizingHint::InfiniteSpace)), a),
        main_of(m(i, zero_probe()), a),
        main_of(m(i, probe(SizingHint::Optimal)), a),
    );
    lemma_order_complete(sc, i);
    let t = choose|t: int| 0 <= t < order.len() && order[t] == i;
    lemma_budget_range(m, n as int, a, spacing, room);
    assert(budget(m, n as int, a, spacing, room) == 0);
    lemma_nothing_to_share(m, a, room, order, n, order.len() as int);
    assert(line_sizes(m, n, a, spacing, room)[i] == main_of(m(i, zero_probe()), a));
    lemma_no_truncation(m, n, a, spacing, padding, zero_probe(), i);
    lemma_score_order(
        main_of(stack_measure(m, n, a, spacing, padding, probe(SizingHint::InfiniteSpace)), a),
        main_of(stack_measure(m, n, a, spacing, padding, zero_probe()), a),
        main_of(stack_measure(m, n, a, spacing, padding, probe(SizingHint::Optimal)), a),
    );
}


/// What a spacer along `a` reports: nothing under the zero hint, otherwise
/// the suggestion along `a` and zero across it.
pub open spec fn fills(b: Bounds, a: Axis) -> Bounds {
    if b.hint == SizingHint::ZeroSpace {
        Bounds { width: 0, height: 0, hint: SizingHint::Optimal }
    } else {
        match a {
            Axis::Horizontal => Bounds { height: 0, ..b },
            Axis::Vertical => Bounds { width: 0, ..b },
        }
    }
}

/// Every one of the `n` children behaves as a spacer along `a`.
pub open spec fn all_fill(m: spec_fn(int, Bounds) -> Bounds, n: nat, a: Axis) -> bool {
    forall|i: int, b: Bounds| 0 <= i < n ==> #[trigger] m(i, b) == fills(b, a)
}

/// The indices `0..n` in increasing order.
pub open spec fn sibling_order(n: nat) -> Seq<int> {
    Seq::new(n, |j: int| j)
}

/// The sum of the first `k` sizes.
pub open spec fn sum_of(sizes: Seq<u32>, k: int) -> int
    decreases k,
{
    if k <= 0 {
        0
    } else {
        sum_of(sizes, k - 1) + sizes[k - 1]
    }
}

pub proof fn lemma_sum_past_update(sizes: Seq<u32>, i: int, v: u32, k: int)
    requires
        0 <= k <= i < sizes.len(),
    ensures
        sum_of(sizes.update(i, v), k) == sum_of(sizes, k),
    decreases k,
{
    if k > 0 {
        lemma_sum_past_update(sizes, i, v, k - 1);
    }
}

pub proof fn lemma_run_length_sum(sizes: Seq<u32>, spacing: u32, i: int)
    requires
        0 <= i,
    ensures
        run_length(sizes, spacing, i) == sum_of(sizes, i) + i * (spacing as int),
    decreases i,
{
    if i == 0 {
        assert(i * (spacing as int) == 0);
    } else {
        lemma_run_length_sum(sizes, spacing, i - 1);
        let sp = spacing as int;
        assert((i - 1) * sp + sp == i * sp) by (nonlinear_arith);

    }
}

pub proof fn lemma_uniform_with_score(scores: Seq<u32>, level: u32, k: int)
    requires
        0 <= k <= scores.len(),
        forall|j: int| 0 <= j < scores.len() ==> scores[j] == MAX_SCORE,
    ensures
        with_score(scores, level, k) == (if level == MAX_SCORE {
            Seq::new(k as nat, |j: int| j)
        } else {
            Seq::<int>::empty()
        }),
    decreases k,
{
    if k > 0 {
        lemma_uniform_with_score(scores, level, k - 1);
        if level == MAX_SCORE {
            assert(Seq::new((k - 1) as nat, |j: int| j).push(k - 1) =~= Seq::new(k as nat, |j: int| j));
        }
    } else {
        assert(Seq::new(0, |j: int| j) =~= Seq::<int>::empty());
    }
}

pub proof fn lemma_uniform_ranked(scores: Seq<u32>, level: int)
    requires
        level <= MAX_SCORE,
        forall|j: int| 0 <= j < scores.len() ==> scores[j] == MAX_SCORE,
    ensures
        ranked(scores, level) == (if level == MAX_SCORE {
            Seq::new(scores.len(), |j: int| j)
        } else {
            Seq::<int>::empty()
        }),
    decreases level + 1,
{
    if level >= 0 {
        lemma_uniform_ranked(scores, level - 1);
        lemma_uniform_with_score(scores, level as u32, scores.len() as int);
        if level == MAX_SCORE {
            assert(Seq::<int>::empty() + Seq::new(scores.len(), |j: int| j) =~= Seq::new(
                scores.len(),
                |j: int| j,
            ));
        } else {
            assert(Seq::<int>::empty() + Seq::<int>::empty() =~= Seq::<int>::empty());
        }
    }
}

/// Where nothing saturates, a line is as long as its children's sizes
/// together plus one gap between each two of them.
pub proof fn lemma_line_length_sum(sizes: Seq<u32>, spacing: u32)
    requires
        sizes.len() > 0,
        sum_of(sizes, sizes.len() as int) + (sizes.len() - 1) * (spacing as int) <= u32::MAX,
    ensures
        line_length(sizes, spacing) == sum_of(sizes, sizes.len() as int) + (sizes.len() - 1) * (spacing as int),
{
    let n = sizes.len() as int;
    lemma_run_length_sum(sizes, spacing, n - 1);
    lemma_run_length_nonneg(sizes, spacing, n - 1);
    assert(sizes.last() == sizes[n - 1]);
}

/// Spacers all score the highest, so they are offered space in sibling
/// order.
pub proof fn lemma_fill_order(m: spec_fn(int, Bounds) -> Bounds, n: nat, a: Axis)
    requires
        all_fill(m, n, a),
    ensures
        flex_order(scores(m, a, n)) == sibling_order(n),
{
    let sc = scores(m, a, n);
    assert forall|j: int| 0 <= j < sc.len() implies sc[j] == MAX_SCORE by {
        assert(m(j, probe(SizingHint::InfiniteSpace)) == fills(probe(SizingHint::InfiniteSpace), a));
        assert(m(j, zero_probe()) == fills(zero_probe(), a));
    }
    lemma_uniform_ranked(sc, MAX_SCORE as int);
}

/// Spacers placed in sibling order each take what they are offered, so
/// what has been handed out plus what is left is the whole budget, and the
/// last one takes all that remains.
pub proof fn lemma_fill_distribute(
    m: spec_fn(int, Bounds) -> Bounds,
    a: Axis,
    s: Bounds,
    n: nat,
    initial: int,
    k: int,
)
    requires
        all_fill(m, n, a),
        s.hint != SizingHint::ZeroSpace,
        0 <= initial <= u32::MAX,
        0 <= k <= n,
    ensures
        ({
            let (left, sizes) = distribute(m, a, s, sibling_order(n), n, initial, k);
            &&& left + sum_of(sizes, k) == initial
            &&& (k == n && n > 0 ==> left == 0)
        }),
    decreases k,
{
    let order = sibling_order(n);
    lemma_distribute_shape(m, a, s, order, n, initial, k);
    if k > 0 {
        lemma_fill_distribute(m, a, s, n, initial, k - 1);
        lemma_distribute_shape(m, a, s, order, n, initial, k - 1);
        let (left, sizes) = distribute(m, a, s, order, n, initial, k - 1);
        let offer = left / (n - (k - 1));
        assert(0 <= offer <= left) by (nonlinear_arith)
            requires
                left >= 0,
                n - (k - 1) >= 1,
                offer == left / (n - (k - 1)),
        ;
        assert(order[k - 1] == k - 1);
        assert(order.len() == n);
        let b = with_main(s, a, offer as u32);
        assert(m(k - 1, b) == fills(b, a));
        assert(main_of(m(k - 1, b), a) == offer);
        let next = distribute(m, a, s, order, n, initial, k);
        assert(next.0 == left - offer);
        assert(next.1 == sizes.update(k - 1, offer as u32));
        assert(sum_of(next.1, k) == sum_of(next.1, k - 1) + offer);
        lemma_sum_past_update(sizes, k - 1, offer as u32, k - 1);
        if k == n {
            assert(offer == left) by (nonlinear_arith)
                requires
                    offer == left / (n - (k - 1)),
                    k == n,
            ;
        }
    }
}

/// A stack of spacers along its axis, without padding, takes the whole
/// suggestion along that axis under the optimal and the infinite hint, as
/// long as the gaps between them fit; across the axis it takes nothing.
pub proof fn lemma_spacers_fill(m: spec_fn(int, Bounds) -> Bounds, n: nat, a: Axis, spacing: u32, s: Bounds)
    requires
        all_fill(m, n, a),
        n >= 1,
        s.hint != SizingHint::ZeroSpace,
        gaps(n as int, spacing) <= main_of(s, a),
    ensures
        stack_measure(m, n, a, spacing, Padding::zero_spec(), s) == from_axes(a, main_of(s, a), 0),
{
    let room = inner(s, Padding::zero_spec());
    assert(room == s);
    lemma_fill_order(m, n, a);
    let order = sibling_order(n);
    let initial = budget(m, n as int, a, spacing, s);
    assert(initial == main_of(s, a) - gaps(n as int, spacing)) by {
        if s.hint == SizingHint::Optimal {
            lemma_fill_total(m, n, a, s, n as int);
            assert(n * main_of(s, a) >= main_of(s, a)) by (nonlinear_arith)
                requires
                    n >= 1,
            ;
        }
    }
    lemma_fill_distribute(m, a, s, n, initial, n as int);
    lemma_distribute_shape(m, a, s, order, n, initial, n as int);
    let sizes = distribute(m, a, s, order, n, initial, n as int).1;
    assert(sizes == line_sizes(m, n, a, spacing, s));
    assert(sum_of(sizes, n as int) == initial);
    lemma_run_length_sum(sizes, spacing, n - 1);
    assert(gaps(n as int, spacing) == (n - 1) * (spacing as int));
    assert(sum_of(sizes, n as int) == sum_of(sizes, n - 1) + sizes[n - 1]);
    assert(run_length(sizes, spacing, n - 1) + sizes[n - 1] == main_of(s, a));
    lemma_run_length_nonneg(sizes, spacing, n - 1);
    assert(sizes.len() == n);
    assert(sizes.last() == sizes[n - 1]);
    assert(line_length(sizes, spacing) == main_of(s, a));
    lemma_fill_cross(m, n, a, s, n as int);
}

pub proof fn lemma_fill_total(m: spec_fn(int, Bounds) -> Bounds, n: nat, a: Axis, s: Bounds, k: int)
    requires
        all_fill(m, n, a),
        s.hint != SizingHint::ZeroSpace,
        0 <= k <= n,
    ensures
        total_main(m, a, s, k) == k * (main_of(s, a) as int),
    decreases k,
{
    if k == 0 {
        assert(k * (main_of(s, a) as int) == 0);
    } else {
        lemma_fill_total(m, n, a, s, k - 1);
        assert(m(k - 1, s) == fills(s, a));
        let v = main_of(s, a) as int;
        assert((k - 1) * v + v == k * v) by (nonlinear_arith);

    }
}

pub proof fn lemma_fill_cross(m: spec_fn(int, Bounds) -> Bounds, n: nat, a: Axis, s: Bounds, k: int)
    requires
        all_fill(m, n, a),
        0 <= k <= n,
    ensures
        max_cross(m, a, s, k) == 0,
    decreases k,
{
    if k > 0 {
        lemma_fill_cross(m, n, a, s, k - 1);
        assert(m(k - 1, s) == fills(s, a));
    }
}

pub proof fn lemma_collapse_distribute(
    m: spec_fn(int, Bounds) -> Bounds,
    a: Axis,
    s: Bounds,
    order: Seq<int>,
    n: nat,
    initial: int,
    k: int,
)
    requires
        all_fill(m, n, a),
        s.hint == SizingHint::ZeroSpace,
        0 <= initial <= u32::MAX,
        forall|t: int| 0 <= t < order.len() ==> 0 <= #[trigger] order[t] < n,
        k <= order.len(),
    ensures
        forall|j: int|
            0 <= j < n ==> #[trigger] distribute(m, a, s, order, n, initial, k).1[j] == 0,
    decreases k,
{
    if k > 0 {
        lemma_collapse_distribute(m, a, s, order, n, initial, k - 1);
        lemma_distribute_shape(m, a, s, order, n, initial, k - 1);
        let left = distribute(m, a, s, order, n, initial, k - 1).0;
        let b = with_main(s, a, (left / (order.len() - (k - 1))) as u32);
        assert(m(order[k - 1], b) == fills(b, a));
    }
}

pub proof fn lemma_run_length_zero(sizes: Seq<u32>, i: int)
    requires
        0 <= i <= sizes.len(),
        forall|j: int| 0 <= j < sizes.len() ==> sizes[j] == 0,
    ensures
        run_length(sizes, 0, i) == 0,
    decreases i,
{
    if i > 0 {
        lemma_run_length_zero(sizes, i - 1);
    }
}

/// A stack of spacers along its axis, without padding or gaps, collapses to
/// (0, 0) under the zero hint.
pub proof fn lemma_spacers_collapse(m: spec_fn(int, Bounds) -> Bounds, n: nat, a: Axis, s: Bounds)
    requires
        all_fill(m, n, a),
        s.hint == SizingHint::ZeroSpace,
    ensures
        stack_measure(m, n, a, 0, Padding::zero_spec(), s) == (Bounds {
            width: 0,
            height: 0,
            hint: SizingHint::Optimal,
        }),
{
    let room = inner(s, Padding::zero_spec());
    assert(room == s);
    lemma_fill_order(m, n, a);
    let order = sibling_order(n);
    let initial = budget(m, n as int, a, 0, s);
    lemma_budget_range(m, n as int, a, 0, s);
    lemma_distribute_shape(m, a, s, order, n, initial, n as int);
    lemma_collapse_distribute(m, a, s, order, n, initial, n as int);
    let sizes = distribute(m, a, s, order, n, initial, n as int).1;
    if n > 0 {
        lemma_run_length_zero(sizes, n - 1);
    }
    lemma_fill_cross(m, n, a, s, n as int);
}


pub proof fn lemma_with_score_sorted(scores: Seq<u32>, level: u32, k: int)
    requires
        k <= scores.len(),
    ensures
        forall|t: int|
            0 <= t < with_score(scores, level, k).len() ==> 0 <= #[trigger] with_score(scores, level, k)[t] < k
                && scores[with_score(scores, level, k)[t]] == level,
        forall|t1: int, t2: int|
            0 <= t1 < t2 < with_score(scores, level, k).len() ==> #[trigger] with_score(scores, level, k)[t1]
                < #[trigger] with_score(scores, level, k)[t2],
    decreases k,
{
    if k > 0 {
        lemma_with_score_sorted(scores, level, k - 1);
        let prev = with_score(scores, level, k - 1);
        if scores[k - 1] == level {
            let cur = prev.push(k - 1);
            assert(cur == with_score(scores, level, k));
            assert forall|t: int| 0 <= t < cur.len() implies 0 <= #[trigger] cur[t] < k && scores[cur[t]]
                == level by {
                if t < prev.len() {
                    assert(cur[t] == prev[t]);
                }
            }
            assert forall|t1: int, t2: int| 0 <= t1 < t2 < cur.len() implies #[trigger] cur[t1]
                < #[trigger] cur[t2] by {
                assert(cur[t1] == prev[t1]);
                if t2 < prev.len() {
                    assert(cur[t2] == prev[t2]);
                }
            }
        }
    }
}

/// Sortedness of `o` by score, then by index.
pub open spec fn stably_sorted(scores: Seq<u32>, o: Seq<int>) -> bool {
    forall|t1: int, t2: int|
        0 <= t1 < t2 < o.len() ==> scores[#[trigger] o[t1]] < scores[#[trigger] o[t2]] || (scores[o[t1]]
            == scores[o[t2]] && o[t1] < o[t2])
}

pub proof fn lemma_ranked_sorted(scores: Seq<u32>, level: int)
    requires
        level <= u32::MAX,
    ensures
        forall|t: int|
            0 <= t < ranked(scores, level).len() ==> 0 <= #[trigger] ranked(scores, level)[t] < scores.len()
                && scores[ranked(scores, level)[t]] <= level,
        stably_sorted(scores, ranked(scores, level)),
    decreases level + 1,
{
    if level >= 0 {
        lemma_ranked_sorted(scores, level - 1);
        lemma_with_score_sorted(scores, level as u32, scores.len() as int);
        let head = ranked(scores, level - 1);
        let tail = with_score(scores, level as u32, scores.len() as int);
        let all = head + tail;
        assert forall|t: int| 0 <= t < all.len() implies 0 <= #[trigger] all[t] < scores.len()
            && scores[all[t]] <= level by {
            if t >= head.len() {
                assert(all[t] == tail[t - head.len()]);
            }
        }
        assert forall|t1: int, t2: int| 0 <= t1 < t2 < all.len() implies scores[#[trigger] all[t1]]
            < scores[#[trigger] all[t2]] || (scores[all[t1]] == scores[all[t2]] && all[t1] < all[t2]) by {
            if t2 < head.len() {
                assert(all[t1] == head[t1] && all[t2] == head[t2]);
            } else if t1 < head.len() {
                assert(all[t1] == head[t1] && all[t2] == tail[t2 - head.len()]);
            } else {
                assert(all[t1] == tail[t1 - head.len()] && all[t2] == tail[t2 - head.len()]);
            }
        }
    }
}

/// Children are offered space in a stable sort by flexibility: every index
/// appears once, lower scores come first, and equal scores keep sibling
/// order.
pub proof fn lemma_order_is_stable_sort(scores: Seq<u32>)
    requires
        forall|i: int| 0 <= i < scores.len() ==> scores[i] <= MAX_SCORE,
    ensures
        forall|t: int|
            0 <= t < flex_order(scores).len() ==> 0 <= #[trigger] flex_order(scores)[t] < scores.len(),
        forall|i: int| 0 <= i < scores.len() ==> flex_order(scores).contains(i),
        stably_sorted(scores, flex_order(scores)),
        flex_order(scores).no_duplicates(),
{
    lemma_ranked_sorted(scores, MAX_SCORE as int);
    assert forall|i: int| 0 <= i < scores.len() implies flex_order(scores).contains(i) by {
        lemma_order_complete(scores, i);
    }
    let o = flex_order(scores);
    assert forall|t1: int, t2: int| 0 <= t1 < o.len() && 0 <= t2 < o.len() && t1 != t2 implies o[t1]
        != o[t2] by {
        if t1 < t2 {
            assert(scores[o[t1]] < scores[o[t2]] || o[t1] < o[t2]);
        } else {
            assert(scores[o[t2]] < scores[o[t1]] || o[t2] < o[t1]);
        }
    }
}

} // verus!
