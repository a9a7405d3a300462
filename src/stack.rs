//! The element tree and the two stacks, measured and placed by the
//! distribution that `layout` states.
use vstd::prelude::*;
use crate::geometry::{Bounds, Padding, SizingHint, clamp};
use crate::layout::{
    Axis, Frame, Placement, MAX_SCORE, PROBE, budget, child_score, distribute, flex_order, frame,
    line_sizes, max_cross, ranked, run_length, scores, stack_measure, total_main, with_main,
    with_score, offset, gaps, inner, start_pad, end_pad, main_len, cross_len, main_adjusted,
    axes_bounds, score_of, position_across, line_length_of, lemma_clamp_add, all_fill,
    lemma_spacers_fill, lemma_spacers_collapse, lemma_distribute_shape, lemma_budget_range,
    lemma_total_main_nonneg, lemma_run_length_nonneg, probe, zero_probe,
};
use crate::surface::Surface;
use crate::view::{Drawable, Image, Spacer, lemma_spacer_fills};

verus! {

broadcast use {vstd::std_specs::vec::axiom_vec_index_decreases, vstd::seq::axiom_seq_index_decreases};

/// One node of a view tree: a built-in view, a stack of further nodes, or a
/// view `L` of the caller's own.
pub enum Element<L> {
    Leaf(L),
    Spacer(Spacer),
    Image(Image),
    HStack(HStack<L>),
    VStack(VStack<L>),
}

/// Horizontal alignment of the children of a vertical stack.
#[derive(Clone, Copy, Debug, PartialEq, Eq, Structural)]
pub enum HAlign {
    Left,
    Center,
    Right,
}

/// Vertical alignment of the children of a horizontal stack.
#[derive(Clone, Copy, Debug, PartialEq, Eq, Structural)]
pub enum VAlign {
    Top,
    Center,
    Bottom,
}

pub open spec fn h_placement(a: HAlign) -> Placement {
    match a {
        HAlign::Left => Placement::Start,
        HAlign::Center => Placement::Center,
        HAlign::Right => Placement::End,
    }
}

pub open spec fn v_placement(a: VAlign) -> Placement {
    match a {
        VAlign::Top => Placement::Start,
        VAlign::Center => Placement::Center,
        VAlign::Bottom => Placement::End,
    }
}

/// Children laid out top to bottom.
pub struct VStack<L> {
    pub views: Vec<Element<L>>,
    pub spacing: u32,
    pub align: HAlign,
    pub padding: Padding,
}

/// Children laid out left to right.
pub struct HStack<L> {
    pub views: Vec<Element<L>>,
    pub spacing: u32,
    pub align: VAlign,
    pub padding: Padding,
}

/// The bounds a node reports for a suggestion.
pub open spec fn measure_spec<F, L: Drawable<F>>(e: Element<L>, fonts: F, s: Bounds) -> Bounds
    decreases e, 1int,
{
    match e {
        Element::Leaf(l) => l.measured(fonts, s),
        Element::Spacer(sp) => sp.spec_measure(s),
        Element::Image(im) => im.spec_measure(),
        Element::HStack(st) => stack_measure(
            children(st.views@, fonts),
            st.views@.len(),
            Axis::Horizontal,
            st.spacing,
            st.padding,
            s,
        ),
        Element::VStack(st) => stack_measure(
            children(st.views@, fonts),
            st.views@.len(),
            Axis::Vertical,
            st.spacing,
            st.padding,
            s,
        ),
    }
}

/// Child `i` of `views`, measured under `b`.
pub open spec fn children<F, L: Drawable<F>>(views: Seq<Element<L>>, fonts: F) -> spec_fn(int, Bounds) -> Bounds
    decreases views, 0int,
{
    |i: int, b: Bounds|
        if 0 <= i < views.len() {
            measure_spec(views[i], fonts, b)
        } else {
            Bounds { width: 0, height: 0, hint: SizingHint::Optimal }
        }
}

pub proof fn lemma_child<F, L: Drawable<F>>(views: Seq<Element<L>>, fonts: F, i: int, b: Bounds)
    requires
        0 <= i < views.len(),
    ensures
        children(views, fonts)(i, b) == measure_spec(views[i], fonts, b),
{
}

/// The bounds of a node under `s`.
pub fn measure_node<F, L: Drawable<F>>(e: &Element<L>, surface: &Surface<F>, s: Bounds) -> (r: Bounds)
    ensures
        r == measure_spec(*e, surface.font_set(), s),
    decreases e, 0int,
{
    match e {
        Element::Leaf(l) => l.bounds(surface, s),
        Element::Spacer(sp) => sp.measure(s),
        Element::Image(im) => im.measure(),
        Element::HStack(st) => stack_bounds(&st.views, surface, Axis::Horizontal, st.spacing, st.padding, s),
        Element::VStack(st) => stack_bounds(&st.views, surface, Axis::Vertical, st.spacing, st.padding, s),
    }
}

/// The flexibility score of every child.
fn flex_scores<F, L: Drawable<F>>(views: &Vec<Element<L>>, surface: &Surface<F>, a: Axis) -> (r: Vec<u32>)
    ensures
        r@ == scores(children(views@, surface.font_set()), a, views@.len()),
        forall|j: int| 0 <= j < r@.len() ==> r@[j] <= MAX_SCORE,
    decreases views, 1int,
{
    let ghost m = children(views@, surface.font_set());
    let mut r: Vec<u32> = Vec::new();
    let mut i: usize = 0;
    while i < views.len()
        invariant
            m == children(views@, surface.font_set()),
            i <= views@.len(),
            r@.len() == i,
            forall|j: int| 0 <= j < i ==> r@[j] == child_score(m, a, j),
            forall|j: int| 0 <= j < i ==> r@[j] <= MAX_SCORE,
        decreases views@.len() - i,
    {
        let v = &views[i];
        proof {
            lemma_child(views@, surface.font_set(), i as int, probe(SizingHint::InfiniteSpace));
            lemma_child(views@, surface.font_set(), i as int, zero_probe());
            lemma_child(views@, surface.font_set(), i as int, probe(SizingHint::Optimal));
        }
        let grown = main_len(measure_node(v, surface, Bounds::new(PROBE, PROBE).infinitely_hinted()), a);
        let collapsed = main_len(measure_node(v, surface, Bounds::new(0, 0).zero_hinted()), a);
        let optimal = main_len(measure_node(v, surface, Bounds::new(PROBE, PROBE).optimally_hinted()), a);
        let score = score_of(grown, collapsed, optimal);
        r.push(score);
        i = i + 1;
    }
    assert(r@ =~= scores(m, a, views@.len()));
    r
}

/// The children's indices, least flexible first, stable among equal scores.
fn rank_order(sc: &Vec<u32>) -> (r: Vec<usize>)
    ensures
        r@.map_values(|v: usize| v as int) == flex_order(sc@),
        forall|j: int| 0 <= j < r@.len() ==> r@[j] < sc@.len(),
{
    let mut r: Vec<usize> = Vec::new();
    let mut level: u32 = 0;
    while level <= MAX_SCORE
        invariant
            level <= MAX_SCORE + 1,
            r@.map_values(|v: usize| v as int) == ranked(sc@, level - 1),
            forall|j: int| 0 <= j < r@.len() ==> r@[j] < sc@.len(),
        decreases MAX_SCORE + 1 - level,
    {
        let ghost before = r@.map_values(|v: usize| v as int);
        let mut i: usize = 0;
        while i < sc.len()
            invariant
                level <= MAX_SCORE,
                i <= sc@.len(),
                before == ranked(sc@, level - 1),
                r@.map_values(|v: usize| v as int) == before + with_score(sc@, level, i as int),
                forall|j: int| 0 <= j < r@.len() ==> r@[j] < sc@.len(),
            decreases sc@.len() - i,
        {
            let ghost prev = r@;
            if sc[i] == level {
                r.push(i);
                assert(r@.map_values(|v: usize| v as int) =~= prev.map_values(|v: usize| v as int).push(i as int));
            }
            i = i + 1;
        }
        level = level + 1;
    }
    r
}

/// The main-axis space to hand out.
fn budget_of<F, L: Drawable<F>>(
    views: &Vec<Element<L>>,
    surface: &Surface<F>,
    a: Axis,
    spacing: u32,
    s: Bounds,
) -> (r: u32)
    ensures
        r == budget(children(views@, surface.font_set()), views@.len() as int, a, spacing, s),
    decreases views, 1int,
{
    let ghost m = children(views@, surface.font_set());
    let n = views.len();
    let main = main_len(s, a);
    let wanted: u32 = match s.hint {
        SizingHint::InfiniteSpace => main,
        _ => {
            let mut total: u32 = 0;
            let mut i: usize = 0;
            while i < n
                invariant
                    m == children(views@, surface.font_set()),
                    n == views@.len(),
                    i <= n,
                    total == clamp(total_main(m, a, s, i as int)),
                decreases n - i,
            {
                let v = main_len(measure_node(&views[i], surface, s), a);
                proof {
                    lemma_child(views@, surface.font_set(), i as int, s);
                    lemma_total_main_nonneg(m, a, s, i as int);
                    lemma_clamp_add(total_main(m, a, s, i as int), v as int);
                }
                total = total.saturating_add(v);
                i = i + 1;
            }
            proof {
                lemma_total_main_nonneg(m, a, s, n as int);
            }
            total
        },
    };
    let room: u32 = if n == 0 {
        main
    } else {
        let k: u128 = (n - 1) as u128;
        let sp: u128 = spacing as u128;
        assert(k * sp <= 0xffff_ffff_ffff_ffffu128 * 0xffff_ffffu128) by (nonlinear_arith)
            requires
                k <= 0xffff_ffff_ffff_ffffu128,
                sp <= 0xffff_ffffu128,
        ;
        let g: u128 = k * sp;
        if g > main as u128 {
            0
        } else {
            main - g as u32
        }
    };
    let asked = if wanted < main {
        wanted
    } else {
        main
    };
    if asked < room {
        asked
    } else {
        room
    }
}

/// The main-axis size of every child, in sibling order.
fn sizes_along<F, L: Drawable<F>>(
    views: &Vec<Element<L>>,
    surface: &Surface<F>,
    a: Axis,
    spacing: u32,
    s: Bounds,
) -> (r: Vec<u32>)
    ensures
        r@ == line_sizes(children(views@, surface.font_set()), views@.len(), a, spacing, s),
    decreases views, 2int,
{
    let ghost m = children(views@, surface.font_set());
    let n = views.len();
    let sc = flex_scores(views, surface, a);
    let order = rank_order(&sc);
    let ghost ord = flex_order(sc@);
    assert(order@.len() == ord.len()) by {
        assert(order@.map_values(|v: usize| v as int).len() == order@.len());
    }
    let initial = budget_of(views, surface, a, spacing, s);
    let mut sizes: Vec<u32> = Vec::new();
    let mut i: usize = 0;
    while i < n
        invariant
            i <= n,
            sizes@ == Seq::new(i as nat, |j: int| 0u32),
        decreases n - i,
    {
        sizes.push(0);
        i = i + 1;
        assert(sizes@ =~= Seq::new(i as nat, |j: int| 0u32));
    }
    let mut left: u32 = initial;
    let mut k: usize = 0;
    while k < order.len()
        invariant
            m == children(views@, surface.font_set()),
            n == views@.len(),
            sc@.len() == n,
            ord == flex_order(sc@),
            order@.len() == ord.len(),
            order@.map_values(|v: usize| v as int) == ord,
            forall|j: int| 0 <= j < order@.len() ==> order@[j] < n,
            k <= order@.len(),
            distribute(m, a, s, ord, n as nat, initial as int, k as int).0 == left as int,
            distribute(m, a, s, ord, n as nat, initial as int, k as int).1 == sizes@,
        decreases order@.len() - k,
    {
        let idx = order[k];
        assert(ord[k as int] == idx as int);
        let share: u64 = left as u64 / (order.len() - k) as u64;
        proof {
            lemma_child(views@, surface.font_set(), idx as int, with_main(s, a, share as u32));
            lemma_distribute_shape(m, a, s, ord, n as nat, initial as int, k as int);
        }
        let got = main_len(measure_node(&views[idx], surface, main_adjusted(s, a, share as u32)), a);
        sizes.set(idx, got);
        left = left.saturating_sub(got);
        k = k + 1;
    }
    sizes
}

/// The largest cross-axis size among the children under `s`.
fn widest<F, L: Drawable<F>>(views: &Vec<Element<L>>, surface: &Surface<F>, a: Axis, s: Bounds) -> (r: u32)
    ensures
        r == max_cross(children(views@, surface.font_set()), a, s, views@.len() as int),
    decreases views, 1int,
{
    let ghost m = children(views@, surface.font_set());
    let mut best: u32 = 0;
    let mut i: usize = 0;
    while i < views.len()
        invariant
            m == children(views@, surface.font_set()),
            i <= views@.len(),
            best == max_cross(m, a, s, i as int),
        decreases views@.len() - i,
    {
        proof {
            lemma_child(views@, surface.font_set(), i as int, s);
        }
        let c = cross_len(measure_node(&views[i], surface, s), a);
        if c > best {
            best = c;
        }
        i = i + 1;
    }
    best
}

/// What a stack of `views` reports under `s`.
fn stack_bounds<F, L: Drawable<F>>(
    views: &Vec<Element<L>>,
    surface: &Surface<F>,
    a: Axis,
    spacing: u32,
    padding: Padding,
    s: Bounds,
) -> (r: Bounds)
    ensures
        r == stack_measure(children(views@, surface.font_set()), views@.len(), a, spacing, padding, s),
    decreases views, 3int,
{
    let pad = padding.bounds();
    let room = s.saturating_minus(&pad);
    let sizes = sizes_along(views, surface, a, spacing, room);
    let main = line_length_of(&sizes, spacing).saturating_add(main_len(pad, a));
    let cross = widest(views, surface, a, s).saturating_add(cross_len(pad, a));
    axes_bounds(a, main, cross)
}

/// Where each child of a stack at `(x, y)` is painted, and with what bounds.
fn stack_frames<F, L: Drawable<F>>(
    views: &Vec<Element<L>>,
    surface: &Surface<F>,
    a: Axis,
    spacing: u32,
    padding: Padding,
    place: Placement,
    x: u32,
    y: u32,
    s: Bounds,
) -> (r: Vec<Frame>)
    ensures
        r@.len() == views@.len(),
        forall|i: int|
            0 <= i < r@.len() ==> #[trigger] r@[i] == frame(
                children(views@, surface.font_set()),
                views@.len(),
                a,
                spacing,
                padding,
                place,
                x,
                y,
                s,
                i,
            ),
    decreases views, 3int,
{
    let ghost m = children(views@, surface.font_set());
    let pad = padding.bounds();
    let room = s.saturating_minus(&pad);
    let sizes = sizes_along(views, surface, a, spacing, room);
    proof {
        lemma_budget_range(m, views@.len() as int, a, spacing, room);
        lemma_distribute_shape(
            m,
            a,
            room,
            flex_order(scores(m, a, views@.len())),
            views@.len(),
            budget(m, views@.len() as int, a, spacing, room),
            flex_order(scores(m, a, views@.len())).len() as int,
        );
    }
    let cross_axis = match a {
        Axis::Horizontal => Axis::Vertical,
        Axis::Vertical => Axis::Horizontal,
    };
    let (main_origin, cross_origin) = match a {
        Axis::Horizontal => (x, y),
        Axis::Vertical => (y, x),
    };
    let (first_main, first_cross, last_cross) = match a {
        Axis::Horizontal => (padding.left, padding.top, padding.bottom),
        Axis::Vertical => (padding.top, padding.left, padding.right),
    };
    let mut r: Vec<Frame> = Vec::new();
    let mut off: u32 = 0;
    let mut i: usize = 0;
    while i < views.len()
        invariant
            m == children(views@, surface.font_set()),
            sizes@ == line_sizes(m, views@.len(), a, spacing, room),
            sizes@.len() == views@.len(),
            room == inner(s, padding),
            first_main == start_pad(padding, a),
            first_cross == start_pad(padding, cross_axis),
            last_cross == end_pad(padding, cross_axis),
            cross_axis == (match a {
                Axis::Horizontal => Axis::Vertical,
                Axis::Vertical => Axis::Horizontal,
            }),
            (main_origin, cross_origin) == (match a {
                Axis::Horizontal => (x, y),
                Axis::Vertical => (y, x),
            }),
            i <= views@.len(),
            r@.len() == i,
            off == offset(sizes@, spacing, i as int),
            forall|j: int|
                0 <= j < i ==> #[trigger] r@[j] == frame(m, views@.len(), a, spacing, padding, place, x, y, s, j),
        decreases views@.len() - i,
    {
        let placed = main_adjusted(room, a, sizes[i]);
        proof {
            lemma_child(views@, surface.font_set(), i as int, placed);
            lemma_run_length_nonneg(sizes@, spacing, i as int);
            lemma_clamp_add(main_origin + first_main, off as int);
            lemma_clamp_add(run_length(sizes@, spacing, i as int), sizes@[i as int] as int);
            lemma_clamp_add(run_length(sizes@, spacing, i as int) + sizes@[i as int], spacing as int);
        }
        let child = measure_node(&views[i], surface, placed);
        let main_pos = main_origin.saturating_add(first_main).saturating_add(off);
        let cross_pos = position_across(
            place,
            cross_origin,
            first_cross,
            last_cross,
            cross_len(s, a),
            cross_len(child, a),
        );
        let f = match a {
            Axis::Horizontal => Frame { x: main_pos, y: cross_pos, bounds: child },
            Axis::Vertical => Frame { x: cross_pos, y: main_pos, bounds: child },
        };
        r.push(f);
        off = off.saturating_add(sizes[i]).saturating_add(spacing);
        i = i + 1;
    }
    r
}

/// Whether drawing a node has an exactly stated effect on the pixels: every
/// view in it is one whose `painted` is exact.
pub open spec fn exact_node<F, L: Drawable<F>>(e: Element<L>) -> bool
    decreases e, 1int, 0int,
{
    match e {
        Element::Leaf(l) => l.paints_exactly(),
        Element::Spacer(_) => true,
        Element::Image(_) => true,
        Element::HStack(st) => exact_seq::<F, L>(st.views@, st.views@.len() as int),
        Element::VStack(st) => exact_seq::<F, L>(st.views@, st.views@.len() as int),
    }
}

/// Whether the first `k` of `views` are exact.
pub open spec fn exact_seq<F, L: Drawable<F>>(views: Seq<Element<L>>, k: int) -> bool
    decreases views, 0int, k,
{
    if k <= 0 || k > views.len() {
        true
    } else {
        exact_seq::<F, L>(views, k - 1) && exact_node::<F, L>(views[k - 1])
    }
}

/// The pixels after a node is drawn at `(x, y)` onto `before`, the pixels
/// of a surface of `size` with font registry `fonts`.
pub open spec fn painted_node<F, L: Drawable<F>>(
    e: Element<L>,
    fonts: F,
    before: Map<(u32, u32), [u8; 3]>,
    size: (u32, u32),
    x: u32,
    y: u32,
    s: Bounds,
) -> Map<(u32, u32), [u8; 3]>
    decreases e, 1int, 0int,
{
    match e {
        Element::Leaf(l) => l.painted(fonts, before, size, x, y, s),
        Element::Spacer(_) => before,
        Element::Image(im) => im.blit(before, size, x, y),
        Element::HStack(st) => paint_seq(
            st.views@,
            fonts,
            before,
            size,
            Axis::Horizontal,
            st.spacing,
            st.padding,
            v_placement(st.align),
            x,
            y,
            s,
            st.views@.len() as int,
        ),
        Element::VStack(st) => paint_seq(
            st.views@,
            fonts,
            before,
            size,
            Axis::Vertical,
            st.spacing,
            st.padding,
            h_placement(st.align),
            x,
            y,
            s,
            st.views@.len() as int,
        ),
    }
}

/// The pixels after the first `k` children of a stack at `(x, y)` are
/// drawn onto `before`, in sibling order, each at its frame and with the
/// bounds it reported for its place.
pub open spec fn paint_seq<F, L: Drawable<F>>(
    views: Seq<Element<L>>,
    fonts: F,
    before: Map<(u32, u32), [u8; 3]>,
    size: (u32, u32),
    a: Axis,
    spacing: u32,
    padding: Padding,
    place: Placement,
    x: u32,
    y: u32,
    s: Bounds,
    k: int,
) -> Map<(u32, u32), [u8; 3]>
    decreases views, 0int, k,
{
    if k <= 0 || k > views.len() {
        before
    } else {
        let mid = paint_seq(views, fonts, before, size, a, spacing, padding, place, x, y, s, k - 1);
        let f = frame(children(views, fonts), views.len(), a, spacing, padding, place, x, y, s, k - 1);
        painted_node(views[k - 1], fonts, mid, size, f.x, f.y, f.bounds)
    }
}

/// Paints a node with its top left corner at `(x, y)`.
pub fn draw_node<F, L: Drawable<F>>(e: &Element<L>, surface: &mut Surface<F>, x: u32, y: u32, s: Bounds)
    ensures
        final(surface).size() == old(surface).size(),
        final(surface).font_set() == old(surface).font_set(),
        exact_node::<F, L>(*e) ==> final(surface).pixels() == painted_node(
            *e,
            old(surface).font_set(),
            old(surface).pixels(),
            old(surface).size(),
            x,
            y,
            s,
        ),
    decreases e, 0int,
{
    match e {
        Element::Leaf(l) => l.draw(surface, x, y, s),
        Element::Spacer(_) => {},
        Element::Image(im) => im.paint(surface, x, y),
        Element::HStack(st) => draw_stack(
            &st.views,
            surface,
            Axis::Horizontal,
            st.spacing,
            st.padding,
            v_place(st.align),
            x,
            y,
            s,
        ),
        Element::VStack(st) => draw_stack(
            &st.views,
            surface,
            Axis::Vertical,
            st.spacing,
            st.padding,
            h_place(st.align),
            x,
            y,
            s,
        ),
    }
}

/// Places every child, then paints each at its frame, in sibling order.
fn draw_stack<F, L: Drawable<F>>(
    views: &Vec<Element<L>>,
    surface: &mut Surface<F>,
    a: Axis,
    spacing: u32,
    padding: Padding,
    place: Placement,
    x: u32,
    y: u32,
    s: Bounds,
)
    ensures
        final(surface).size() == old(surface).size(),
        final(surface).font_set() == old(surface).font_set(),
        exact_seq::<F, L>(views@, views@.len() as int) ==> final(surface).pixels() == paint_seq(
            views@,
            old(surface).font_set(),
            old(surface).pixels(),
            old(surface).size(),
            a,
            spacing,
            padding,
            place,
            x,
            y,
            s,
            views@.len() as int,
        ),
    decreases views, 4int,
{
    let ghost start = *surface;
    let frames = stack_frames(views, surface, a, spacing, padding, place, x, y, s);
    let mut i: usize = 0;
    while i < views.len()
        invariant
            frames@.len() == views@.len(),
            i <= views@.len(),
            forall|j: int|
                0 <= j < frames@.len() ==> #[trigger] frames@[j] == frame(
                    children(views@, start.font_set()),
                    views@.len(),
                    a,
                    spacing,
                    padding,
                    place,
                    x,
                    y,
                    s,
                    j,
                ),
            surface.size() == start.size(),
            surface.font_set() == start.font_set(),
            exact_seq::<F, L>(views@, i as int) ==> surface.pixels() == paint_seq(
                views@,
                start.font_set(),
                start.pixels(),
                start.size(),
                a,
                spacing,
                padding,
                place,
                x,
                y,
                s,
                i as int,
            ),
        decreases views@.len() - i,
    {
        let f = frames[i];
        draw_node(&views[i], surface, f.x, f.y, f.bounds);
        i = i + 1;
    }
}

fn h_place(a: HAlign) -> (r: Placement)
    ensures
        r == h_placement(a),
{
    match a {
        HAlign::Left => Placement::Start,
        HAlign::Center => Placement::Center,
        HAlign::Right => Placement::End,
    }
}

fn v_place(a: VAlign) -> (r: Placement)
    ensures
        r == v_placement(a),
{
    match a {
        VAlign::Top => Placement::Start,
        VAlign::Center => Placement::Center,
        VAlign::Bottom => Placement::End,
    }
}

impl<L> VStack<L> {
    /// An empty stack, left-aligned, with no spacing and no padding.
    pub fn new() -> (r: VStack<L>)
        ensures
            r.views@.len() == 0,
            r.spacing == 0,
            r.align == HAlign::Left,
            r.padding == Padding::zero_spec(),
    {
        VStack { views: Vec::new(), spacing: 0, align: HAlign::Left, padding: Padding::zero() }
    }

    /// Where each child is painted when the stack is drawn at `(x, y)`.
    pub fn frames<F>(&self, surface: &Surface<F>, x: u32, y: u32, suggested: Bounds) -> (r: Vec<Frame>) where
        L: Drawable<F>,
        ensures
            r@.len() == self.views@.len(),
            forall|i: int|
                0 <= i < r@.len() ==> #[trigger] r@[i] == frame(
                    children(self.views@, surface.font_set()),
                    self.views@.len(),
                    Axis::Vertical,
                    self.spacing,
                    self.padding,
                    h_placement(self.align),
                    x,
                    y,
                    suggested,
                    i,
                ),
    {
        stack_frames(
            &self.views,
            surface,
            Axis::Vertical,
            self.spacing,
            self.padding,
            h_place(self.align),
            x,
            y,
            suggested,
        )
    }
}

impl<L> HStack<L> {
    /// An empty stack, top-aligned, with no spacing and no padding.
    pub fn new() -> (r: HStack<L>)
        ensures
            r.views@.len() == 0,
            r.spacing == 0,
            r.align == VAlign::Top,
            r.padding == Padding::zero_spec(),
    {
        HStack { views: Vec::new(), spacing: 0, align: VAlign::Top, padding: Padding::zero() }
    }

    /// Where each child is painted when the stack is drawn at `(x, y)`.
    pub fn frames<F>(&self, surface: &Surface<F>, x: u32, y: u32, suggested: Bounds) -> (r: Vec<Frame>) where
        L: Drawable<F>,
        ensures
            r@.len() == self.views@.len(),
            forall|i: int|
                0 <= i < r@.len() ==> #[trigger] r@[i] == frame(
                    children(self.views@, surface.font_set()),
                    self.views@.len(),
                    Axis::Horizontal,
                    self.spacing,
                    self.padding,
                    v_placement(self.align),
                    x,
                    y,
                    suggested,
                    i,
                ),
    {
        stack_frames(
            &self.views,
            surface,
            Axis::Horizontal,
            self.spacing,
            self.padding,
            v_place(self.align),
            x,
            y,
            suggested,
        )
    }
}

impl<F, L: Drawable<F>> Drawable<F> for VStack<L> {
    open spec fn measured(&self, fonts: F, suggested: Bounds) -> Bounds {
        stack_measure(
            children(self.views@, fonts),
            self.views@.len(),
            Axis::Vertical,
            self.spacing,
            self.padding,
            suggested,
        )
    }

    open spec fn paints_exactly(&self) -> bool {
        exact_seq::<F, L>(self.views@, self.views@.len() as int)
    }

    open spec fn painted(
        &self,
        fonts: F,
        before: Map<(u32, u32), [u8; 3]>,
        size: (u32, u32),
        x: u32,
        y: u32,
        suggested: Bounds,
    ) -> Map<(u32, u32), [u8; 3]> {
        paint_seq(
            self.views@,
            fonts,
            before,
            size,
            Axis::Vertical,
            self.spacing,
            self.padding,
            h_placement(self.align),
            x,
            y,
            suggested,
            self.views@.len() as int,
        )
    }

    open spec fn padding_known(&self) -> bool {
        true
    }

    open spec fn takes_padding(&self) -> bool {
        true
    }

    open spec fn pad_spec(&self) -> Padding {
        self.padding
    }

    fn bounds(&self, surface: &Surface<F>, suggested: Bounds) -> (r: Bounds) {
        stack_bounds(&self.views, surface, Axis::Vertical, self.spacing, self.padding, suggested)
    }

    fn draw(&self, surface: &mut Surface<F>, x: u32, y: u32, suggested: Bounds) {
        draw_stack(
            &self.views,
            surface,
            Axis::Vertical,
            self.spacing,
            self.padding,
            h_place(self.align),
            x,
            y,
            suggested,
        )
    }

    fn padding_data(&self) -> Padding {
        self.padding
    }

    fn set_padding_data(&mut self, padding: Padding) {
        self.padding = padding;
    }
}

impl<F, L: Drawable<F>> Drawable<F> for HStack<L> {
    open spec fn measured(&self, fonts: F, suggested: Bounds) -> Bounds {
        stack_measure(
            children(self.views@, fonts),
            self.views@.len(),
            Axis::Horizontal,
            self.spacing,
            self.padding,
            suggested,
        )
    }

    open spec fn paints_exactly(&self) -> bool {
        exact_seq::<F, L>(self.views@, self.views@.len() as int)
    }

    open spec fn painted(
        &self,
        fonts: F,
        before: Map<(u32, u32), [u8; 3]>,
        size: (u32, u32),
        x: u32,
        y: u32,
        suggested: Bounds,
    ) -> Map<(u32, u32), [u8; 3]> {
        paint_seq(
            self.views@,
            fonts,
            before,
            size,
            Axis::Horizontal,
            self.spacing,
            self.padding,
            v_placement(self.align),
            x,
            y,
            suggested,
            self.views@.len() as int,
        )
    }

    open spec fn padding_known(&self) -> bool {
        true
    }

    open spec fn takes_padding(&self) -> bool {
        true
    }

    open spec fn pad_spec(&self) -> Padding {
        self.padding
    }

    fn bounds(&self, surface: &Surface<F>, suggested: Bounds) -> (r: Bounds) {
        stack_bounds(&self.views, surface, Axis::Horizontal, self.spacing, self.padding, suggested)
    }

    fn draw(&self, surface: &mut Surface<F>, x: u32, y: u32, suggested: Bounds) {
        draw_stack(
            &self.views,
            surface,
            Axis::Horizontal,
            self.spacing,
            self.padding,
            v_place(self.align),
            x,
            y,
            suggested,
        )
    }

    fn padding_data(&self) -> Padding {
        self.padding
    }

    fn set_padding_data(&mut self, padding: Padding) {
        self.padding = padding;
    }
}

impl<F, L: Drawable<F>> Drawable<F> for Element<L> {
    open spec fn measured(&self, fonts: F, suggested: Bounds) -> Bounds {
        measure_spec(*self, fonts, suggested)
    }

    open spec fn paints_exactly(&self) -> bool {
        exact_node::<F, L>(*self)
    }

    open spec fn painted(
        &self,
        fonts: F,
        before: Map<(u32, u32), [u8; 3]>,
        size: (u32, u32),
        x: u32,
        y: u32,
        suggested: Bounds,
    ) -> Map<(u32, u32), [u8; 3]> {
        painted_node(*self, fonts, before, size, x, y, suggested)
    }

    open spec fn padding_known(&self) -> bool {
        match self {
            Element::Leaf(l) => l.padding_known(),
            _ => true,
        }
    }

    open spec fn takes_padding(&self) -> bool {
        match self {
            Element::Leaf(l) => l.takes_padding(),
            Element::Spacer(_) => false,
            _ => true,
        }
    }

    open spec fn pad_spec(&self) -> Padding {
        match self {
            Element::Leaf(l) => l.pad_spec(),
            Element::Spacer(_) => Padding::zero_spec(),
            Element::Image(im) => im.pad(),
            Element::HStack(st) => st.padding,
            Element::VStack(st) => st.padding,
        }
    }

    fn bounds(&self, surface: &Surface<F>, suggested: Bounds) -> (r: Bounds) {
        measure_node(self, surface, suggested)
    }

    fn draw(&self, surface: &mut Surface<F>, x: u32, y: u32, suggested: Bounds) {
        draw_node(self, surface, x, y, suggested)
    }

    fn padding_data(&self) -> Padding {
        match self {
            Element::Leaf(l) => l.padding_data(),
            Element::Spacer(_) => Padding::zero(),
            Element::Image(im) => <Image as Drawable<F>>::padding_data(im),
            Element::HStack(st) => st.padding,
            Element::VStack(st) => st.padding,
        }
    }

    fn set_padding_data(&mut self, padding: Padding) {
        match self {
            Element::Leaf(l) => l.set_padding_data(padding),
            Element::Spacer(_) => {},
            Element::Image(im) => <Image as Drawable<F>>::set_padding_data(im, padding),
            Element::HStack(st) => st.padding = padding,
            Element::VStack(st) => st.padding = padding,
        }
    }
}

/// Children that are all spacers along `a` make `children` behave as
/// spacers.
pub proof fn lemma_spacer_children<F, L: Drawable<F>>(views: Seq<Element<L>>, fonts: F, a: Axis)
    requires
        forall|i: int|
            0 <= i < views.len() ==> (#[trigger] views[i] matches Element::Spacer(sp) && (sp.is_horizontal()
                <==> a == Axis::Horizontal)),
    ensures
        all_fill(children(views, fonts), views.len(), a),
{
    assert forall|i: int, b: Bounds| 0 <= i < views.len() implies #[trigger] children(views, fonts)(i, b)
        == crate::layout::fills(b, a) by {
        if let Element::Spacer(sp) = views[i] {
            lemma_spacer_fills(sp, a, b);
        }
    }
}

/// A vertical stack holding only vertical spacers, without padding, takes
/// the whole suggested height and no width under the optimal and the
/// infinite hint (as long as the gaps fit), and collapses to (0, 0) under
/// the zero hint when it has no gaps.
pub proof fn lemma_vstack_of_spacers<F, L: Drawable<F>>(st: VStack<L>, fonts: F, s: Bounds)
    requires
        forall|i: int|
            0 <= i < st.views@.len() ==> (#[trigger] st.views@[i] matches Element::Spacer(sp)
                && !sp.is_horizontal()),
        st.padding == Padding::zero_spec(),
    ensures
        s.hint == SizingHint::ZeroSpace && st.spacing == 0 ==> st.measured(fonts, s) == (Bounds {
            width: 0,
            height: 0,
            hint: SizingHint::Optimal,
        }),
        s.hint != SizingHint::ZeroSpace && st.views@.len() >= 1 && gaps(st.views@.len() as int, st.spacing)
            <= s.height ==> st.measured(fonts, s) == (Bounds {
            width: 0,
            height: s.height,
            hint: SizingHint::Optimal,
        }),
{
    lemma_spacer_children(st.views@, fonts, Axis::Vertical);
    if s.hint == SizingHint::ZeroSpace && st.spacing == 0 {
        lemma_spacers_collapse(children(st.views@, fonts), st.views@.len(), Axis::Vertical, s);
    }
    if s.hint != SizingHint::ZeroSpace && st.views@.len() >= 1 && gaps(st.views@.len() as int, st.spacing)
        <= s.height {
        lemma_spacers_fill(children(st.views@, fonts), st.views@.len(), Axis::Vertical, st.spacing, s);
    }
}

/// A horizontal stack holding only horizontal spacers, without padding,
/// takes the whole suggested width and no height under the optimal and the
/// infinite hint (as long as the gaps fit), and collapses to (0, 0) under
/// the zero hint when it has no gaps.
pub proof fn lemma_hstack_of_spacers<F, L: Drawable<F>>(st: HStack<L>, fonts: F, s: Bounds)
    requires
        forall|i: int|
            0 <= i < st.views@.len() ==> (#[trigger] st.views@[i] matches Element::Spacer(sp)
                && sp.is_horizontal()),
        st.padding == Padding::zero_spec(),
    ensures
        s.hint == SizingHint::ZeroSpace && st.spacing == 0 ==> st.measured(fonts, s) == (Bounds {
            width: 0,
            height: 0,
            hint: SizingHint::Optimal,
        }),
        s.hint != SizingHint::ZeroSpace && st.views@.len() >= 1 && gaps(st.views@.len() as int, st.spacing)
            <= s.width ==> st.measured(fonts, s) == (Bounds {
            width: s.width,
            height: 0,
            hint: SizingHint::Optimal,
        }),
{
    lemma_spacer_children(st.views@, fonts, Axis::Horizontal);
    if s.hint == SizingHint::ZeroSpace && st.spacing == 0 {
        lemma_spacers_collapse(children(st.views@, fonts), st.views@.len(), Axis::Horizontal, s);
    }
    if s.hint != SizingHint::ZeroSpace && st.views@.len() >= 1 && gaps(st.views@.len() as int, st.spacing)
        <= s.width {
        lemma_spacers_fill(children(st.views@, fonts), st.views@.len(), Axis::Horizontal, st.spacing, s);
    }
}

} // verus!
