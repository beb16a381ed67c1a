use vstd::prelude::*;

pub mod alignment;
pub mod geometry;
pub mod sizing;

use alignment::{Edge, EdgeSet, HorizontalAlignment, VerticalAlignment};
use geometry::{Matrix, Rect};
use sizing::{clamp_usize, max_usize, sat_sub, ItemSizing, Sizing};
use crate::canvas::{Surface, TextCanvas};
use crate::text::{graphemes_of, measure_text, text_extent};

verus! {

/// A node of the declarative layout tree, and the tree below it.
///
/// The tree is immutable: the builder methods wrap a node into a new one.
/// Nodes whose content depends on the application's state name it by a key
/// that the [`LayoutContext`] interprets.
#[derive(Debug)]
pub enum Layout {
    /// Text, measured and drawn in grapheme clusters; line breaks are honored
    /// and lines wrap at the width they are given.
    Text(String),
    /// Forces the width of the inner node.
    Width(usize, Box<Layout>),
    /// Forces the height of the inner node.
    Height(usize, Box<Layout>),
    /// Empty room above the inner node, which shrinks when room runs out.
    TopPadding(usize, Box<Layout>),
    /// Empty room right of the inner node, which shrinks when room runs out.
    RightPadding(usize, Box<Layout>),
    /// Empty room below the inner node, which shrinks when room runs out.
    BottomPadding(usize, Box<Layout>),
    /// Empty room left of the inner node, which shrinks when room runs out.
    LeftPadding(usize, Box<Layout>),
    /// Takes all the height offered and centers the inner node in it.
    VCenter(Box<Layout>),
    /// Takes all the width offered and centers the inner node in it.
    HCenter(Box<Layout>),
    /// Takes all the height offered and puts the inner node at its bottom.
    VBottomAlign(Box<Layout>),
    /// Takes all the width offered and puts the inner node at its right.
    HRightAlign(Box<Layout>),
    /// Takes all the height offered and puts the inner node at its top.
    VTopAlign(Box<Layout>),
    /// Takes all the width offered and puts the inner node at its left.
    HLeftAlign(Box<Layout>),
    /// Fills the whole node with a character before drawing the inner node.
    Background(char, Box<Layout>),
    /// Frames the inner node with strips of the given thickness and character
    /// on the selected edges.
    Border(usize, char, EdgeSet, Box<Layout>),
    /// Children top to bottom, with the given gap between two of them.
    VerticalStack(HorizontalAlignment, usize, Vec<Layout>),
    /// Children left to right, with the given gap between two of them.
    HorizontalStack(VerticalAlignment, usize, Vec<Layout>),
    /// A surface that the context paints for the node's bounds.
    DrawCanvas(u64),
    /// Stands for the layout that the context builds for this key.
    WithContext(u64),
}

/// What a layout tree can ask of the application: the layouts that depend on
/// its state, and the surfaces it paints itself.
pub trait LayoutContext: Sized {
    /// The layout that `WithContext(key)` stands for. A context that is
    /// verified states it; one that is not leaves it unknown.
    open spec fn spec_layout(&self, key: u64) -> Layout {
        arbitrary()
    }

    /// A bound on how many `WithContext` nodes can be met, one inside the
    /// layout of the other, below `WithContext(key)`: by default none.
    open spec fn nesting(&self, key: u64) -> nat {
        0
    }

    /// The surface painted for `DrawCanvas(key)` in `bounds`. A context that
    /// is verified states it; one that is not leaves it unknown.
    open spec fn spec_canvas(&self, key: u64, bounds: Rect) -> Surface {
        arbitrary()
    }

    fn layout_for(&self, key: u64) -> (r: Layout)
        ensures
            r == self.spec_layout(key),
            r.context_depth(|k: u64| self.nesting(k)) <= self.nesting(key),
    ;

    fn draw_canvas(&self, key: u64, bounds: &Rect) -> (r: TextCanvas)
        ensures
            r@ == self.spec_canvas(key, *bounds),
    ;
}

/// The room taken by the gaps between `count` children spaced `spacing` apart.
pub open spec fn gaps_of(spacing: usize, count: nat) -> usize {
    if count == 0 {
        0
    } else {
        clamp_usize(spacing * (count - 1))
    }
}

/// `bounds` with its height reduced by `n`, down to zero.
pub open spec fn shrink_height(bounds: Rect, n: usize) -> Rect {
    Rect { height: sat_sub(bounds.height, n), ..bounds }
}

/// `bounds` with its width reduced by `n`, down to zero.
pub open spec fn shrink_width(bounds: Rect, n: usize) -> Rect {
    Rect { width: sat_sub(bounds.width, n), ..bounds }
}

/// The thickness a border takes from the height: once per selected edge among
/// top and bottom.
pub open spec fn border_vertical(n: usize, edges: EdgeSet) -> usize {
    clamp_usize(
        (if edges.top {
            n as int
        } else {
            0
        }) + (if edges.bottom {
            n as int
        } else {
            0
        }),
    )
}

/// The thickness a border takes from the width: once per selected edge among
/// left and right.
pub open spec fn border_horizontal(n: usize, edges: EdgeSet) -> usize {
    clamp_usize(
        (if edges.left {
            n as int
        } else {
            0
        }) + (if edges.right {
            n as int
        } else {
            0
        }),
    )
}

/// The running sizing of a stack across its axis after one more child: the
/// larger of the two, greedy as soon as either is.
pub open spec fn cross_merge(acc: Sizing, child: Sizing) -> Sizing {
    match acc {
        Sizing::Static(j) => match child {
            Sizing::Static(i) => Sizing::Static(max_usize(i, j)),
            Sizing::Greedy(i) => Sizing::Greedy(max_usize(i, j)),
        },
        Sizing::Greedy(j) => Sizing::Greedy(max_usize(child.spec_min(), j)),
    }
}

/// The sizing of a vertical stack after one more child.
pub open spec fn vertical_step(acc: ItemSizing, child: ItemSizing) -> ItemSizing {
    ItemSizing {
        horizontal: cross_merge(acc.horizontal, child.horizontal),
        vertical: acc.vertical.accumulated(child.vertical),
    }
}

/// The sizing of a horizontal stack after one more child.
pub open spec fn horizontal_step(acc: ItemSizing, child: ItemSizing) -> ItemSizing {
    ItemSizing {
        horizontal: acc.horizontal.accumulated(child.horizontal),
        vertical: cross_merge(acc.vertical, child.vertical),
    }
}

/// The sizing that starts a stack's fold: nothing across, the gaps along.
pub open spec fn stack_start(vertical: bool, gaps: usize) -> ItemSizing {
    if vertical {
        ItemSizing { horizontal: Sizing::Static(0), vertical: Sizing::Static(gaps) }
    } else {
        ItemSizing { horizontal: Sizing::Static(gaps), vertical: Sizing::Static(0) }
    }
}

impl Layout {
    /// One more than the deepest chain of `WithContext` nodes that resolving
    /// this tree can meet, as `nesting` bounds the chain below each key.
    pub open spec fn context_depth(self, nesting: spec_fn(u64) -> nat) -> nat
        decreases self, 0nat,
    {
        match self {
            Layout::Text(_) => 0,
            Layout::DrawCanvas(_) => 0,
            Layout::WithContext(k) => nesting(k) + 1,
            Layout::Width(_, c) => c.context_depth(nesting),
            Layout::Height(_, c) => c.context_depth(nesting),
            Layout::TopPadding(_, c) => c.context_depth(nesting),
            Layout::RightPadding(_, c) => c.context_depth(nesting),
            Layout::BottomPadding(_, c) => c.context_depth(nesting),
            Layout::LeftPadding(_, c) => c.context_depth(nesting),
            Layout::VCenter(c) => c.context_depth(nesting),
            Layout::HCenter(c) => c.context_depth(nesting),
            Layout::VBottomAlign(c) => c.context_depth(nesting),
            Layout::HRightAlign(c) => c.context_depth(nesting),
            Layout::VTopAlign(c) => c.context_depth(nesting),
            Layout::HLeftAlign(c) => c.context_depth(nesting),
            Layout::Background(_, c) => c.context_depth(nesting),
            Layout::Border(_, _, _, c) => c.context_depth(nesting),
            Layout::VerticalStack(_, _, cs) => depth_of_children(cs@, cs@.len() as int, nesting),
            Layout::HorizontalStack(_, _, cs) => depth_of_children(cs@, cs@.len() as int, nesting),
        }
    }
}

/// The deepest context depth among the first `i` of `cs`.
pub open spec fn depth_of_children(cs: Seq<Layout>, i: int, nesting: spec_fn(u64) -> nat) -> nat
    decreases cs, i,
{
    if i <= 0 || i > cs.len() {
        0
    } else {
        let rest = depth_of_children(cs, i - 1, nesting);
        let d = cs[i - 1].context_depth(nesting);
        if d > rest {
            d
        } else {
            rest
        }
    }
}

/// A node of a resolved tree: the layout node with its children resolved.
#[derive(Debug)]
pub enum SizedNode {
    Text(String),
    Width(usize, SizedLayout),
    Height(usize, SizedLayout),
    TopPadding(usize, SizedLayout),
    RightPadding(usize, SizedLayout),
    BottomPadding(usize, SizedLayout),
    LeftPadding(usize, SizedLayout),
    VCenter(SizedLayout),
    HCenter(SizedLayout),
    VBottomAlign(SizedLayout),
    HRightAlign(SizedLayout),
    VTopAlign(SizedLayout),
    HLeftAlign(SizedLayout),
    Background(char, SizedLayout),
    Border(usize, char, EdgeSet, SizedLayout),
    VerticalStack(HorizontalAlignment, usize, Vec<SizedLayout>),
    HorizontalStack(VerticalAlignment, usize, Vec<SizedLayout>),
    DrawCanvas(u64),
}

/// A resolved node with the sizing it asks of its parent.
#[derive(Debug)]
pub struct SizedLayout {
    pub node: Box<SizedNode>,
    pub sizing: ItemSizing,
}

/// `s` with `n` more room on the vertical axis.
pub open spec fn pad_vertical(s: ItemSizing, n: usize) -> ItemSizing {
    ItemSizing { horizontal: s.horizontal, vertical: s.vertical.added(n) }
}

/// `s` with `n` more room on the horizontal axis.
pub open spec fn pad_horizontal(s: ItemSizing, n: usize) -> ItemSizing {
    ItemSizing { horizontal: s.horizontal.added(n), vertical: s.vertical }
}

/// The bounds a child of top or bottom padding `n` is resolved in: the same
/// bounds when the child, as first resolved there, fits with the padding, or
/// else a height reduced by `n`.
pub open spec fn vertical_padding_bounds(first: ItemSizing, bounds: Rect, n: usize) -> Rect {
    if first.vertical.added(n).spec_min() > bounds.height {
        shrink_height(bounds, n)
    } else {
        bounds
    }
}

/// The bounds a child of left or right padding `n` is resolved in.
pub open spec fn horizontal_padding_bounds(first: ItemSizing, bounds: Rect, n: usize) -> Rect {
    if first.horizontal.added(n).spec_min() > bounds.width {
        shrink_width(bounds, n)
    } else {
        bounds
    }
}

/// The bounds the child of a border is resolved in: on each axis, reduced by
/// the border's thickness there when the child, as first resolved in
/// `bounds`, does not fit with it.
pub open spec fn border_bounds(first: ItemSizing, bounds: Rect, n: usize, edges: EdgeSet) -> Rect {
    let vt = border_vertical(n, edges);
    let ht = border_horizontal(n, edges);
    Rect {
        x: bounds.x,
        y: bounds.y,
        width: if first.horizontal.added(ht).spec_min() > bounds.width {
            sat_sub(bounds.width, ht)
        } else {
            bounds.width
        },
        height: if first.vertical.added(vt).spec_min() > bounds.height {
            sat_sub(bounds.height, vt)
        } else {
            bounds.height
        },
    }
}

/// The bounds every child of a vertical stack is resolved in.
pub open spec fn vertical_stack_bounds(bounds: Rect, spacing: usize, count: nat) -> Rect {
    shrink_height(bounds, gaps_of(spacing, count))
}

/// The bounds every child of a horizontal stack is resolved in.
pub open spec fn horizontal_stack_bounds(bounds: Rect, spacing: usize, count: nat) -> Rect {
    shrink_width(bounds, gaps_of(spacing, count))
}

/// The sizing of text wrapped at the width of `bounds`.
pub open spec fn text_sizing(t: Seq<char>, bounds: Rect) -> ItemSizing {
    let (w, h) = text_extent(graphemes_of(t), bounds.width);
    ItemSizing { horizontal: Sizing::Static(w), vertical: Sizing::Static(h) }
}

/// The sizing of a node that takes all the room on the vertical axis.
pub open spec fn greedy_vertical(s: ItemSizing) -> ItemSizing {
    ItemSizing { horizontal: s.horizontal, vertical: Sizing::Greedy(s.vertical.spec_min()) }
}

/// The sizing of a node that takes all the room on the horizontal axis.
pub open spec fn greedy_horizontal(s: ItemSizing) -> ItemSizing {
    ItemSizing { horizontal: Sizing::Greedy(s.horizontal.spec_min()), vertical: s.vertical }
}

impl Layout {
    /// The sizing this node asks for in `bounds`, with `fuel` context
    /// substitutions left.
    pub open spec fn sizing_in<C: LayoutContext>(self, bounds: Rect, ctx: &C, fuel: nat) -> ItemSizing
        decreases fuel, self, 0nat,
    {
        match self {
            Layout::Text(t) => text_sizing(t@, bounds),
            Layout::Width(n, c) => {
                let s = c.sizing_in(Rect { width: n, ..bounds }, ctx, fuel);
                ItemSizing { horizontal: Sizing::Static(n), vertical: s.vertical }
            },
            Layout::Height(n, c) => {
                let s = c.sizing_in(Rect { height: n, ..bounds }, ctx, fuel);
                ItemSizing { horizontal: s.horizontal, vertical: Sizing::Static(n) }
            },
            Layout::TopPadding(n, c) => pad_vertical(
                c.sizing_in(
                    vertical_padding_bounds(c.sizing_in(bounds, ctx, fuel), bounds, n),
                    ctx,
                    fuel,
                ),
                n,
            ),
            Layout::BottomPadding(n, c) => pad_vertical(
                c.sizing_in(
                    vertical_padding_bounds(c.sizing_in(bounds, ctx, fuel), bounds, n),
                    ctx,
                    fuel,
                ),
                n,
            ),
            Layout::LeftPadding(n, c) => pad_horizontal(
                c.sizing_in(
                    horizontal_padding_bounds(c.sizing_in(bounds, ctx, fuel), bounds, n),
                    ctx,
                    fuel,
                ),
                n,
            ),
            Layout::RightPadding(n, c) => pad_horizontal(
                c.sizing_in(
                    horizontal_padding_bounds(c.sizing_in(bounds, ctx, fuel), bounds, n),
                    ctx,
                    fuel,
                ),
                n,
            ),
            Layout::VCenter(c) => greedy_vertical(c.sizing_in(bounds, ctx, fuel)),
            Layout::VBottomAlign(c) => greedy_vertical(c.sizing_in(bounds, ctx, fuel)),
            Layout::VTopAlign(c) => greedy_vertical(c.sizing_in(bounds, ctx, fuel)),
            Layout::HCenter(c) => greedy_horizontal(c.sizing_in(bounds, ctx, fuel)),
            Layout::HRightAlign(c) => greedy_horizontal(c.sizing_in(bounds, ctx, fuel)),
            Layout::HLeftAlign(c) => greedy_horizontal(c.sizing_in(bounds, ctx, fuel)),
            Layout::Background(_, c) => c.sizing_in(bounds, ctx, fuel),
            Layout::Border(n, _, edges, c) => {
                let s = c.sizing_in(
                    border_bounds(c.sizing_in(bounds, ctx, fuel), bounds, n, edges),
                    ctx,
                    fuel,
                );
                pad_horizontal(
                    pad_vertical(s, border_vertical(n, edges)),
                    border_horizontal(n, edges),
                )
            },
            Layout::VerticalStack(_, sp, cs) => stack_sizing(
                cs@,
                cs@.len() as int,
                vertical_stack_bounds(bounds, sp, cs@.len()),
                ctx,
                fuel,
                true,
                gaps_of(sp, cs@.len()),
            ),
            Layout::HorizontalStack(_, sp, cs) => stack_sizing(
                cs@,
                cs@.len() as int,
                horizontal_stack_bounds(bounds, sp, cs@.len()),
                ctx,
                fuel,
                false,
                gaps_of(sp, cs@.len()),
            ),
            Layout::DrawCanvas(_) => ItemSizing {
                horizontal: Sizing::Greedy(1),
                vertical: Sizing::Greedy(1),
            },
            Layout::WithContext(k) => if fuel == 0 {
                ItemSizing { horizontal: Sizing::Static(0), vertical: Sizing::Static(0) }
            } else {
                ctx.spec_layout(k).sizing_in(bounds, ctx, (fuel - 1) as nat)
            },
        }
    }
}

/// The sizing of a stack over its first `i` children, each resolved in
/// `bounds`: along the axis their sizings accumulate after the gaps, across
/// it the largest wins.
pub open spec fn stack_sizing<C: LayoutContext>(
    cs: Seq<Layout>,
    i: int,
    bounds: Rect,
    ctx: &C,
    fuel: nat,
    vertical: bool,
    gaps: usize,
) -> ItemSizing
    decreases fuel, cs, i,
{
    if i <= 0 || i > cs.len() {
        stack_start(vertical, gaps)
    } else {
        let acc = stack_sizing(cs, i - 1, bounds, ctx, fuel, vertical, gaps);
        let s = cs[i - 1].sizing_in(bounds, ctx, fuel);
        if vertical {
            vertical_step(acc, s)
        } else {
            horizontal_step(acc, s)
        }
    }
}

impl Layout {
    /// `r` is this node resolved in `bounds`, with `fuel` context
    /// substitutions left: it carries the sizing the node asks for, and each
    /// child resolved in the bounds the node gives it.
    pub open spec fn resolves<C: LayoutContext>(
        self,
        bounds: Rect,
        ctx: &C,
        fuel: nat,
        r: SizedLayout,
    ) -> bool
        decreases fuel, self, 0nat,
    {
        &&& r.sizing == self.sizing_in(bounds, ctx, fuel)
        &&& match self {
            Layout::Text(t) => match *r.node {
                SizedNode::Text(u) => u@ == t@,
                _ => false,
            },
            Layout::Width(n, c) => match *r.node {
                SizedNode::Width(m, rc) => m == n && c.resolves(
                    Rect { width: n, ..bounds },
                    ctx,
                    fuel,
                    rc,
                ),
                _ => false,
            },
            Layout::Height(n, c) => match *r.node {
                SizedNode::Height(m, rc) => m == n && c.resolves(
                    Rect { height: n, ..bounds },
                    ctx,
                    fuel,
                    rc,
                ),
                _ => false,
            },
            Layout::TopPadding(n, c) => match *r.node {
                SizedNode::TopPadding(m, rc) => m == n && c.resolves(
                    vertical_padding_bounds(c.sizing_in(bounds, ctx, fuel), bounds, n),
                    ctx,
                    fuel,
                    rc,
                ),
                _ => false,
            },
            Layout::BottomPadding(n, c) => match *r.node {
                SizedNode::BottomPadding(m, rc) => m == n && c.resolves(
                    vertical_padding_bounds(c.sizing_in(bounds, ctx, fuel), bounds, n),
                    ctx,
                    fuel,
                    rc,
                ),
                _ => false,
            },
            Layout::LeftPadding(n, c) => match *r.node {
                SizedNode::LeftPadding(m, rc) => m == n && c.resolves(
                    horizontal_padding_bounds(c.sizing_in(bounds, ctx, fuel), bounds, n),
                    ctx,
                    fuel,
                    rc,
                ),
                _ => false,
            },
            Layout::RightPadding(n, c) => match *r.node {
                SizedNode::RightPadding(m, rc) => m == n && c.resolves(
                    horizontal_padding_bounds(c.sizing_in(bounds, ctx, fuel), bounds, n),
                    ctx,
                    fuel,
                    rc,
                ),
                _ => false,
            },
            Layout::VCenter(c) => match *r.node {
                SizedNode::VCenter(rc) => c.resolves(bounds, ctx, fuel, rc),
                _ => false,
            },
            Layout::HCenter(c) => match *r.node {
                SizedNode::HCenter(rc) => c.resolves(bounds, ctx, fuel, rc),
                _ => false,
            },
            Layout::VBottomAlign(c) => match *r.node {
                SizedNode::VBottomAlign(rc) => c.resolves(bounds, ctx, fuel, rc),
                _ => false,
            },
            Layout::HRightAlign(c) => match *r.node {
                SizedNode::HRightAlign(rc) => c.resolves(bounds, ctx, fuel, rc),
                _ => false,
            },
            Layout::VTopAlign(c) => match *r.node {
                SizedNode::VTopAlign(rc) => c.resolves(bounds, ctx, fuel, rc),
                _ => false,
            },
            Layout::HLeftAlign(c) => match *r.node {
                SizedNode::HLeftAlign(rc) => c.resolves(bounds, ctx, fuel, rc),
                _ => false,
            },
            Layout::Background(ch, c) => match *r.node {
                SizedNode::Background(ch2, rc) => ch2 == ch && c.resolves(bounds, ctx, fuel, rc),
                _ => false,
            },
            Layout::Border(n, ch, edges, c) => match *r.node {
                SizedNode::Border(m, ch2, edges2, rc) => m == n && ch2 == ch && edges2 == edges
                    && c.resolves(
                    border_bounds(c.sizing_in(bounds, ctx, fuel), bounds, n, edges),
                    ctx,
                    fuel,
                    rc,
                ),
                _ => false,
            },
            Layout::VerticalStack(a, sp, cs) => match *r.node {
                SizedNode::VerticalStack(a2, sp2, rcs) => {
                    &&& a2 == a
                    &&& sp2 == sp
                    &&& rcs@.len() == cs@.len()
                    &&& children_resolve(
                        cs@,
                        vertical_stack_bounds(bounds, sp, cs@.len()),
                        ctx,
                        fuel,
                        rcs@,
                        cs@.len() as int,
                    )
                },
                _ => false,
            },
            Layout::HorizontalStack(a, sp, cs) => match *r.node {
                SizedNode::HorizontalStack(a2, sp2, rcs) => {
                    &&& a2 == a
                    &&& sp2 == sp
                    &&& rcs@.len() == cs@.len()
                    &&& children_resolve(
                        cs@,
                        horizontal_stack_bounds(bounds, sp, cs@.len()),
                        ctx,
                        fuel,
                        rcs@,
                        cs@.len() as int,
                    )
                },
                _ => false,
            },
            Layout::DrawCanvas(k) => *r.node == SizedNode::DrawCanvas(k),
            Layout::WithContext(k) => fuel > 0 && ctx.spec_layout(k).resolves(
                bounds,
                ctx,
                (fuel - 1) as nat,
                r,
            ),
        }
    }
}

/// The first `i` children `cs` resolve, each in `bounds`, to the first `i`
/// of `rcs`.
pub open spec fn children_resolve<C: LayoutContext>(
    cs: Seq<Layout>,
    bounds: Rect,
    ctx: &C,
    fuel: nat,
    rcs: Seq<SizedLayout>,
    i: int,
) -> bool
    decreases fuel, cs, i,
{
    if i <= 0 || i > cs.len() {
        true
    } else {
        children_resolve(cs, bounds, ctx, fuel, rcs, i - 1) && cs[i - 1].resolves(
            bounds,
            ctx,
            fuel,
            rcs[i - 1],
        )
    }
}

/// Whether the first `i` children resolve depends on the first `i` results
/// alone.
pub proof fn lemma_children_resolve_prefix<C: LayoutContext>(
    cs: Seq<Layout>,
    bounds: Rect,
    ctx: &C,
    fuel: nat,
    a: Seq<SizedLayout>,
    b: Seq<SizedLayout>,
    i: int,
)
    requires
        0 <= i <= a.len(),
        i <= b.len(),
        forall|j: int| 0 <= j < i ==> a[j] == b[j],
    ensures
        children_resolve(cs, bounds, ctx, fuel, a, i) == children_resolve(cs, bounds, ctx, fuel, b, i),
    decreases i,
{
    if i > 0 {
        lemma_children_resolve_prefix(cs, bounds, ctx, fuel, a, b, i - 1);
    }
}

/// Child `j` of resolved children is its layout resolved in `bounds`.
pub proof fn lemma_children_resolve_at<C: LayoutContext>(
    cs: Seq<Layout>,
    bounds: Rect,
    ctx: &C,
    fuel: nat,
    rcs: Seq<SizedLayout>,
    i: int,
    j: int,
)
    requires
        i <= cs.len(),
        0 <= j < i,
        children_resolve(cs, bounds, ctx, fuel, rcs, i),
    ensures
        cs[j].resolves(bounds, ctx, fuel, rcs[j]),
    decreases i,
{
    if j < i - 1 {
        lemma_children_resolve_at(cs, bounds, ctx, fuel, rcs, i - 1, j);
    }
}

/// The nesting bound that `ctx` gives each key.
pub open spec fn nest<C: LayoutContext>(ctx: &C) -> spec_fn(u64) -> nat {
    |k: u64| ctx.nesting(k)
}

proof fn lemma_child_depth(cs: Seq<Layout>, i: int, n: int, nesting: spec_fn(u64) -> nat)
    requires
        0 <= i < n <= cs.len(),
    ensures
        cs[i].context_depth(nesting) <= depth_of_children(cs, n, nesting),
    decreases n,
{
    if i < n - 1 {
        lemma_child_depth(cs, i, n - 1, nesting);
    }
}

pub(crate) fn gaps_exec(spacing: usize, count: usize) -> (r: usize)
    ensures
        r == gaps_of(spacing, count as nat),
{
    if count == 0 {
        0
    } else {
        match spacing.checked_mul(count - 1) {
            Some(product) => product,
            None => usize::MAX,
        }
    }
}

fn thickness(n: usize, first: bool, second: bool) -> (r: usize)
    ensures
        r == clamp_usize(
            (if first {
                n as int
            } else {
                0
            }) + (if second {
                n as int
            } else {
                0
            }),
        ),
{
    if first && second {
        n.saturating_add(n)
    } else if first || second {
        n
    } else {
        0
    }
}

fn cross_merge_exec(acc: Sizing, child: Sizing) -> (r: Sizing)
    ensures
        r == cross_merge(acc, child),
{
    match acc {
        Sizing::Static(j) => match child {
            Sizing::Static(i) => Sizing::Static(if i >= j { i } else { j }),
            Sizing::Greedy(i) => Sizing::Greedy(if i >= j { i } else { j }),
        },
        Sizing::Greedy(j) => {
            let i = child.min_content_size();
            Sizing::Greedy(if i >= j { i } else { j })
        },
    }
}

fn stack_step(acc: ItemSizing, child: ItemSizing, vertical: bool) -> (r: ItemSizing)
    ensures
        r == if vertical {
            vertical_step(acc, child)
        } else {
            horizontal_step(acc, child)
        },
{
    if vertical {
        let mut along = acc.vertical;
        along.clamped_accumulate(&child.vertical);
        ItemSizing::new(cross_merge_exec(acc.horizontal, child.horizontal), along)
    } else {
        let mut along = acc.horizontal;
        along.clamped_accumulate(&child.horizontal);
        ItemSizing::new(along, cross_merge_exec(acc.vertical, child.vertical))
    }
}

impl SizedLayout {
    fn new(node: SizedNode, sizing: ItemSizing) -> (r: Self)
        ensures
            *r.node == node,
            r.sizing == sizing,
    {
        SizedLayout { node: Box::new(node), sizing }
    }
}

impl Layout {
    /// Resolves the sizing of every node of the tree in `bounds`, children
    /// first. Padding and borders resolve their child a second time, in
    /// reduced bounds, when it does not fit with them; `WithContext` nodes are
    /// replaced by the layout the context builds for them.
    pub fn resolve_size<C: LayoutContext>(&self, bounds: &Rect, context: &C) -> (r: SizedLayout)
        ensures
            self.resolves(*bounds, context, self.context_depth(nest(context)), r),
    {
        self.resolve_in(bounds, context, Ghost(self.context_depth(nest(context))))
    }

    fn resolve_in<C: LayoutContext>(&self, bounds: &Rect, ctx: &C, Ghost(fuel): Ghost<nat>) -> (r:
        SizedLayout)
        requires
            self.context_depth(nest(ctx)) <= fuel,
        ensures
            self.resolves(*bounds, ctx, fuel, r),
        decreases fuel, self, 2nat,
    {
        match self {
            Layout::Text(t) => {
                let (w, h) = measure_text(t.as_str(), bounds.width);
                SizedLayout::new(
                    SizedNode::Text(t.clone()),
                    ItemSizing::new(Sizing::Static(w), Sizing::Static(h)),
                )
            },
            Layout::Width(n, c) => {
                let rc = c.resolve_in(&Rect { width: *n, ..*bounds }, ctx, Ghost(fuel));
                let s = ItemSizing::new(Sizing::Static(*n), rc.sizing.vertical);
                SizedLayout::new(SizedNode::Width(*n, rc), s)
            },
            Layout::Height(n, c) => {
                let rc = c.resolve_in(&Rect { height: *n, ..*bounds }, ctx, Ghost(fuel));
                let s = ItemSizing::new(rc.sizing.horizontal, Sizing::Static(*n));
                SizedLayout::new(SizedNode::Height(*n, rc), s)
            },
            Layout::TopPadding(n, c) => {
                let rc = resolve_padded(c, *n, true, bounds, ctx, Ghost(fuel));
                let mut s = rc.sizing;
                s.vertical.clamped_add(*n);
                SizedLayout::new(SizedNode::TopPadding(*n, rc), s)
            },
            Layout::BottomPadding(n, c) => {
                let rc = resolve_padded(c, *n, true, bounds, ctx, Ghost(fuel));
                let mut s = rc.sizing;
                s.vertical.clamped_add(*n);
                SizedLayout::new(SizedNode::BottomPadding(*n, rc), s)
            },
            Layout::LeftPadding(n, c) => {
                let rc = resolve_padded(c, *n, false, bounds, ctx, Ghost(fuel));
                let mut s = rc.sizing;
                s.horizontal.clamped_add(*n);
                SizedLayout::new(SizedNode::LeftPadding(*n, rc), s)
            },
            Layout::RightPadding(n, c) => {
                let rc = resolve_padded(c, *n, false, bounds, ctx, Ghost(fuel));
                let mut s = rc.sizing;
                s.horizontal.clamped_add(*n);
                SizedLayout::new(SizedNode::RightPadding(*n, rc), s)
            },
            Layout::VCenter(c) => {
                let rc = c.resolve_in(bounds, ctx, Ghost(fuel));
                let s = ItemSizing::new(
                    rc.sizing.horizontal,
                    Sizing::Greedy(rc.sizing.vertical.min_content_size()),
                );
                SizedLayout::new(SizedNode::VCenter(rc), s)
            },
            Layout::VBottomAlign(c) => {
                let rc = c.resolve_in(bounds, ctx, Ghost(fuel));
                let s = ItemSizing::new(
                    rc.sizing.horizontal,
                    Sizing::Greedy(rc.sizing.vertical.min_content_size()),
                );
                SizedLayout::new(SizedNode::VBottomAlign(rc), s)
            },
            Layout::VTopAlign(c) => {
                let rc = c.resolve_in(bounds, ctx, Ghost(fuel));
                let s = ItemSizing::new(
                    rc.sizing.horizontal,
                    Sizing::Greedy(rc.sizing.vertical.min_content_size()),
                );
                SizedLayout::new(SizedNode::VTopAlign(rc), s)
            },
            Layout::HCenter(c) => {
                let rc = c.resolve_in(bounds, ctx, Ghost(fuel));
                let s = ItemSizing::new(
                    Sizing::Greedy(rc.sizing.horizontal.min_content_size()),
                    rc.sizing.vertical,
                );
                SizedLayout::new(SizedNode::HCenter(rc), s)
            },
            Layout::HRightAlign(c) => {
                let rc = c.resolve_in(bounds, ctx, Ghost(fuel));
                let s = ItemSizing::new(
                    Sizing::Greedy(rc.sizing.horizontal.min_content_size()),
                    rc.sizing.vertical,
                );
                SizedLayout::new(SizedNode::HRightAlign(rc), s)
            },
            Layout::HLeftAlign(c) => {
                let rc = c.resolve_in(bounds, ctx, Ghost(fuel));
                let s = ItemSizing::new(
                    Sizing::Greedy(rc.sizing.horizontal.min_content_size()),
                    rc.sizing.vertical,
                );
                SizedLayout::new(SizedNode::HLeftAlign(rc), s)
            },
            Layout::Background(ch, c) => {
                let rc = c.resolve_in(bounds, ctx, Ghost(fuel));
                let s = rc.sizing;
                SizedLayout::new(SizedNode::Background(*ch, rc), s)
            },
            Layout::Border(n, ch, edges, c) => {
                let rc = resolve_bordered(c, *n, *edges, bounds, ctx, Ghost(fuel));
                let mut s = rc.sizing;
                s.vertical.clamped_add(thickness(*n, edges.top, edges.bottom));
                s.horizontal.clamped_add(thickness(*n, edges.left, edges.right));
                SizedLayout::new(SizedNode::Border(*n, *ch, *edges, rc), s)
            },
            Layout::VerticalStack(a, sp, cs) => {
                let (kids, s) = resolve_stack(self, cs, *sp, true, bounds, ctx, Ghost(fuel));
                SizedLayout::new(SizedNode::VerticalStack(*a, *sp, kids), s)
            },
            Layout::HorizontalStack(a, sp, cs) => {
                let (kids, s) = resolve_stack(self, cs, *sp, false, bounds, ctx, Ghost(fuel));
                SizedLayout::new(SizedNode::HorizontalStack(*a, *sp, kids), s)
            },
            Layout::DrawCanvas(k) => SizedLayout::new(
                SizedNode::DrawCanvas(*k),
                ItemSizing::new(Sizing::Greedy(1), Sizing::Greedy(1)),
            ),
            Layout::WithContext(k) => {
                let l = ctx.layout_for(*k);
                proof {
                    assert(nest(ctx) =~= (|k: u64| ctx.nesting(k)));
                }
                l.resolve_in(bounds, ctx, Ghost((fuel - 1) as nat))
            },
        }
    }
}

/// Resolves the child of a padding of `n`: first in `bounds`, then, when it
/// does not fit with the padding, in bounds reduced by `n`.
fn resolve_padded<C: LayoutContext>(
    c: &Layout,
    n: usize,
    vertical: bool,
    bounds: &Rect,
    ctx: &C,
    Ghost(fuel): Ghost<nat>,
) -> (r: SizedLayout)
    requires
        c.context_depth(nest(ctx)) <= fuel,
    ensures
        vertical ==> c.resolves(
            vertical_padding_bounds(c.sizing_in(*bounds, ctx, fuel), *bounds, n),
            ctx,
            fuel,
            r,
        ),
        !vertical ==> c.resolves(
            horizontal_padding_bounds(c.sizing_in(*bounds, ctx, fuel), *bounds, n),
            ctx,
            fuel,
            r,
        ),
    decreases fuel, c, 3nat,
{
    let first = c.resolve_in(bounds, ctx, Ghost(fuel));
    if vertical {
        let mut need = first.sizing.vertical;
        need.clamped_add(n);
        if need.min_content_size() > bounds.height {
            c.resolve_in(&Rect { height: bounds.height.saturating_sub(n), ..*bounds }, ctx, Ghost(fuel))
        } else {
            first
        }
    } else {
        let mut need = first.sizing.horizontal;
        need.clamped_add(n);
        if need.min_content_size() > bounds.width {
            c.resolve_in(&Rect { width: bounds.width.saturating_sub(n), ..*bounds }, ctx, Ghost(fuel))
        } else {
            first
        }
    }
}

/// Resolves the child of a border: first in `bounds`, then, on each axis
/// where it does not fit with the border, in bounds reduced by the border.
fn resolve_bordered<C: LayoutContext>(
    c: &Layout,
    n: usize,
    edges: EdgeSet,
    bounds: &Rect,
    ctx: &C,
    Ghost(fuel): Ghost<nat>,
) -> (r: SizedLayout)
    requires
        c.context_depth(nest(ctx)) <= fuel,
    ensures
        c.resolves(border_bounds(c.sizing_in(*bounds, ctx, fuel), *bounds, n, edges), ctx, fuel, r),
    decreases fuel, c, 3nat,
{
    let first = c.resolve_in(bounds, ctx, Ghost(fuel));
    let vt = thickness(n, edges.top, edges.bottom);
    let ht = thickness(n, edges.left, edges.right);
    let mut need_v = first.sizing.vertical;
    need_v.clamped_add(vt);
    let mut need_h = first.sizing.horizontal;
    need_h.clamped_add(ht);
    let shrink_v = need_v.min_content_size() > bounds.height;
    let shrink_h = need_h.min_content_size() > bounds.width;
    if shrink_v || shrink_h {
        let inner = Rect {
            x: bounds.x,
            y: bounds.y,
            width: if shrink_h {
                bounds.width.saturating_sub(ht)
            } else {
                bounds.width
            },
            height: if shrink_v {
                bounds.height.saturating_sub(vt)
            } else {
                bounds.height
            },
        };
        c.resolve_in(&inner, ctx, Ghost(fuel))
    } else {
        proof {
            assert(border_bounds(c.sizing_in(*bounds, ctx, fuel), *bounds, n, edges) == *bounds);
        }
        first
    }
}

spec fn stack_bounds(bounds: Rect, spacing: usize, count: nat, vertical: bool) -> Rect {
    if vertical {
        vertical_stack_bounds(bounds, spacing, count)
    } else {
        horizontal_stack_bounds(bounds, spacing, count)
    }
}

/// `parent` is a stack along the given axis over `cs`, spaced `spacing`.
spec fn is_stack_of(parent: Layout, cs: Vec<Layout>, spacing: usize, vertical: bool) -> bool {
    match parent {
        Layout::VerticalStack(_, sp, v) => vertical && sp == spacing && v == cs,
        Layout::HorizontalStack(_, sp, v) => !vertical && sp == spacing && v == cs,
        _ => false,
    }
}

/// Resolves each child of a stack in the stack's bounds less its gaps, and
/// folds their sizings into the stack's own.
fn resolve_stack<C: LayoutContext>(
    parent: &Layout,
    cs: &Vec<Layout>,
    spacing: usize,
    vertical: bool,
    bounds: &Rect,
    ctx: &C,
    Ghost(fuel): Ghost<nat>,
) -> (r: (Vec<SizedLayout>, ItemSizing))
    requires
        parent.context_depth(nest(ctx)) <= fuel,
        is_stack_of(*parent, *cs, spacing, vertical),
    ensures
        r.0@.len() == cs@.len(),
        r.1 == stack_sizing(
            cs@,
            cs@.len() as int,
            stack_bounds(*bounds, spacing, cs@.len(), vertical),
            ctx,
            fuel,
            vertical,
            gaps_of(spacing, cs@.len()),
        ),
        children_resolve(
            cs@,
            stack_bounds(*bounds, spacing, cs@.len(), vertical),
            ctx,
            fuel,
            r.0@,
            cs@.len() as int,
        ),
    decreases fuel, parent, 1nat,
{
    let gaps = gaps_exec(spacing, cs.len());
    let inner = if vertical {
        Rect { height: bounds.height.saturating_sub(gaps), ..*bounds }
    } else {
        Rect { width: bounds.width.saturating_sub(gaps), ..*bounds }
    };
    let mut acc = if vertical {
        ItemSizing::new(Sizing::Static(0), Sizing::Static(gaps))
    } else {
        ItemSizing::new(Sizing::Static(gaps), Sizing::Static(0))
    };
    let mut kids: Vec<SizedLayout> = Vec::new();
    let mut i: usize = 0;
    while i < cs.len()
        invariant
            i <= cs@.len(),
            kids@.len() == i,
            parent.context_depth(nest(ctx)) <= fuel,
            is_stack_of(*parent, *cs, spacing, vertical),
            acc == stack_sizing(cs@, i as int, inner, ctx, fuel, vertical, gaps),
            children_resolve(cs@, inner, ctx, fuel, kids@, i as int),
        decreases cs@.len() - i,
    {
        proof {
            lemma_child_depth(cs@, i as int, cs@.len() as int, nest(ctx));
        }
        let rk = cs[i].resolve_in(&inner, ctx, Ghost(fuel));
        acc = stack_step(acc, rk.sizing, vertical);
        let ghost before = kids@;
        kids.push(rk);
        proof {
            lemma_children_resolve_prefix(cs@, inner, ctx, fuel, before, kids@, i as int);
        }
        i = i + 1;
    }
    (kids, acc)
}

impl Layout {
    /// A text leaf.
    pub fn text(content: &str) -> (r: Layout)
        ensures
            r matches Layout::Text(t) && t@ == content@,
    {
        Layout::Text(content.to_owned())
    }

    /// Centers this node on both axes.
    pub fn center(self) -> (r: Layout)
        ensures
            r == Layout::VCenter(Box::new(Layout::HCenter(Box::new(self)))),
    {
        Layout::VCenter(Box::new(Layout::HCenter(Box::new(self))))
    }

    pub fn center_vertically(self) -> (r: Layout)
        ensures
            r == Layout::VCenter(Box::new(self)),
    {
        Layout::VCenter(Box::new(self))
    }

    pub fn center_horizontally(self) -> (r: Layout)
        ensures
            r == Layout::HCenter(Box::new(self)),
    {
        Layout::HCenter(Box::new(self))
    }

    pub fn width(self, n: usize) -> (r: Layout)
        ensures
            r == Layout::Width(n, Box::new(self)),
    {
        Layout::Width(n, Box::new(self))
    }

    pub fn height(self, n: usize) -> (r: Layout)
        ensures
            r == Layout::Height(n, Box::new(self)),
    {
        Layout::Height(n, Box::new(self))
    }

    pub fn padding_top(self, n: usize) -> (r: Layout)
        ensures
            r == Layout::TopPadding(n, Box::new(self)),
    {
        Layout::TopPadding(n, Box::new(self))
    }

    pub fn padding_bottom(self, n: usize) -> (r: Layout)
        ensures
            r == Layout::BottomPadding(n, Box::new(self)),
    {
        Layout::BottomPadding(n, Box::new(self))
    }

    pub fn padding_left(self, n: usize) -> (r: Layout)
        ensures
            r == Layout::LeftPadding(n, Box::new(self)),
    {
        Layout::LeftPadding(n, Box::new(self))
    }

    pub fn padding_right(self, n: usize) -> (r: Layout)
        ensures
            r == Layout::RightPadding(n, Box::new(self)),
    {
        Layout::RightPadding(n, Box::new(self))
    }

    /// Pads left, then right.
    pub fn padding_horizontal(self, n: usize) -> (r: Layout)
        ensures
            r == Layout::RightPadding(n, Box::new(Layout::LeftPadding(n, Box::new(self)))),
    {
        self.padding_left(n).padding_right(n)
    }

    /// Pads top, then bottom.
    pub fn padding_vertical(self, n: usize) -> (r: Layout)
        ensures
            r == Layout::BottomPadding(n, Box::new(Layout::TopPadding(n, Box::new(self)))),
    {
        self.padding_top(n).padding_bottom(n)
    }

    /// Pads all four sides: top, right, bottom, then left.
    pub fn padding(self, n: usize) -> (r: Layout)
        ensures
            r == Layout::LeftPadding(
                n,
                Box::new(
                    Layout::BottomPadding(
                        n,
                        Box::new(Layout::RightPadding(n, Box::new(Layout::TopPadding(n, Box::new(self))))),
                    ),
                ),
            ),
    {
        self.padding_top(n).padding_right(n).padding_bottom(n).padding_left(n)
    }

    pub fn align_right(self) -> (r: Layout)
        ensures
            r == Layout::HRightAlign(Box::new(self)),
    {
        Layout::HRightAlign(Box::new(self))
    }

    pub fn align_left(self) -> (r: Layout)
        ensures
            r == Layout::HLeftAlign(Box::new(self)),
    {
        Layout::HLeftAlign(Box::new(self))
    }

    pub fn align_top(self) -> (r: Layout)
        ensures
            r == Layout::VTopAlign(Box::new(self)),
    {
        Layout::VTopAlign(Box::new(self))
    }

    pub fn align_bottom(self) -> (r: Layout)
        ensures
            r == Layout::VBottomAlign(Box::new(self)),
    {
        Layout::VBottomAlign(Box::new(self))
    }

    pub fn border(self, n: usize, c: char, edges: EdgeSet) -> (r: Layout)
        ensures
            r == Layout::Border(n, c, edges, Box::new(self)),
    {
        Layout::Border(n, c, edges, Box::new(self))
    }

    pub fn background(self, c: char) -> (r: Layout)
        ensures
            r == Layout::Background(c, Box::new(self)),
    {
        Layout::Background(c, Box::new(self))
    }

    /// Children top to bottom, centered, without gaps.
    pub fn vertical_stack(nodes: Vec<Layout>) -> (r: Layout)
        ensures
            r == Layout::VerticalStack(HorizontalAlignment::Center, 0, nodes),
    {
        Layout::VerticalStack(HorizontalAlignment::Center, 0, nodes)
    }

    /// Children left to right, centered, without gaps.
    pub fn horizontal_stack(nodes: Vec<Layout>) -> (r: Layout)
        ensures
            r == Layout::HorizontalStack(VerticalAlignment::Center, 0, nodes),
    {
        Layout::HorizontalStack(VerticalAlignment::Center, 0, nodes)
    }
}

/// The surface of `bounds`' size with every cell blank, or an empty one
/// when no grid of that size can be stored.
pub open spec fn blank_surface(bounds: Rect) -> Surface {
    if bounds.width * bounds.height <= usize::MAX {
        Surface {
            size: geometry::Size { width: bounds.width, height: bounds.height },
            cells: Seq::new((bounds.width * bounds.height) as nat, |i: int| seq![' ']),
        }
    } else {
        Surface { size: geometry::Size { width: 0, height: 0 }, cells: Seq::empty() }
    }
}

/// The context of an application without state: each `WithContext` node
/// stands for a canvas, and every canvas is blank.
impl LayoutContext for () {
    open spec fn spec_layout(&self, key: u64) -> Layout {
        Layout::DrawCanvas(key)
    }

    open spec fn nesting(&self, key: u64) -> nat {
        0
    }

    open spec fn spec_canvas(&self, key: u64, bounds: Rect) -> Surface {
        blank_surface(bounds)
    }

    fn layout_for(&self, key: u64) -> (r: Layout) {
        Layout::DrawCanvas(key)
    }

    fn draw_canvas(&self, key: u64, bounds: &Rect) -> (r: TextCanvas) {
        match bounds.width.checked_mul(bounds.height) {
            Some(_) => {
                let c = TextCanvas::create(bounds.width, bounds.height);
                proof {
                    assert(c@.cells =~= blank_surface(*bounds).cells);
                }
                c
            },
            None => {
                let c = TextCanvas::new();
                proof {
                    assert(c@.cells =~= blank_surface(*bounds).cells);
                }
                c
            },
        }
    }
}

/// `l` is `view` of `item`, centered in its cell of a grid.
pub open spec fn grid_cell<Item, F: Fn(&Item) -> Layout>(view: F, item: Item, l: Layout) -> bool {
    match l {
        Layout::VCenter(b) => match *b {
            Layout::HCenter(c) => call_ensures(view, (&item,), *c),
            _ => false,
        },
        _ => false,
    }
}

/// `l` is row `y` of the grid of `items`: a centered horizontal stack of
/// its cells.
pub open spec fn grid_row<Item: Clone, F: Fn(&Item) -> Layout>(
    items: Matrix<Item>,
    spacing: usize,
    view: F,
    y: int,
    l: Layout,
) -> bool {
    match l {
        Layout::HorizontalStack(a, sp, cells) => {
            &&& a == VerticalAlignment::Center
            &&& sp == spacing
            &&& cells@.len() == items.spec_shape().0
            &&& forall|x: int|
                0 <= x < items.spec_shape().0 ==> grid_cell(
                    view,
                    items.spec_data()[items.index_of(x, y)],
                    #[trigger] cells@[x],
                )
        },
        _ => false,
    }
}

impl Layout {
    /// A grid of the items of `items`: each shown by `view` and centered in
    /// its cell, rows stacked top to bottom, `spacing` apart both ways.
    pub fn grid<Item: Clone, F: Fn(&Item) -> Layout>(items: &Matrix<Item>, spacing: usize, view: F) -> (r:
        Layout)
        requires
            items.wf(),
            forall|i: int|
                0 <= i < items.spec_data().len() ==> call_requires(view, (&items.spec_data()[i],)),
        ensures
            match r {
                Layout::VerticalStack(a, sp, rows) => {
                    &&& a == HorizontalAlignment::Center
                    &&& sp == spacing
                    &&& rows@.len() == if items.spec_shape().0 == 0 {
                        0
                    } else {
                        items.spec_shape().1 as int
                    }
                    &&& forall|y: int|
                        0 <= y < rows@.len() ==> grid_row(*items, spacing, view, y, #[trigger] rows@[y])
                },
                _ => false,
            },
    {
        let (columns, row_count) = items.shape();
        let mut rows: Vec<Layout> = Vec::new();
        if columns > 0 {
            let mut y: usize = 0;
            while y < row_count
                invariant
                    items.wf(),
                    forall|i: int|
                        0 <= i < items.spec_data().len() ==> call_requires(view, (&items.spec_data()[i],)),
                    (columns, row_count) == items.spec_shape(),
                    y <= row_count,
                    rows@.len() == y,
                    forall|k: int| 0 <= k < y ==> grid_row(*items, spacing, view, k, #[trigger] rows@[k]),
                decreases row_count - y,
            {
                let mut cells: Vec<Layout> = Vec::new();
                let mut x: usize = 0;
                while x < columns
                    invariant
                        items.wf(),
                        forall|i: int|
                            0 <= i < items.spec_data().len() ==> call_requires(
                                view,
                                (&items.spec_data()[i],),
                            ),
                        (columns, row_count) == items.spec_shape(),
                        y < row_count,
                        x <= columns,
                        cells@.len() == x,
                        forall|k: int|
                            0 <= k < x ==> grid_cell(
                                view,
                                items.spec_data()[items.index_of(k, y as int)],
                                #[trigger] cells@[k],
                            ),
                    decreases columns - x,
                {
                    proof {
                        items.lemma_index_in_range(x as int, y as int);
                    }
                    let item = items.get(x, y);
                    let shown = view(item);
                    cells.push(shown.center());
                    x = x + 1;
                }
                rows.push(Layout::HorizontalStack(VerticalAlignment::Center, spacing, cells));
                y = y + 1;
            }
        }
        Layout::VerticalStack(HorizontalAlignment::Center, spacing, rows)
    }
}

} // verus!
