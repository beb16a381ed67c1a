use vstd::prelude::*;

use crate::canvas::{Surface, TextCanvas};
use crate::layout::alignment::{EdgeSet, HorizontalAlignment, VerticalAlignment};
use crate::layout::geometry::{clamp_i64, Rect};
use crate::layout::sizing::{distribute_space, max_usize, sat_sub, stack_shares, ItemSizing, Sizing};
use crate::layout::{
    border_bounds,
    horizontal_padding_bounds,
    horizontal_stack_bounds,
    vertical_padding_bounds,
    vertical_stack_bounds,
    border_horizontal,
    border_vertical,
    gaps_exec,
    gaps_of,
    shrink_height,
    shrink_width,
    Layout,
    LayoutContext,
    SizedLayout,
    SizedNode,
};

verus! {

/// What a draw command does, as a value.
pub enum DrawOp {
    Text(Rect, Seq<char>),
    Fill(Rect, Seq<char>),
    Stroke(Rect, usize, Seq<char>),
    Paste(Rect, Surface),
}

/// A primitive drawing operation at absolute coordinates. Commands run in
/// order, so a later one draws over an earlier one.
pub enum DrawCommand {
    /// Text laid out from the rectangle's top left corner, wrapping at its
    /// width; blank graphemes leave the cells below them untouched.
    Text(Rect, String),
    /// Fills the rectangle with a grapheme.
    FillRect(Rect, String),
    /// Draws a frame of the given thickness just inside the rectangle.
    StrokeRect(Rect, usize, String),
    /// Copies a surface of exactly the rectangle's size into it.
    Paste(Rect, TextCanvas),
}

impl View for DrawCommand {
    type V = DrawOp;

    open spec fn view(&self) -> DrawOp {
        match self {
            DrawCommand::Text(r, t) => DrawOp::Text(*r, t@),
            DrawCommand::FillRect(r, g) => DrawOp::Fill(*r, g@),
            DrawCommand::StrokeRect(r, n, g) => DrawOp::Stroke(*r, *n, g@),
            DrawCommand::Paste(r, c) => DrawOp::Paste(*r, c@),
        }
    }
}

/// What each command of `v` does.
pub open spec fn ops_of(v: Seq<DrawCommand>) -> Seq<DrawOp> {
    v.map_values(|c: DrawCommand| c@)
}

/// Relies on `ToString` for `char`, through its `Display`: the string that
/// holds just that character.
#[verifier::external_body]
fn char_string(c: char) -> (r: String)
    ensures
        r@ == seq![c],
{
    c.to_string()
}

/// Where a child goes across a stack whose widest child is `max`:
/// at the start, centered, or at the end.
pub open spec fn cross_offset(max: usize, extent: usize, placement: int) -> int {
    if placement == 0 {
        0
    } else if placement == 1 {
        max / 2 - extent / 2
    } else {
        max - extent
    }
}

pub open spec fn horizontal_placement(a: HorizontalAlignment) -> int {
    match a {
        HorizontalAlignment::Left => 0,
        HorizontalAlignment::Center => 1,
        HorizontalAlignment::Right => 2,
    }
}

pub open spec fn vertical_placement(a: VerticalAlignment) -> int {
    match a {
        VerticalAlignment::Top => 0,
        VerticalAlignment::Center => 1,
        VerticalAlignment::Bottom => 2,
    }
}

/// The offset of child `i` along a stack: each child starts `spacing` after
/// the end of the one before it.
pub open spec fn stack_start_of(lengths: Seq<usize>, spacing: usize, i: int) -> i64
    decreases i,
{
    if i <= 0 {
        0
    } else {
        clamp_i64(stack_start_of(lengths, spacing, i - 1) + lengths[i - 1] + spacing)
    }
}

/// The largest of the first `i` extents.
pub open spec fn max_extent(extents: Seq<usize>, i: int) -> usize
    decreases i,
{
    if i <= 0 {
        0
    } else {
        max_usize(max_extent(extents, i - 1), extents[i - 1])
    }
}

/// The sizings of `kids`.
pub open spec fn sizings_of(kids: Seq<SizedLayout>) -> Seq<ItemSizing> {
    kids.map_values(|k: SizedLayout| k.sizing)
}

/// The sizings of `s` along one axis.
pub open spec fn along(s: Seq<ItemSizing>, vertical: bool) -> Seq<Sizing> {
    s.map_values(|k: ItemSizing| if vertical { k.vertical } else { k.horizontal })
}

/// The room children with sizings `s` take across a stack that offers `cross`.
pub open spec fn cross_extents(s: Seq<ItemSizing>, cross: usize, vertical: bool) -> Seq<usize> {
    s.map_values(
        |k: ItemSizing|
            if vertical {
                k.horizontal.fit(cross)
            } else {
                k.vertical.fit(cross)
            },
    )
}

/// The rectangle of each child of a stack in `bounds`: along the axis the
/// greedy children share what the static ones and the gaps leave, one after
/// the other; across it each child is placed against the widest one.
pub open spec fn stack_rects(
    s: Seq<ItemSizing>,
    bounds: Rect,
    spacing: usize,
    placement: int,
    vertical: bool,
) -> Seq<Rect> {
    Seq::new(s.len(), |i: int| stack_rect(s, bounds, spacing, placement, vertical, i))
}

/// The size of each child along a stack in `bounds`.
pub open spec fn stack_lengths(s: Seq<ItemSizing>, bounds: Rect, spacing: usize, vertical: bool) -> Seq<
    usize,
> {
    stack_shares(
        along(s, vertical),
        if vertical {
            bounds.height
        } else {
            bounds.width
        },
        gaps_of(spacing, s.len()),
    )
}

/// The size of each child across a stack in `bounds`.
pub open spec fn stack_extents(s: Seq<ItemSizing>, bounds: Rect, vertical: bool) -> Seq<usize> {
    cross_extents(
        s,
        if vertical {
            bounds.width
        } else {
            bounds.height
        },
        vertical,
    )
}

/// The rectangle of child `i` of a stack in `bounds`.
pub open spec fn stack_rect(
    s: Seq<ItemSizing>,
    bounds: Rect,
    spacing: usize,
    placement: int,
    vertical: bool,
    i: int,
) -> Rect {
    let lengths = stack_lengths(s, bounds, spacing, vertical);
    let extents = stack_extents(s, bounds, vertical);
    let across = cross_offset(max_extent(extents, s.len() as int), extents[i], placement);
    let start = stack_start_of(lengths, spacing, i);
    if vertical {
        Rect {
            x: clamp_i64(bounds.x + across),
            y: clamp_i64(bounds.y + start),
            width: extents[i],
            height: lengths[i],
        }
    } else {
        Rect {
            x: clamp_i64(bounds.x + start),
            y: clamp_i64(bounds.y + across),
            width: lengths[i],
            height: extents[i],
        }
    }
}

/// The room left inside a border.
pub open spec fn border_inner(bounds: Rect, n: usize, edges: EdgeSet) -> Rect {
    Rect {
        x: if edges.left {
            clamp_i64(bounds.x + n)
        } else {
            bounds.x
        },
        y: if edges.top {
            clamp_i64(bounds.y + n)
        } else {
            bounds.y
        },
        width: sat_sub(bounds.width, border_horizontal(n, edges)),
        height: sat_sub(bounds.height, border_vertical(n, edges)),
    }
}

/// One fill per selected edge, `n` thick along the inside of `bounds`, in
/// the order top, right, bottom, left.
pub open spec fn border_strips(bounds: Rect, n: usize, cell: Seq<char>, edges: EdgeSet) -> Seq<
    DrawOp,
> {
    (if edges.top {
        seq![DrawOp::Fill(Rect { height: n, ..bounds }, cell)]
    } else {
        Seq::empty()
    }) + (if edges.right {
        seq![
            DrawOp::Fill(
                Rect { x: clamp_i64(bounds.spec_max_x() - n), width: n, ..bounds },
                cell,
            ),
        ]
    } else {
        Seq::empty()
    }) + (if edges.bottom {
        seq![
            DrawOp::Fill(
                Rect { y: clamp_i64(bounds.spec_max_y() - n), height: n, ..bounds },
                cell,
            ),
        ]
    } else {
        Seq::empty()
    }) + (if edges.left {
        seq![DrawOp::Fill(Rect { width: n, ..bounds }, cell)]
    } else {
        Seq::empty()
    })
}

/// The draw operations of a resolved node placed in `bounds`, parents'
/// backgrounds before their content, borders after it.
pub open spec fn draw_ops<C: LayoutContext>(s: SizedLayout, bounds: Rect, ctx: &C) -> Seq<DrawOp>
    decreases s, 0nat,
{
    match *s.node {
        SizedNode::Text(t) => seq![DrawOp::Text(bounds, t@)],
        SizedNode::Width(_, c) => draw_ops(c, c.sizing.spec_fit(bounds), ctx),
        SizedNode::Height(_, c) => draw_ops(c, c.sizing.spec_fit(bounds), ctx),
        SizedNode::VCenter(c) => {
            let f = c.sizing.spec_fit(bounds);
            draw_ops(
                c,
                Rect { y: clamp_i64(bounds.y + bounds.height / 2 - f.height / 2), ..f },
                ctx,
            )
        },
        SizedNode::HCenter(c) => {
            let f = c.sizing.spec_fit(bounds);
            draw_ops(c, Rect { x: clamp_i64(bounds.x + bounds.width / 2 - f.width / 2), ..f }, ctx)
        },
        SizedNode::VBottomAlign(c) => {
            let f = c.sizing.spec_fit(bounds);
            draw_ops(c, Rect { y: clamp_i64(bounds.y + bounds.height - f.height), ..f }, ctx)
        },
        SizedNode::HRightAlign(c) => {
            let f = c.sizing.spec_fit(bounds);
            draw_ops(c, Rect { x: clamp_i64(bounds.x + bounds.width - f.width), ..f }, ctx)
        },
        SizedNode::VTopAlign(c) => draw_ops(c, c.sizing.spec_fit(bounds), ctx),
        SizedNode::HLeftAlign(c) => draw_ops(c, c.sizing.spec_fit(bounds), ctx),
        SizedNode::TopPadding(n, c) => {
            let f = c.sizing.spec_fit(shrink_height(bounds, n));
            draw_ops(c, Rect { y: clamp_i64(bounds.y + n), ..f }, ctx)
        },
        SizedNode::BottomPadding(n, c) => draw_ops(c, c.sizing.spec_fit(shrink_height(bounds, n)), ctx),
        SizedNode::LeftPadding(n, c) => {
            let f = c.sizing.spec_fit(shrink_width(bounds, n));
            draw_ops(c, Rect { x: clamp_i64(bounds.x + n), ..f }, ctx)
        },
        SizedNode::RightPadding(n, c) => draw_ops(c, c.sizing.spec_fit(shrink_width(bounds, n)), ctx),
        SizedNode::Background(ch, c) => seq![DrawOp::Fill(bounds, seq![ch])] + draw_ops(
            c,
            c.sizing.spec_fit(bounds),
            ctx,
        ),
        SizedNode::Border(n, ch, edges, c) => draw_ops(
            c,
            c.sizing.spec_fit(border_inner(bounds, n, edges)),
            ctx,
        ) + border_strips(bounds, n, seq![ch], edges),
        SizedNode::VerticalStack(a, sp, kids) => stack_ops(
            kids@,
            stack_rects(sizings_of(kids@), bounds, sp, horizontal_placement(a), true),
            kids@.len() as int,
            ctx,
        ),
        SizedNode::HorizontalStack(a, sp, kids) => stack_ops(
            kids@,
            stack_rects(sizings_of(kids@), bounds, sp, vertical_placement(a), false),
            kids@.len() as int,
            ctx,
        ),
        SizedNode::DrawCanvas(k) => seq![DrawOp::Paste(bounds, ctx.spec_canvas(k, bounds))],
    }
}

/// The draw operations of the first `i` children of a stack, each in its
/// rectangle, in order.
pub open spec fn stack_ops<C: LayoutContext>(
    kids: Seq<SizedLayout>,
    rects: Seq<Rect>,
    i: int,
    ctx: &C,
) -> Seq<DrawOp>
    decreases kids, i,
{
    if i <= 0 || i > kids.len() {
        Seq::empty()
    } else {
        stack_ops(kids, rects, i - 1, ctx) + draw_ops(kids[i - 1], rects[i - 1], ctx)
    }
}

/// `v` clamped into the range of `i64`.
pub(crate) fn clamp_wide(v: i128) -> (r: i64)
    ensures
        r == clamp_i64(v as int),
{
    if v > i64::MAX as i128 {
        i64::MAX
    } else if v < i64::MIN as i128 {
        i64::MIN
    } else {
        v as i64
    }
}

/// The rectangles of the children of a stack in `bounds`.
fn stack_rects_exec(
    kids: &Vec<SizedLayout>,
    bounds: &Rect,
    spacing: usize,
    placement: u8,
    vertical: bool,
) -> (r: Vec<Rect>)
    requires
        placement <= 2,
    ensures
        r@ == stack_rects(sizings_of(kids@), *bounds, spacing, placement as int, vertical),
{
    let ghost s = sizings_of(kids@);
    let n = kids.len();
    let cross = if vertical {
        bounds.width
    } else {
        bounds.height
    };
    let mut axis: Vec<Sizing> = Vec::new();
    let mut extents: Vec<usize> = Vec::new();
    let mut widest: usize = 0;
    let mut i: usize = 0;
    while i < n
        invariant
            n == kids@.len(),
            s == sizings_of(kids@),
            i <= n,
            axis@ == along(s, vertical).take(i as int),
            extents@ == cross_extents(s, cross, vertical).take(i as int),
            widest == max_extent(cross_extents(s, cross, vertical), i as int),
        decreases n - i,
    {
        let k = &kids[i];
        let (a, e) = if vertical {
            (k.sizing.vertical, if let Sizing::Greedy(m) = k.sizing.horizontal {
                if cross >= m {
                    cross
                } else {
                    m
                }
            } else {
                k.sizing.horizontal.min_content_size()
            })
        } else {
            (k.sizing.horizontal, if let Sizing::Greedy(m) = k.sizing.vertical {
                if cross >= m {
                    cross
                } else {
                    m
                }
            } else {
                k.sizing.vertical.min_content_size()
            })
        };
        axis.push(a);
        extents.push(e);
        if e > widest {
            widest = e;
        }
        proof {
            assert(axis@ =~= along(s, vertical).take(i as int + 1));
            assert(extents@ =~= cross_extents(s, cross, vertical).take(i as int + 1));
        }
        i = i + 1;
    }
    proof {
        assert(axis@ =~= along(s, vertical));
        assert(extents@ =~= cross_extents(s, cross, vertical));
    }
    let gaps = gaps_exec(spacing, n);
    let lengths = distribute_space(
        &axis,
        if vertical {
            bounds.height
        } else {
            bounds.width
        },
        gaps,
    );
    let mut rects: Vec<Rect> = Vec::new();
    let mut start: i64 = 0;
    let mut j: usize = 0;
    while j < n
        invariant
            n == kids@.len(),
            s == sizings_of(kids@),
            j <= n,
            lengths@.len() == n,
            extents@.len() == n,
            extents@ == stack_extents(s, *bounds, vertical),
            widest == max_extent(stack_extents(s, *bounds, vertical), n as int),
            lengths@ == stack_lengths(s, *bounds, spacing, vertical),
            start == stack_start_of(lengths@, spacing, j as int),
            rects@.len() == j,
            forall|k: int|
                0 <= k < j ==> #[trigger] rects@[k] == stack_rects(
                    s,
                    *bounds,
                    spacing,
                    placement as int,
                    vertical,
                )[k],
        decreases n - j,
    {
        let e = extents[j];
        let len = lengths[j];
        let offset: i128 = if placement == 0 {
            0
        } else if placement == 1 {
            (widest / 2) as i128 - (e / 2) as i128
        } else {
            widest as i128 - e as i128
        };
        let rect = if vertical {
            Rect {
                x: clamp_wide(bounds.x as i128 + offset),
                y: clamp_wide(bounds.y as i128 + start as i128),
                width: e,
                height: len,
            }
        } else {
            Rect {
                x: clamp_wide(bounds.x as i128 + start as i128),
                y: clamp_wide(bounds.y as i128 + offset),
                width: len,
                height: e,
            }
        };
        proof {
            let all = stack_rects(s, *bounds, spacing, placement as int, vertical);
            assert(offset == cross_offset(widest, e, placement as int));
            assert(rect == all[j as int]);
        }
        rects.push(rect);
        start = clamp_wide(start as i128 + len as i128 + spacing as i128);
        j = j + 1;
    }
    proof {
        assert(rects@ =~= stack_rects(s, *bounds, spacing, placement as int, vertical));
    }
    rects
}

proof fn lemma_ops_concat(a: Seq<DrawCommand>, b: Seq<DrawCommand>)
    ensures
        ops_of(a + b) == ops_of(a) + ops_of(b),
{
    assert(ops_of(a + b) =~= ops_of(a) + ops_of(b));
}

fn single(c: DrawCommand) -> (r: Vec<DrawCommand>)
    ensures
        ops_of(r@) == seq![c@],
{
    let mut v: Vec<DrawCommand> = Vec::new();
    v.push(c);
    proof {
        assert(ops_of(v@) =~= seq![c@]);
    }
    v
}

/// Appends a fill of `rect` with `cell` to `cmds`.
fn push_fill(cmds: &mut Vec<DrawCommand>, rect: Rect, cell: &String)
    ensures
        ops_of(final(cmds)@) == ops_of(old(cmds)@) + seq![DrawOp::Fill(rect, cell@)],
{
    let ghost before = cmds@;
    cmds.push(DrawCommand::FillRect(rect, cell.clone()));
    proof {
        assert(ops_of(cmds@) =~= ops_of(before) + seq![DrawOp::Fill(rect, cell@)]);
    }
}

impl SizedLayout {
    /// Assigns every node of the resolved tree its rectangle, starting from
    /// `bounds` for this node, and lists the draw commands that render it.
    /// Stacks first share their room out among their greedy children, then
    /// place each child against the others.
    pub fn resolve_draw_commands<C: LayoutContext>(&self, bounds: &Rect, context: &C) -> (r: Vec<
        DrawCommand,
    >)
        ensures
            ops_of(r@) == draw_ops(*self, *bounds, context),
        decreases self, 1nat,
    {
        match &*self.node {
            SizedNode::Text(t) => single(DrawCommand::Text(*bounds, t.clone())),
            SizedNode::Width(_, c) => c.resolve_draw_commands(&c.sizing.fit_into(bounds), context),
            SizedNode::Height(_, c) => c.resolve_draw_commands(&c.sizing.fit_into(bounds), context),
            SizedNode::VTopAlign(c) => c.resolve_draw_commands(&c.sizing.fit_into(bounds), context),
            SizedNode::HLeftAlign(c) => c.resolve_draw_commands(&c.sizing.fit_into(bounds), context),
            SizedNode::VCenter(c) => {
                let f = c.sizing.fit_into(bounds);
                let y = clamp_wide(
                    bounds.y as i128 + (bounds.height / 2) as i128 - (f.height / 2) as i128,
                );
                c.resolve_draw_commands(&Rect { y, ..f }, context)
            },
            SizedNode::HCenter(c) => {
                let f = c.sizing.fit_into(bounds);
                let x = clamp_wide(
                    bounds.x as i128 + (bounds.width / 2) as i128 - (f.width / 2) as i128,
                );
                c.resolve_draw_commands(&Rect { x, ..f }, context)
            },
            SizedNode::VBottomAlign(c) => {
                let f = c.sizing.fit_into(bounds);
                let y = clamp_wide(bounds.y as i128 + bounds.height as i128 - f.height as i128);
                c.resolve_draw_commands(&Rect { y, ..f }, context)
            },
            SizedNode::HRightAlign(c) => {
                let f = c.sizing.fit_into(bounds);
                let x = clamp_wide(bounds.x as i128 + bounds.width as i128 - f.width as i128);
                c.resolve_draw_commands(&Rect { x, ..f }, context)
            },
            SizedNode::TopPadding(n, c) => {
                let f = c.sizing.fit_into(
                    &Rect { height: bounds.height.saturating_sub(*n), ..*bounds },
                );
                let y = clamp_wide(bounds.y as i128 + *n as i128);
                c.resolve_draw_commands(&Rect { y, ..f }, context)
            },
            SizedNode::BottomPadding(n, c) => {
                let f = c.sizing.fit_into(
                    &Rect { height: bounds.height.saturating_sub(*n), ..*bounds },
                );
                c.resolve_draw_commands(&f, context)
            },
            SizedNode::LeftPadding(n, c) => {
                let f = c.sizing.fit_into(&Rect { width: bounds.width.saturating_sub(*n), ..*bounds });
                let x = clamp_wide(bounds.x as i128 + *n as i128);
                c.resolve_draw_commands(&Rect { x, ..f }, context)
            },
            SizedNode::RightPadding(n, c) => {
                let f = c.sizing.fit_into(&Rect { width: bounds.width.saturating_sub(*n), ..*bounds });
                c.resolve_draw_commands(&f, context)
            },
            SizedNode::Background(ch, c) => {
                let mut cmds = single(DrawCommand::FillRect(*bounds, char_string(*ch)));
                let mut rest = c.resolve_draw_commands(&c.sizing.fit_into(bounds), context);
                let ghost first = cmds@;
                let ghost second = rest@;
                cmds.append(&mut rest);
                proof {
                    lemma_ops_concat(first, second);
                }
                cmds
            },
            SizedNode::Border(n, ch, edges, c) => border_commands(self, c, *n, *ch, *edges, bounds, context),
            SizedNode::VerticalStack(a, sp, kids) => {
                let placement: u8 = match a {
                    HorizontalAlignment::Left => 0,
                    HorizontalAlignment::Center => 1,
                    HorizontalAlignment::Right => 2,
                };
                let rects = stack_rects_exec(kids, bounds, *sp, placement, true);
                stack_commands(self, kids, &rects, context)
            },
            SizedNode::HorizontalStack(a, sp, kids) => {
                let placement: u8 = match a {
                    VerticalAlignment::Top => 0,
                    VerticalAlignment::Center => 1,
                    VerticalAlignment::Bottom => 2,
                };
                let rects = stack_rects_exec(kids, bounds, *sp, placement, false);
                stack_commands(self, kids, &rects, context)
            },
            SizedNode::DrawCanvas(k) => {
                let surface = context.draw_canvas(*k, bounds);
                single(DrawCommand::Paste(*bounds, surface))
            },
        }
    }
}

/// `parent` is a border around `c`.
spec fn is_border_over(parent: SizedLayout, c: SizedLayout) -> bool {
    match *parent.node {
        SizedNode::Border(_, _, _, v) => v == c,
        _ => false,
    }
}

/// The commands of the content of a border in the room left inside it,
/// followed by one fill per selected edge.
fn border_commands<C: LayoutContext>(
    parent: &SizedLayout,
    c: &SizedLayout,
    n: usize,
    ch: char,
    edges: EdgeSet,
    bounds: &Rect,
    context: &C,
) -> (r: Vec<DrawCommand>)
    requires
        is_border_over(*parent, *c),
    ensures
        ops_of(r@) == draw_ops(*c, c.sizing.spec_fit(border_inner(*bounds, n, edges)), context)
            + border_strips(*bounds, n, seq![ch], edges),
    decreases parent, 0nat,
{
    let vt = if edges.top && edges.bottom {
        n.saturating_add(n)
    } else if edges.top || edges.bottom {
        n
    } else {
        0
    };
    let ht = if edges.left && edges.right {
        n.saturating_add(n)
    } else if edges.left || edges.right {
        n
    } else {
        0
    };
    let inner = Rect {
        x: if edges.left {
            clamp_wide(bounds.x as i128 + n as i128)
        } else {
            bounds.x
        },
        y: if edges.top {
            clamp_wide(bounds.y as i128 + n as i128)
        } else {
            bounds.y
        },
        width: bounds.width.saturating_sub(ht),
        height: bounds.height.saturating_sub(vt),
    };
    let mut cmds = c.resolve_draw_commands(&c.sizing.fit_into(&inner), context);
    let cell = char_string(ch);
    let ghost content = ops_of(cmds@);
    if edges.top {
        push_fill(&mut cmds, Rect { height: n, ..*bounds }, &cell);
    }
    let ghost after_top = ops_of(cmds@);
    if edges.right {
        let x = clamp_wide(bounds.max_x() as i128 - n as i128);
        push_fill(&mut cmds, Rect { x, width: n, ..*bounds }, &cell);
    }
    let ghost after_right = ops_of(cmds@);
    if edges.bottom {
        let y = clamp_wide(bounds.max_y() as i128 - n as i128);
        push_fill(&mut cmds, Rect { y, height: n, ..*bounds }, &cell);
    }
    let ghost after_bottom = ops_of(cmds@);
    if edges.left {
        push_fill(&mut cmds, Rect { width: n, ..*bounds }, &cell);
    }
    proof {
        assert(ops_of(cmds@) =~= content + border_strips(*bounds, n, cell@, edges));
    }
    cmds
}

/// `parent` is a stack over `kids`.
spec fn is_stack_over(parent: SizedLayout, kids: Vec<SizedLayout>) -> bool {
    match *parent.node {
        SizedNode::VerticalStack(_, _, v) => v == kids,
        SizedNode::HorizontalStack(_, _, v) => v == kids,
        _ => false,
    }
}

/// The commands of each child of a stack in its rectangle, in order.
fn stack_commands<C: LayoutContext>(
    parent: &SizedLayout,
    kids: &Vec<SizedLayout>,
    rects: &Vec<Rect>,
    context: &C,
) -> (r: Vec<DrawCommand>)
    requires
        is_stack_over(*parent, *kids),
        rects@.len() == kids@.len(),
    ensures
        ops_of(r@) == stack_ops(kids@, rects@, kids@.len() as int, context),
    decreases parent, 0nat,
{
    let mut cmds: Vec<DrawCommand> = Vec::new();
    let mut i: usize = 0;
    proof {
        assert(ops_of(cmds@) =~= Seq::empty());
    }
    while i < kids.len()
        invariant
            is_stack_over(*parent, *kids),
            rects@.len() == kids@.len(),
            i <= kids@.len(),
            ops_of(cmds@) == stack_ops(kids@, rects@, i as int, context),
        decreases kids@.len() - i,
    {
        let mut part = kids[i].resolve_draw_commands(&rects[i], context);
        let ghost first = cmds@;
        let ghost second = part@;
        cmds.append(&mut part);
        proof {
            lemma_ops_concat(first, second);
        }
        i = i + 1;
    }
    cmds
}

/// Padding law, for top padding `n` offered a height of `bounds.height`,
/// around a child whose own height there is `c`. When `c + n` fits, the
/// child keeps the resolution it has in `bounds`, and wherever the padding
/// is drawn the child gets exactly `c` rows, `n` below the top. When it does
/// not fit, the child is resolved again in a height reduced by `n`, which is
/// zero when `n` is at least the height offered.
pub proof fn lemma_top_padding<C: LayoutContext>(
    n: usize,
    child: Layout,
    bounds: Rect,
    ctx: &C,
    fuel: nat,
    c: usize,
    r: SizedLayout,
    at: Rect,
)
    requires
        Layout::TopPadding(n, Box::new(child)).resolves(bounds, ctx, fuel, r),
        child.sizing_in(bounds, ctx, fuel).vertical == Sizing::Static(c),
        c + n <= usize::MAX,
    ensures
        match *r.node {
            SizedNode::TopPadding(m, rc) => {
                &&& m == n
                &&& c + n <= bounds.height ==> {
                    &&& child.resolves(bounds, ctx, fuel, rc)
                    &&& draw_ops(r, at, ctx) == draw_ops(
                        rc,
                        Rect {
                            x: at.x,
                            y: clamp_i64(at.y + n),
                            width: rc.sizing.horizontal.fit(at.width),
                            height: c,
                        },
                        ctx,
                    )
                }
                &&& c + n > bounds.height ==> {
                    &&& child.resolves(shrink_height(bounds, n), ctx, fuel, rc)
                    &&& shrink_height(bounds, n).height == if n >= bounds.height {
                        0
                    } else {
                        bounds.height - n
                    }
                }
            },
            _ => false,
        },
{
    let first = child.sizing_in(bounds, ctx, fuel);
    let cb = crate::layout::vertical_padding_bounds(first, bounds, n);
    match *r.node {
        SizedNode::TopPadding(m, rc) => {
            assert(child.resolves(cb, ctx, fuel, rc));
            assert(rc.sizing == child.sizing_in(cb, ctx, fuel));
            if c + n <= bounds.height {
                assert(cb == bounds);
                assert(rc.sizing.vertical == Sizing::Static(c));
                let f = rc.sizing.spec_fit(shrink_height(at, n));
                assert(draw_ops(r, at, ctx) == draw_ops(rc, Rect { y: clamp_i64(at.y + n), ..f }, ctx));
            } else {
                assert(cb == shrink_height(bounds, n));
            }
        },
        _ => {},
    }
}

/// Padding law, for left padding `n` offered a width of `bounds.width`,
/// around a child whose own width there is `c`: as for top padding, across.
pub proof fn lemma_left_padding<C: LayoutContext>(
    n: usize,
    child: Layout,
    bounds: Rect,
    ctx: &C,
    fuel: nat,
    c: usize,
    r: SizedLayout,
    at: Rect,
)
    requires
        Layout::LeftPadding(n, Box::new(child)).resolves(bounds, ctx, fuel, r),
        child.sizing_in(bounds, ctx, fuel).horizontal == Sizing::Static(c),
        c + n <= usize::MAX,
    ensures
        match *r.node {
            SizedNode::LeftPadding(m, rc) => {
                &&& m == n
                &&& c + n <= bounds.width ==> {
                    &&& child.resolves(bounds, ctx, fuel, rc)
                    &&& draw_ops(r, at, ctx) == draw_ops(
                        rc,
                        Rect {
                            x: clamp_i64(at.x + n),
                            y: at.y,
                            width: c,
                            height: rc.sizing.vertical.fit(at.height),
                        },
                        ctx,
                    )
                }
                &&& c + n > bounds.width ==> {
                    &&& child.resolves(shrink_width(bounds, n), ctx, fuel, rc)
                    &&& shrink_width(bounds, n).width == if n >= bounds.width {
                        0
                    } else {
                        bounds.width - n
                    }
                }
            },
            _ => false,
        },
{
    let first = child.sizing_in(bounds, ctx, fuel);
    let cb = crate::layout::horizontal_padding_bounds(first, bounds, n);
    match *r.node {
        SizedNode::LeftPadding(m, rc) => {
            assert(child.resolves(cb, ctx, fuel, rc));
            assert(rc.sizing == child.sizing_in(cb, ctx, fuel));
            if c + n <= bounds.width {
                assert(cb == bounds);
                assert(rc.sizing.horizontal == Sizing::Static(c));
                let f = rc.sizing.spec_fit(shrink_width(at, n));
                assert(draw_ops(r, at, ctx) == draw_ops(rc, Rect { x: clamp_i64(at.x + n), ..f }, ctx));
            } else {
                assert(cb == shrink_width(bounds, n));
            }
        },
        _ => {},
    }
}

/// The draw operations of two stacks' children agree when each pair of
/// children draws the same wherever it is placed.
proof fn lemma_stack_ops_agree<C: LayoutContext>(
    k1: Seq<SizedLayout>,
    k2: Seq<SizedLayout>,
    rects: Seq<Rect>,
    i: int,
    ctx: &C,
)
    requires
        k1.len() == k2.len(),
        0 <= i <= k1.len(),
        forall|j: int, at: Rect|
            0 <= j < k1.len() ==> #[trigger] draw_ops(k1[j], at, ctx) == draw_ops(k2[j], at, ctx),
    ensures
        stack_ops(k1, rects, i, ctx) == stack_ops(k2, rects, i, ctx),
    decreases i,
{
    if i > 0 {
        lemma_stack_ops_agree(k1, k2, rects, i - 1, ctx);
        assert(draw_ops(k1[i - 1], rects[i - 1], ctx) == draw_ops(k2[i - 1], rects[i - 1], ctx));
    }
}

/// The only child of a resolved node that has one.
spec fn sized_child(r: SizedLayout) -> SizedLayout {
    match *r.node {
        SizedNode::Width(_, c) => c,
        SizedNode::Height(_, c) => c,
        SizedNode::TopPadding(_, c) => c,
        SizedNode::RightPadding(_, c) => c,
        SizedNode::BottomPadding(_, c) => c,
        SizedNode::LeftPadding(_, c) => c,
        SizedNode::VCenter(c) => c,
        SizedNode::HCenter(c) => c,
        SizedNode::VBottomAlign(c) => c,
        SizedNode::HRightAlign(c) => c,
        SizedNode::VTopAlign(c) => c,
        SizedNode::HLeftAlign(c) => c,
        SizedNode::Background(_, c) => c,
        SizedNode::Border(_, _, _, c) => c,
        _ => r,
    }
}

/// The children of a resolved stack.
spec fn sized_kids(r: SizedLayout) -> Seq<SizedLayout> {
    match *r.node {
        SizedNode::VerticalStack(_, _, k) => k@,
        SizedNode::HorizontalStack(_, _, k) => k@,
        _ => Seq::empty(),
    }
}

/// Resolving is repeatable: two resolutions of the same tree in the same
/// bounds, against the same context, ask for the same sizing and draw the
/// same operations wherever they are placed.
#[verifier::spinoff_prover]
#[verifier::rlimit(100)]
pub proof fn lemma_resolve_repeatable<C: LayoutContext>(
    l: Layout,
    bounds: Rect,
    ctx: &C,
    fuel: nat,
    r1: SizedLayout,
    r2: SizedLayout,
)
    requires
        l.resolves(bounds, ctx, fuel, r1),
        l.resolves(bounds, ctx, fuel, r2),
    ensures
        r1.sizing == r2.sizing,
        forall|at: Rect| #[trigger] draw_ops(r1, at, ctx) == draw_ops(r2, at, ctx),
    decreases fuel, l, 1nat,
{
    let a1 = sized_child(r1);
    let a2 = sized_child(r2);
    match l {
        Layout::Width(n, c) => {
            lemma_resolve_repeatable(*c, Rect { width: n, ..bounds }, ctx, fuel, a1, a2);
            assert forall|at: Rect| #[trigger] draw_ops(r1, at, ctx) == draw_ops(r2, at, ctx) by {
                assert(draw_ops(r1, at, ctx) == draw_ops(a1, a1.sizing.spec_fit(at), ctx));
                assert(draw_ops(r2, at, ctx) == draw_ops(a2, a2.sizing.spec_fit(at), ctx));
            }
        },
        Layout::Height(n, c) => {
            lemma_resolve_repeatable(*c, Rect { height: n, ..bounds }, ctx, fuel, a1, a2);
            assert forall|at: Rect| #[trigger] draw_ops(r1, at, ctx) == draw_ops(r2, at, ctx) by {
                assert(draw_ops(r1, at, ctx) == draw_ops(a1, a1.sizing.spec_fit(at), ctx));
                assert(draw_ops(r2, at, ctx) == draw_ops(a2, a2.sizing.spec_fit(at), ctx));
            }
        },
        Layout::TopPadding(n, c) => {
            lemma_resolve_repeatable(*c, vertical_padding_bounds(c.sizing_in(bounds, ctx, fuel), bounds, n), ctx, fuel, a1, a2);
            assert forall|at: Rect| #[trigger] draw_ops(r1, at, ctx) == draw_ops(r2, at, ctx) by {
                assert(draw_ops(r1, at, ctx) == draw_ops(a1, Rect { y: clamp_i64(at.y + n), ..a1.sizing.spec_fit(shrink_height(at, n)) }, ctx));
                assert(draw_ops(r2, at, ctx) == draw_ops(a2, Rect { y: clamp_i64(at.y + n), ..a2.sizing.spec_fit(shrink_height(at, n)) }, ctx));
            }
        },
        Layout::BottomPadding(n, c) => {
            lemma_resolve_repeatable(*c, vertical_padding_bounds(c.sizing_in(bounds, ctx, fuel), bounds, n), ctx, fuel, a1, a2);
            assert forall|at: Rect| #[trigger] draw_ops(r1, at, ctx) == draw_ops(r2, at, ctx) by {
                assert(draw_ops(r1, at, ctx) == draw_ops(a1, a1.sizing.spec_fit(shrink_height(at, n)), ctx));
                assert(draw_ops(r2, at, ctx) == draw_ops(a2, a2.sizing.spec_fit(shrink_height(at, n)), ctx));
            }
        },
        Layout::LeftPadding(n, c) => {
            lemma_resolve_repeatable(*c, horizontal_padding_bounds(c.sizing_in(bounds, ctx, fuel), bounds, n), ctx, fuel, a1, a2);
            assert forall|at: Rect| #[trigger] draw_ops(r1, at, ctx) == draw_ops(r2, at, ctx) by {
                assert(draw_ops(r1, at, ctx) == draw_ops(a1, Rect { x: clamp_i64(at.x + n), ..a1.sizing.spec_fit(shrink_width(at, n)) }, ctx));
                assert(draw_ops(r2, at, ctx) == draw_ops(a2, Rect { x: clamp_i64(at.x + n), ..a2.sizing.spec_fit(shrink_width(at, n)) }, ctx));
            }
        },
        Layout::RightPadding(n, c) => {
            lemma_resolve_repeatable(*c, horizontal_padding_bounds(c.sizing_in(bounds, ctx, fuel), bounds, n), ctx, fuel, a1, a2);
            assert forall|at: Rect| #[trigger] draw_ops(r1, at, ctx) == draw_ops(r2, at, ctx) by {
                assert(draw_ops(r1, at, ctx) == draw_ops(a1, a1.sizing.spec_fit(shrink_width(at, n)), ctx));
                assert(draw_ops(r2, at, ctx) == draw_ops(a2, a2.sizing.spec_fit(shrink_width(at, n)), ctx));
            }
        },
        Layout::VCenter(c) => {
            lemma_resolve_repeatable(*c, bounds, ctx, fuel, a1, a2);
            assert forall|at: Rect| #[trigger] draw_ops(r1, at, ctx) == draw_ops(r2, at, ctx) by {
                assert(draw_ops(r1, at, ctx) == draw_ops(a1, Rect { y: clamp_i64(at.y + at.height / 2 - a1.sizing.spec_fit(at).height / 2), ..a1.sizing.spec_fit(at) }, ctx));
                assert(draw_ops(r2, at, ctx) == draw_ops(a2, Rect { y: clamp_i64(at.y + at.height / 2 - a2.sizing.spec_fit(at).height / 2), ..a2.sizing.spec_fit(at) }, ctx));
            }
        },
        Layout::HCenter(c) => {
            lemma_resolve_repeatable(*c, bounds, ctx, fuel, a1, a2);
            assert forall|at: Rect| #[trigger] draw_ops(r1, at, ctx) == draw_ops(r2, at, ctx) by {
                assert(draw_ops(r1, at, ctx) == draw_ops(a1, Rect { x: clamp_i64(at.x + at.width / 2 - a1.sizing.spec_fit(at).width / 2), ..a1.sizing.spec_fit(at) }, ctx));
                assert(draw_ops(r2, at, ctx) == draw_ops(a2, Rect { x: clamp_i64(at.x + at.width / 2 - a2.sizing.spec_fit(at).width / 2), ..a2.sizing.spec_fit(at) }, ctx));
            }
        },
        Layout::VBottomAlign(c) => {
            lemma_resolve_repeatable(*c, bounds, ctx, fuel, a1, a2);
            assert forall|at: Rect| #[trigger] draw_ops(r1, at, ctx) == draw_ops(r2, at, ctx) by {
                assert(draw_ops(r1, at, ctx) == draw_ops(a1, Rect { y: clamp_i64(at.y + at.height - a1.sizing.spec_fit(at).height), ..a1.sizing.spec_fit(at) }, ctx));
                assert(draw_ops(r2, at, ctx) == draw_ops(a2, Rect { y: clamp_i64(at.y + at.height - a2.sizing.spec_fit(at).height), ..a2.sizing.spec_fit(at) }, ctx));
            }
        },
        Layout::HRightAlign(c) => {
            lemma_resolve_repeatable(*c, bounds, ctx, fuel, a1, a2);
            assert forall|at: Rect| #[trigger] draw_ops(r1, at, ctx) == draw_ops(r2, at, ctx) by {
                assert(draw_ops(r1, at, ctx) == draw_ops(a1, Rect { x: clamp_i64(at.x + at.width - a1.sizing.spec_fit(at).width), ..a1.sizing.spec_fit(at) }, ctx));
                assert(draw_ops(r2, at, ctx) == draw_ops(a2, Rect { x: clamp_i64(at.x + at.width - a2.sizing.spec_fit(at).width), ..a2.sizing.spec_fit(at) }, ctx));
            }
        },
        Layout::VTopAlign(c) => {
            lemma_resolve_repeatable(*c, bounds, ctx, fuel, a1, a2);
            assert forall|at: Rect| #[trigger] draw_ops(r1, at, ctx) == draw_ops(r2, at, ctx) by {
                assert(draw_ops(r1, at, ctx) == draw_ops(a1, a1.sizing.spec_fit(at), ctx));
                assert(draw_ops(r2, at, ctx) == draw_ops(a2, a2.sizing.spec_fit(at), ctx));
            }
        },
        Layout::HLeftAlign(c) => {
            lemma_resolve_repeatable(*c, bounds, ctx, fuel, a1, a2);
            assert forall|at: Rect| #[trigger] draw_ops(r1, at, ctx) == draw_ops(r2, at, ctx) by {
                assert(draw_ops(r1, at, ctx) == draw_ops(a1, a1.sizing.spec_fit(at), ctx));
                assert(draw_ops(r2, at, ctx) == draw_ops(a2, a2.sizing.spec_fit(at), ctx));
            }
        },
        Layout::Background(ch, c) => {
            lemma_resolve_repeatable(*c, bounds, ctx, fuel, a1, a2);
            assert forall|at: Rect| #[trigger] draw_ops(r1, at, ctx) == draw_ops(r2, at, ctx) by {
                assert(draw_ops(r1, at, ctx) == seq![DrawOp::Fill(at, seq![ch])] + draw_ops(a1, a1.sizing.spec_fit(at), ctx));
                assert(draw_ops(r2, at, ctx) == seq![DrawOp::Fill(at, seq![ch])] + draw_ops(a2, a2.sizing.spec_fit(at), ctx));
            }
        },
        Layout::Border(n, ch, edges, c) => {
            lemma_resolve_repeatable(*c, border_bounds(c.sizing_in(bounds, ctx, fuel), bounds, n, edges), ctx, fuel, a1, a2);
            assert forall|at: Rect| #[trigger] draw_ops(r1, at, ctx) == draw_ops(r2, at, ctx) by {
                assert(draw_ops(r1, at, ctx) == draw_ops(a1, a1.sizing.spec_fit(border_inner(at, n, edges)), ctx) + border_strips(at, n, seq![ch], edges));
                assert(draw_ops(r2, at, ctx) == draw_ops(a2, a2.sizing.spec_fit(border_inner(at, n, edges)), ctx) + border_strips(at, n, seq![ch], edges));
            }
        },
        Layout::VerticalStack(..) => lemma_stack_repeatable(l, bounds, ctx, fuel, r1, r2),
        Layout::HorizontalStack(..) => lemma_stack_repeatable(l, bounds, ctx, fuel, r1, r2),
        Layout::WithContext(k) => {
            lemma_resolve_repeatable(ctx.spec_layout(k), bounds, ctx, (fuel - 1) as nat, r1, r2);
        },
        Layout::Text(t) => {
            assert forall|at: Rect| #[trigger] draw_ops(r1, at, ctx) == draw_ops(r2, at, ctx) by {
                match (*r1.node, *r2.node) {
                    (SizedNode::Text(u1), SizedNode::Text(u2)) => {
                        assert(u1@ == u2@);
                    },
                    _ => {},
                }
            }
        },
        Layout::DrawCanvas(k) => {
            assert(*r1.node == *r2.node);
        },
    }
}

/// The children of a stack and the bounds each is resolved in.
spec fn stack_parts(l: Layout, bounds: Rect) -> (Seq<Layout>, Rect) {
    match l {
        Layout::VerticalStack(_, sp, cs) => (cs@, vertical_stack_bounds(bounds, sp, cs@.len())),
        Layout::HorizontalStack(_, sp, cs) => (cs@, horizontal_stack_bounds(bounds, sp, cs@.len())),
        _ => (Seq::empty(), bounds),
    }
}

/// Each child of a resolved stack is its layout's child resolved in the
/// stack's inner bounds.
proof fn lemma_stack_children<C: LayoutContext>(
    l: Layout,
    bounds: Rect,
    ctx: &C,
    fuel: nat,
    r: SizedLayout,
)
    requires
        l is VerticalStack || l is HorizontalStack,
        l.resolves(bounds, ctx, fuel, r),
    ensures
        sized_kids(r).len() == stack_parts(l, bounds).0.len(),
        forall|j: int|
            0 <= j < sized_kids(r).len() ==> stack_parts(l, bounds).0[j].resolves(
                stack_parts(l, bounds).1,
                ctx,
                fuel,
                #[trigger] sized_kids(r)[j],
            ),
{
    let (cs, inner) = stack_parts(l, bounds);
    let k = sized_kids(r);
    assert forall|j: int| 0 <= j < k.len() implies cs[j].resolves(inner, ctx, fuel, #[trigger] k[j]) by {
        crate::layout::lemma_children_resolve_at(cs, inner, ctx, fuel, k, cs.len() as int, j);
    }
}

/// Repeatability for a stack, from repeatability for each child.
#[verifier::spinoff_prover]
#[verifier::rlimit(100)]
proof fn lemma_stack_repeatable<C: LayoutContext>(
    l: Layout,
    bounds: Rect,
    ctx: &C,
    fuel: nat,
    r1: SizedLayout,
    r2: SizedLayout,
)
    requires
        l is VerticalStack || l is HorizontalStack,
        l.resolves(bounds, ctx, fuel, r1),
        l.resolves(bounds, ctx, fuel, r2),
    ensures
        r1.sizing == r2.sizing,
        forall|at: Rect| #[trigger] draw_ops(r1, at, ctx) == draw_ops(r2, at, ctx),
    decreases fuel, l, 0nat,
{
    let (cs, inner) = stack_parts(l, bounds);
    let k1 = sized_kids(r1);
    let k2 = sized_kids(r2);
    lemma_stack_children(l, bounds, ctx, fuel, r1);
    lemma_stack_children(l, bounds, ctx, fuel, r2);
    assert forall|j: int| 0 <= j < cs.len() implies (#[trigger] k1[j]).sizing == k2[j].sizing
        && forall|at: Rect| #[trigger] draw_ops(k1[j], at, ctx) == draw_ops(k2[j], at, ctx) by {
        assert(cs[j].resolves(inner, ctx, fuel, k1[j]));
        assert(cs[j].resolves(inner, ctx, fuel, k2[j]));
        lemma_resolve_repeatable(cs[j], inner, ctx, fuel, k1[j], k2[j]);
    }
    assert(sizings_of(k1) =~= sizings_of(k2));
    assert forall|at: Rect| #[trigger] draw_ops(r1, at, ctx) == draw_ops(r2, at, ctx) by {
        let rects = match *r1.node {
            SizedNode::VerticalStack(a, sp, _) => stack_rects(
                sizings_of(k1),
                at,
                sp,
                horizontal_placement(a),
                true,
            ),
            SizedNode::HorizontalStack(a, sp, _) => stack_rects(
                sizings_of(k1),
                at,
                sp,
                vertical_placement(a),
                false,
            ),
            _ => Seq::empty(),
        };
        lemma_stack_ops_agree(k1, k2, rects, k1.len() as int, ctx);
    }
}

} // verus!
