use vstd::prelude::*;
use vstd::string::StrSliceExecFns;
use unicode_segmentation::UnicodeSegmentation;

use crate::layout::sizing::{max_usize, sat_add};

verus! {

/// The extended grapheme clusters of a text, in order.
pub uninterp spec fn graphemes_of(s: Seq<char>) -> Seq<Seq<char>>;

/// The characters of each string in `v`.
pub open spec fn cells_view(v: Seq<String>) -> Seq<Seq<char>> {
    v.map_values(|g: String| g@)
}

/// Relies on `UnicodeSegmentation::graphemes(true)` of unicode-segmentation:
/// the extended grapheme clusters of `s`, which depend on `s` alone.
#[verifier::external_body]
pub(crate) fn graphemes(s: &str) -> (r: Vec<String>)
    ensures
        cells_view(r@) == graphemes_of(s@),
{
    s.graphemes(true).map(|g| g.to_string()).collect()
}

/// A grapheme that ends a line: a line feed, or a carriage return with one.
pub open spec fn is_line_break(g: Seq<char>) -> bool {
    g == seq!['\n'] || g == seq!['\r', '\n']
}

/// The blank grapheme, which drawing leaves transparent.
pub open spec fn is_blank(g: Seq<char>) -> bool {
    g == seq![' ']
}

pub fn line_break(g: &str) -> (r: bool)
    ensures
        r == is_line_break(g@),
{
    let n = g.unicode_len();
    if n == 1 {
        let c = g.get_char(0);
        proof {
            if c == '\n' {
                assert(g@ =~= seq!['\n']);
            }
        }
        c == '\n'
    } else if n == 2 {
        let c0 = g.get_char(0);
        let c1 = g.get_char(1);
        proof {
            if c0 == '\r' && c1 == '\n' {
                assert(g@ =~= seq!['\r', '\n']);
            }
        }
        c0 == '\r' && c1 == '\n'
    } else {
        false
    }
}

pub fn blank(g: &str) -> (r: bool)
    ensures
        r == is_blank(g@),
{
    let n = g.unicode_len();
    if n == 1 {
        let c = g.get_char(0);
        proof {
            if c == ' ' {
                assert(g@ =~= seq![' ']);
            }
        }
        c == ' '
    } else {
        false
    }
}

/// The room one line of `len` graphemes takes when wrapped at `width`:
/// a line that fits takes one row; a longer one fills `width` on as many rows
/// as it needs; an empty line still takes a row. A zero width holds no
/// grapheme, so a non-empty line then asks for every row there is.
pub open spec fn line_extent(len: nat, width: usize) -> (usize, usize) {
    if len == 0 {
        (0, 1)
    } else if width == 0 {
        (0, usize::MAX)
    } else if len <= width {
        (len as usize, 1)
    } else {
        (width, ((len + width - 1) / width as int) as usize)
    }
}

/// Adds one line to the extent of the lines before it: the widest line
/// sets the width, the rows add up.
pub open spec fn add_line(extent: (usize, usize), len: nat, width: usize) -> (usize, usize) {
    let line = line_extent(len, width);
    (max_usize(extent.0, line.0), sat_add(extent.1, line.1))
}

/// Scans graphemes left to right: the extent of the completed lines, the
/// length of the line being read, and whether that line holds a grapheme yet.
pub open spec fn scan_lines(gs: Seq<Seq<char>>, width: usize) -> ((usize, usize), nat, bool)
    decreases gs.len(),
{
    if gs.len() == 0 {
        ((0, 0), 0, false)
    } else {
        let (extent, current, open) = scan_lines(gs.drop_last(), width);
        if is_line_break(gs.last()) {
            (add_line(extent, current, width), 0, false)
        } else {
            (extent, current + 1, true)
        }
    }
}

/// The natural extent of a text given as graphemes, wrapped at `width`: lines
/// end at line breaks, and a break at the very end opens no new line.
pub open spec fn text_extent(gs: Seq<Seq<char>>, width: usize) -> (usize, usize) {
    let (extent, current, open) = scan_lines(gs, width);
    if open {
        add_line(extent, current, width)
    } else {
        extent
    }
}

fn line_extent_exec(len: usize, width: usize) -> (r: (usize, usize))
    ensures
        r == line_extent(len as nat, width),
{
    if len == 0 {
        (0, 1)
    } else if width == 0 {
        (0, usize::MAX)
    } else if len <= width {
        (len, 1)
    } else {
        proof {
            vstd::arithmetic::div_mod::lemma_fundamental_div_mod(len as int, width as int);
            let q = len as int / width as int;
            let m = len as int % width as int;
            vstd::arithmetic::div_mod::lemma_mod_bound(len as int, width as int);
            vstd::arithmetic::mul::lemma_mul_is_commutative(width as int, q);
            assert(len == q * width + m);
            assert(q <= q * width) by (nonlinear_arith)
                requires
                    width >= 1,
                    q >= 0,
            ;
            assert(m != 0 ==> q < len);
        }
        let rows = len / width + if len % width == 0 {
            0
        } else {
            1
        };
        proof {
            let l = len as int;
            let w = width as int;
            vstd::arithmetic::div_mod::lemma_fundamental_div_mod(l, w);
            vstd::arithmetic::div_mod::lemma_fundamental_div_mod(l + w - 1, w);
            vstd::arithmetic::div_mod::lemma_mod_bound(l, w);
            vstd::arithmetic::div_mod::lemma_mod_bound(l + w - 1, w);
            assert((l + w - 1) / w == l / w + if l % w == 0 { 0int } else { 1int }) by (nonlinear_arith)
                requires
                    w > 0,
                    l == w * (l / w) + l % w,
                    l + w - 1 == w * ((l + w - 1) / w) + (l + w - 1) % w,
                    0 <= l % w < w,
                    0 <= (l + w - 1) % w < w,
            ;
        }
        (width, rows)
    }
}

fn add_line_exec(extent: (usize, usize), len: usize, width: usize) -> (r: (usize, usize))
    ensures
        r == add_line(extent, len as nat, width),
{
    let line = line_extent_exec(len, width);
    let w = if extent.0 >= line.0 {
        extent.0
    } else {
        line.0
    };
    (w, extent.1.saturating_add(line.1))
}

/// The width and height that text given as graphemes takes when wrapped at
/// `width`.
pub fn measure_graphemes(gs: &Vec<String>, width: usize) -> (r: (usize, usize))
    ensures
        r == text_extent(cells_view(gs@), width),
{
    let mut extent: (usize, usize) = (0, 0);
    let mut current: usize = 0;
    let mut open = false;
    let mut i: usize = 0;
    while i < gs.len()
        invariant
            i <= gs@.len(),
            current <= i,
            (extent, current as nat, open) == scan_lines(
                cells_view(gs@).subrange(0, i as int),
                width,
            ),
        decreases gs@.len() - i,
    {
        proof {
            assert(cells_view(gs@).subrange(0, i as int + 1).drop_last() == cells_view(gs@).subrange(
                0,
                i as int,
            ));
            assert(cells_view(gs@).subrange(0, i as int + 1).last() == gs@[i as int]@);
        }
        if line_break(gs[i].as_str()) {
            extent = add_line_exec(extent, current, width);
            current = 0;
            open = false;
        } else {
            current = current + 1;
            open = true;
        }
        i = i + 1;
    }
    proof {
        assert(cells_view(gs@).subrange(0, gs@.len() as int) == cells_view(gs@));
    }
    if open {
        add_line_exec(extent, current, width)
    } else {
        extent
    }
}

/// The width and height that `content` takes when wrapped at `width`,
/// measured in grapheme clusters.
pub fn measure_text(content: &str, width: usize) -> (r: (usize, usize))
    ensures
        r == text_extent(graphemes_of(content@), width),
{
    let gs = graphemes(content);
    measure_graphemes(&gs, width)
}

} // verus!
