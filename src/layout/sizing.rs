use vstd::prelude::*;

use super::geometry::Rect;

verus! {

/// `a + b`, saturating at `usize::MAX`.
pub open spec fn sat_add(a: usize, b: usize) -> usize {
    if a + b > usize::MAX {
        usize::MAX
    } else {
        (a + b) as usize
    }
}

/// `v` capped at `usize::MAX`.
pub open spec fn clamp_usize(v: int) -> usize {
    if v > usize::MAX {
        usize::MAX
    } else if v < 0 {
        0
    } else {
        v as usize
    }
}

/// `a - b`, saturating at zero.
pub open spec fn sat_sub(a: usize, b: usize) -> usize {
    if a >= b {
        (a - b) as usize
    } else {
        0
    }
}

pub open spec fn max_usize(a: usize, b: usize) -> usize {
    if a >= b {
        a
    } else {
        b
    }
}

/// How much room a node takes along one axis.
#[derive(Clone, Copy, Debug, PartialEq, Eq)]
pub enum Sizing {
    /// Grows into all the room it is given, but never below the minimum.
    Greedy(usize),
    /// Takes exactly this much room.
    Static(usize),
}

impl Sizing {
    /// The scalar of either variant.
    pub open spec fn spec_min(self) -> usize {
        match self {
            Sizing::Greedy(n) => n,
            Sizing::Static(n) => n,
        }
    }

    /// The same variant, grown by `n`.
    pub open spec fn added(self, n: usize) -> Sizing {
        match self {
            Sizing::Greedy(m) => Sizing::Greedy(sat_add(m, n)),
            Sizing::Static(m) => Sizing::Static(sat_add(m, n)),
        }
    }

    /// A running total along a stack's axis, after one more sibling.
    pub open spec fn accumulated(self, other: Sizing) -> Sizing {
        match self {
            Sizing::Static(n) => other.added(n),
            Sizing::Greedy(n) => Sizing::Greedy(sat_add(n, other.spec_min())),
        }
    }

    /// The room this sizing takes on an axis that offers `bound`.
    pub open spec fn fit(self, bound: usize) -> usize {
        match self {
            Sizing::Greedy(m) => max_usize(bound, m),
            Sizing::Static(n) => n,
        }
    }

    /// Merges the sizing of a sibling into the running total `self`: a static
    /// total takes the sibling's variant, a greedy one stays greedy.
    pub fn clamped_accumulate(&mut self, other: &Sizing)
        ensures
            *final(self) == old(self).accumulated(*other),
    {
        *self = match *self {
            Sizing::Static(n) => {
                let mut result = *other;
                result.clamped_add(n);
                result
            },
            Sizing::Greedy(n) => Sizing::Greedy(n.saturating_add(other.min_content_size())),
        }
    }

    /// Grows the scalar by `n`, saturating rather than overflowing.
    pub fn clamped_add(&mut self, n: usize)
        ensures
            *final(self) == old(self).added(n),
    {
        *self = match *self {
            Sizing::Static(sz) => Sizing::Static(sz.saturating_add(n)),
            Sizing::Greedy(sz) => Sizing::Greedy(sz.saturating_add(n)),
        }
    }

    pub fn min_content_size(&self) -> (r: usize)
        ensures
            r == self.spec_min(),
    {
        match self {
            Sizing::Static(sz) => *sz,
            Sizing::Greedy(sz) => *sz,
        }
    }
}

/// The sizing of a node on both axes.
#[derive(Clone, Copy, Debug, PartialEq, Eq)]
pub struct ItemSizing {
    pub horizontal: Sizing,
    pub vertical: Sizing,
}

impl ItemSizing {
    /// The rectangle this sizing takes inside `bounds`, at the same origin.
    pub open spec fn spec_fit(self, bounds: Rect) -> Rect {
        Rect {
            x: bounds.x,
            y: bounds.y,
            width: self.horizontal.fit(bounds.width),
            height: self.vertical.fit(bounds.height),
        }
    }

    pub fn new(horizontal: Sizing, vertical: Sizing) -> (r: Self)
        ensures
            r == (ItemSizing { horizontal, vertical }),
    {
        ItemSizing { horizontal, vertical }
    }

    /// Resolves the sizing to a concrete rectangle at the origin of `bounds`:
    /// a static axis takes its exact size, a greedy one the larger of the bound
    /// and its minimum.
    pub fn fit_into(&self, bounds: &Rect) -> (r: Rect)
        ensures
            r == self.spec_fit(*bounds),
            forall|n: usize| self.horizontal == Sizing::Static(n) ==> r.width == n,
            forall|n: usize| self.vertical == Sizing::Static(n) ==> r.height == n,
            forall|m: usize|
                self.horizontal == Sizing::Greedy(m) ==> r.width == max_usize(bounds.width, m),
            forall|m: usize|
                self.vertical == Sizing::Greedy(m) ==> r.height == max_usize(bounds.height, m),
    {
        let width = match self.horizontal {
            Sizing::Greedy(n) => if bounds.width >= n {
                bounds.width
            } else {
                n
            },
            Sizing::Static(n) => n,
        };
        let height = match self.vertical {
            Sizing::Greedy(n) => if bounds.height >= n {
                bounds.height
            } else {
                n
            },
            Sizing::Static(n) => n,
        };
        Rect::new(bounds.x, bounds.y, width, height)
    }
}

/// The number of greedy sizings in `s`.
pub open spec fn greedy_count(s: Seq<Sizing>) -> nat
    decreases s.len(),
{
    if s.len() == 0 {
        0
    } else {
        greedy_count(s.drop_last()) + if s.last() is Greedy {
            1nat
        } else {
            0nat
        }
    }
}

/// The sum of the static sizings in `s`.
pub open spec fn static_total(s: Seq<Sizing>) -> nat
    decreases s.len(),
{
    if s.len() == 0 {
        0
    } else {
        static_total(s.drop_last()) + match s.last() {
            Sizing::Static(n) => n as nat,
            Sizing::Greedy(_) => 0nat,
        }
    }
}

/// The room left for the greedy children of a stack: what `available` offers
/// after the gaps and every static child, or nothing.
pub open spec fn greedy_budget(s: Seq<Sizing>, available: usize, gaps: usize) -> usize {
    if gaps + static_total(s) >= available {
        0
    } else {
        (available - gaps - static_total(s)) as usize
    }
}

/// The floor share of each greedy child.
pub open spec fn greedy_share(s: Seq<Sizing>, available: usize, gaps: usize) -> usize {
    if greedy_count(s) == 0 {
        0
    } else {
        (greedy_budget(s, available, gaps) as int / greedy_count(s) as int) as usize
    }
}

/// One greedy child takes `share` out of `remaining`; when what is left would
/// fall below a share, this child takes it all. Returns the child's part and
/// what remains.
pub open spec fn share_step(remaining: usize, share: usize) -> (usize, usize) {
    let left = sat_sub(remaining, share);
    if left < share {
        ((share + left) as usize, 0)
    } else {
        (share, left)
    }
}

/// The size along the stack's axis of each child in `s`, visited in order
/// with `remaining` room for the greedy ones. A greedy child never goes below
/// its minimum.
pub open spec fn shares_from(s: Seq<Sizing>, remaining: usize, share: usize) -> Seq<usize>
    decreases s.len(),
{
    if s.len() == 0 {
        Seq::empty()
    } else {
        match s[0] {
            Sizing::Static(n) => seq![n] + shares_from(s.drop_first(), remaining, share),
            Sizing::Greedy(m) => {
                let (part, rest) = share_step(remaining, share);
                seq![max_usize(part, m)] + shares_from(s.drop_first(), rest, share)
            },
        }
    }
}

/// The sizes that a stack gives its children along its axis, when it offers
/// `available` and `gaps` of it go to spacing.
pub open spec fn stack_shares(s: Seq<Sizing>, available: usize, gaps: usize) -> Seq<usize> {
    shares_from(s, greedy_budget(s, available, gaps), greedy_share(s, available, gaps))
}

proof fn lemma_shares_from_len(s: Seq<Sizing>, remaining: usize, share: usize)
    ensures
        shares_from(s, remaining, share).len() == s.len(),
    decreases s.len(),
{
    if s.len() > 0 {
        lemma_shares_from_len(s.drop_first(), share_step(remaining, share).1, share);
        lemma_shares_from_len(s.drop_first(), remaining, share);
    }
}

/// Gives each child of a stack its size along the stack's axis: a static
/// child keeps its size; the greedy ones share what is left of `available`
/// after `gaps` and the static children, the last of them taking the
/// remainder of the division.
pub fn distribute_space(sizings: &Vec<Sizing>, available: usize, gaps: usize) -> (r: Vec<usize>)
    ensures
        r@ == stack_shares(sizings@, available, gaps),
        r@.len() == sizings@.len(),
{
    let mut count: usize = 0;
    let mut fixed: usize = gaps;
    let mut i: usize = 0;
    while i < sizings.len()
        invariant
            i <= sizings@.len(),
            count == greedy_count(sizings@.subrange(0, i as int)),
            count <= i,
            fixed == clamp_usize(gaps + static_total(sizings@.subrange(0, i as int))),
        decreases sizings@.len() - i,
    {
        proof {
            assert(sizings@.subrange(0, i as int + 1).drop_last() == sizings@.subrange(0, i as int));
        }
        match sizings[i] {
            Sizing::Static(n) => {
                fixed = fixed.saturating_add(n);
            },
            Sizing::Greedy(_) => {
                count = count + 1;
            },
        }
        i = i + 1;
    }
    proof {
        assert(sizings@.subrange(0, sizings@.len() as int) == sizings@);
    }
    let budget = available.saturating_sub(fixed);
    let share = if count != 0 {
        budget / count
    } else {
        0
    };
    let ghost total = stack_shares(sizings@, available, gaps);
    let mut remaining = budget;
    let mut out: Vec<usize> = Vec::new();
    let mut j: usize = 0;
    proof {
        lemma_shares_from_len(sizings@, budget, share);
        assert(sizings@.subrange(0, sizings@.len() as int) == sizings@);
    }
    while j < sizings.len()
        invariant
            j <= sizings@.len(),
            share == greedy_share(sizings@, available, gaps),
            budget == greedy_budget(sizings@, available, gaps),
            total == shares_from(sizings@, budget, share),
            out@ + shares_from(sizings@.subrange(j as int, sizings@.len() as int), remaining, share)
                == total,
        decreases sizings@.len() - j,
    {
        let ghost rest = sizings@.subrange(j as int, sizings@.len() as int);
        proof {
            assert(rest.drop_first() == sizings@.subrange(j as int + 1, sizings@.len() as int));
            assert(rest[0] == sizings@[j as int]);
        }
        match sizings[j] {
            Sizing::Static(n) => {
                proof {
                    assert(out@.push(n) + shares_from(rest.drop_first(), remaining, share)
                        == out@ + shares_from(rest, remaining, share));
                }
                out.push(n);
            },
            Sizing::Greedy(m) => {
                let left = remaining.saturating_sub(share);
                let mut part = share;
                let mut next = left;
                if left < share {
                    part = share + left;
                    next = 0;
                }
                let size = if part >= m {
                    part
                } else {
                    m
                };
                proof {
                    assert(out@.push(size) + shares_from(rest.drop_first(), next, share)
                        == out@ + shares_from(rest, remaining, share));
                }
                out.push(size);
                remaining = next;
            },
        }
        j = j + 1;
    }
    proof {
        assert(sizings@.subrange(sizings@.len() as int, sizings@.len() as int) =~= Seq::<Sizing>::empty());
        assert(out@ + Seq::<usize>::empty() == out@);
        lemma_shares_from_len(sizings@, budget, share);
    }
    out
}

/// `k` greedy sizings without a minimum.
pub open spec fn elastic(k: nat) -> Seq<Sizing> {
    Seq::new(k, |i: int| Sizing::Greedy(0))
}

/// The sum of `s`.
pub open spec fn total(s: Seq<usize>) -> int
    decreases s.len(),
{
    if s.len() == 0 {
        0
    } else {
        total(s.drop_last()) + s.last()
    }
}

proof fn lemma_elastic_counts(k: nat)
    ensures
        greedy_count(elastic(k)) == k,
        static_total(elastic(k)) == 0,
    decreases k,
{
    if k > 0 {
        assert(elastic(k).drop_last() == elastic((k - 1) as nat));
        lemma_elastic_counts((k - 1) as nat);
    }
}

proof fn lemma_elastic_shares(m: nat, share: usize, rem: usize, remaining: usize)
    requires
        m >= 1,
        rem < share || rem == 0,
        remaining == m * share + rem,
    ensures
        shares_from(elastic(m), remaining, share) == Seq::new(
            m,
            |i: int|
                if i < m - 1 {
                    share
                } else {
                    (share + rem) as usize
                },
        ),
    decreases m,
{
    let s = elastic(m);
    assert(s[0] == Sizing::Greedy(0));
    assert(s.drop_first() == elastic((m - 1) as nat));
    if m == 1 {
        assert(remaining == share + rem) by (nonlinear_arith)
            requires
                remaining == m * share + rem,
                m == 1,
        ;
        assert(shares_from(s.drop_first(), share_step(remaining, share).1, share) == Seq::<
            usize,
        >::empty());
        assert(shares_from(s, remaining, share) =~= Seq::new(
            m,
            |i: int|
                if i < m - 1 {
                    share
                } else {
                    (share + rem) as usize
                },
        ));
    } else {
        assert(remaining - share == (m - 1) * share + rem) by (nonlinear_arith)
            requires
                remaining == m * share + rem,
        ;
        assert((m - 1) * share >= share) by (nonlinear_arith)
            requires
                m >= 2,
        ;
        let next = (remaining - share) as usize;
        assert(share_step(remaining, share) == (share, next));
        lemma_elastic_shares((m - 1) as nat, share, rem, next);
        assert(shares_from(s, remaining, share) =~= Seq::new(
            m,
            |i: int|
                if i < m - 1 {
                    share
                } else {
                    (share + rem) as usize
                },
        ));
    }
}

proof fn lemma_total_uniform(n: nat, share: usize, last: usize)
    requires
        n >= 1,
    ensures
        total(
            Seq::new(
                n,
                |i: int|
                    if i < n - 1 {
                        share
                    } else {
                        last
                    },
            ),
        ) == (n - 1) * share + last,
    decreases n,
{
    let s = Seq::new(
        n,
        |i: int|
            if i < n - 1 {
                share
            } else {
                last
            },
    );
    if n == 1 {
        assert(s.drop_last() =~= Seq::<usize>::empty());
        assert(s.last() == last);
        assert(total(s) == total(s.drop_last()) + last);
    } else {
        lemma_total_constant((n - 1) as nat, share);
        assert(s.drop_last() =~= repeated((n - 1) as nat, share));
        assert(s.last() == last);
        assert(total(s) == total(s.drop_last()) + last);
    }
}

spec fn repeated(n: nat, v: usize) -> Seq<usize> {
    Seq::new(n, |i: int| v)
}

proof fn lemma_total_constant(n: nat, share: usize)
    ensures
        total(repeated(n, share)) == n * share,
    decreases n,
{
    let s = repeated(n, share);
    if n > 0 {
        assert(s.drop_last() =~= repeated((n - 1) as nat, share));
        lemma_total_constant((n - 1) as nat, share);
        assert(s.last() == share);
        assert(total(s) == total(s.drop_last()) + share);
        assert(n * share == (n - 1) * share + share) by (nonlinear_arith);
    } else {
        assert(n * share == 0) by (nonlinear_arith)
            requires
                n == 0,
        ;
    }
}

/// Stack remainder law: `k` greedy children without a minimum that share
/// `budget` along a stack with no spacing get sizes that add up to exactly
/// `budget` and differ by at most one, the last child taking the remainder.
/// This holds whenever the remainder of `budget / k` is zero, or is one with a
/// share of at least two; otherwise the remainder is not fully handed out.
pub proof fn lemma_stack_remainder(k: nat, budget: usize)
    requires
        k > 0,
        budget as int % k as int == 0 || (budget as int % k as int == 1 && budget as int / k as int >= 2),
    ensures
        total(stack_shares(elastic(k), budget, 0)) == budget,
        forall|i: int, j: int|
            0 <= i < k && 0 <= j < k ==> stack_shares(elastic(k), budget, 0)[i]
                <= stack_shares(elastic(k), budget, 0)[j] + 1,
        stack_shares(elastic(k), budget, 0).len() == k,
{
    lemma_elastic_counts(k);
    let share = (budget as int / k as int) as usize;
    let rem = (budget as int % k as int) as usize;
    assert(greedy_budget(elastic(k), budget, 0) == budget);
    assert(greedy_share(elastic(k), budget, 0) == share);
    vstd::arithmetic::div_mod::lemma_fundamental_div_mod(budget as int, k as int);
    assert(budget == k * share + rem) by (nonlinear_arith)
        requires
            budget == k * (budget as int / k as int) + budget as int % k as int,
            share == budget as int / k as int,
            rem == budget as int % k as int,
    ;
    lemma_elastic_shares(k, share, rem, budget);
    lemma_total_uniform(k, share, (share + rem) as usize);
    assert((k - 1) * share + share + rem == k * share + rem) by (nonlinear_arith);
}

} // verus!
