//! A plain-value model of the text-shaping service.
//!
//! The host's shaper maps logical columns to visual x-coordinates and back.
//! The library models its answers as one advance width per UTF-16 code unit,
//! measured by the host and handed in as plain integers: the x-coordinate of
//! column `n` is the sum of the first `n` advances. The spec functions here
//! define those prefix sums and the inverse (x-coordinate to column) lookup,
//! and the lemmas give the facts the editing engine needs about them.

use vstd::prelude::*;

verus! {

/// Largest advance width of a single code unit.
pub const ADV_MAX: i32 = 0x0001_0000;
/// Largest total rendered width of a field's text.
pub const WIDTH_MAX: i32 = 0x1000_0000;

/// Sum of the first `n` advance widths.
pub open spec fn width_prefix(a: Seq<i32>, n: int) -> int
    decreases n,
{
    if n <= 0 {
        0
    } else {
        width_prefix(a, n - 1) + a[n - 1]
    }
}

/// Total rendered width of a run of advances.
pub open spec fn width_total(a: Seq<i32>) -> int {
    width_prefix(a, a.len() as int)
}

/// Every advance is a legal width.
pub open spec fn adv_elems_wf(a: Seq<i32>) -> bool {
    forall|i: int| 0 <= i < a.len() ==> 0 <= #[trigger] a[i] <= ADV_MAX
}

/// A legal run of advances: elements in range and total width bounded.
pub open spec fn adv_wf(a: Seq<i32>) -> bool {
    adv_elems_wf(a) && width_total(a) <= WIDTH_MAX
}

/// Prefix sums of non-negative advances are monotone.
pub proof fn lemma_width_prefix_mono(a: Seq<i32>, i: int, j: int)
    requires
        adv_elems_wf(a),
        0 <= i <= j <= a.len(),
    ensures
        width_prefix(a, i) <= width_prefix(a, j),
    decreases j,
{
    if i < j {
        lemma_width_prefix_mono(a, i, j - 1);
    }
}

/// Every prefix sum of non-negative advances is non-negative.
pub proof fn lemma_width_prefix_nonneg(a: Seq<i32>, n: int)
    requires
        adv_elems_wf(a),
        n <= a.len(),
    ensures
        width_prefix(a, n) >= 0,
    decreases n,
{
    if n > 0 {
        lemma_width_prefix_nonneg(a, n - 1);
    }
}

/// Prefix sums only look at the elements below `n`.
pub proof fn lemma_width_prefix_agree(a: Seq<i32>, b: Seq<i32>, n: int)
    requires
        n <= a.len(),
        n <= b.len(),
        forall|i: int| 0 <= i < n ==> a[i] == b[i],
    ensures
        width_prefix(a, n) == width_prefix(b, n),
    decreases n,
{
    if n > 0 {
        lemma_width_prefix_agree(a, b, n - 1);
    }
}

/// A prefix sum reaching into the right half of a concatenation splits.
pub proof fn lemma_width_prefix_concat(x: Seq<i32>, y: Seq<i32>, n: int)
    requires
        0 <= n <= y.len(),
    ensures
        width_prefix(x + y, x.len() + n) == width_total(x) + width_prefix(y, n),
    decreases n,
{
    if n == 0 {
        lemma_width_prefix_agree(x + y, x, x.len() as int);
    } else {
        lemma_width_prefix_concat(x, y, n - 1);
        assert((x + y)[x.len() + n - 1] == y[n - 1]);
    }
}

/// Removing one advance takes exactly its width off the total.
pub proof fn lemma_width_total_remove(a: Seq<i32>, i: int)
    requires
        0 <= i < a.len(),
    ensures
        width_total(a.remove(i)) == width_total(a) - a[i],
{
    let l = a.take(i);
    let r = a.skip(i + 1);
    let r1 = a.skip(i);
    assert(a.remove(i) =~= l + r);
    assert(a =~= l + r1);
    lemma_width_prefix_concat(l, r, r.len() as int);
    lemma_width_prefix_concat(l, r1, r1.len() as int);
    lemma_width_total_skip_step(a, i);
}

/// Peeling the first element off a suffix sum.
proof fn lemma_width_total_skip_step(a: Seq<i32>, i: int)
    requires
        0 <= i < a.len(),
    ensures
        width_total(a.skip(i)) == a[i] + width_total(a.skip(i + 1)),
{
    let r1 = a.skip(i);
    let r = a.skip(i + 1);
    assert(r1 =~= seq![a[i]] + r);
    lemma_width_prefix_concat(seq![a[i]], r, r.len() as int);
    assert(width_total(seq![a[i]]) == a[i]) by {
        reveal_with_fuel(width_prefix, 2);
    }
}

/// The column a visual x-coordinate maps back to, with trailing-edge
/// disambiguation: a hit in the right half of a cell selects the next column.
pub open spec fn spec_cp_from_x(a: Seq<i32>, x: int) -> int
    decreases a.len(),
{
    if x < 0 {
        0
    } else if a.len() == 0 {
        0
    } else if x < a[0] {
        if 2 * x >= a[0] {
            1
        } else {
            0
        }
    } else {
        1 + spec_cp_from_x(a.skip(1), x - a[0])
    }
}

/// The inverse mapping never answers past the end of the text.
pub proof fn lemma_cp_from_x_le_len(a: Seq<i32>, x: int)
    ensures
        0 <= spec_cp_from_x(a, x) <= a.len(),
    decreases a.len(),
{
    if x >= 0 && a.len() > 0 && x >= a[0] {
        lemma_cp_from_x_le_len(a.skip(1), x - a[0]);
    }
}

/// Column from x-coordinate, the executable counterpart of `spec_cp_from_x`.
pub fn cp_from_x(a: &Vec<i32>, x: i64) -> (r: usize)
    requires
        adv_wf(a@),
    ensures
        r == spec_cp_from_x(a@, x as int),
        r <= a@.len(),
    {
    proof {
        lemma_cp_from_x_le_len(a@, x as int);
    }
    if x < 0 {
        return 0;
    }
    proof {
        assert(a@.skip(0) =~= a@);
    }
    let mut i: usize = 0;
    let mut rest: i64 = x;
    while i < a.len()
        invariant
            adv_wf(a@),
            0 <= i <= a@.len(),
            rest == x - width_prefix(a@, i as int),
            x >= 0,
            rest >= 0,
            spec_cp_from_x(a@, x as int) == i + spec_cp_from_x(a@.skip(i as int), rest as int),
        decreases a@.len() - i,
    {
        proof {
            lemma_width_prefix_nonneg(a@, i as int);
            lemma_width_prefix_mono(a@, i as int, a@.len() as int);
            assert(a@.skip(i as int)[0] == a@[i as int]);
        }
        let adv = a[i] as i64;
        if rest < adv {
            let hit = if 2 * rest >= adv {
                i + 1
            } else {
                i
            };
            proof {
                lemma_cp_from_x_le_len(a@.skip(i as int), rest as int);
            }
            return hit;
        }
        proof {
            assert(a@.skip(i as int).skip(1) =~= a@.skip(i + 1));
        }
        rest = rest - adv as i64;
        i = i + 1;
    }
    proof {
        assert(a@.skip(i as int).len() == 0);
    }
    i
}

/// Sum of the first `n` advances, the executable counterpart of
/// `width_prefix`.
pub fn sum_prefix(a: &Vec<i32>, n: usize) -> (r: i32)
    requires
        adv_wf(a@),
        n <= a@.len(),
    ensures
        r == width_prefix(a@, n as int),
        0 <= r <= width_total(a@),
{
    let mut total: i32 = 0;
    let mut i: usize = 0;
    proof {
        lemma_width_prefix_nonneg(a@, n as int);
        lemma_width_prefix_mono(a@, n as int, a@.len() as int);
    }
    while i < n
        invariant
            adv_wf(a@),
            0 <= i <= n <= a@.len(),
            total == width_prefix(a@, i as int),
        decreases n - i,
    {
        proof {
            lemma_width_prefix_nonneg(a@, i + 1);
            lemma_width_prefix_mono(a@, i + 1, a@.len() as int);
        }
        total = total + a[i];
        i = i + 1;
    }
    total
}

/// Total width of a run of advances, the executable counterpart of
/// `width_total`.
pub fn sum_widths(a: &Vec<i32>) -> (r: i32)
    requires
        adv_wf(a@),
    ensures
        r == width_total(a@),
        r >= 0,
{
    sum_prefix(a, a.len())
}

} // verus!
