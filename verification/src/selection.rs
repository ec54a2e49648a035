use vstd::prelude::*;

use crate::model::{
    divide_model, fits, ints, is_entering_choice, is_leaving_choice, ratio_model, ratios_model,
};
use crate::rows_view;
use crate::Equation;

verus! {

/// The combining step of the entering-column scan: keep the accumulator
/// unless the new `(index, value)` pair is strictly greater, so the first
/// index attaining the maximum survives.
pub open spec fn pick_greater_model(acc: (usize, isize), item: (usize, isize)) -> (usize, isize) {
    if acc.1 < item.1 {
        item
    } else {
        acc
    }
}

/// The combining step of the leaving-row scan: keep the accumulator unless
/// the new `(index, value)` pair is strictly smaller, so the first index
/// attaining the minimum survives.
pub open spec fn pick_lesser_model(acc: (usize, isize), item: (usize, isize)) -> (usize, isize) {
    if item.1 < acc.1 {
        item
    } else {
        acc
    }
}

/// Left fold of [`pick_greater_model`] over the `(index, value)` pairs of `s`
/// from position `k` on, starting from `acc`.
pub open spec fn fold_greater_from(s: Seq<isize>, k: int, acc: (usize, isize)) -> (usize, isize)
    decreases s.len() - k,
{
    if k < 0 || k >= s.len() {
        acc
    } else {
        fold_greater_from(s, k + 1, pick_greater_model(acc, (k as usize, s[k])))
    }
}

/// Left fold of [`pick_lesser_model`] over the `(index, value)` pairs of `s`
/// from position `k` on, starting from `acc`.
pub open spec fn fold_lesser_from(s: Seq<isize>, k: int, acc: (usize, isize)) -> (usize, isize)
    decreases s.len() - k,
{
    if k < 0 || k >= s.len() {
        acc
    } else {
        fold_lesser_from(s, k + 1, pick_lesser_model(acc, (k as usize, s[k])))
    }
}

/// Executable [`pick_greater_model`].
pub fn pick_greater(acc: (usize, isize), item: (usize, isize)) -> (r: (usize, isize))
    ensures
        r == pick_greater_model(acc, item),
{
    if acc.1 < item.1 {
        item
    } else {
        acc
    }
}

/// Executable [`pick_lesser_model`].
pub fn pick_lesser(acc: (usize, isize), item: (usize, isize)) -> (r: (usize, isize))
    ensures
        r == pick_lesser_model(acc, item),
{
    if item.1 < acc.1 {
        item
    } else {
        acc
    }
}

/// Relies on `reduce::Reduce::reduce` for iterators: it folds the items left
/// to right with the given closure, seeded with the first item
/// (`next().map(|first| fold(first, f))`), and returns `Some` on a non-empty
/// iterator.
#[verifier::external_body]
fn fold_greatest(v: &[isize]) -> (r: usize)
    requires
        v@.len() > 0,
    ensures
        r == fold_greater_from(v@, 1, (0usize, v@[0])).0,
{
    reduce::Reduce::reduce(
        v.iter().copied().enumerate(),
        |acc: (usize, isize), item: (usize, isize)| pick_greater(acc, item),
    ).unwrap().0
}

/// Relies on `reduce::Reduce::reduce` for iterators: it folds the items left
/// to right with the given closure, seeded with the first item
/// (`next().map(|first| fold(first, f))`), and returns `Some` on a non-empty
/// iterator.
#[verifier::external_body]
fn fold_least(v: &[isize]) -> (r: usize)
    requires
        v@.len() > 0,
    ensures
        r == fold_lesser_from(v@, 1, (0usize, v@[0])).0,
{
    reduce::Reduce::reduce(
        v.iter().copied().enumerate(),
        |acc: (usize, isize), item: (usize, isize)| pick_lesser(acc, item),
    ).unwrap().0
}

/// The fold of [`pick_greater_model`] lands on the first index of a maximum:
/// an accumulator that is a first maximum of the prefix before `k` grows into
/// a first maximum of the whole sequence.
proof fn lemma_fold_greater_char(s: Seq<isize>, k: int, acc: (usize, isize))
    requires
        s.len() <= usize::MAX,
        1 <= k <= s.len(),
        0 <= acc.0 < k,
        acc.1 == s[acc.0 as int],
        forall|j: int| 0 <= j < k ==> #[trigger] s[j] <= acc.1,
        forall|j: int| 0 <= j < acc.0 ==> #[trigger] s[j] < acc.1,
    ensures
        ({
            let r = fold_greater_from(s, k, acc);
            &&& 0 <= r.0 < s.len()
            &&& r.1 == s[r.0 as int]
            &&& forall|j: int| 0 <= j < s.len() ==> #[trigger] s[j] <= r.1
            &&& forall|j: int| 0 <= j < r.0 ==> #[trigger] s[j] < r.1
        }),
    decreases s.len() - k,
{
    if k < s.len() {
        let acc2 = pick_greater_model(acc, (k as usize, s[k]));
        assert forall|j: int| 0 <= j < k + 1 implies #[trigger] s[j] <= acc2.1 by {
            if j < k {
                assert(s[j] <= acc.1);
            }
        }
        lemma_fold_greater_char(s, k + 1, acc2);
    }
}

/// The fold of [`pick_lesser_model`] lands on the first index of a minimum.
proof fn lemma_fold_lesser_char(s: Seq<isize>, k: int, acc: (usize, isize))
    requires
        s.len() <= usize::MAX,
        1 <= k <= s.len(),
        0 <= acc.0 < k,
        acc.1 == s[acc.0 as int],
        forall|j: int| 0 <= j < k ==> acc.1 <= #[trigger] s[j],
        forall|j: int| 0 <= j < acc.0 ==> acc.1 < #[trigger] s[j],
    ensures
        ({
            let r = fold_lesser_from(s, k, acc);
            &&& 0 <= r.0 < s.len()
            &&& r.1 == s[r.0 as int]
            &&& forall|j: int| 0 <= j < s.len() ==> r.1 <= #[trigger] s[j]
            &&& forall|j: int| 0 <= j < r.0 ==> r.1 < #[trigger] s[j]
        }),
    decreases s.len() - k,
{
    if k < s.len() {
        let acc2 = pick_lesser_model(acc, (k as usize, s[k]));
        assert forall|j: int| 0 <= j < k + 1 implies acc2.1 <= #[trigger] s[j] by {
            if j < k {
                assert(acc.1 <= s[j]);
            }
        }
        lemma_fold_lesser_char(s, k + 1, acc2);
    }
}

/// Returns the entering column for an objective coefficient row: the index of
/// the maximum coefficient, the lowest such index on ties.  The caller is
/// responsible for only using the answer when some coefficient is positive.
pub fn max_in_eco(multiplicateurs: &[isize]) -> (r: usize)
    requires
        multiplicateurs@.len() > 0,
    ensures
        is_entering_choice(ints(multiplicateurs@), r as int),
{
    let r = fold_greatest(multiplicateurs);
    proof {
        broadcast use vstd::slice::axiom_spec_len;

        let s = multiplicateurs@;
        assert(vstd::slice::spec_slice_len(multiplicateurs) == s.len());
        lemma_fold_greater_char(s, 1, (0usize, s[0]));
        let t = ints(s);
        assert forall|j: int| 0 <= j < t.len() implies #[trigger] t[j] <= t[r as int] by {
            assert(s[j] <= s[r as int]);
        }
        assert forall|j: int| 0 <= j < r as int implies #[trigger] t[j] < t[r as int] by {
            assert(s[j] < s[r as int]);
        }
    }
    r
}

/// Truncating division of `a` by `b`, with the largest representable integer
/// as the sentinel answer when `b` is zero, meaning "this row imposes no
/// bound".
pub fn divide_res(a: isize, b: isize) -> (r: isize)
    requires
        fits(divide_model(a as int, b as int)),
    ensures
        r as int == divide_model(a as int, b as int),
{
    if b != 0 {
        a.checked_div(b).unwrap()
    } else {
        isize::MAX
    }
}

/// Returns the leaving row for entering column `column`: the index of the
/// minimum ratio `rhs / coefficient` over the constraint rows, the lowest
/// such index on ties.  Rows whose coefficient in the column is zero count
/// with the sentinel ratio; negative coefficients are not excluded, so their
/// sign-wrong ratios take part in the minimum exactly as computed.
pub fn min_in_res(eq: &[Equation], column: usize) -> (r: usize)
    requires
        eq@.len() > 0,
        forall|i: int| 0 <= i < eq@.len() ==> (column as int) < (#[trigger] eq@[i])@.coefs.len(),
        forall|i: int| 0 <= i < eq@.len() ==> fits(ratio_model((#[trigger] eq@[i])@, column as int)),
    ensures
        is_leaving_choice(ratios_model(rows_view(eq@), column as int), r as int),
{
    let ghost rs = ratios_model(rows_view(eq@), column as int);
    let n = eq.len();
    let mut ratios: Vec<isize> = Vec::new();
    let mut i: usize = 0;
    while i < n
        invariant
            n == eq@.len(),
            i <= n,
            ratios@.len() == i,
            forall|t: int| 0 <= t < eq@.len() ==> (column as int) < (#[trigger] eq@[t])@.coefs.len(),
            forall|t: int| 0 <= t < eq@.len() ==> fits(ratio_model((#[trigger] eq@[t])@, column as int)),
            forall|t: int| 0 <= t < i ==> #[trigger] ratios@[t] as int == ratio_model(eq@[t]@, column as int),
        decreases n - i,
    {
        let e = &eq[i];
        let co = e.multiplicateurs();
        let r_i = divide_res(e.res(), co[column]);
        ratios.push(r_i);
        i += 1;
    }
    let rslice = ratios.as_slice();
    let r = fold_least(rslice);
    proof {
        broadcast use vstd::slice::axiom_spec_len;

        let s = ratios@;
        assert(vstd::slice::spec_slice_len(rslice) == s.len());
        lemma_fold_lesser_char(s, 1, (0usize, s[0]));
        assert(rs.len() == s.len());
        assert forall|j: int| 0 <= j < rs.len() implies #[trigger] rs[j] == s[j] as int by {
            assert(rows_view(eq@)[j] == eq@[j]@);
        }
        assert forall|j: int| 0 <= j < rs.len() implies rs[r as int] <= #[trigger] rs[j] by {
            assert(s[r as int] <= s[j]);
        }
        assert forall|j: int| 0 <= j < r as int implies rs[r as int] < #[trigger] rs[j] by {
            assert(s[r as int] < s[j]);
        }
    }
    r
}

/// Whether the loop must pivot again: some coefficient of the row is strictly
/// positive.
pub fn need_iterate(eq: &[isize]) -> (r: bool)
    ensures
        r == exists|j: int| 0 <= j < eq@.len() && #[trigger] eq@[j] > 0,
{
    let n = eq.len();
    let mut i: usize = 0;
    while i < n
        invariant
            n == eq@.len(),
            i <= n,
            forall|j: int| 0 <= j < i ==> !(#[trigger] eq@[j] > 0),
        decreases n - i,
    {
        if eq[i] > 0 {
            return true;
        }
        i += 1;
    }
    false
}

} // verus!
