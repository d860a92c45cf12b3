//! Line-plot state for a paired `data`/`timestamps` group, and the
//! level-of-detail decimation heuristic applied before rendering long series.

use vstd::prelude::*;
use crate::hdf::GroupTree;
use crate::paths::ends_with;
use crate::paths::ends_with_exec;

verus! {

/// Ten to the `k`.
pub open spec fn pow10(k: nat) -> nat
    decreases k,
{
    if k == 0 {
        1
    } else {
        10 * pow10((k - 1) as nat)
    }
}

/// The smallest `k` with `pow10(k) >= n`; the ceiling of the base-ten
/// logarithm for `n >= 1`.
pub open spec fn log10_ceil(n: nat) -> nat
    decreases n,
{
    if n <= 1 {
        0
    } else {
        1 + log10_ceil((n + 9) / 10)
    }
}

/// The plot's decimation step: one below ten thousand points, and the cubed
/// ceiling of the base-ten logarithm above.
pub open spec fn spec_step_size(n: nat) -> nat {
    if n > 10000 {
        log10_ceil(n) * log10_ceil(n) * log10_ceil(n)
    } else {
        1
    }
}

proof fn lemma_pow10_increases(k1: nat, k2: nat)
    requires
        k1 < k2,
    ensures
        pow10(k1) < pow10(k2),
        pow10(k1) >= 1,
    decreases k2,
{
    if k1 + 1 == k2 {
        lemma_pow10_positive(k1);
    } else {
        lemma_pow10_increases(k1, (k2 - 1) as nat);
    }
}

proof fn lemma_pow10_positive(k: nat)
    ensures
        pow10(k) >= 1,
    decreases k,
{
    if k > 0 {
        lemma_pow10_positive((k - 1) as nat);
    }
}

/// `log10_ceil(n)` is the least exponent whose power of ten reaches `n`.
proof fn lemma_log10_ceil_bounds(n: nat)
    requires
        n >= 1,
    ensures
        pow10(log10_ceil(n)) >= n,
        log10_ceil(n) >= 1 ==> pow10((log10_ceil(n) - 1) as nat) < n,
    decreases n,
{
    if n > 1 {
        let m = (n + 9) / 10;
        assert(1 <= m < n);
        lemma_log10_ceil_bounds(m);
        let lm = log10_ceil(m);
        assert(pow10(log10_ceil(n)) == 10 * pow10(lm));
        assert(10 * pow10(lm) >= 10 * m);
        assert(10 * m >= n);
        // minimality: pow10(log10_ceil(n) - 1) == pow10(lm) and pow10(lm) < n
        if m == 1 {
            assert(n <= 10);
            assert(pow10(lm) == 1);
        } else {
            // pow10(lm - 1) < m, so pow10(lm) < 10 * m; sharper: 10*(m-1) >= pow10(lm)
            // is not direct; instead use pow10(lm) <= 10 * pow10(lm - 1) <= 10 * (m - 1)
            assert(lm >= 1) by {
                if lm == 0 {
                    assert(pow10(lm) == 1);
                }
            }
            assert(pow10(lm) == 10 * pow10((lm - 1) as nat));
            assert(pow10((lm - 1) as nat) <= m - 1);
            assert(pow10(lm) <= 10 * (m - 1));
            assert(10 * (m - 1) == 10 * m - 10);
            assert(10 * m <= n + 9);
        }
    }
}

/// Any `k` with `pow10(k) >= n` and (for positive `k`) `pow10(k - 1) < n`
/// is `log10_ceil(n)`.
proof fn lemma_log10_ceil_unique(n: nat, k: nat)
    requires
        n >= 1,
        pow10(k) >= n,
        k >= 1 ==> pow10((k - 1) as nat) < n,
    ensures
        k == log10_ceil(n),
{
    let l = log10_ceil(n);
    lemma_log10_ceil_bounds(n);
    if k < l {
        lemma_pow10_increases(k, (l - 1) as nat);
        lemma_pow10_positive(k);
        if k < l - 1 {
            assert(pow10(k) < pow10((l - 1) as nat));
        }
        assert(pow10(k) <= pow10((l - 1) as nat));
        assert(false);
    }
    if k > l {
        if l < k - 1 {
            lemma_pow10_increases(l, (k - 1) as nat);
        }
        assert(pow10(l) <= pow10((k - 1) as nat));
        assert(false);
    }
}

/// The ceiling logarithm never decreases as its argument grows.
proof fn lemma_log10_ceil_monotone(n1: nat, n2: nat)
    requires
        1 <= n1 <= n2,
    ensures
        log10_ceil(n1) <= log10_ceil(n2),
{
    lemma_log10_ceil_bounds(n1);
    lemma_log10_ceil_bounds(n2);
    let l1 = log10_ceil(n1);
    let l2 = log10_ceil(n2);
    if l1 > l2 {
        // pow10(l1 - 1) < n1 <= n2 <= pow10(l2) forces l1 - 1 < l2
        if l2 < l1 - 1 {
            lemma_pow10_increases(l2, (l1 - 1) as nat);
        }
        assert(pow10(l2) <= pow10((l1 - 1) as nat));
        assert(false);
    }
}

/// The decimation step is positive and non-decreasing in the series length.
pub proof fn lemma_step_size_monotone(n1: nat, n2: nat)
    requires
        n1 <= n2,
    ensures
        spec_step_size(n1) >= 1,
        spec_step_size(n1) <= spec_step_size(n2),
{
    if n1 > 10000 {
        lemma_log10_ceil_bounds(n1);
        let l1 = log10_ceil(n1);
        assert(l1 >= 1) by {
            if l1 == 0 {
                assert(pow10(l1) == 1);
            }
        }
        lemma_log10_ceil_monotone(n1, n2);
        let l2 = log10_ceil(n2);
        assert(l1 * l1 * l1 >= 1 && l1 * l1 * l1 <= l2 * l2 * l2) by (nonlinear_arith)
            requires 1 <= l1 <= l2;
    } else if n2 > 10000 {
        lemma_log10_ceil_bounds(n2);
        let l2 = log10_ceil(n2);
        assert(l2 >= 1) by {
            if l2 == 0 {
                assert(pow10(l2) == 1);
            }
        }
        assert(l2 * l2 * l2 >= 1) by (nonlinear_arith)
            requires l2 >= 1;
    }
}

/// Computes the decimation step for a series of `n` intervals: one up to ten
/// thousand, and the cubed ceiling of the base-ten logarithm beyond that.
pub fn compute_step_size(n: usize) -> (r: usize)
    ensures
        r == spec_step_size(n as nat),
        r >= 1,
{
    if n <= 10000 {
        return 1;
    }
    let target: u128 = n as u128;
    proof {
        assert(n as nat <= 0xffff_ffff_ffff_ffff);
    }
    let mut k: usize = 0;
    let mut p: u128 = 1;
    while p < target
        invariant
            target == n as nat,
            n > 10000,
            n as nat <= 0xffff_ffff_ffff_ffff,
            p == pow10(k as nat),
            k >= 1 ==> pow10((k - 1) as nat) < target,
            k <= 20,
        decreases 20 - k,
    {
        proof {
            lemma_pow10_positive(k as nat);
            // the exponent stays below the ceiling logarithm, hence below 20
            lemma_log10_ceil_unique_partial(n as nat, k as nat);
            lemma_log10_ceil_le_digits(n as nat);
        }
        p = p * 10;
        k = k + 1;
    }
    proof {
        lemma_log10_ceil_unique(n as nat, k as nat);
        assert(pow10(0) == 1);
        lemma_log10_ceil_unique_partial(n as nat, 0);
        assert(1 <= k <= 20);
        assert(k * k <= 400 && 1 <= k * k * k <= 8000) by (nonlinear_arith)
            requires 1 <= k <= 20;
    }
    k * k * k
}

/// While the running power is still below `n`, the exponent is below the
/// ceiling logarithm, which keeps it (and the power) small.
proof fn lemma_log10_ceil_unique_partial(n: nat, k: nat)
    requires
        n >= 1,
        pow10(k) < n,
    ensures
        k < log10_ceil(n),
        pow10(k) < pow10(log10_ceil(n)),
{
    lemma_log10_ceil_bounds(n);
    let l = log10_ceil(n);
    if k >= l {
        if k > l {
            lemma_pow10_increases(l, k);
        }
        assert(pow10(l) <= pow10(k));
        assert(false);
    }
    lemma_pow10_increases(k, l);
}

/// Sixty-four-bit lengths need at most twenty decimal digits.
proof fn lemma_log10_ceil_le_digits(n: nat)
    requires
        1 <= n <= 0xffff_ffff_ffff_ffff,
    ensures
        log10_ceil(n) <= 20,
{
    lemma_log10_ceil_bounds(n);
    let l = log10_ceil(n);
    if l > 20 {
        assert(pow10(20) == 100000000000000000000) by {
            reveal_with_fuel(pow10, 21);
        }
        assert(pow10((l - 1) as nat) < n);
        if 20 < l - 1 {
            lemma_pow10_increases(20, (l - 1) as nat);
        }
        assert(pow10(20) <= pow10((l - 1) as nat));
        assert(false);
    }
}

/// The indices a decimated line plot draws: every `step`-th index from zero
/// through `n_steps`. The underlying series itself is never truncated.
pub fn decimated_indices(n_steps: usize, step: usize) -> (r: Vec<usize>)
    requires
        step >= 1,
        n_steps < usize::MAX,
    ensures
        r@.len() == n_steps as int / step as int + 1,
        forall|i: int| 0 <= i < r@.len() ==> r@[i] == i * step,
{
    let count = n_steps / step + 1;
    let mut r: Vec<usize> = Vec::new();
    let mut i: usize = 0;
    proof {
        vstd::arithmetic::div_mod::lemma_fundamental_div_mod(n_steps as int, step as int);
        vstd::arithmetic::div_mod::lemma_mod_bound(n_steps as int, step as int);
        assert(step as int * (n_steps as int / step as int) <= n_steps as int);
        assert((count - 1) as int * step as int == step as int * (n_steps as int / step as int))
            by (nonlinear_arith)
            requires (count - 1) as int == n_steps as int / step as int;
    }
    while i < count
        invariant
            count == n_steps as int / step as int + 1,
            (count - 1) * step <= n_steps,
            r@.len() == i,
            forall|j: int| 0 <= j < i ==> r@[j] == j * step,
            i <= count,
            step >= 1,
        decreases count - i,
    {
        proof {
            assert(i * step <= (count - 1) * step) by (nonlinear_arith)
                requires i <= count - 1, step >= 1;
        }
        r.push(i * step);
        i = i + 1;
    }
    r
}

/// The state of one line-plot view over a group holding a `data` series:
/// which group it shows, how many plot steps the series spans, the decimation
/// step chosen for it, and whether a `timestamps` dataset supplies the x axis
/// (when none does, the view falls back to plotting against the index).
pub struct PlotWindow {
    pub title: String,
    pub n_steps: usize,
    pub step_size: usize,
    pub has_timestamps: bool,
}

impl Default for PlotWindow {
    /// A fresh plot window shows nothing: empty title, no steps, no step size.
    fn default() -> (r: Self)
        ensures
            r.title@ == Seq::<char>::empty(),
            r.n_steps == 0,
            r.step_size == 0,
            !r.has_timestamps,
    {
        PlotWindow { title: String::new(), n_steps: 0, step_size: 0, has_timestamps: false }
    }
}

/// Some dataset path directly under the group ends with `timestamps`.
pub open spec fn spec_group_has_timestamps(g: GroupTree) -> bool {
    exists|i: int|
        0 <= i < g.datasets@.len() && ends_with(g.datasets@[i]@, "timestamps"@)
}

/// Scans a group's direct dataset paths for one ending in `timestamps`.
pub fn group_has_timestamps(g: &GroupTree) -> (r: bool)
    ensures
        r == spec_group_has_timestamps(*g),
{
    let mut i: usize = 0;
    while i < g.datasets.len()
        invariant
            i <= g.datasets@.len(),
            forall|j: int| 0 <= j < i ==> !ends_with(g.datasets@[j]@, "timestamps"@),
        decreases g.datasets@.len() - i,
    {
        if ends_with_exec(g.datasets[i].as_str(), "timestamps") {
            return true;
        }
        i = i + 1;
    }
    false
}

impl PlotWindow {
    /// Binds this plot view to a group whose `data` series has `y_len`
    /// points: the view takes the group's path as its title, records whether
    /// the group carries a `timestamps` dataset for the x axis, and chooses
    /// the decimation step for the series' span.
    pub fn get_data_from_group(&mut self, group: &GroupTree, y_len: usize)
        requires
            y_len >= 1,
        ensures
            final(self).title == group.path,
            final(self).has_timestamps == spec_group_has_timestamps(*group),
            final(self).n_steps == y_len - 1,
            final(self).step_size == spec_step_size((y_len - 1) as nat),
            final(self).step_size >= 1,
    {
        self.title = group.path.clone();
        self.has_timestamps = group_has_timestamps(group);
        self.n_steps = y_len - 1;
        self.step_size = compute_step_size(self.n_steps);
    }
}

} // verus!
