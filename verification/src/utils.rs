//! Pure smoothing primitives over fixed-length sequences of fixed-point
//! intensities, together with the spec functions that state exactly what each
//! one computes.

use std::collections::VecDeque;

use vstd::prelude::*;

use crate::{CHUNK_AMP, FP_ONE, FRAME_MAX, MAX_CHUNK_LEN, MAX_FRAME_LEN};

verus! {

/// Absolute value of a mathematical integer.
pub open spec fn abs_val(x: int) -> int {
    if x < 0 {
        -x
    } else {
        x
    }
}

/// Sum of the elements of a sequence.
pub open spec fn sum_of(s: Seq<i64>) -> int
    decreases s.len(),
{
    if s.len() == 0 {
        0
    } else {
        sum_of(s.drop_last()) + s.last()
    }
}

/// Sum of the absolute values of the elements of a sequence.
pub open spec fn sum_abs(s: Seq<i64>) -> int
    decreases s.len(),
{
    if s.len() == 0 {
        0
    } else {
        sum_abs(s.drop_last()) + abs_val(s.last() as int)
    }
}

/// How many elements of the sequence are non-zero.
pub open spec fn count_nonzero(s: Seq<i64>) -> int
    decreases s.len(),
{
    if s.len() == 0 {
        0
    } else {
        count_nonzero(s.drop_last()) + if s.last() != 0 {
            1int
        } else {
            0int
        }
    }
}

/// Sum of the absolute values of the non-zero elements of a sequence.
pub open spec fn sum_abs_nonzero(s: Seq<i64>) -> int
    decreases s.len(),
{
    if s.len() == 0 {
        0
    } else {
        sum_abs_nonzero(s.drop_last()) + if s.last() != 0 {
            abs_val(s.last() as int)
        } else {
            0int
        }
    }
}

/// Every element of the sequence lies in `[lo, hi]`.
pub open spec fn all_in(s: Seq<i64>, lo: int, hi: int) -> bool {
    forall|i: int| 0 <= i < s.len() ==> lo <= #[trigger] s[i] <= hi
}

/// A well-formed frame: every intensity lies in `[0, FRAME_MAX]`.
pub open spec fn frame_ok(s: Seq<i64>) -> bool {
    all_in(s, 0, FRAME_MAX as int)
}

/// A well-formed raw chunk: every sample lies in `[-CHUNK_AMP, CHUNK_AMP]`.
pub open spec fn chunk_ok(s: Seq<i64>) -> bool {
    all_in(s, -(CHUNK_AMP as int), CHUNK_AMP as int)
}

/// Arithmetic mean (Euclidean quotient of sum by length).
pub open spec fn mean_of(s: Seq<i64>) -> int {
    sum_of(s) / (s.len() as int)
}

/// Mean of the absolute values.
pub open spec fn mean_abs_of(s: Seq<i64>) -> int {
    sum_abs(s) / (s.len() as int)
}

proof fn lemma_sum_of_bounds(s: Seq<i64>, lo: int, hi: int)
    requires
        all_in(s, lo, hi),
    ensures
        s.len() * lo <= sum_of(s) <= s.len() * hi,
    decreases s.len(),
{
    if s.len() == 0 {
        assert(s.len() * lo == 0) by (nonlinear_arith)
            requires
                s.len() == 0,
        ;
        assert(s.len() * hi == 0) by (nonlinear_arith)
            requires
                s.len() == 0,
        ;
    } else {
        assert(all_in(s.drop_last(), lo, hi));
        lemma_sum_of_bounds(s.drop_last(), lo, hi);
        assert(lo <= s.last() <= hi);
        assert((s.len() - 1) * lo + lo == s.len() * lo) by (nonlinear_arith);
        assert((s.len() - 1) * hi + hi == s.len() * hi) by (nonlinear_arith);
    }
}

/// The non-zero count and the non-zero absolute sum of any sequence are
/// non-negative.
pub proof fn lemma_sum_abs_nonzero_nonneg(s: Seq<i64>)
    ensures
        count_nonzero(s) >= 0,
        sum_abs_nonzero(s) >= 0,
    decreases s.len(),
{
    if s.len() > 0 {
        lemma_sum_abs_nonzero_nonneg(s.drop_last());
    }
}

/// Over an all-zero sequence every accumulated quantity vanishes: the sum,
/// the absolute sum, the non-zero count and the non-zero absolute sum.
pub proof fn lemma_zero_seq_sums(s: Seq<i64>)
    requires
        forall|i: int| 0 <= i < s.len() ==> s[i] == 0i64,
    ensures
        sum_of(s) == 0,
        sum_abs(s) == 0,
        count_nonzero(s) == 0,
        sum_abs_nonzero(s) == 0,
    decreases s.len(),
{
    if s.len() > 0 {
        assert(forall|i: int| 0 <= i < s.drop_last().len() ==> s.drop_last()[i] == 0i64);
        lemma_zero_seq_sums(s.drop_last());
        assert(s.last() == 0i64);
    }
}

/// The windowed mean of an all-zero sequence is zero at every position.
pub proof fn lemma_window_mean_zero(s: Seq<i64>, w: int)
    requires
        forall|i: int| 0 <= i < s.len() ==> s[i] == 0i64,
    ensures
        forall|i: int| 0 <= i < s.len() ==> #[trigger] window_mean(s, i, w) == 0,
{
    assert forall|i: int| 0 <= i < s.len() implies #[trigger] window_mean(s, i, w) == 0 by {
        let start = if i - w > 0 {
            i - w
        } else {
            0
        };
        let end = if i + w < s.len() {
            i + w
        } else {
            s.len() as int
        };
        if start < end {
            let sub = s.subrange(start, end);
            assert(forall|j: int| 0 <= j < sub.len() ==> sub[j] == 0i64);
            lemma_zero_seq_sums(sub);
            vstd::arithmetic::div_mod::lemma_div_of0(sub.len() as int);
        }
    }
}

/// Arithmetic mean of a non-empty sequence of intensities.
pub fn mean(input: &[i64]) -> (r: i64)
    requires
        input@.len() > 0,
        input@.len() <= MAX_FRAME_LEN as int,
        frame_ok(input@),
    ensures
        r == mean_of(input@),
        0 <= r <= FRAME_MAX,
{
    let l = input.len();
    let mut s: i64 = 0;
    let mut i: usize = 0;
    while i < l
        invariant
            l == input@.len(),
            l <= MAX_FRAME_LEN,
            frame_ok(input@),
            i <= l,
            s == sum_of(input@.subrange(0, i as int)),
            0 <= s <= i * (FRAME_MAX as int),
        decreases l - i,
    {
        proof {
            let pre = input@.subrange(0, i as int);
            let post = input@.subrange(0, i + 1);
            assert(post.drop_last() =~= pre);
            assert(post.last() == input@[i as int]);
        }
        s = s + input[i];
        i = i + 1;
    }
    proof {
        assert(input@.subrange(0, l as int) =~= input@);
        lemma_sum_of_bounds(input@, 0, FRAME_MAX as int);
        vstd::arithmetic::div_mod::lemma_div_is_ordered(sum_of(input@), l as int * FRAME_MAX as int, l as int);
        vstd::arithmetic::div_mod::lemma_div_multiples_vanish(FRAME_MAX as int, l as int);
        vstd::arithmetic::div_mod::lemma_div_pos_is_pos(sum_of(input@), l as int);
    }
    s / (l as i64)
}

proof fn lemma_sum_abs_bounds(s: Seq<i64>, amp: int)
    requires
        all_in(s, -amp, amp),
        amp >= 0,
    ensures
        0 <= sum_abs(s) <= s.len() * amp,
    decreases s.len(),
{
    if s.len() == 0 {
        assert(s.len() * amp == 0) by (nonlinear_arith)
            requires
                s.len() == 0,
        ;
    } else {
        assert(all_in(s.drop_last(), -amp, amp));
        lemma_sum_abs_bounds(s.drop_last(), amp);
        assert(abs_val(s.last() as int) <= amp);
        assert((s.len() - 1) * amp + amp == s.len() * amp) by (nonlinear_arith);
    }
}

/// Mean of the absolute values of a non-empty chunk: the audio-energy
/// estimate for one capture callback.
pub fn mean_abs(input: &[i64]) -> (r: i64)
    requires
        input@.len() > 0,
        input@.len() <= MAX_CHUNK_LEN as int,
        chunk_ok(input@),
    ensures
        r == mean_abs_of(input@),
        0 <= r <= CHUNK_AMP,
{
    let l = input.len();
    let mut s: i64 = 0;
    let mut i: usize = 0;
    while i < l
        invariant
            l == input@.len(),
            l <= MAX_CHUNK_LEN,
            chunk_ok(input@),
            i <= l,
            s == sum_abs(input@.subrange(0, i as int)),
            0 <= s <= i * (CHUNK_AMP as int),
        decreases l - i,
    {
        proof {
            let pre = input@.subrange(0, i as int);
            let post = input@.subrange(0, i + 1);
            assert(post.drop_last() =~= pre);
            assert(post.last() == input@[i as int]);
        }
        let x = input[i];
        let a: i64 = if x < 0 {
            -x
        } else {
            x
        };
        s = s + a;
        i = i + 1;
    }
    proof {
        assert(input@.subrange(0, l as int) =~= input@);
        lemma_sum_abs_bounds(input@, CHUNK_AMP as int);
        vstd::arithmetic::div_mod::lemma_div_is_ordered(sum_abs(input@), l as int * CHUNK_AMP as int, l as int);
        vstd::arithmetic::div_mod::lemma_div_multiples_vanish(CHUNK_AMP as int, l as int);
        vstd::arithmetic::div_mod::lemma_div_pos_is_pos(sum_abs(input@), l as int);
    }
    s / (l as i64)
}

/// Mean of the absolute values of the non-zero elements; `FP_ONE` (one unit)
/// when every element is zero, so that a later division cannot collapse.
pub open spec fn mean_nonzero_of(s: Seq<i64>) -> int {
    if count_nonzero(s) == 0 {
        FP_ONE as int
    } else {
        sum_abs_nonzero(s) / count_nonzero(s)
    }
}

proof fn lemma_sum_abs_nonzero_bounds(s: Seq<i64>, amp: int)
    requires
        all_in(s, -amp, amp),
        amp >= 0,
    ensures
        0 <= count_nonzero(s) <= s.len(),
        count_nonzero(s) <= sum_abs_nonzero(s) <= count_nonzero(s) * amp,
    decreases s.len(),
{
    if s.len() == 0 {
        assert(count_nonzero(s) * amp == 0) by (nonlinear_arith)
            requires
                count_nonzero(s) == 0,
        ;
    } else {
        assert(all_in(s.drop_last(), -amp, amp));
        lemma_sum_abs_nonzero_bounds(s.drop_last(), amp);
        let c0 = count_nonzero(s.drop_last());
        if s.last() != 0 {
            assert(1 <= abs_val(s.last() as int) <= amp);
            assert(c0 * amp + amp == (c0 + 1) * amp) by (nonlinear_arith);
        }
    }
}

/// Baseline estimate over the rolling history: mean absolute value of the
/// non-zero entries, or the `FP_ONE` sentinel when there is none.
pub fn mean_nonzero(input: &VecDeque<i64>) -> (r: i64)
    requires
        input@.len() <= MAX_FRAME_LEN as int,
        all_in(input@, -(FRAME_MAX as int), FRAME_MAX as int),
    ensures
        r == mean_nonzero_of(input@),
        1 <= r <= FRAME_MAX,
{
    let l = input.len();
    let mut s: i64 = 0;
    let mut cnt: i64 = 0;
    let mut i: usize = 0;
    while i < l
        invariant
            l == input@.len(),
            l <= MAX_FRAME_LEN,
            all_in(input@, -(FRAME_MAX as int), FRAME_MAX as int),
            i <= l,
            s == sum_abs_nonzero(input@.subrange(0, i as int)),
            cnt == count_nonzero(input@.subrange(0, i as int)),
            0 <= cnt <= i,
            cnt <= s <= cnt * (FRAME_MAX as int),
        decreases l - i,
    {
        proof {
            let pre = input@.subrange(0, i as int);
            let post = input@.subrange(0, i + 1);
            assert(post.drop_last() =~= pre);
            assert(post.last() == input@[i as int]);
            assert((cnt + 1) * (FRAME_MAX as int) == cnt * (FRAME_MAX as int) + FRAME_MAX)
                by (nonlinear_arith);
        }
        let x = input[i];
        if x != 0 {
            let a: i64 = if x < 0 {
                -x
            } else {
                x
            };
            s = s + a;
            cnt = cnt + 1;
        }
        i = i + 1;
    }
    proof {
        assert(input@.subrange(0, l as int) =~= input@);
    }
    if cnt != 0 {
        proof {
            vstd::arithmetic::div_mod::lemma_div_is_ordered(
                sum_abs_nonzero(input@),
                cnt as int * FRAME_MAX as int,
                cnt as int,
            );
            vstd::arithmetic::div_mod::lemma_div_multiples_vanish(FRAME_MAX as int, cnt as int);
            vstd::arithmetic::div_mod::lemma_div_is_ordered(
                cnt as int,
                sum_abs_nonzero(input@),
                cnt as int,
            );
            vstd::arithmetic::div_mod::lemma_div_by_self(cnt as int);
        }
        s / cnt
    } else {
        FP_ONE
    }
}

/// The mean over the window the moving average takes at position `i`:
/// `[max(0, i - w), min(len, i + w))`, one-sided at the boundaries, or `0`
/// where that window is empty.
pub open spec fn window_mean(s: Seq<i64>, i: int, w: int) -> int {
    let start = if i - w > 0 {
        i - w
    } else {
        0
    };
    let end = if i + w < s.len() {
        i + w
    } else {
        s.len() as int
    };
    if start < end {
        mean_of(s.subrange(start, end))
    } else {
        0
    }
}

/// The whole windowed-mean pass as a sequence.
pub open spec fn ma_seq(s: Seq<i64>, w: int) -> Seq<i64> {
    Seq::new(s.len(), |i: int| window_mean(s, i, w) as i64)
}

/// Windowed mean across the whole sequence; the output keeps the input's
/// length, whatever the window.
pub fn moving_average(input: &Vec<i64>, window: usize) -> (r: Vec<i64>)
    requires
        input@.len() <= MAX_FRAME_LEN as int,
        frame_ok(input@),
    ensures
        r@.len() == input@.len(),
        forall|i: int| 0 <= i < r@.len() ==> #[trigger] r@[i] == window_mean(input@, i, window as int),
        r@ == ma_seq(input@, window as int),
        frame_ok(r@),
{
    let l = input.len();
    let mut res: Vec<i64> = Vec::new();
    let mut i: usize = 0;
    while i < l
        invariant
            l == input@.len(),
            l <= MAX_FRAME_LEN,
            frame_ok(input@),
            i <= l,
            res@.len() == i,
            forall|j: int| 0 <= j < i ==> #[trigger] res@[j] == window_mean(input@, j, window as int),
            frame_ok(res@),
        decreases l - i,
    {
        let start = if i > window {
            i - window
        } else {
            0
        };
        let end = if window < l - i {
            i + window
        } else {
            l
        };
        if start < end {
            let m = mean(&input.as_slice()[start..end]);
            res.push(m);
        } else {
            res.push(0);
        }
        i = i + 1;
    }
    proof {
        assert(res@ =~= ma_seq(input@, window as int));
    }
    res
}

/// One slot of directional smoothing: step from `p` toward `n` by the rate
/// for the direction of the change (`ku` upward, `kd` downward), both rates
/// fixed-point fractions of `FP_ONE`.
pub open spec fn smooth_one(p: i64, n: i64, ku: i64, kd: i64) -> int {
    if n > p {
        p + (n - p) * ku / (FP_ONE as int)
    } else {
        p - (p - n) * kd / (FP_ONE as int)
    }
}

proof fn lemma_scaled_step_bounds(d: int, k: int)
    requires
        0 <= d,
        0 <= k <= FP_ONE,
    ensures
        0 <= d * k / (FP_ONE as int) <= d,
{
    vstd::arithmetic::mul::lemma_mul_inequality(k, FP_ONE as int, d);
    assert(d * k == k * d) by (nonlinear_arith);
    assert(d * (FP_ONE as int) == FP_ONE * d) by (nonlinear_arith);
    vstd::arithmetic::div_mod::lemma_div_is_ordered(d * k, d * (FP_ONE as int), FP_ONE as int);
    vstd::arithmetic::div_mod::lemma_div_multiples_vanish(d, FP_ONE as int);
    vstd::arithmetic::mul::lemma_mul_nonnegative(d, k);
    vstd::arithmetic::div_mod::lemma_div_pos_is_pos(d * k, FP_ONE as int);
}

/// The whole directional-smoothing pass as a sequence.
pub open spec fn smooth_seq(prev: Seq<i64>, new: Seq<i64>, ku: i64, kd: i64) -> Seq<i64> {
    Seq::new(new.len(), |i: int| smooth_one(prev[i], new[i], ku, kd) as i64)
}

/// Per-index exponential approach of `prev` toward `new`, with a fast-attack
/// rate for rising slots and a slow-decay rate for falling ones. Each output
/// slot stays between the two inputs for that index.
pub fn smooth_directional(prev: &Vec<i64>, new: &Vec<i64>, k_up: i64, k_down: i64) -> (r: Vec<
    i64,
>)
    requires
        prev@.len() == new@.len(),
        prev@.len() <= MAX_FRAME_LEN as int,
        frame_ok(prev@),
        frame_ok(new@),
        0 <= k_up <= FP_ONE,
        0 <= k_down <= FP_ONE,
    ensures
        r@.len() == new@.len(),
        forall|i: int|
            0 <= i < r@.len() ==> #[trigger] r@[i] == smooth_one(prev@[i], new@[i], k_up, k_down),
        r@ == smooth_seq(prev@, new@, k_up, k_down),
        forall|i: int|
            0 <= i < r@.len() ==> (prev@[i] <= #[trigger] r@[i] <= new@[i] || new@[i] <= r@[i]
                <= prev@[i]),
        frame_ok(r@),
{
    let l = prev.len();
    let mut res: Vec<i64> = Vec::new();
    let mut i: usize = 0;
    while i < l
        invariant
            l == prev@.len(),
            l == new@.len(),
            l <= MAX_FRAME_LEN,
            frame_ok(prev@),
            frame_ok(new@),
            0 <= k_up <= FP_ONE,
            0 <= k_down <= FP_ONE,
            i <= l,
            res@.len() == i,
            forall|j: int|
                0 <= j < i ==> #[trigger] res@[j] == smooth_one(prev@[j], new@[j], k_up, k_down),
            forall|j: int|
                0 <= j < i ==> (prev@[j] <= #[trigger] res@[j] <= new@[j] || new@[j] <= res@[j]
                    <= prev@[j]),
            frame_ok(res@),
        decreases l - i,
    {
        let p = prev[i];
        let n = new[i];
        let v: i64 = if n > p {
            proof {
                lemma_scaled_step_bounds(n - p, k_up as int);
            }
            p + (n - p) * k_up / FP_ONE
        } else {
            proof {
                lemma_scaled_step_bounds(p - n, k_down as int);
            }
            p - (p - n) * k_down / FP_ONE
        };
        res.push(v);
        i = i + 1;
    }
    proof {
        assert(res@ =~= smooth_seq(prev@, new@, k_up, k_down));
    }
    res
}

/// A unit rate on both directions hands back `new` exactly; a zero rate on
/// both hands back `prev` exactly.
pub proof fn lemma_smooth_directional_extremes(prev: Seq<i64>, new: Seq<i64>)
    requires
        prev.len() == new.len(),
    ensures
        forall|i: int|
            0 <= i < new.len() ==> #[trigger] smooth_one(prev[i], new[i], FP_ONE, FP_ONE)
                == new[i] as int,
        forall|i: int|
            0 <= i < new.len() ==> #[trigger] smooth_one(prev[i], new[i], 0, 0) == prev[i] as int,
        smooth_seq(prev, new, FP_ONE, FP_ONE) =~= new,
        smooth_seq(prev, new, 0, 0) =~= prev,
{
    assert forall|i: int| 0 <= i < new.len() implies #[trigger] smooth_one(
        prev[i],
        new[i],
        FP_ONE,
        FP_ONE,
    ) == new[i] as int && smooth_one(prev[i], new[i], 0, 0) == prev[i] as int by {
        let p = prev[i] as int;
        let n = new[i] as int;
        if n > p {
            assert((n - p) * (FP_ONE as int) == (FP_ONE as int) * (n - p)) by (nonlinear_arith);
            vstd::arithmetic::div_mod::lemma_div_multiples_vanish(n - p, FP_ONE as int);
        } else {
            assert((p - n) * (FP_ONE as int) == (FP_ONE as int) * (p - n)) by (nonlinear_arith);
            vstd::arithmetic::div_mod::lemma_div_multiples_vanish(p - n, FP_ONE as int);
        }
        assert((n - p) * 0 == 0) by (nonlinear_arith);
        assert((p - n) * 0 == 0) by (nonlinear_arith);
        assert(0int / (FP_ONE as int) == 0) by {
            vstd::arithmetic::div_mod::lemma_div_of0(FP_ONE as int);
        }
    }
}

/// One slot of a linear fade: subtract the amount, clamp at the zero floor.
pub open spec fn fade_one(x: i64, d: int) -> int {
    if x - d > 0 {
        x - d
    } else {
        0
    }
}

/// The whole linear fade as a sequence.
pub open spec fn fade_lin_seq(s: Seq<i64>, d: int) -> Seq<i64> {
    Seq::new(s.len(), |i: int| fade_one(s[i], d) as i64)
}

/// Subtract a constant from every slot, clamping at zero: every output slot
/// is non-negative.
pub fn fade_linear(input: &Vec<i64>, by: i64) -> (r: Vec<i64>)
    requires
        input@.len() <= MAX_FRAME_LEN as int,
        all_in(input@, -(FRAME_MAX as int), FRAME_MAX as int),
        0 <= by <= FRAME_MAX,
    ensures
        r@.len() == input@.len(),
        forall|i: int| 0 <= i < r@.len() ==> #[trigger] r@[i] == fade_one(input@[i], by as int),
        r@ == fade_lin_seq(input@, by as int),
        frame_ok(r@),
{
    let l = input.len();
    let mut res: Vec<i64> = Vec::new();
    let mut i: usize = 0;
    while i < l
        invariant
            l == input@.len(),
            all_in(input@, -(FRAME_MAX as int), FRAME_MAX as int),
            0 <= by <= FRAME_MAX,
            i <= l,
            res@.len() == i,
            forall|j: int| 0 <= j < i ==> #[trigger] res@[j] == fade_one(input@[j], by as int),
            frame_ok(res@),
        decreases l - i,
    {
        let x = input[i];
        let v: i64 = if x - by > 0 {
            x - by
        } else {
            0
        };
        res.push(v);
        i = i + 1;
    }
    proof {
        assert(res@ =~= fade_lin_seq(input@, by as int));
    }
    res
}

/// One slot of the ramped fade: subtract `d * i` at index `i`, clamp at the
/// zero floor.
pub open spec fn fade_exp_one(x: i64, d: int, i: int) -> int {
    if x - d * i > 0 {
        x - d * i
    } else {
        0
    }
}

/// The whole ramped fade as a sequence.
pub open spec fn fade_exp_seq(s: Seq<i64>, d: int) -> Seq<i64> {
    Seq::new(s.len(), |i: int| fade_exp_one(s[i], d, i) as i64)
}

/// Subtract a per-position ramp (`by * index`) from the sequence, clamping at
/// zero: the decaying comet-tail fade. Every output slot is non-negative.
pub fn fade_exponent(input: &Vec<i64>, by: i64) -> (r: Vec<i64>)
    requires
        input@.len() <= MAX_FRAME_LEN as int,
        all_in(input@, -(FRAME_MAX as int), FRAME_MAX as int),
        0 <= by <= FRAME_MAX,
    ensures
        r@.len() == input@.len(),
        forall|i: int| 0 <= i < r@.len() ==> #[trigger] r@[i] == fade_exp_one(input@[i], by as int, i),
        r@ == fade_exp_seq(input@, by as int),
        frame_ok(r@),
{
    let l = input.len();
    let mut res: Vec<i64> = Vec::new();
    let mut i: usize = 0;
    while i < l
        invariant
            l == input@.len(),
            l <= MAX_FRAME_LEN,
            all_in(input@, -(FRAME_MAX as int), FRAME_MAX as int),
            0 <= by <= FRAME_MAX,
            i <= l,
            res@.len() == i,
            forall|j: int|
                0 <= j < i ==> #[trigger] res@[j] == fade_exp_one(input@[j], by as int, j),
            frame_ok(res@),
        decreases l - i,
    {
        proof {
            assert(0 <= by * i <= FRAME_MAX * (MAX_FRAME_LEN as int)) by (nonlinear_arith)
                requires
                    0 <= by <= FRAME_MAX,
                    0 <= i < MAX_FRAME_LEN,
            ;
        }
        let d: i64 = by * (i as i64);
        let x = input[i];
        let v: i64 = if x - d > 0 {
            x - d
        } else {
            0
        };
        res.push(v);
        i = i + 1;
    }
    proof {
        assert(res@ =~= fade_exp_seq(input@, by as int));
    }
    res
}

} // verus!
