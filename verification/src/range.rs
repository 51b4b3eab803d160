//! How far a scan can push an image away from its input.
//!
//! Where the weights of a kernel are not negative and add up to no more
//! than the divisor, the spillover onto a pixel is no larger than the
//! largest error before it. With a uniform quantizer and an input between
//! zero and full scale, every output then is an output level between zero
//! and full scale, and the total of the image changes only by the part of
//! the errors that reaches no pixel: what leaves the image at its edges,
//! and what rounding cuts off.
use vstd::prelude::*;
use vstd::arithmetic::div_mod::{lemma_fundamental_div_mod, lemma_fundamental_div_mod_converse};
use crate::ditherer::{
    is_diffusion, is_kernel, lemma_reaches, points_forward, reaches, spill, spread, working, Atkinson, Burkes, Dither, Ditherer, FloydSteinberg,
    JarvisJudiceNinke, NoOp, Sierra3, Stucki,
};
use crate::pixel::{trunc_div, Pixel, FULL_SCALE};
use crate::quantize::{step_of, uniform_quantized, uniform_value};

verus! {

/// The sum of the weights of the first `m` entries.
pub open spec fn total_weight(offsets: Seq<(isize, isize, i64)>, m: nat) -> int
    decreases m,
{
    if m == 0 {
        0
    } else {
        total_weight(offsets, (m - 1) as nat) + offsets[m - 1].2
    }
}

/// The sum of the weights of those of the first `m` entries that land on
/// `target` from `src`.
pub open spec fn weight_from(offsets: Seq<(isize, isize, i64)>, width: int, src: int, target: int, m: nat) -> int
    decreases m,
{
    if m == 0 {
        0
    } else {
        weight_from(offsets, width, src, target, (m - 1) as nat) + if reaches(
            src,
            width,
            offsets[m - 1],
            target,
        ) {
            offsets[m - 1].2 as int
        } else {
            0
        }
    }
}

/// Whether the entry lands on `target` from a position below `n`.
pub open spec fn is_fed(entry: (isize, isize, i64), width: int, target: int, n: int) -> bool {
    exists|s: int| 0 <= s < n && #[trigger] reaches(s, width, entry, target)
}

/// The sum of the weights of those of the first `m` entries that land on
/// `target` from a position below `n`.
pub open spec fn weight_onto(offsets: Seq<(isize, isize, i64)>, width: int, target: int, n: int, m: nat) -> int
    decreases m,
{
    if m == 0 {
        0
    } else {
        weight_onto(offsets, width, target, n, (m - 1) as nat) + if is_fed(offsets[m - 1], width, target, n) {
            offsets[m - 1].2 as int
        } else {
            0
        }
    }
}

/// Whether no weight is negative and the weights add up to no more than
/// the divisor.
pub open spec fn keeps_energy(offsets: Seq<(isize, isize, i64)>, divisor: i64) -> bool {
    &&& divisor > 0
    &&& forall|k: int| 0 <= k < offsets.len() ==> (#[trigger] offsets[k]).2 >= 0
    &&& total_weight(offsets, offsets.len()) <= divisor
}

/// An entry lands on a position from one position only.
pub proof fn lemma_one_source(width: int, entry: (isize, isize, i64), target: int, a: int, b: int)
    requires
        width > 0,
        reaches(a, width, entry, target),
        reaches(b, width, entry, target),
    ensures
        a == b,
{
    lemma_fundamental_div_mod(a, width);
    lemma_fundamental_div_mod(b, width);
}

proof fn lemma_weights(offsets: Seq<(isize, isize, i64)>, width: int, src: int, target: int, n: int, m: nat)
    requires
        m <= offsets.len(),
        forall|k: int| 0 <= k < offsets.len() ==> (#[trigger] offsets[k]).2 >= 0,
    ensures
        0 <= weight_from(offsets, width, src, target, m) <= total_weight(offsets, m),
        0 <= weight_onto(offsets, width, target, n, m) <= total_weight(offsets, m),
        total_weight(offsets, m) <= total_weight(offsets, offsets.len()),
    decreases offsets.len() - m,
{
    lemma_weights_below(offsets, width, src, target, n, m);
    if m < offsets.len() {
        lemma_weights(offsets, width, src, target, n, m + 1);
        assert(offsets[m as int].2 >= 0);
    }
}

proof fn lemma_weights_below(offsets: Seq<(isize, isize, i64)>, width: int, src: int, target: int, n: int, m: nat)
    requires
        m <= offsets.len(),
        forall|k: int| 0 <= k < offsets.len() ==> (#[trigger] offsets[k]).2 >= 0,
    ensures
        0 <= weight_from(offsets, width, src, target, m) <= total_weight(offsets, m),
        0 <= weight_onto(offsets, width, target, n, m) <= total_weight(offsets, m),
    decreases m,
{
    if m > 0 {
        lemma_weights_below(offsets, width, src, target, n, (m - 1) as nat);
        assert(offsets[m - 1].2 >= 0);
    }
}

/// What lands on a position from below `n + 1` is what lands on it from
/// below `n` and what lands on it from `n`.
proof fn lemma_weight_onto_step(offsets: Seq<(isize, isize, i64)>, width: int, target: int, n: int, m: nat)
    requires
        width > 0,
        n >= 0,
        m <= offsets.len(),
    ensures
        weight_onto(offsets, width, target, n + 1, m) == weight_onto(offsets, width, target, n, m) + weight_from(
            offsets,
            width,
            n,
            target,
            m,
        ),
    decreases m,
{
    if m > 0 {
        lemma_weight_onto_step(offsets, width, target, n, (m - 1) as nat);
        let entry = offsets[m - 1];
        if reaches(n, width, entry, target) {
            assert(is_fed(entry, width, target, n + 1));
            if is_fed(entry, width, target, n) {
                let s = choose|s: int| 0 <= s < n && #[trigger] reaches(s, width, entry, target);
                lemma_one_source(width, entry, target, s, n);
            }
        } else {
            if is_fed(entry, width, target, n + 1) {
                let s = choose|s: int| 0 <= s < n + 1 && #[trigger] reaches(s, width, entry, target);
                assert(0 <= s < n && reaches(s, width, entry, target));
            }
            if is_fed(entry, width, target, n) {
                let s = choose|s: int| 0 <= s < n && #[trigger] reaches(s, width, entry, target);
                assert(0 <= s < n + 1 && reaches(s, width, entry, target));
            }
        }
    }
}

/// The magnitude of a value.
pub open spec fn magnitude(x: int) -> int {
    if x >= 0 {
        x
    } else {
        -x
    }
}

/// A share is no larger than the error times the weight over the divisor.
proof fn lemma_share(e: int, w: int, d: int)
    requires
        d > 0,
        w >= 0,
    ensures
        magnitude(trunc_div(e * w, d)) * d <= magnitude(e) * w,
{
    let a = e * w;
    assert(magnitude(a) == magnitude(e) * w) by (nonlinear_arith)
        requires
            a == e * w,
            w >= 0,
    ;
    lemma_fundamental_div_mod(magnitude(a), d);
    let q = magnitude(a) / d;
    assert(q >= 0) by (nonlinear_arith)
        requires
            magnitude(a) >= 0,
            d > 0,
            magnitude(a) == d * q + magnitude(a) % d,
            0 <= magnitude(a) % d < d,
    ;
    assert(q * d == d * q) by (nonlinear_arith);
}

/// What the first `m` entries bring to `target` from the error `err` of
/// `src`: the sum of the shares that land there.
pub open spec fn gain(
    err: i64,
    offsets: Seq<(isize, isize, i64)>,
    divisor: i64,
    width: int,
    src: int,
    target: int,
    m: nat,
) -> int
    decreases m,
{
    if m == 0 {
        0
    } else {
        gain(err, offsets, divisor, width, src, target, (m - 1) as nat) + if reaches(
            src,
            width,
            offsets[m - 1],
            target,
        ) {
            trunc_div(err * offsets[m - 1].2, divisor as int)
        } else {
            0
        }
    }
}

/// Spreading an error over a position moves that position by the shares
/// that land on it, which together are no more than the error times the
/// weights that land on it over the divisor.
proof fn lemma_spread_bound(
    acc: i64,
    err: i64,
    offsets: Seq<(isize, isize, i64)>,
    divisor: i64,
    width: int,
    src: int,
    target: int,
    m: nat,
    b: int,
)
    requires
        m <= offsets.len(),
        keeps_energy(offsets, divisor),
        0 <= b <= 0x1000_0000_0000,
        2 * magnitude(err as int) <= b,
        2 * magnitude(acc as int) * divisor + b * weight_from(offsets, width, src, target, m) <= b * divisor,
    ensures
        2 * magnitude(spread(acc, err, offsets, divisor, width, src, target, m) as int) * divisor <= 2 * magnitude(
            acc as int,
        ) * divisor + b * weight_from(offsets, width, src, target, m),
        spread(acc, err, offsets, divisor, width, src, target, m) == acc + gain(
            err,
            offsets,
            divisor,
            width,
            src,
            target,
            m,
        ),
    decreases m,
{
    if m > 0 {
        let entry = offsets[m - 1];
        let w = entry.2 as int;
        let d = divisor as int;
        let before_weight = weight_from(offsets, width, src, target, (m - 1) as nat);
        let weight = weight_from(offsets, width, src, target, m);
        lemma_weights_below(offsets, width, src, target, 0, (m - 1) as nat);
        assert(w >= 0);
        assert(b * before_weight <= b * weight) by (nonlinear_arith)
            requires
                b >= 0,
                before_weight <= weight,
        ;
        lemma_spread_bound(acc, err, offsets, divisor, width, src, target, (m - 1) as nat, b);
        let before = spread(acc, err, offsets, divisor, width, src, target, (m - 1) as nat);
        if reaches(src, width, entry, target) {
            let share = trunc_div(err * w, d);
            lemma_share(err as int, w, d);
            assert(weight == before_weight + w);
            assert(b * weight == b * before_weight + b * w) by (nonlinear_arith)
                requires
                    weight == before_weight + w,
            ;
            assert(2 * magnitude(share) * d <= b * w) by (nonlinear_arith)
                requires
                    magnitude(share) * d <= magnitude(err as int) * w,
                    2 * magnitude(err as int) <= b,
                    w >= 0,
            ;
            let ma = magnitude(acc as int);
            let mb = magnitude(before as int);
            let ms = magnitude(share);
            assert(2 * (mb + ms) * d <= b * d && 2 * (mb + ms) * d <= 2 * ma * d + b * weight) by (nonlinear_arith)
                requires
                    2 * mb * d <= 2 * ma * d + b * before_weight,
                    2 * ms * d <= b * w,
                    b * weight == b * before_weight + b * w,
                    2 * ma * d + b * weight <= b * d,
            ;
            assert(2 * (mb + ms) <= b) by (nonlinear_arith)
                requires
                    2 * (mb + ms) * d <= b * d,
                    d > 0,
            ;
            assert(ms <= b && mb <= b);
            let sum = before + share;
            assert(magnitude(sum) <= mb + ms);
            assert(spread(acc, err, offsets, divisor, width, src, target, m) == sum);
            assert(2 * magnitude(sum) * d <= 2 * (mb + ms) * d) by (nonlinear_arith)
                requires
                    magnitude(sum) <= mb + ms,
                    d > 0,
            ;
        }
    }
}

/// What has been spilled onto a position is no larger than the largest
/// error so far, times the weights that land on the position, over the
/// divisor.
pub proof fn lemma_spill_bound(
    errors: Seq<i64>,
    offsets: Seq<(isize, isize, i64)>,
    divisor: i64,
    width: int,
    target: int,
    n: nat,
    b: int,
)
    requires
        width > 0,
        keeps_energy(offsets, divisor),
        0 <= b <= 0x1000_0000_0000,
        n <= errors.len(),
        forall|j: int| 0 <= j < n ==> 2 * magnitude(#[trigger] errors[j] as int) <= b,
    ensures
        2 * magnitude(spill(errors, offsets, divisor, width, target, n) as int) * divisor <= b * weight_onto(
            offsets,
            width,
            target,
            n as int,
            offsets.len(),
        ),
        2 * magnitude(spill(errors, offsets, divisor, width, target, n) as int) <= b,
        n > 0 ==> spill(errors, offsets, divisor, width, target, n) == spill(
            errors,
            offsets,
            divisor,
            width,
            target,
            (n - 1) as nat,
        ) + gain(errors[n - 1], offsets, divisor, width, n - 1, target, offsets.len()),
    decreases n,
{
    let len = offsets.len();
    let d = divisor as int;
    lemma_weights(offsets, width, 0, target, n as int, len);
    let onto = weight_onto(offsets, width, target, n as int, len);
    assert(b * onto <= b * d) by (nonlinear_arith)
        requires
            0 <= onto <= d,
            b >= 0,
    ;
    assert(0 <= b * onto) by (nonlinear_arith)
        requires
            0 <= onto,
            b >= 0,
    ;
    if n > 0 {
        lemma_spill_bound(errors, offsets, divisor, width, target, (n - 1) as nat, b);
        let acc = spill(errors, offsets, divisor, width, target, (n - 1) as nat);
        let before = weight_onto(offsets, width, target, n - 1, len);
        let from = weight_from(offsets, width, n - 1, target, len);
        lemma_weight_onto_step(offsets, width, target, n - 1, len);
        assert(b * onto == b * before + b * from) by (nonlinear_arith)
            requires
                onto == before + from,
        ;
        assert(2 * magnitude(acc as int) * d <= b * before);
        lemma_spread_bound(acc, errors[n - 1], offsets, divisor, width, n - 1, target, len, b);
        let after = spread(acc, errors[n - 1], offsets, divisor, width, n - 1, target, len);
        assert(spill(errors, offsets, divisor, width, target, n) == after);
        assert(2 * magnitude(after as int) * d <= 2 * magnitude(acc as int) * d + b * from);
    } else {
        assert(spill(errors, offsets, divisor, width, target, n) == 0i64);
        assert(2 * magnitude(0int) * d == 0) by (nonlinear_arith);
    }
    let s = magnitude(spill(errors, offsets, divisor, width, target, n) as int);
    assert(2 * s * d <= b * onto);
    assert(2 * s <= b) by (nonlinear_arith)
        requires
            2 * s * d <= b * d,
            d > 0,
    ;
}

/// No further than half a step outside the range from zero to full scale,
/// at a bit depth from one to seven, the quantized value is a multiple of
/// the step between zero and full scale, and the error is at most half a
/// step either way.
pub proof fn lemma_uniform_near_range(n: u8, x: i64)
    requires
        1 <= n <= 7,
        -step_of(n) <= 2 * x <= 2 * FULL_SCALE + step_of(n),
    ensures
        0 <= uniform_quantized(n, x).0 <= FULL_SCALE,
        (uniform_quantized(n, x).0 as int) % step_of(n) == 0,
        -step_of(n) <= 2 * uniform_quantized(n, x).1 <= step_of(n),
{
    crate::quantize::lemma_uniform_error(n, x);
    let step = step_of(n);
    let floor = (x as int / step) * step;
    if n == 1 {
        assert(floor % 107100 == 0 && (floor + 107100) % 107100 == 0);
    } else if n == 2 {
        assert(floor % 53550 == 0 && (floor + 53550) % 53550 == 0);
    } else if n == 3 {
        assert(floor % 35700 == 0 && (floor + 35700) % 35700 == 0);
    } else if n == 4 {
        assert(floor % 26775 == 0 && (floor + 26775) % 26775 == 0);
    } else if n == 5 {
        assert(floor % 21420 == 0 && (floor + 21420) % 21420 == 0);
    } else if n == 6 {
        assert(floor % 17850 == 0 && (floor + 17850) % 17850 == 0);
    } else {
        assert(floor % 15300 == 0 && (floor + 15300) % 15300 == 0);
    }
}

/// Whether the first `count` outputs are output levels of bit depth `n`
/// between zero and full scale, and the first `count` errors at most half
/// a step either way.
pub open spec fn stays_in_range(n: u8, errors: Seq<i64>, output: Seq<i64>, count: int) -> bool {
    forall|i: int|
        0 <= i < count ==> {
            &&& 0 <= #[trigger] output[i] <= FULL_SCALE
            &&& (output[i] as int) % step_of(n) == 0
            &&& 2 * magnitude(errors[i] as int) <= step_of(n)
        }
}

/// Whether at each of the first `count` positions the output and the
/// error add up to the input and what was spilled onto it: nothing is
/// cut off on the way.
pub open spec fn is_balanced(
    input: Seq<i64>,
    width: int,
    offsets: Seq<(isize, isize, i64)>,
    divisor: i64,
    errors: Seq<i64>,
    output: Seq<i64>,
    count: int,
) -> bool {
    forall|i: int|
        0 <= i < count ==> (#[trigger] output[i]) + errors[i] == input[i] + spill(
            errors,
            offsets,
            divisor,
            width,
            i,
            i as nat,
        )
}

proof fn lemma_scan_in_range<F: Fn(i64) -> (i64, i64)>(
    n: u8,
    input: Seq<i64>,
    width: int,
    offsets: Seq<(isize, isize, i64)>,
    divisor: i64,
    quantize: F,
    errors: Seq<i64>,
    output: Seq<i64>,
    count: nat,
)
    requires
        1 <= n <= 7,
        width > 0,
        keeps_energy(offsets, divisor),
        forall|i: int| 0 <= i < input.len() ==> 0 <= #[trigger] input[i] <= FULL_SCALE,
        forall|p: i64, out: (i64, i64)| #[trigger] quantize.ensures((p,), out) ==> out == uniform_quantized(n, p),
        is_diffusion(input, width, offsets, divisor, quantize, errors, output),
        count <= input.len(),
    ensures
        stays_in_range(n, errors, output, count as int),
        is_balanced(input, width, offsets, divisor, errors, output, count as int),
    decreases count,
{
    if count > 0 {
        let i = count - 1;
        lemma_scan_in_range(n, input, width, offsets, divisor, quantize, errors, output, i as nat);
        assert forall|j: int| 0 <= j < i implies 2 * magnitude(#[trigger] errors[j] as int) <= step_of(n) by {
            assert(0 <= output[j] <= FULL_SCALE);
        }
        lemma_spill_bound(errors, offsets, divisor, width, i, i as nat, step_of(n));
        let spilled = spill(errors, offsets, divisor, width, i, i as nat);
        let value = working(input, errors, offsets, divisor, width, i);
        assert(0 <= input[i] <= FULL_SCALE);
        assert(value == input[i] + spilled);
        assert(quantize.ensures((value,), (output[i], errors[i])));
        lemma_uniform_near_range(n, value);
        crate::quantize::lemma_uniform_error(n, value);
    }
}

/// Dithering an image whose pixels lie between zero and full scale, with
/// a uniform quantizer of a bit depth from one to seven and a kernel whose
/// weights are not negative and add up to no more than its divisor, gives
/// output levels between zero and full scale only, and no error is larger
/// than half a step. At every pixel the output and the error add up to the
/// input and the spillover. At a bit depth of one every output pixel is
/// zero or full scale.
pub proof fn lemma_outputs_in_range<F: Fn(i64) -> (i64, i64)>(
    n: u8,
    input: Seq<i64>,
    width: int,
    offsets: Seq<(isize, isize, i64)>,
    divisor: i64,
    quantize: F,
    errors: Seq<i64>,
    output: Seq<i64>,
)
    requires
        1 <= n <= 7,
        width > 0,
        keeps_energy(offsets, divisor),
        forall|i: int| 0 <= i < input.len() ==> 0 <= #[trigger] input[i] <= FULL_SCALE,
        forall|p: i64, out: (i64, i64)| #[trigger] quantize.ensures((p,), out) ==> out == uniform_quantized(n, p),
        is_diffusion(input, width, offsets, divisor, quantize, errors, output),
    ensures
        stays_in_range(n, errors, output, input.len() as int),
        is_balanced(input, width, offsets, divisor, errors, output, input.len() as int),
        n == 1 ==> forall|i: int| 0 <= i < input.len() ==> #[trigger] output[i] == 0 || output[i] == FULL_SCALE,
{
    lemma_scan_in_range(n, input, width, offsets, divisor, quantize, errors, output, input.len());
    if n == 1 {
        assert forall|i: int| 0 <= i < input.len() implies #[trigger] output[i] == 0 || output[i] == FULL_SCALE by {
            assert(0 <= output[i] <= FULL_SCALE && (output[i] as int) % 107100 == 0);
        }
    }
}

/// The sum of the numbers of a sequence.
pub open spec fn sum(s: Seq<int>) -> int
    decreases s.len(),
{
    if s.len() == 0 {
        0
    } else {
        sum(s.drop_last()) + s.last()
    }
}

/// A sequence of pixels as numbers.
pub open spec fn ints(s: Seq<i64>) -> Seq<int> {
    Seq::new(s.len(), |i: int| s[i] as int)
}

/// The sum of a sequence of sums is the sum of the sums of the two parts.
pub proof fn lemma_sum_add(a: Seq<int>, b: Seq<int>, c: Seq<int>)
    requires
        a.len() == b.len(),
        a.len() == c.len(),
        forall|i: int| 0 <= i < a.len() ==> #[trigger] c[i] == a[i] + b[i],
    ensures
        sum(c) == sum(a) + sum(b),
    decreases a.len(),
{
    if a.len() > 0 {
        lemma_sum_add(a.drop_last(), b.drop_last(), c.drop_last());
    }
}

proof fn lemma_sum_zero(a: Seq<int>)
    requires
        forall|i: int| 0 <= i < a.len() ==> #[trigger] a[i] == 0,
    ensures
        sum(a) == 0,
    decreases a.len(),
{
    if a.len() > 0 {
        lemma_sum_zero(a.drop_last());
    }
}

proof fn lemma_sum_take(a: Seq<int>, n: int)
    requires
        0 <= n < a.len(),
    ensures
        sum(a.take(n + 1)) == sum(a.take(n)) + a[n],
{
    assert(a.take(n + 1).drop_last() =~= a.take(n));
}

/// A forward entry lands on a later position.
pub proof fn lemma_lands_later(src: int, width: int, entry: (isize, isize, i64), target: int)
    requires
        width > 0,
        points_forward(entry),
        reaches(src, width, entry, target),
    ensures
        src < target,
{
    lemma_fundamental_div_mod(src, width);
    lemma_fundamental_div_mod(target, width);
    let dy = entry.1 as int;
    let row = src / width;
    assert(width * (row + dy) == width * row + width * dy) by (nonlinear_arith);
    if dy > 0 {
        assert(width * dy >= width) by (nonlinear_arith)
            requires
                dy >= 1,
                width > 0,
        ;
    }
}

proof fn lemma_nothing_lands(
    acc: i64,
    err: i64,
    offsets: Seq<(isize, isize, i64)>,
    divisor: i64,
    width: int,
    src: int,
    target: int,
    m: nat,
)
    requires
        width > 0,
        is_kernel(offsets, divisor),
        m <= offsets.len(),
        src >= target,
    ensures
        spread(acc, err, offsets, divisor, width, src, target, m) == acc,
    decreases m,
{
    if m > 0 {
        lemma_nothing_lands(acc, err, offsets, divisor, width, src, target, (m - 1) as nat);
        if reaches(src, width, offsets[m - 1], target) {
            lemma_lands_later(src, width, offsets[m - 1], target);
        }
    }
}

/// Once the scan has passed a position, nothing more is spilled onto it.
pub proof fn lemma_spill_settles(
    errors: Seq<i64>,
    offsets: Seq<(isize, isize, i64)>,
    divisor: i64,
    width: int,
    target: nat,
    n: nat,
)
    requires
        width > 0,
        is_kernel(offsets, divisor),
        target <= n,
    ensures
        spill(errors, offsets, divisor, width, target as int, n) == spill(
            errors,
            offsets,
            divisor,
            width,
            target as int,
            target,
        ),
    decreases n,
{
    if n > target {
        lemma_spill_settles(errors, offsets, divisor, width, target, (n - 1) as nat);
        lemma_nothing_lands(
            spill(errors, offsets, divisor, width, target as int, (n - 1) as nat),
            errors[n - 1],
            offsets,
            divisor,
            width,
            n - 1,
            target as int,
            offsets.len(),
        );
    }
}

/// What the pixels of an image of `len` pixels receive of the error of
/// position `src`: the sum, over the pixels, of the shares that land.
pub open spec fn handed(
    errors: Seq<i64>,
    offsets: Seq<(isize, isize, i64)>,
    divisor: i64,
    width: int,
    src: int,
) -> int {
    sum(Seq::new(errors.len(), |t: int| gain(errors[src], offsets, divisor, width, src, t, offsets.len())))
}

/// For each position, what the pixels receive of its error.
pub open spec fn handed_all(
    errors: Seq<i64>,
    offsets: Seq<(isize, isize, i64)>,
    divisor: i64,
    width: int,
) -> Seq<int> {
    Seq::new(errors.len(), |s: int| handed(errors, offsets, divisor, width, s))
}

/// What lies on each pixel once the first `n` positions have spilled.
pub open spec fn spilled(
    errors: Seq<i64>,
    offsets: Seq<(isize, isize, i64)>,
    divisor: i64,
    width: int,
    n: nat,
) -> Seq<int> {
    Seq::new(errors.len(), |t: int| spill(errors, offsets, divisor, width, t, n) as int)
}

proof fn lemma_total_spill(
    errors: Seq<i64>,
    offsets: Seq<(isize, isize, i64)>,
    divisor: i64,
    width: int,
    n: nat,
    b: int,
)
    requires
        width > 0,
        keeps_energy(offsets, divisor),
        0 <= b <= 0x1000_0000_0000,
        n <= errors.len(),
        forall|j: int| 0 <= j < n ==> 2 * magnitude(#[trigger] errors[j] as int) <= b,
    ensures
        sum(spilled(errors, offsets, divisor, width, n)) == sum(
            handed_all(errors, offsets, divisor, width).take(n as int),
        ),
    decreases n,
{
    let all = handed_all(errors, offsets, divisor, width);
    if n == 0 {
        lemma_sum_zero(spilled(errors, offsets, divisor, width, n));
        assert(all.take(0) =~= Seq::<int>::empty());
    } else {
        lemma_total_spill(errors, offsets, divisor, width, (n - 1) as nat, b);
        let before = spilled(errors, offsets, divisor, width, (n - 1) as nat);
        let after = spilled(errors, offsets, divisor, width, n);
        let gains = Seq::new(
            errors.len(),
            |t: int| gain(errors[n - 1], offsets, divisor, width, n - 1, t, offsets.len()),
        );
        assert forall|t: int| 0 <= t < errors.len() implies #[trigger] after[t] == before[t] + gains[t] by {
            lemma_spill_bound(errors, offsets, divisor, width, t, n, b);
        }
        lemma_sum_add(before, gains, after);
        lemma_sum_take(all, n - 1);
        assert(all[n - 1] == sum(gains));
    }
}

/// Under the conditions of `lemma_outputs_in_range`, with a kernel whose
/// entries all point forward: the outputs and the errors together add up
/// to the inputs and what the pixels received of the errors. The total of
/// the image changes by no more and no less than the part of the errors
/// that reached no pixel.
pub proof fn lemma_total_is_kept<F: Fn(i64) -> (i64, i64)>(
    n: u8,
    input: Seq<i64>,
    width: int,
    offsets: Seq<(isize, isize, i64)>,
    divisor: i64,
    quantize: F,
    errors: Seq<i64>,
    output: Seq<i64>,
)
    requires
        1 <= n <= 7,
        width > 0,
        keeps_energy(offsets, divisor),
        is_kernel(offsets, divisor),
        forall|i: int| 0 <= i < input.len() ==> 0 <= #[trigger] input[i] <= FULL_SCALE,
        forall|p: i64, out: (i64, i64)| #[trigger] quantize.ensures((p,), out) ==> out == uniform_quantized(n, p),
        is_diffusion(input, width, offsets, divisor, quantize, errors, output),
    ensures
        sum(ints(output)) + sum(ints(errors)) == sum(ints(input)) + sum(
            handed_all(errors, offsets, divisor, width),
        ),
{
    let len = input.len();
    lemma_outputs_in_range(n, input, width, offsets, divisor, quantize, errors, output);
    assert forall|j: int| 0 <= j < len implies 2 * magnitude(#[trigger] errors[j] as int) <= step_of(n) by {
        assert(0 <= output[j] <= FULL_SCALE);
    }
    lemma_total_spill(errors, offsets, divisor, width, len, step_of(n));
    let all = handed_all(errors, offsets, divisor, width);
    assert(all.take(len as int) =~= all);
    let lying = spilled(errors, offsets, divisor, width, len);
    let both = Seq::new(len, |i: int| output[i] + errors[i]);
    assert forall|i: int| 0 <= i < len implies #[trigger] both[i] == ints(input)[i] + lying[i] by {
        lemma_spill_settles(errors, offsets, divisor, width, i as nat, len);
        assert(output[i] + errors[i] == input[i] + spill(errors, offsets, divisor, width, i, i as nat));
    }
    lemma_sum_add(ints(output), ints(errors), both);
    lemma_sum_add(ints(input), lying, both);
}

/// Whether the entry lands on a pixel of an image of `len` pixels from `src`.
pub open spec fn lands(entry: (isize, isize, i64), width: int, len: int, src: int) -> bool {
    exists|t: int| 0 <= t < len && #[trigger] reaches(src, width, entry, t)
}

/// The sum of the shares of those of the first `m` entries that land on
/// a pixel from `src`.
pub open spec fn landed(
    err: i64,
    offsets: Seq<(isize, isize, i64)>,
    divisor: i64,
    width: int,
    len: int,
    src: int,
    m: nat,
) -> int
    decreases m,
{
    if m == 0 {
        0
    } else {
        landed(err, offsets, divisor, width, len, src, (m - 1) as nat) + if lands(
            offsets[m - 1],
            width,
            len,
            src,
        ) {
            trunc_div(err * offsets[m - 1].2, divisor as int)
        } else {
            0
        }
    }
}

/// The sum of the weights of those of the first `m` entries that land on
/// no pixel from `src`.
pub open spec fn weight_lost(offsets: Seq<(isize, isize, i64)>, width: int, len: int, src: int, m: nat) -> int
    decreases m,
{
    if m == 0 {
        0
    } else {
        weight_lost(offsets, width, len, src, (m - 1) as nat) + if lands(offsets[m - 1], width, len, src) {
            0
        } else {
            offsets[m - 1].2 as int
        }
    }
}

/// An entry lands on one position only.
pub proof fn lemma_one_target(width: int, entry: (isize, isize, i64), src: int, a: int, b: int)
    requires
        width > 0,
        reaches(src, width, entry, a),
        reaches(src, width, entry, b),
    ensures
        a == b,
{
    lemma_fundamental_div_mod(a, width);
    lemma_fundamental_div_mod(b, width);
}

proof fn lemma_sum_point(a: Seq<int>, at: int, c: int)
    requires
        0 <= at < a.len(),
        forall|i: int| 0 <= i < a.len() ==> #[trigger] a[i] == (if i == at { c } else { 0 }),
    ensures
        sum(a) == c,
    decreases a.len(),
{
    if at == a.len() - 1 {
        lemma_sum_zero(a.drop_last());
    } else {
        lemma_sum_point(a.drop_last(), at, c);
    }
}

/// What the pixels receive of an error is the sum of the shares that land.
proof fn lemma_handed(
    err: i64,
    offsets: Seq<(isize, isize, i64)>,
    divisor: i64,
    width: int,
    len: nat,
    src: int,
    m: nat,
)
    requires
        width > 0,
        m <= offsets.len(),
    ensures
        sum(Seq::new(len, |t: int| gain(err, offsets, divisor, width, src, t, m))) == landed(
            err,
            offsets,
            divisor,
            width,
            len as int,
            src,
            m,
        ),
    decreases m,
{
    let now = Seq::new(len, |t: int| gain(err, offsets, divisor, width, src, t, m));
    if m == 0 {
        lemma_sum_zero(now);
    } else {
        lemma_handed(err, offsets, divisor, width, len, src, (m - 1) as nat);
        let before = Seq::new(len, |t: int| gain(err, offsets, divisor, width, src, t, (m - 1) as nat));
        let entry = offsets[m - 1];
        let share = trunc_div(err * entry.2, divisor as int);
        let added = Seq::new(len, |t: int| if reaches(src, width, entry, t) { share } else { 0 });
        lemma_sum_add(before, added, now);
        if lands(entry, width, len as int, src) {
            let at = choose|t: int| 0 <= t < len && #[trigger] reaches(src, width, entry, t);
            assert forall|i: int| 0 <= i < len implies #[trigger] added[i] == (if i == at { share } else { 0 }) by {
                if reaches(src, width, entry, i) {
                    lemma_one_target(width, entry, src, i, at);
                }
            }
            lemma_sum_point(added, at, share);
        } else {
            lemma_sum_zero(added);
        }
    }
}

/// A share times the divisor misses the error times the weight by less
/// than the divisor.
proof fn lemma_share_rest(e: int, w: int, d: int)
    requires
        d > 0,
    ensures
        magnitude(e * w - d * trunc_div(e * w, d)) < d,
{
    let a = e * w;
    lemma_fundamental_div_mod(magnitude(a), d);
    let q = magnitude(a) / d;
    assert(d * (-q) == -(d * q)) by (nonlinear_arith);
}

/// The shares that land make up the error times the weights that land
/// over the divisor, to within one unit for each entry.
proof fn lemma_landed(
    err: i64,
    offsets: Seq<(isize, isize, i64)>,
    divisor: i64,
    width: int,
    len: int,
    src: int,
    m: nat,
)
    requires
        divisor > 0,
        m <= offsets.len(),
    ensures
        magnitude(
            err * (total_weight(offsets, m) - weight_lost(offsets, width, len, src, m)) - divisor * landed(
                err,
                offsets,
                divisor,
                width,
                len,
                src,
                m,
            ),
        ) <= m * divisor,
    decreases m,
{
    if m > 0 {
        lemma_landed(err, offsets, divisor, width, len, src, (m - 1) as nat);
        let entry = offsets[m - 1];
        let w = entry.2 as int;
        let d = divisor as int;
        let e = err as int;
        let share = trunc_div(e * w, d);
        let kept_before = total_weight(offsets, (m - 1) as nat) - weight_lost(
            offsets,
            width,
            len,
            src,
            (m - 1) as nat,
        );
        let landed_before = landed(err, offsets, divisor, width, len, src, (m - 1) as nat);
        let kept = total_weight(offsets, m) - weight_lost(offsets, width, len, src, m);
        let landed_now = landed(err, offsets, divisor, width, len, src, m);
        assert(m * d == (m - 1) * d + d) by (nonlinear_arith);
        if lands(entry, width, len, src) {
            lemma_share_rest(e, w, d);
            assert(kept == kept_before + w);
            assert(landed_now == landed_before + share);
            assert(e * kept - d * landed_now == (e * kept_before - d * landed_before) + (e * w - d * share))
                by (nonlinear_arith)
                requires
                    kept == kept_before + w,
                    landed_now == landed_before + share,
            ;
        } else {
            assert(kept == kept_before);
            assert(landed_now == landed_before);
            assert(e * kept - d * landed_now == e * kept_before - d * landed_before);
        }
    } else {
        assert(err * 0 - divisor * 0 == 0) by (nonlinear_arith);
        assert(0 * divisor == 0) by (nonlinear_arith);
    }
}

/// For each position, the weight of the entries that land on no pixel.
pub open spec fn lost_all(offsets: Seq<(isize, isize, i64)>, width: int, len: nat) -> Seq<int> {
    Seq::new(len, |s: int| weight_lost(offsets, width, len as int, s, offsets.len()))
}

proof fn lemma_sum_bound(a: Seq<int>, b: Seq<int>)
    requires
        a.len() == b.len(),
        forall|i: int| 0 <= i < a.len() ==> magnitude(#[trigger] a[i]) <= b[i],
    ensures
        magnitude(sum(a)) <= sum(b),
    decreases a.len(),
{
    if a.len() > 0 {
        lemma_sum_bound(a.drop_last(), b.drop_last());
    }
}

proof fn lemma_sum_scale(a: Seq<int>, k: int, c: int, b: Seq<int>)
    requires
        a.len() == b.len(),
        forall|i: int| 0 <= i < a.len() ==> #[trigger] b[i] == k * a[i] + c,
    ensures
        sum(b) == k * sum(a) + c * a.len(),
    decreases a.len(),
{
    if a.len() > 0 {
        lemma_sum_scale(a.drop_last(), k, c, b.drop_last());
        let n = a.len() as int;
        assert(k * (sum(a.drop_last()) + a.last()) == k * sum(a.drop_last()) + k * a.last()) by (nonlinear_arith);
        assert(c * n == c * (n - 1) + c) by (nonlinear_arith);
    } else {
        assert(k * 0 == 0) by (nonlinear_arith);
        assert(c * 0 == 0) by (nonlinear_arith);
    }
}

/// Under the conditions of `lemma_total_is_kept`, with a kernel whose
/// weights add up to its divisor: the total of the output differs from the
/// total of the input by no more than half a step for each share that
/// left the image, in proportion to its weight, and one unit for each
/// entry at each pixel.
pub proof fn lemma_brightness_is_kept<F: Fn(i64) -> (i64, i64)>(
    n: u8,
    input: Seq<i64>,
    width: int,
    offsets: Seq<(isize, isize, i64)>,
    divisor: i64,
    quantize: F,
    errors: Seq<i64>,
    output: Seq<i64>,
)
    requires
        1 <= n <= 7,
        width > 0,
        keeps_energy(offsets, divisor),
        total_weight(offsets, offsets.len()) == divisor,
        is_kernel(offsets, divisor),
        forall|i: int| 0 <= i < input.len() ==> 0 <= #[trigger] input[i] <= FULL_SCALE,
        forall|p: i64, out: (i64, i64)| #[trigger] quantize.ensures((p,), out) ==> out == uniform_quantized(n, p),
        is_diffusion(input, width, offsets, divisor, quantize, errors, output),
    ensures
        2 * divisor * magnitude(sum(ints(output)) - sum(ints(input))) <= step_of(n) * sum(
            lost_all(offsets, width, input.len()),
        ) + 2 * offsets.len() * divisor * input.len(),
{
    let len = input.len();
    let d = divisor as int;
    let m = offsets.len();
    let step = step_of(n);
    lemma_total_is_kept(n, input, width, offsets, divisor, quantize, errors, output);
    lemma_outputs_in_range(n, input, width, offsets, divisor, quantize, errors, output);
    let all = handed_all(errors, offsets, divisor, width);
    let lost = lost_all(offsets, width, len);
    // twice the divisor times what each position fails to hand on
    let dropped = Seq::new(len, |s: int| 2 * d * (errors[s] - all[s]));
    let bounds = Seq::new(len, |s: int| step * lost[s] + 2 * m * d);
    assert forall|s: int| 0 <= s < len implies magnitude(#[trigger] dropped[s]) <= bounds[s] by {
        assert(0 <= output[s] <= FULL_SCALE);
        let e = errors[s] as int;
        lemma_handed(errors[s], offsets, divisor, width, len, s, m);
        lemma_landed(errors[s], offsets, divisor, width, len as int, s, m);
        lemma_lost(offsets, width, len as int, s, m);
        let gone = weight_lost(offsets, width, len as int, s, m);
        let got = landed(errors[s], offsets, divisor, width, len as int, s, m);
        assert(all[s] == got);
        assert(magnitude(2 * d * (e - got)) <= step * gone + 2 * m * d) by (nonlinear_arith)
            requires
                magnitude(e * (d - gone) - d * got) <= m * d,
                2 * magnitude(e) <= step,
                0 <= gone,
                d > 0,
        ;
    }
    lemma_sum_bound(dropped, bounds);
    lemma_sum_scale(lost, step, 2 * m * d, bounds);
    let differences = Seq::new(len, |s: int| errors[s] - all[s]);
    lemma_sum_add(all, differences, ints(errors));
    lemma_sum_scale(differences, 2 * d, 0, dropped);
    assert(2 * d * magnitude(sum(differences)) == magnitude(2 * d * sum(differences))) by (nonlinear_arith)
        requires
            d > 0,
    ;
    assert(2 * m * d * len == (2 * m * d) * len) by (nonlinear_arith);
}

proof fn lemma_lost(offsets: Seq<(isize, isize, i64)>, width: int, len: int, src: int, m: nat)
    requires
        m <= offsets.len(),
        forall|k: int| 0 <= k < offsets.len() ==> (#[trigger] offsets[k]).2 >= 0,
    ensures
        0 <= weight_lost(offsets, width, len, src, m) <= total_weight(offsets, m),
    decreases m,
{
    if m > 0 {
        lemma_lost(offsets, width, len, src, (m - 1) as nat);
        assert(offsets[m - 1].2 >= 0);
    }
}

/// Whether every entry aims no further than the next column either way
/// and the next row.
pub open spec fn is_near(offsets: Seq<(isize, isize, i64)>) -> bool {
    forall|k: int| 0 <= k < offsets.len() ==> -1 <= (#[trigger] offsets[k]).0 <= 1 && 0 <= offsets[k].1 <= 1
}

/// Whether a position lies in the first column, the last column or the
/// last row of an image of `len` pixels in rows of `width`.
pub open spec fn on_edge(width: int, len: int, position: int) -> bool {
    ||| position % width == 0
    ||| position % width == width - 1
    ||| position >= len - width
}

/// The number of positions below `n` that can lie on the edge: two for
/// each row begun, and the positions of the last row.
pub open spec fn edge_count(width: int, len: int, n: int) -> int {
    2 * (n / width) + (if n % width > 0 { 1int } else { 0int }) + (if n > len - width { n - (len - width) } else { 0 })
}

proof fn lemma_edge_count_step(width: int, len: int, s: int)
    requires
        width > 0,
        0 <= s,
    ensures
        edge_count(width, len, s + 1) >= edge_count(width, len, s),
        on_edge(width, len, s) ==> edge_count(width, len, s + 1) >= edge_count(width, len, s) + 1,
{
    lemma_fundamental_div_mod(s, width);
    let c = s % width;
    let r = s / width;
    assert(r * width == width * r) by (nonlinear_arith);
    if c < width - 1 {
        lemma_fundamental_div_mod_converse(s + 1, width, r, c + 1);
    } else {
        assert((r + 1) * width == r * width + width) by (nonlinear_arith);
        lemma_fundamental_div_mod_converse(s + 1, width, r + 1, 0);
    }
}

proof fn lemma_inner_lands(entry: (isize, isize, i64), width: int, len: int, s: int)
    requires
        width > 0,
        len % width == 0,
        0 <= s < len,
        !on_edge(width, len, s),
        -1 <= entry.0 <= 1,
        0 <= entry.1 <= 1,
    ensures
        lands(entry, width, len, s),
{
    lemma_fundamental_div_mod(s, width);
    lemma_fundamental_div_mod(len, width);
    let col = s % width + entry.0;
    let row = s / width + entry.1;
    let height = len / width;
    let t = row * width + col;
    assert(0 <= s / width && s / width + 1 < height) by (nonlinear_arith)
        requires
            width > 0,
            0 <= s < len - width,
            s == width * (s / width) + s % width,
            0 <= s % width < width,
            len == width * height,
    ;
    assert(0 <= t < len) by (nonlinear_arith)
        requires
            t == row * width + col,
            0 <= col < width,
            0 <= row < height,
            len == width * height,
    ;
    lemma_reaches(s, width, entry, t);
    assert(reaches(s, width, entry, t));
}

proof fn lemma_inner_loses_nothing(offsets: Seq<(isize, isize, i64)>, width: int, len: int, s: int, m: nat)
    requires
        width > 0,
        len % width == 0,
        0 <= s < len,
        !on_edge(width, len, s),
        is_near(offsets),
        m <= offsets.len(),
    ensures
        weight_lost(offsets, width, len, s, m) == 0,
    decreases m,
{
    if m > 0 {
        lemma_inner_loses_nothing(offsets, width, len, s, (m - 1) as nat);
        assert(-1 <= offsets[m - 1].0 <= 1 && 0 <= offsets[m - 1].1 <= 1);
        lemma_inner_lands(offsets[m - 1], width, len, s);
    }
}

/// With a kernel that keeps energy and aims no further than the next
/// column and row, weight is lost on the edge only, and no more than the
/// divisor at any position.
proof fn lemma_lost_on_the_edge(
    offsets: Seq<(isize, isize, i64)>,
    divisor: i64,
    width: int,
    len: nat,
    n: nat,
)
    requires
        width > 0,
        len % (width as nat) == 0,
        keeps_energy(offsets, divisor),
        is_near(offsets),
        n <= len,
    ensures
        sum(lost_all(offsets, width, len).take(n as int)) <= divisor * edge_count(width, len as int, n as int),
    decreases n,
{
    let lost = lost_all(offsets, width, len);
    let d = divisor as int;
    if n == 0 {
        assert(lost.take(0) =~= Seq::<int>::empty());
        lemma_fundamental_div_mod_converse(0, width, 0, 0);
        assert(edge_count(width, len as int, 0) >= 0);
        assert(d * edge_count(width, len as int, 0) >= 0) by (nonlinear_arith)
            requires
                d > 0,
                edge_count(width, len as int, 0) >= 0,
        ;
    } else {
        let s = n - 1;
        lemma_lost_on_the_edge(offsets, divisor, width, len, s as nat);
        lemma_sum_take(lost, s);
        lemma_edge_count_step(width, len as int, s);
        lemma_lost(offsets, width, len as int, s, offsets.len());
        if !on_edge(width, len as int, s) {
            lemma_inner_loses_nothing(offsets, width, len as int, s, offsets.len());
        }
        let before = edge_count(width, len as int, s);
        let after = edge_count(width, len as int, n as int);
        assert(d * before + lost[s] <= d * after) by (nonlinear_arith)
            requires
                d > 0,
                after >= before,
                0 <= lost[s] <= d,
                lost[s] > 0 ==> after >= before + 1,
        ;
    }
}

/// Under the conditions of `lemma_brightness_is_kept`, with a kernel
/// that aims no further than the next column and row, on an image of
/// `height` rows of `width`: twice the difference between the total of the
/// output and the total of the input is no more than a step for each of
/// `2 * height + width` pixels and two units for each entry at each pixel.
/// Divided by the number of pixels, the bound shrinks as the image grows.
pub proof fn lemma_mean_is_kept<F: Fn(i64) -> (i64, i64)>(
    n: u8,
    input: Seq<i64>,
    width: int,
    offsets: Seq<(isize, isize, i64)>,
    divisor: i64,
    quantize: F,
    errors: Seq<i64>,
    output: Seq<i64>,
)
    requires
        1 <= n <= 7,
        width > 0,
        input.len() % (width as nat) == 0,
        keeps_energy(offsets, divisor),
        total_weight(offsets, offsets.len()) == divisor,
        is_kernel(offsets, divisor),
        is_near(offsets),
        forall|i: int| 0 <= i < input.len() ==> 0 <= #[trigger] input[i] <= FULL_SCALE,
        forall|p: i64, out: (i64, i64)| #[trigger] quantize.ensures((p,), out) ==> out == uniform_quantized(n, p),
        is_diffusion(input, width, offsets, divisor, quantize, errors, output),
    ensures
        2 * magnitude(sum(ints(output)) - sum(ints(input))) <= step_of(n) * (2 * (input.len() as int / width) + width)
            + 2 * offsets.len() * input.len(),
{
    let len = input.len();
    let d = divisor as int;
    let m = offsets.len() as int;
    let step = step_of(n);
    lemma_brightness_is_kept(n, input, width, offsets, divisor, quantize, errors, output);
    lemma_lost_on_the_edge(offsets, divisor, width, len, len);
    let lost = lost_all(offsets, width, len);
    assert(lost.take(len as int) =~= lost);
    lemma_fundamental_div_mod(len as int, width);
    let height = len as int / width;
    let edge = edge_count(width, len as int, len as int);
    assert(edge <= 2 * height + width);
    let change = magnitude(sum(ints(output)) - sum(ints(input)));
    let total = sum(lost);
    assert(2 * change <= step * (2 * height + width) + 2 * m * len) by (nonlinear_arith)
        requires
            2 * d * change <= step * total + 2 * m * d * len,
            total <= d * edge,
            edge <= 2 * height + width,
            d > 0,
            step >= 0,
    ;
}

/// Floyd–Steinberg dithering of an image of `height` rows of `width`,
/// pixels between zero and full scale, to a bit depth from one to seven:
/// twice the difference between the total of the output and the total of
/// the input is no more than a step for each of `2 * height + width`
/// pixels and eight units for each pixel.
pub proof fn lemma_floyd_steinberg_keeps_the_mean<F: Fn(i64) -> (i64, i64)>(
    n: u8,
    input: Seq<i64>,
    width: int,
    quantize: F,
    errors: Seq<i64>,
    output: Seq<i64>,
)
    requires
        1 <= n <= 7,
        width > 0,
        input.len() % (width as nat) == 0,
        forall|i: int| 0 <= i < input.len() ==> 0 <= #[trigger] input[i] <= FULL_SCALE,
        forall|p: i64, out: (i64, i64)| #[trigger] quantize.ensures((p,), out) ==> out == uniform_quantized(n, p),
        is_diffusion(
            input,
            width,
            FloydSteinberg::spec_offsets(),
            FloydSteinberg::spec_divisor(),
            quantize,
            errors,
            output,
        ),
    ensures
        2 * magnitude(sum(ints(output)) - sum(ints(input))) <= step_of(n) * (2 * (input.len() as int / width) + width)
            + 8 * input.len(),
        stays_in_range(n, errors, output, input.len() as int),
{
    let offsets = FloydSteinberg::spec_offsets();
    lemma_named_kernels_keep_energy(Ditherer::FloydSteinberg);
    reveal_with_fuel(total_weight, 5);
    assert(total_weight(offsets, 4) == 16);
    assert(is_near(offsets));
    assert(is_kernel(offsets, FloydSteinberg::spec_divisor()));
    lemma_mean_is_kept(n, input, width, offsets, FloydSteinberg::spec_divisor(), quantize, errors, output);
    lemma_outputs_in_range(n, input, width, offsets, FloydSteinberg::spec_divisor(), quantize, errors, output);
}

/// Every named kernel has weights that are not negative and add up to no
/// more than its divisor: it hands on no more than the error it is given.
pub proof fn lemma_named_kernels_keep_energy(ditherer: Ditherer)
    ensures
        keeps_energy(ditherer.spec_offsets(), ditherer.spec_divisor()),
        keeps_energy(NoOp::spec_offsets(), NoOp::spec_divisor()),
{
    reveal_with_fuel(total_weight, 13);
    assert(total_weight(NoOp::spec_offsets(), 0) == 0);
    assert(total_weight(FloydSteinberg::spec_offsets(), 4) == 16);
    assert(total_weight(Atkinson::spec_offsets(), 6) == 6);
    assert(total_weight(Stucki::spec_offsets(), 12) == 42);
    assert(total_weight(Burkes::spec_offsets(), 7) == 32);
    assert(total_weight(JarvisJudiceNinke::spec_offsets(), 12) == 48);
    assert(total_weight(Sierra3::spec_offsets(), 10) == 32);
}

} // verus!
