//! Error diffusion: the kernels and the scan that applies them.
//!
//! A kernel lists where a pixel's quantization error goes: each entry
//! `(dx, dy, weight)` sends `error * weight / divisor` to the pixel `dx`
//! columns to the right and `dy` rows below. A share that would leave the
//! image, by a column or by a row, is lost: it is not handed to another
//! pixel.
use vstd::prelude::*;
use vstd::arithmetic::div_mod::{lemma_fundamental_div_mod, lemma_fundamental_div_mod_converse};
use vstd::string::StringExecFns;
use crate::img::{is_rectangle, Img};
use crate::pixel::Pixel;
use crate::text::{chars_of, is_name, lowered};

verus! {

/// Whether an entry `(dx, dy, weight)` points at a pixel that the scan has
/// not visited yet: below, or to the right on the same row.
pub open spec fn points_forward(entry: (isize, isize, i64)) -> bool {
    entry.1 > 0 || (entry.1 == 0 && entry.0 > 0)
}

/// Whether `offsets` and `divisor` make a kernel: every entry points forward
/// and the divisor is not zero.
pub open spec fn is_kernel(offsets: Seq<(isize, isize, i64)>, divisor: i64) -> bool {
    &&& divisor != 0
    &&& forall|k: int| 0 <= k < offsets.len() ==> points_forward(#[trigger] offsets[k])
}

/// Whether the entry `(dx, dy, _)`, applied at position `src`, lands on
/// position `target`: the column of `target` is `dx` to the right of the
/// column of `src`, and its row `dy` below the row of `src`. Positions
/// count row by row, `width` to a row. An entry whose column or row falls
/// outside the image lands on no position.
pub open spec fn reaches(src: int, width: int, entry: (isize, isize, i64), target: int) -> bool {
    &&& src % width + entry.0 == target % width
    &&& src / width + entry.1 == target / width
}

/// An entry lands on `target` from `src` exactly if the column it aims at
/// lies within the row, the row it aims at is not above the image, and
/// `target` is the position of that column in that row.
pub proof fn lemma_reaches(src: int, width: int, entry: (isize, isize, i64), target: int)
    requires
        width > 0,
        target >= 0,
    ensures
        reaches(src, width, entry, target) <==> {
            &&& 0 <= src % width + entry.0 < width
            &&& 0 <= src / width + entry.1
            &&& target == (src / width + entry.1) * width + (src % width + entry.0)
        },
{
    let col = src % width + entry.0;
    let row = src / width + entry.1;
    lemma_fundamental_div_mod(target, width);
    assert(width * (target / width) == (target / width) * width) by (nonlinear_arith);
    if 0 <= col < width && target == row * width + col {
        lemma_fundamental_div_mod_converse(target, width, row, col);
    }
    if reaches(src, width, entry, target) {
        assert(0 <= target / width) by (nonlinear_arith)
            requires
                width > 0,
                target >= 0,
                target == width * (target / width) + target % width,
                0 <= target % width < width,
        ;
    }
}

/// What position `target` has accumulated once the first `m` entries of the
/// kernel have distributed the error `err` of position `src`, starting from
/// `acc`.
pub open spec fn spread<P: Pixel>(
    acc: P,
    err: P,
    offsets: Seq<(isize, isize, i64)>,
    divisor: i64,
    width: int,
    src: int,
    target: int,
    m: nat,
) -> P
    decreases m,
{
    if m == 0 {
        acc
    } else {
        let before = spread(acc, err, offsets, divisor, width, src, target, (m - 1) as nat);
        let entry = offsets[m - 1];
        if reaches(src, width, entry, target) {
            before.add_spec(err.scale_spec(entry.2 as int, divisor as int))
        } else {
            before
        }
    }
}

/// What position `target` has accumulated once the first `n` positions have
/// distributed their errors, in scan order.
pub open spec fn spill<P: Pixel>(
    errors: Seq<P>,
    offsets: Seq<(isize, isize, i64)>,
    divisor: i64,
    width: int,
    target: int,
    n: nat,
) -> P
    decreases n,
{
    if n == 0 {
        P::zero_spec()
    } else {
        spread(
            spill(errors, offsets, divisor, width, target, (n - 1) as nat),
            errors[n - 1],
            offsets,
            divisor,
            width,
            n - 1,
            target,
            offsets.len(),
        )
    }
}

/// The value handed to the quantizer at position `i`: the input pixel plus
/// what the positions before it have spilled onto it.
pub open spec fn working<P: Pixel>(
    input: Seq<P>,
    errors: Seq<P>,
    offsets: Seq<(isize, isize, i64)>,
    divisor: i64,
    width: int,
    i: int,
) -> P {
    input[i].add_spec(spill(errors, offsets, divisor, width, i, i as nat))
}

/// Whether `output` and `errors` are what a raster scan of `input` can give:
/// at every position the quantizer, given the working value, returned the
/// output pixel and the error.
pub open spec fn is_diffusion<P: Pixel, F: Fn(P) -> (P, P)>(
    input: Seq<P>,
    width: int,
    offsets: Seq<(isize, isize, i64)>,
    divisor: i64,
    quantize: F,
    errors: Seq<P>,
    output: Seq<P>,
) -> bool {
    &&& output.len() == input.len()
    &&& errors.len() == input.len()
    &&& forall|i: int|
        0 <= i < input.len() ==> quantize.ensures(
            (working(input, errors, offsets, divisor, width, i),),
            (#[trigger] output[i], errors[i]),
        )
}

/// Spillover only depends on the errors of the positions that have spilled.
pub proof fn lemma_spill_prefix<P: Pixel>(
    a: Seq<P>,
    b: Seq<P>,
    offsets: Seq<(isize, isize, i64)>,
    divisor: i64,
    width: int,
    target: int,
    n: nat,
)
    requires
        n <= a.len(),
        n <= b.len(),
        forall|j: int| 0 <= j < n ==> a[j] == b[j],
    ensures
        spill(a, offsets, divisor, width, target, n) == spill(b, offsets, divisor, width, target, n),
    decreases n,
{
    if n > 0 {
        lemma_spill_prefix(a, b, offsets, divisor, width, target, (n - 1) as nat);
    }
}

/// The errors among the results of a scan.
pub open spec fn errors_of<P>(results: Seq<(P, P)>) -> Seq<P> {
    Seq::new(results.len(), |i: int| results[i].1)
}

/// What a quantizer that is the function `q` returns at the first `n`
/// positions of a raster scan of `input`.
pub open spec fn scan<P: Pixel>(
    input: Seq<P>,
    width: int,
    offsets: Seq<(isize, isize, i64)>,
    divisor: i64,
    q: spec_fn(P) -> (P, P),
    n: nat,
) -> Seq<(P, P)>
    decreases n,
{
    if n == 0 {
        Seq::empty()
    } else {
        let before = scan(input, width, offsets, divisor, q, (n - 1) as nat);
        before.push(q(working(input, errors_of(before), offsets, divisor, width, n - 1)))
    }
}

/// The image that dithering `input` gives with a quantizer that is the
/// function `q`.
pub open spec fn dithered<P: Pixel>(
    input: Seq<P>,
    width: int,
    offsets: Seq<(isize, isize, i64)>,
    divisor: i64,
    q: spec_fn(P) -> (P, P),
) -> Seq<P> {
    Seq::new(input.len(), |i: int| scan(input, width, offsets, divisor, q, input.len())[i].0)
}

/// In a scan with a quantizer that is the function `q`, the first `n`
/// outputs and errors are those of `scan`.
pub proof fn lemma_scan<P: Pixel, F: Fn(P) -> (P, P)>(
    input: Seq<P>,
    width: int,
    offsets: Seq<(isize, isize, i64)>,
    divisor: i64,
    quantize: F,
    q: spec_fn(P) -> (P, P),
    errors: Seq<P>,
    output: Seq<P>,
    n: nat,
)
    requires
        forall|p: P, out: (P, P)| #[trigger] quantize.ensures((p,), out) ==> out == q(p),
        is_diffusion(input, width, offsets, divisor, quantize, errors, output),
        n <= input.len(),
    ensures
        scan(input, width, offsets, divisor, q, n).len() == n,
        forall|i: int|
            0 <= i < n ==> #[trigger] scan(input, width, offsets, divisor, q, n)[i] == (output[i], errors[i]),
    decreases n,
{
    if n > 0 {
        lemma_scan(input, width, offsets, divisor, quantize, q, errors, output, (n - 1) as nat);
        let before = scan(input, width, offsets, divisor, q, (n - 1) as nat);
        lemma_spill_prefix(errors_of(before), errors, offsets, divisor, width, n - 1, (n - 1) as nat);
        assert(quantize.ensures(
            (working(input, errors, offsets, divisor, width, n - 1),),
            (output[n - 1], errors[n - 1]),
        ));
    }
}

/// With a quantizer that is the function `q`, a scan has one outcome.
pub proof fn lemma_diffusion_is_function<P: Pixel, F: Fn(P) -> (P, P)>(
    input: Seq<P>,
    width: int,
    offsets: Seq<(isize, isize, i64)>,
    divisor: i64,
    quantize: F,
    q: spec_fn(P) -> (P, P),
    errors: Seq<P>,
    output: Seq<P>,
)
    requires
        forall|p: P, out: (P, P)| #[trigger] quantize.ensures((p,), out) ==> out == q(p),
        is_diffusion(input, width, offsets, divisor, quantize, errors, output),
    ensures
        output == dithered(input, width, offsets, divisor, q),
{
    lemma_scan(input, width, offsets, divisor, quantize, q, errors, output, input.len());
    assert(output =~= dithered(input, width, offsets, divisor, q));
}

/// A kernel without entries spills nothing.
pub proof fn lemma_spill_without_entries<P: Pixel>(
    errors: Seq<P>,
    offsets: Seq<(isize, isize, i64)>,
    divisor: i64,
    width: int,
    target: int,
    n: nat,
)
    requires
        offsets.len() == 0,
    ensures
        spill(errors, offsets, divisor, width, target, n) == P::zero_spec(),
    decreases n,
{
    if n > 0 {
        lemma_spill_without_entries(errors, offsets, divisor, width, target, (n - 1) as nat);
    }
}

/// Dithering with a kernel that has no entries and a quantizer that
/// returns its input as the quantized value gives the input back.
pub proof fn lemma_no_op_identity<P: Pixel, F: Fn(P) -> (P, P)>(
    input: Seq<P>,
    width: int,
    offsets: Seq<(isize, isize, i64)>,
    divisor: i64,
    quantize: F,
    errors: Seq<P>,
    output: Seq<P>,
)
    requires
        offsets.len() == 0,
        forall|p: P, out: (P, P)| #[trigger] quantize.ensures((p,), out) ==> out.0 == p,
        is_diffusion(input, width, offsets, divisor, quantize, errors, output),
    ensures
        output == input,
{
    assert forall|i: int| 0 <= i < input.len() implies output[i] == input[i] by {
        lemma_spill_without_entries(errors, offsets, divisor, width, i, i as nat);
        P::lemma_add_zero(input[i]);
        assert(quantize.ensures((working(input, errors, offsets, divisor, width, i),), (output[i], errors[i])));
    }
    assert(output =~= input);
}

/// In an image of a single pixel nothing is spilled onto that pixel,
/// whatever the kernel: the output is the one pixel that the quantizer
/// returns for the input pixel.
pub proof fn lemma_single_pixel<P: Pixel, F: Fn(P) -> (P, P)>(
    input: Seq<P>,
    width: int,
    offsets: Seq<(isize, isize, i64)>,
    divisor: i64,
    quantize: F,
    errors: Seq<P>,
    output: Seq<P>,
)
    requires
        input.len() == 1,
        is_diffusion(input, width, offsets, divisor, quantize, errors, output),
    ensures
        output.len() == 1,
        quantize.ensures((input[0],), (output[0], errors[0])),
{
    P::lemma_add_zero(input[0]);
    assert(quantize.ensures((working(input, errors, offsets, divisor, width, 0),), (output[0], errors[0])));
}

/// A weight table with its common divisor.
#[derive(Debug, PartialEq, Eq)]
pub struct Kernel {
    offsets: Vec<(isize, isize, i64)>,
    divisor: i64,
}

impl Kernel {
    #[verifier::type_invariant]
    spec fn well_formed(&self) -> bool {
        is_kernel(self.offsets@, self.divisor)
    }

    /// The entries `(dx, dy, weight)`, in the order in which they are applied.
    pub closed spec fn spec_offsets(&self) -> Seq<(isize, isize, i64)> {
        self.offsets@
    }

    /// The common divisor of the weights.
    pub closed spec fn spec_divisor(&self) -> i64 {
        self.divisor
    }

    /// Makes a kernel; `None` unless the divisor is not zero and every entry
    /// points forward.
    pub fn new(offsets: Vec<(isize, isize, i64)>, divisor: i64) -> (r: Option<Kernel>)
        ensures
            r.is_some() <==> is_kernel(offsets@, divisor),
            r.is_some() ==> r.unwrap().spec_offsets() == offsets@ && r.unwrap().spec_divisor() == divisor,
    {
        if divisor == 0 {
            return None;
        }
        let mut k: usize = 0;
        while k < offsets.len()
            invariant
                k <= offsets@.len(),
                forall|j: int| 0 <= j < k ==> points_forward(#[trigger] offsets@[j]),
            decreases offsets@.len() - k,
        {
            let (dx, dy, _) = offsets[k];
            if !(dy > 0 || (dy == 0 && dx > 0)) {
                return None;
            }
            k += 1;
        }
        Some(Kernel { offsets, divisor })
    }

    /// The entries `(dx, dy, weight)`.
    pub fn offsets(&self) -> (r: &Vec<(isize, isize, i64)>)
        ensures
            r@ == self.spec_offsets(),
            is_kernel(r@, self.spec_divisor()),
    {
        proof {
            use_type_invariant(self);
        }
        &self.offsets
    }

    /// The common divisor.
    pub fn divisor(&self) -> (r: i64)
        ensures
            r == self.spec_divisor(),
            r != 0,
    {
        proof {
            use_type_invariant(self);
        }
        self.divisor
    }
}

/// Distributes the error `err` of position `src` over `spillover`.
fn spread_error<P: Pixel>(spillover: &mut Vec<P>, err: &P, kernel: &Kernel, width: u32, src: usize)
    requires
        src < old(spillover)@.len(),
        width > 0,
        old(spillover)@.len() % (width as nat) == 0,
    ensures
        final(spillover)@.len() == old(spillover)@.len(),
        forall|t: int|
            0 <= t < old(spillover)@.len() ==> #[trigger] final(spillover)@[t] == spread(
                old(spillover)@[t],
                *err,
                kernel.spec_offsets(),
                kernel.spec_divisor(),
                width as int,
                src as int,
                t,
                kernel.spec_offsets().len(),
            ),
{
    let offsets = kernel.offsets();
    let divisor = kernel.divisor();
    let n = spillover.len();
    let w = width as usize;
    let height = n / w;
    let here_col = src % w;
    let here_row = src / w;
    proof {
        lemma_fundamental_div_mod(n as int, w as int);
        lemma_rows(src as int, w as int, height as int);
    }
    let mut k: usize = 0;
    while k < offsets.len()
        invariant
            k <= offsets@.len(),
            offsets@ == kernel.spec_offsets(),
            divisor == kernel.spec_divisor(),
            divisor != 0,
            n == spillover@.len(),
            n == old(spillover)@.len(),
            src < n,
            w == width,
            w > 0,
            n == w * height,
            here_col == src % w,
            here_row == src / w,
            here_col < w,
            here_row < height,
            forall|t: int|
                0 <= t < n ==> #[trigger] spillover@[t] == spread(
                    old(spillover)@[t],
                    *err,
                    offsets@,
                    divisor,
                    width as int,
                    src as int,
                    t,
                    k as nat,
                ),
        decreases offsets@.len() - k,
    {
        let entry = offsets[k];
        let (dx, dy, weight) = entry;
        let col: i128 = (here_col as i128) + (dx as i128);
        let row: i128 = (here_row as i128) + (dy as i128);
        if 0 <= col && col < w as i128 && 0 <= row && row < height as i128 {
            assert(0 <= row * w + col < n && 0 <= row * w) by (nonlinear_arith)
                requires
                    0 <= col < w,
                    0 <= row < height,
                    n == w * height,
            ;
            let t: usize = (row as usize) * w + (col as usize);
            proof {
                lemma_fundamental_div_mod_converse(t as int, w as int, row as int, col as int);
                assert forall|u: int| 0 <= u < n && u != t implies !reaches(src as int, w as int, entry, u) by {
                    lemma_fundamental_div_mod(u, w as int);
                    if u % (w as int) == col && u / (w as int) == row {
                        assert((w as int) * row == row * w) by (nonlinear_arith);
                    }
                }
            }
            let share = err.scaled(weight, divisor);
            let sum = spillover[t].plus(&share);
            spillover.set(t, sum);
        } else {
            proof {
                assert forall|u: int| 0 <= u < n implies !reaches(src as int, w as int, entry, u) by {
                    lemma_rows(u, w as int, height as int);
                }
            }
        }
        k += 1;
    }
}

/// A position of an image of `height` rows of `width` has its column
/// below `width` and its row below `height`.
proof fn lemma_rows(position: int, width: int, height: int)
    requires
        0 < width,
        0 <= position < width * height,
    ensures
        0 <= position % width < width,
        0 <= position / width < height,
{
    lemma_fundamental_div_mod(position, width);
    let row = position / width;
    assert(0 <= row < height) by (nonlinear_arith)
        requires
            0 < width,
            0 <= position < width * height,
            position == width * row + position % width,
            0 <= position % width < width,
    ;
}

/// Dithers `img` with `kernel`: scans the pixels in raster order, hands each
/// pixel plus its accumulated spillover to `quantize`, keeps the quantized
/// pixel and spreads the error over the pixels that follow.
pub fn diffuse<P: Pixel, F: Fn(P) -> (P, P)>(img: Img<P>, kernel: &Kernel, quantize: F) -> (out: Img<P>)
    requires
        forall|p: P| #[trigger] quantize.requires((p,)),
    ensures
        out.spec_width() == img.spec_width(),
        out.pixels().len() == img.pixels().len(),
        exists|errors: Seq<P>|
            is_diffusion(
                img.pixels(),
                img.spec_width(),
                kernel.spec_offsets(),
                kernel.spec_divisor(),
                quantize,
                errors,
                out.pixels(),
            ),
{
    let width = img.width();
    let n = img.len();
    let input = img.as_vec();
    let ghost offsets = kernel.spec_offsets();
    let ghost divisor = kernel.spec_divisor();
    let mut spillover: Vec<P> = Vec::with_capacity(n);
    let mut z: usize = 0;
    while z < n
        invariant
            z <= n,
            spillover@.len() == z,
            forall|t: int| 0 <= t < z ==> #[trigger] spillover@[t] == P::zero_spec(),
        decreases n - z,
    {
        spillover.push(P::zero());
        z += 1;
    }
    let mut output: Vec<P> = Vec::with_capacity(n);
    let ghost mut errors: Seq<P> = Seq::empty();
    let mut i: usize = 0;
    while i < n
        invariant
            i <= n,
            n == input@.len(),
            input@ == img.pixels(),
            width == img.spec_width(),
            is_rectangle(n as int, width as int),
            offsets == kernel.spec_offsets(),
            divisor == kernel.spec_divisor(),
            spillover@.len() == n,
            output@.len() == i,
            errors.len() == i,
            forall|p: P| #[trigger] quantize.requires((p,)),
            forall|t: int|
                0 <= t < n ==> #[trigger] spillover@[t] == spill(errors, offsets, divisor, width as int, t, i as nat),
            forall|j: int|
                0 <= j < i ==> quantize.ensures(
                    (working(input@, errors, offsets, divisor, width as int, j),),
                    (#[trigger] output@[j], errors[j]),
                ),
        decreases n - i,
    {
        let value = input[i].plus(&spillover[i]);
        let (quantized, err) = quantize(value);
        let ghost earlier = errors;
        let ghost earlier_output = output@;
        proof {
            errors = earlier.push(err);
            assert forall|t: int| 0 <= t < n implies spill(errors, offsets, divisor, width as int, t, i as nat)
                == spill(earlier, offsets, divisor, width as int, t, i as nat) by {
                lemma_spill_prefix(errors, earlier, offsets, divisor, width as int, t, i as nat);
            }
            assert forall|j: int| 0 <= j <= i implies #[trigger] working(
                input@,
                errors,
                offsets,
                divisor,
                width as int,
                j,
            ) == working(input@, earlier, offsets, divisor, width as int, j) by {
                lemma_spill_prefix(errors, earlier, offsets, divisor, width as int, j, j as nat);
            }
        }
        output.push(quantized);
        spread_error(&mut spillover, &err, kernel, width, i);
        proof {
            assert(errors[i as int] == err);
            assert forall|j: int| 0 <= j < i + 1 implies quantize.ensures(
                (working(input@, errors, offsets, divisor, width as int, j),),
                (#[trigger] output@[j], errors[j]),
            ) by {
                if j < i {
                    assert(output@[j] == earlier_output[j]);
                    assert(errors[j] == earlier[j]);
                }
            }
        }
        i += 1;
    }
    let result = Img::new(output, width);
    proof {
        assert(is_diffusion(img.pixels(), img.spec_width(), offsets, divisor, quantize, errors, output@));
    }
    result.unwrap()
}

/// A named kernel.
pub trait Dither {
    /// The entries `(dx, dy, weight)` of the kernel, in the order in which
    /// they are applied.
    spec fn spec_offsets() -> Seq<(isize, isize, i64)>;

    /// The common divisor of the weights.
    spec fn spec_divisor() -> i64;

    /// The kernel as a value.
    fn kernel() -> (k: Kernel)
        ensures
            k.spec_offsets() == Self::spec_offsets(),
            k.spec_divisor() == Self::spec_divisor(),
            is_kernel(Self::spec_offsets(), Self::spec_divisor()),
    ;

    /// Dithers `img` with this kernel.
    fn dither<P: Pixel, F: Fn(P) -> (P, P)>(img: Img<P>, quantize: F) -> (out: Img<P>)
        requires
            forall|p: P| #[trigger] quantize.requires((p,)),
        ensures
            out.spec_width() == img.spec_width(),
            out.pixels().len() == img.pixels().len(),
            exists|errors: Seq<P>|
                is_diffusion(
                    img.pixels(),
                    img.spec_width(),
                    Self::spec_offsets(),
                    Self::spec_divisor(),
                    quantize,
                    errors,
                    out.pixels(),
                ),
    {
        let kernel = Self::kernel();
        diffuse(img, &kernel, quantize)
    }
}

/// A kernel that spreads nothing.
pub struct NoOp;

impl Dither for NoOp {
    open spec fn spec_offsets() -> Seq<(isize, isize, i64)> {
        seq![]
    }

    open spec fn spec_divisor() -> i64 {
        1
    }

    fn kernel() -> (k: Kernel) {
        let offsets: Vec<(isize, isize, i64)> = vec![];
        assert(offsets@ =~= Self::spec_offsets());
        Kernel { offsets, divisor: 1 }
    }
}

/// ```text
///       X   7
///   3   5   1
///
///     (1/16)
/// ```
pub struct FloydSteinberg;

impl Dither for FloydSteinberg {
    open spec fn spec_offsets() -> Seq<(isize, isize, i64)> {
        seq![(1isize, 0isize, 7i64), (-1isize, 1isize, 3i64), (0isize, 1isize, 5i64), (1isize, 1isize, 1i64)]
    }

    open spec fn spec_divisor() -> i64 {
        16
    }

    fn kernel() -> (k: Kernel) {
        let offsets: Vec<(isize, isize, i64)> = vec![(1isize, 0isize, 7i64), (-1isize, 1isize, 3i64), (0isize, 1isize, 5i64), (1isize, 1isize, 1i64)];
        assert(offsets@ =~= Self::spec_offsets());
        Kernel { offsets, divisor: 16 }
    }
}

/// ```text
///         X   1   1
///     1   1   1
///         1
///
///       (1/8)
/// ```
pub struct Atkinson;

impl Dither for Atkinson {
    open spec fn spec_offsets() -> Seq<(isize, isize, i64)> {
        seq![(1isize, 0isize, 1i64), (2isize, 0isize, 1i64), (-1isize, 1isize, 1i64), (0isize, 1isize, 1i64), (1isize, 1isize, 1i64), (0isize, 2isize, 1i64)]
    }

    open spec fn spec_divisor() -> i64 {
        8
    }

    fn kernel() -> (k: Kernel) {
        let offsets: Vec<(isize, isize, i64)> = vec![(1isize, 0isize, 1i64), (2isize, 0isize, 1i64), (-1isize, 1isize, 1i64), (0isize, 1isize, 1i64), (1isize, 1isize, 1i64), (0isize, 2isize, 1i64)];
        assert(offsets@ =~= Self::spec_offsets());
        Kernel { offsets, divisor: 8 }
    }
}

/// ```text
///             X   8   4
///     2   4   8   4   2
///     1   2   4   2   1
///
///           (1/42)
/// ```
pub struct Stucki;

impl Dither for Stucki {
    open spec fn spec_offsets() -> Seq<(isize, isize, i64)> {
        seq![(1isize, 0isize, 8i64), (2isize, 0isize, 4i64), (-2isize, 1isize, 2i64), (-1isize, 1isize, 4i64), (0isize, 1isize, 8i64), (1isize, 1isize, 4i64), (2isize, 1isize, 2i64), (-2isize, 2isize, 1i64), (-1isize, 2isize, 2i64), (0isize, 2isize, 4i64), (1isize, 2isize, 2i64), (2isize, 2isize, 1i64)]
    }

    open spec fn spec_divisor() -> i64 {
        42
    }

    fn kernel() -> (k: Kernel) {
        let offsets: Vec<(isize, isize, i64)> = vec![(1isize, 0isize, 8i64), (2isize, 0isize, 4i64), (-2isize, 1isize, 2i64), (-1isize, 1isize, 4i64), (0isize, 1isize, 8i64), (1isize, 1isize, 4i64), (2isize, 1isize, 2i64), (-2isize, 2isize, 1i64), (-1isize, 2isize, 2i64), (0isize, 2isize, 4i64), (1isize, 2isize, 2i64), (2isize, 2isize, 1i64)];
        assert(offsets@ =~= Self::spec_offsets());
        Kernel { offsets, divisor: 42 }
    }
}

/// ```text
///             X   8   4
///     2   4   8   4   2
///
///           (1/32)
/// ```
pub struct Burkes;

impl Dither for Burkes {
    open spec fn spec_offsets() -> Seq<(isize, isize, i64)> {
        seq![(1isize, 0isize, 8i64), (2isize, 0isize, 4i64), (-2isize, 1isize, 2i64), (-1isize, 1isize, 4i64), (0isize, 1isize, 8i64), (1isize, 1isize, 4i64), (2isize, 1isize, 2i64)]
    }

    open spec fn spec_divisor() -> i64 {
        32
    }

    fn kernel() -> (k: Kernel) {
        let offsets: Vec<(isize, isize, i64)> = vec![(1isize, 0isize, 8i64), (2isize, 0isize, 4i64), (-2isize, 1isize, 2i64), (-1isize, 1isize, 4i64), (0isize, 1isize, 8i64), (1isize, 1isize, 4i64), (2isize, 1isize, 2i64)];
        assert(offsets@ =~= Self::spec_offsets());
        Kernel { offsets, divisor: 32 }
    }
}

/// ```text
///             X   7   5
///     3   5   7   5   3
///     1   3   5   3   1
///
///           (1/48)
/// ```
pub struct JarvisJudiceNinke;

impl Dither for JarvisJudiceNinke {
    open spec fn spec_offsets() -> Seq<(isize, isize, i64)> {
        seq![(1isize, 0isize, 7i64), (2isize, 0isize, 5i64), (-2isize, 1isize, 3i64), (-1isize, 1isize, 5i64), (0isize, 1isize, 7i64), (1isize, 1isize, 5i64), (2isize, 1isize, 3i64), (-2isize, 2isize, 1i64), (-1isize, 2isize, 3i64), (0isize, 2isize, 5i64), (1isize, 2isize, 3i64), (2isize, 2isize, 1i64)]
    }

    open spec fn spec_divisor() -> i64 {
        48
    }

    fn kernel() -> (k: Kernel) {
        let offsets: Vec<(isize, isize, i64)> = vec![(1isize, 0isize, 7i64), (2isize, 0isize, 5i64), (-2isize, 1isize, 3i64), (-1isize, 1isize, 5i64), (0isize, 1isize, 7i64), (1isize, 1isize, 5i64), (2isize, 1isize, 3i64), (-2isize, 2isize, 1i64), (-1isize, 2isize, 3i64), (0isize, 2isize, 5i64), (1isize, 2isize, 3i64), (2isize, 2isize, 1i64)];
        assert(offsets@ =~= Self::spec_offsets());
        Kernel { offsets, divisor: 48 }
    }
}

/// ```text
///             X   5   3
///     2   4   5   4   2
///         2   3   2
///
///           (1/32)
/// ```
pub struct Sierra3;

impl Dither for Sierra3 {
    open spec fn spec_offsets() -> Seq<(isize, isize, i64)> {
        seq![(1isize, 0isize, 5i64), (2isize, 0isize, 3i64), (-2isize, 1isize, 2i64), (-1isize, 1isize, 4i64), (0isize, 1isize, 5i64), (1isize, 1isize, 4i64), (2isize, 1isize, 2i64), (-1isize, 2isize, 2i64), (0isize, 2isize, 3i64), (1isize, 2isize, 2i64)]
    }

    open spec fn spec_divisor() -> i64 {
        32
    }

    fn kernel() -> (k: Kernel) {
        let offsets: Vec<(isize, isize, i64)> = vec![(1isize, 0isize, 5i64), (2isize, 0isize, 3i64), (-2isize, 1isize, 2i64), (-1isize, 1isize, 4i64), (0isize, 1isize, 5i64), (1isize, 1isize, 4i64), (2isize, 1isize, 2i64), (-1isize, 2isize, 2i64), (0isize, 2isize, 3i64), (1isize, 2isize, 2i64)];
        assert(offsets@ =~= Self::spec_offsets());
        Kernel { offsets, divisor: 32 }
    }
}

/// The name that no kernel has.
#[derive(Debug, PartialEq, Eq)]
pub struct ErrorUnknownDitherer(pub String);

impl ErrorUnknownDitherer {
    /// The message for the user.
    pub fn message(&self) -> (r: String)
        ensures
            r@ == "unknown ditherer: "@ + self.0@,
    {
        let mut r = String::from_str("unknown ditherer: ");
        r.append(self.0.as_str());
        r
    }
}

/// The kernel that `name` stands for, letters in any case.
pub open spec fn ditherer_named(name: Seq<char>) -> Option<Ditherer> {
    let l = lowered(name);
    if l == "floyd"@ || l == "steinberg"@ || l == "floydsteinberg"@ {
        Some(Ditherer::FloydSteinberg)
    } else if l == "atkinson"@ {
        Some(Ditherer::Atkinson)
    } else if l == "stucki"@ {
        Some(Ditherer::Stucki)
    } else if l == "burkes"@ {
        Some(Ditherer::Burkes)
    } else if l == "jarvis"@ || l == "judice"@ || l == "ninke"@ {
        Some(Ditherer::JarvisJudiceNinke)
    } else if l == "sierra"@ || l == "sierra3"@ {
        Some(Ditherer::Sierra3)
    } else {
        None
    }
}

/// The kernels by name.
#[derive(Copy, Clone, PartialEq, Debug, Eq)]
pub enum Ditherer {
    FloydSteinberg,
    Atkinson,
    Stucki,
    Burkes,
    JarvisJudiceNinke,
    Sierra3,
}

impl Ditherer {
    /// The entries of the kernel that `self` names.
    pub open spec fn spec_offsets(self) -> Seq<(isize, isize, i64)> {
        match self {
            Ditherer::FloydSteinberg => FloydSteinberg::spec_offsets(),
            Ditherer::Atkinson => Atkinson::spec_offsets(),
            Ditherer::Stucki => Stucki::spec_offsets(),
            Ditherer::Burkes => Burkes::spec_offsets(),
            Ditherer::JarvisJudiceNinke => JarvisJudiceNinke::spec_offsets(),
            Ditherer::Sierra3 => Sierra3::spec_offsets(),
        }
    }

    /// The divisor of the kernel that `self` names.
    pub open spec fn spec_divisor(self) -> i64 {
        match self {
            Ditherer::FloydSteinberg => FloydSteinberg::spec_divisor(),
            Ditherer::Atkinson => Atkinson::spec_divisor(),
            Ditherer::Stucki => Stucki::spec_divisor(),
            Ditherer::Burkes => Burkes::spec_divisor(),
            Ditherer::JarvisJudiceNinke => JarvisJudiceNinke::spec_divisor(),
            Ditherer::Sierra3 => Sierra3::spec_divisor(),
        }
    }

    /// The kernel that `self` names.
    pub fn kernel(self) -> (k: Kernel)
        ensures
            k.spec_offsets() == self.spec_offsets(),
            k.spec_divisor() == self.spec_divisor(),
            is_kernel(self.spec_offsets(), self.spec_divisor()),
    {
        match self {
            Ditherer::FloydSteinberg => FloydSteinberg::kernel(),
            Ditherer::Atkinson => Atkinson::kernel(),
            Ditherer::Stucki => Stucki::kernel(),
            Ditherer::Burkes => Burkes::kernel(),
            Ditherer::JarvisJudiceNinke => JarvisJudiceNinke::kernel(),
            Ditherer::Sierra3 => Sierra3::kernel(),
        }
    }

    /// The short name of the kernel.
    pub open spec fn spec_name(self) -> Seq<char> {
        match self {
            Ditherer::FloydSteinberg => "floyd"@,
            Ditherer::Atkinson => "atkinson"@,
            Ditherer::Burkes => "burkes"@,
            Ditherer::JarvisJudiceNinke => "jarvis"@,
            Ditherer::Sierra3 => "sierra3"@,
            Ditherer::Stucki => "stucki"@,
        }
    }

    /// The short name of the kernel.
    pub fn name(self) -> (s: &'static str)
        ensures
            s@ == self.spec_name(),
    {
        match self {
            Ditherer::FloydSteinberg => "floyd",
            Ditherer::Atkinson => "atkinson",
            Ditherer::Burkes => "burkes",
            Ditherer::JarvisJudiceNinke => "jarvis",
            Ditherer::Sierra3 => "sierra3",
            Ditherer::Stucki => "stucki",
        }
    }

    /// Looks a kernel up by name, in any mix of upper and lower case.
    pub fn from_name(s: &str) -> (r: Result<Ditherer, ErrorUnknownDitherer>)
        ensures
            match ditherer_named(s@) {
                Some(d) => r == Ok::<Ditherer, ErrorUnknownDitherer>(d),
                None => r.is_err() && r->Err_0.0@ == s@,
            },
    {
        let chars = chars_of(s);
        if is_name(&chars, "floyd") || is_name(&chars, "steinberg") || is_name(&chars, "floydsteinberg") {
            Ok(Ditherer::FloydSteinberg)
        } else if is_name(&chars, "atkinson") {
            Ok(Ditherer::Atkinson)
        } else if is_name(&chars, "stucki") {
            Ok(Ditherer::Stucki)
        } else if is_name(&chars, "burkes") {
            Ok(Ditherer::Burkes)
        } else if is_name(&chars, "jarvis") || is_name(&chars, "judice") || is_name(&chars, "ninke") {
            Ok(Ditherer::JarvisJudiceNinke)
        } else if is_name(&chars, "sierra") || is_name(&chars, "sierra3") {
            Ok(Ditherer::Sierra3)
        } else {
            Err(ErrorUnknownDitherer(s.to_owned()))
        }
    }

    /// Dithers `img` with the kernel that `self` names.
    pub fn dither<P: Pixel, F: Fn(P) -> (P, P)>(self, img: Img<P>, quantize: F) -> (out: Img<P>)
        requires
            forall|p: P| #[trigger] quantize.requires((p,)),
        ensures
            out.spec_width() == img.spec_width(),
            out.pixels().len() == img.pixels().len(),
            exists|errors: Seq<P>|
                is_diffusion(
                    img.pixels(),
                    img.spec_width(),
                    self.spec_offsets(),
                    self.spec_divisor(),
                    quantize,
                    errors,
                    out.pixels(),
                ),
    {
        let kernel = self.kernel();
        diffuse(img, &kernel, quantize)
    }
}

impl std::str::FromStr for Ditherer {
    type Err = ErrorUnknownDitherer;

    fn from_str(s: &str) -> (r: Result<Self, Self::Err>)
        ensures
            match ditherer_named(s@) {
                Some(d) => r == Ok::<Ditherer, ErrorUnknownDitherer>(d),
                None => r.is_err() && r->Err_0.0@ == s@,
            },
    {
        Ditherer::from_name(s)
    }
}

} // verus!
