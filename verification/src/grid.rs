//! Sampling grids: a world of any size is sampled at no more than so many points along an
//! axis.

use vstd::prelude::*;

verus! {

/// The quotient rounded up.
pub open spec fn ceil_div(n: int, d: int) -> int {
    (n + d - 1) / d
}

/// The distance between samples: as small as it can be with no more than `cap` samples along
/// the longer axis, and at least one.
pub open spec fn stride_for(width: int, height: int, cap: int) -> int {
    let longer = if width >= height {
        width
    } else {
        height
    };
    if ceil_div(longer, cap) >= 1 {
        ceil_div(longer, cap)
    } else {
        1
    }
}

/// The number of samples along an axis; at least one.
pub open spec fn samples_along(axis: int, stride: int) -> int {
    if ceil_div(axis, stride) >= 1 {
        ceil_div(axis, stride)
    } else {
        1
    }
}

fn ceil_quotient(n: u32, d: u32) -> (q: u32)
    requires
        d > 0,
    ensures
        q == ceil_div(n as int, d as int),
{
    let q: u32 = n / d;
    let r: u32 = n % d;
    proof {
        lemma_ceil_div(n as int, d as int);
        assert(r > 0 ==> q < u32::MAX) by {
            if r > 0 {
                assert(n / d < u32::MAX) by (nonlinear_arith)
                    requires
                        d >= 2,
                        n <= u32::MAX,
                ;
            }
        }
    }
    if r > 0 {
        q + 1
    } else {
        q
    }
}

/// The quotient rounded up is the quotient rounded down, and one more where something is left.
pub proof fn lemma_ceil_div(n: int, d: int)
    requires
        n >= 0,
        d > 0,
    ensures
        ceil_div(n, d) == n / d + if n % d > 0 {
            1int
        } else {
            0int
        },
        n % d > 0 ==> d >= 2 && n / d < n,
{
    let q = n / d;
    let r = n % d;
    assert(n == d * q + r && 0 <= r < d) by {
        vstd::arithmetic::div_mod::lemma_fundamental_div_mod(n, d);
    }
    if r > 0 {
        assert((n + d - 1) / d == q + 1 && q < n) by (nonlinear_arith)
            requires
                n == d * q + r,
                0 < r < d,
                n >= 0,
        ;
    } else {
        assert((n + d - 1) / d == q) by (nonlinear_arith)
            requires
                n == d * q,
                d > 0,
        ;
    }
}

/// The grid for a world of this size.
pub open spec fn dims_for(width: int, height: int, cap: int) -> (int, int, int) {
    let stride = stride_for(width, height, cap);
    (stride, samples_along(width, stride), samples_along(height, stride))
}

/// The grid for a world of this size.
pub fn grid_dims(width: u32, height: u32, cap: u32) -> (dims: (u32, u32, u32))
    requires
        cap > 0,
    ensures
        (dims.0 as int, dims.1 as int, dims.2 as int) == dims_for(
            width as int,
            height as int,
            cap as int,
        ),
{
    let longer: u32 = if width >= height {
        width
    } else {
        height
    };
    let least: u32 = ceil_quotient(longer, cap);
    let stride: u32 = if least >= 1 {
        least
    } else {
        1
    };
    let across: u32 = ceil_quotient(width, stride);
    let down: u32 = ceil_quotient(height, stride);
    (
        stride,
        if across >= 1 {
            across
        } else {
            1
        },
        if down >= 1 {
            down
        } else {
            1
        },
    )
}

/// A grid has at least one sample along each axis and at most `cap`.
pub proof fn law_grid_is_bounded(width: int, height: int, cap: int)
    requires
        width >= 0,
        height >= 0,
        cap > 0,
    ensures
        ({
            let (stride, w, h) = dims_for(width, height, cap);
            stride >= 1 && 1 <= w <= cap && 1 <= h <= cap
        }),
{
    let stride = stride_for(width, height, cap);
    lemma_axis_bounded(width, height, cap);
    lemma_axis_bounded(height, width, cap);
    assert(stride_for(width, height, cap) == stride_for(height, width, cap));
}

proof fn lemma_axis_bounded(axis: int, other: int, cap: int)
    requires
        axis >= 0,
        other >= 0,
        cap > 0,
    ensures
        1 <= samples_along(axis, stride_for(axis, other, cap)) <= cap,
{
    let stride = stride_for(axis, other, cap);
    let longer = if axis >= other {
        axis
    } else {
        other
    };
    lemma_ceil_covers(longer, cap);
    assert(axis <= stride * cap) by (nonlinear_arith)
        requires
            axis <= longer,
            longer <= ceil_div(longer, cap) * cap,
            ceil_div(longer, cap) <= stride,
            cap > 0,
    ;
    assert((axis + stride - 1) / stride <= cap) by (nonlinear_arith)
        requires
            axis <= stride * cap,
            stride >= 1,
    ;
}

proof fn lemma_ceil_covers(n: int, d: int)
    requires
        n >= 0,
        d > 0,
    ensures
        n <= ceil_div(n, d) * d,
        n > 0 ==> (ceil_div(n, d) - 1) * d < n,
        ceil_div(n, d) >= 0,
{
    let q = (n + d - 1) / d;
    vstd::arithmetic::div_mod::lemma_fundamental_div_mod(n + d - 1, d);
    let r = (n + d - 1) % d;
    assert(n + d - 1 == d * q + r && 0 <= r < d);
    assert(n <= q * d && (q - 1) * d < n + 1 && q >= 0) by (nonlinear_arith)
        requires
            n + d - 1 == d * q + r,
            0 <= r < d,
            n >= 0,
            d > 0,
    ;
    assert((q - 1) * d < n || n == 0) by (nonlinear_arith)
        requires
            n + d - 1 == d * q + r,
            0 <= r < d,
            n >= 0,
    ;
}

/// A world that is no longer than `cap` along either axis is sampled at every point.
pub proof fn law_small_worlds_keep_full_resolution(width: int, height: int, cap: int)
    requires
        1 <= width <= cap,
        1 <= height <= cap,
    ensures
        dims_for(width, height, cap) == (1int, width, height),
{
    let longer = if width >= height {
        width
    } else {
        height
    };
    assert((longer + cap - 1) / cap == 1) by (nonlinear_arith)
        requires
            1 <= longer <= cap,
    ;
    assert(stride_for(width, height, cap) == 1);
    assert(ceil_div(width, 1) == width && ceil_div(height, 1) == height) by (nonlinear_arith);
}

/// Every point of an axis that is not empty lies less than a stride behind a sample, and every
/// sample lies on the axis.
pub proof fn law_grid_covers_axis(axis: int, stride: int, x: int)
    requires
        axis > 0,
        stride > 0,
        0 <= x < axis,
    ensures
        ({
            let i = x / stride;
            0 <= i < samples_along(axis, stride) && i * stride <= x < (i + 1) * stride
        }),
        (samples_along(axis, stride) - 1) * stride < axis,
{
    let i = x / stride;
    let n = samples_along(axis, stride);
    lemma_ceil_covers(axis, stride);
    vstd::arithmetic::div_mod::lemma_fundamental_div_mod(x, stride);
    assert(i * stride <= x < (i + 1) * stride && i >= 0) by (nonlinear_arith)
        requires
            x == stride * i + x % stride,
            0 <= x % stride < stride,
            x >= 0,
    ;
    assert(ceil_div(axis, stride) >= 1) by (nonlinear_arith)
        requires
            axis <= ceil_div(axis, stride) * stride,
            axis > 0,
            stride > 0,
    ;
    assert(i < n) by (nonlinear_arith)
        requires
            i * stride <= x,
            x < axis,
            axis <= n * stride,
            stride > 0,
    ;
}

/// A point that is sampled.
#[derive(Clone, Copy, Debug, PartialEq, Eq, Structural)]
pub struct SamplePoint {
    pub x: u32,
    pub y: u32,
}

/// A row of samples.
pub open spec fn sample_row(y: int, stride: int, width: nat) -> Seq<SamplePoint> {
    Seq::new(width, |i: int| SamplePoint { x: (i * stride) as u32, y: y as u32 })
}

/// The samples of a grid, row by row.
pub open spec fn sample_grid(stride: int, width: nat, height: nat) -> Seq<SamplePoint>
    decreases height,
{
    if height == 0 {
        Seq::empty()
    } else {
        sample_grid(stride, width, (height - 1) as nat) + sample_row(
            (height - 1) * stride,
            stride,
            width,
        )
    }
}

/// The samples of the grid of a world that is not empty, row by row; all of them lie in the
/// world.
pub fn sample_points(width: u32, height: u32, cap: u32) -> (points: Vec<SamplePoint>)
    requires
        cap > 0,
        width > 0,
        height > 0,
    ensures
        ({
            let (stride, w, h) = dims_for(width as int, height as int, cap as int);
            points@ == sample_grid(stride, w as nat, h as nat)
        }),
        forall|k: int|
            0 <= k < points@.len() ==> (#[trigger] points@[k]).x < width && points@[k].y < height,
{
    let (stride, w, h): (u32, u32, u32) = grid_dims(width, height, cap);
    proof {
        law_grid_is_bounded(width as int, height as int, cap as int);
        law_grid_covers_axis(width as int, stride as int, 0);
        law_grid_covers_axis(height as int, stride as int, 0);
    }
    let mut points: Vec<SamplePoint> = Vec::new();
    let mut j: u32 = 0;
    while j < h
        invariant
            j <= h,
            stride >= 1,
            width > 0,
            height > 0,
            (w - 1) * stride < width,
            (h - 1) * stride < height,
            points@ == sample_grid(stride as int, w as nat, j as nat),
            forall|k: int|
                0 <= k < points@.len() ==> (#[trigger] points@[k]).x < width && points@[k].y
                    < height,
        decreases h - j,
    {
        let ghost above = points@;
        proof {
            lemma_before_last(j as int, h as int, stride as int);
        }
        let y: u32 = j * stride;
        let mut i: u32 = 0;
        assert(points@ =~= above + sample_row(j * stride, stride as int, 0));
        while i < w
            invariant
                i <= w,
                j < h,
                stride >= 1,
                width > 0,
                height > 0,
                (w - 1) * stride < width,
                y == j * stride,
                y < height,
                points@ == above + sample_row(j * stride, stride as int, i as nat),
                forall|k: int|
                    0 <= k < points@.len() ==> (#[trigger] points@[k]).x < width && points@[k].y
                        < height,
            decreases w - i,
        {
            proof {
                lemma_before_last(i as int, w as int, stride as int);
            }
            points.push(SamplePoint { x: i * stride, y });
            i += 1;
            assert(points@ =~= above + sample_row(j * stride, stride as int, i as nat));
        }
        j += 1;
    }
    points
}

proof fn lemma_before_last(i: int, n: int, stride: int)
    requires
        0 <= i < n,
        stride >= 1,
    ensures
        0 <= i * stride <= (n - 1) * stride,
{
    assert(0 <= i * stride <= (n - 1) * stride) by (nonlinear_arith)
        requires
            0 <= i < n,
            stride >= 1,
    ;
}

/// The samples of a grid lie row by row: the one in a column of a row is as many strides along
/// and as many down, and there is one for every column of every row.
pub proof fn law_samples_lie_row_by_row(stride: int, width: nat, height: nat, column: int, row: int)
    requires
        stride > 0,
        0 <= column < width,
        0 <= row < height,
        (width - 1) * stride <= u32::MAX,
        (height - 1) * stride <= u32::MAX,
    ensures
        sample_grid(stride, width, height).len() == width * height,
        0 <= row * width + column < width * height,
        sample_grid(stride, width, height)[row * width + column].x == column * stride,
        sample_grid(stride, width, height)[row * width + column].y == row * stride,
    decreases height,
{
    lemma_grid_len(stride, width, height);
    let up = (height - 1) as nat;
    lemma_grid_len(stride, width, up);
    let above = sample_grid(stride, width, up);
    assert(width * height == width * up + width) by (nonlinear_arith)
        requires
            up == height - 1,
    ;
    assert((up - 1) * stride <= (height - 1) * stride) by (nonlinear_arith)
        requires
            up <= height,
            stride > 0,
    ;
    assert(row * width == width * row) by (nonlinear_arith);
    if row < up {
        law_samples_lie_row_by_row(stride, width, up, column, row);
        assert(sample_grid(stride, width, height)[row * width + column] == above[row * width
            + column]);
    } else {
        assert(0 <= column * stride <= (width - 1) * stride) by (nonlinear_arith)
            requires
                0 <= column <= width - 1,
                stride > 0,
        ;
        assert(0 <= row * stride <= (height - 1) * stride) by (nonlinear_arith)
            requires
                0 <= row <= height - 1,
                stride > 0,
        ;
    }
}

proof fn lemma_grid_len(stride: int, width: nat, height: nat)
    ensures
        sample_grid(stride, width, height).len() == width * height,
    decreases height,
{
    if height > 0 {
        let up = (height - 1) as nat;
        lemma_grid_len(stride, width, up);
        assert(width * height == width * up + width) by (nonlinear_arith)
            requires
                up == height - 1,
        ;
    } else {
        assert(width * height == 0) by (nonlinear_arith)
            requires
                height == 0,
        ;
    }
}

/// The stride is the smallest with which the longer side takes no more samples than allowed:
/// with any smaller one it would take more.
pub proof fn law_stride_is_the_smallest(width: int, height: int, cap: int, smaller: int)
    requires
        width >= 0,
        height >= 0,
        cap > 0,
        1 <= smaller < dims_for(width, height, cap).0,
    ensures
        width > smaller * cap || height > smaller * cap,
{
    let longer = if width >= height {
        width
    } else {
        height
    };
    lemma_ceil(longer, cap);
    let c = ceil_div(longer, cap);
    assert(smaller * cap <= (c - 1) * cap) by (nonlinear_arith)
        requires
            smaller <= c - 1,
            cap > 0,
    ;
}

/// With the stride of a world the samples that are allowed reach over either side, and the
/// samples along a side are the fewest that reach its end.
pub proof fn law_grid_reaches_both_ends(width: int, height: int, cap: int)
    requires
        width >= 0,
        height >= 0,
        cap > 0,
    ensures
        ({
            let (stride, w, h) = dims_for(width, height, cap);
            &&& stride >= 1
            &&& width <= stride * cap
            &&& height <= stride * cap
            &&& width > 0 ==> (w - 1) * stride < width <= w * stride
            &&& height > 0 ==> (h - 1) * stride < height <= h * stride
            &&& width == 0 ==> w == 1
            &&& height == 0 ==> h == 1
        }),
{
    let longer = if width >= height {
        width
    } else {
        height
    };
    let (stride, w, h) = dims_for(width, height, cap);
    lemma_ceil(longer, cap);
    lemma_ceil(width, stride);
    lemma_ceil(height, stride);
    let c = ceil_div(longer, cap);
    assert(c * cap <= stride * cap) by (nonlinear_arith)
        requires
            c <= stride,
            cap > 0,
    ;
    if width > 0 {
        assert(ceil_div(width, stride) >= 1) by (nonlinear_arith)
            requires
                ceil_div(width, stride) * stride >= width,
                width > 0,
                stride > 0,
        ;
    } else {
        assert(ceil_div(width, stride) <= 1) by (nonlinear_arith)
            requires
                (ceil_div(width, stride) - 1) * stride < width,
                width == 0,
                stride > 0,
        ;
    }
    if height > 0 {
        assert(ceil_div(height, stride) >= 1) by (nonlinear_arith)
            requires
                ceil_div(height, stride) * stride >= height,
                height > 0,
                stride > 0,
        ;
    } else {
        assert(ceil_div(height, stride) <= 1) by (nonlinear_arith)
            requires
                (ceil_div(height, stride) - 1) * stride < height,
                height == 0,
                stride > 0,
        ;
    }
}

/// Rounding a quotient up gives the smallest number that covers.
proof fn lemma_ceil(n: int, d: int)
    requires
        n >= 0,
        d > 0,
    ensures
        (ceil_div(n, d) - 1) * d < n <= ceil_div(n, d) * d,
{
    let m = n + d - 1;
    let q = m / d;
    vstd::arithmetic::div_mod::lemma_fundamental_div_mod(m, d);
    assert(0 <= m % d < d);
    assert(q * d == d * q && (q - 1) * d == d * q - d) by (nonlinear_arith);
}

} // verus!
