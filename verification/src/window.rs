use vstd::prelude::*;
use crate::geometry::FilterConfig;
use crate::kernel::TABLE_SIZE;

verus! {

/// The largest mask sample and the largest weight.
pub const SAMPLE_MAX: u128 = 0xFFFF_FFFF;

/// Quantized absolute difference of two intensities.
pub open spec fn gap(a: i32, b: i32) -> int {
    if a >= b {
        a - b
    } else {
        b - a
    }
}

/// Weight of the sample at `at` in the window around `center`: the kernel
/// weight of its intensity difference to the center. No distance term enters.
pub open spec fn weight_of(source: Seq<i32>, table: Seq<u32>, center: int, at: int) -> int {
    table[gap(source[at], source[center])] as int
}

/// Whether the sample at `at` differs from the center by no more than the
/// table covers.
pub open spec fn in_domain(source: Seq<i32>, center: int, at: int) -> bool {
    gap(source[at], source[center]) < TABLE_SIZE
}

/// Sum of the weights of `len` samples from `start` on.
pub open spec fn row_norm(source: Seq<i32>, table: Seq<u32>, center: int, start: int, len: nat) -> int
    decreases len,
{
    if len == 0 {
        0
    } else {
        row_norm(source, table, center, start, (len - 1) as nat) + weight_of(
            source,
            table,
            center,
            start + len - 1,
        )
    }
}

/// Weighted sum of the mask over `len` samples from `start` on.
pub open spec fn row_sum(
    source: Seq<i32>,
    mask: Seq<u32>,
    table: Seq<u32>,
    center: int,
    start: int,
    len: nat,
) -> int
    decreases len,
{
    if len == 0 {
        0
    } else {
        row_sum(source, mask, table, center, start, (len - 1) as nat) + mask[start + len - 1]
            * weight_of(source, table, center, start + len - 1)
    }
}

/// Sum of the weights over `rows` rows of `side` samples, the first at
/// `origin`, each `stride` after the one before.
pub open spec fn block_norm(
    source: Seq<i32>,
    table: Seq<u32>,
    center: int,
    origin: int,
    stride: int,
    side: nat,
    rows: nat,
) -> int
    decreases rows,
{
    if rows == 0 {
        0
    } else {
        block_norm(source, table, center, origin, stride, side, (rows - 1) as nat) + row_norm(
            source,
            table,
            center,
            origin + (rows - 1) * stride,
            side,
        )
    }
}

/// Weighted sum of the mask over the same rows.
pub open spec fn block_sum(
    source: Seq<i32>,
    mask: Seq<u32>,
    table: Seq<u32>,
    center: int,
    origin: int,
    stride: int,
    side: nat,
    rows: nat,
) -> int
    decreases rows,
{
    if rows == 0 {
        0
    } else {
        block_sum(source, mask, table, center, origin, stride, side, (rows - 1) as nat) + row_sum(
            source,
            mask,
            table,
            center,
            origin + (rows - 1) * stride,
            side,
        )
    }
}

/// Whether the sample in row `r`, column `c` of a window is in the table's
/// domain.
pub open spec fn cell_in_domain(
    source: Seq<i32>,
    center: int,
    origin: int,
    stride: int,
    r: int,
    c: int,
) -> bool {
    in_domain(source, center, origin + r * stride + c)
}

/// Index of the middle sample of the window that starts at `origin`.
pub open spec fn window_center(origin: int, stride: int, radius: int) -> int {
    origin + radius * stride + radius
}

/// Whether every sample of the window that starts at `origin` is in the
/// table's domain.
pub open spec fn window_in_domain(source: Seq<i32>, origin: int, stride: int, radius: int) -> bool {
    forall|r: int, c: int|
        0 <= r < 2 * radius + 1 && 0 <= c < 2 * radius + 1 ==> #[trigger] cell_in_domain(
            source,
            window_center(origin, stride, radius),
            origin,
            stride,
            r,
            c,
        )
}

/// The refined mask value of a window: the weighted sum of the mask divided
/// by the sum of the weights, rounded down.
pub open spec fn window_mean(
    source: Seq<i32>,
    mask: Seq<u32>,
    table: Seq<u32>,
    origin: int,
    stride: int,
    radius: int,
) -> int {
    let center = window_center(origin, stride, radius);
    let side = (2 * radius + 1) as nat;
    block_sum(source, mask, table, center, origin, stride, side, side) / block_norm(
        source,
        table,
        center,
        origin,
        stride,
        side,
        side,
    )
}

/// The refined mask value of output pixel `(y, x)`.
pub open spec fn refined(
    source: Seq<i32>,
    mask: Seq<u32>,
    table: Seq<u32>,
    config: FilterConfig,
    y: int,
    x: int,
) -> int {
    window_mean(
        source,
        mask,
        table,
        config.origin(y, x),
        config.padded_width(),
        config.spatial_radius as int,
    )
}

/// Whether the window of output pixel `(y, x)` is in the table's domain.
pub open spec fn pixel_in_domain(source: Seq<i32>, config: FilterConfig, y: int, x: int) -> bool {
    window_in_domain(
        source,
        config.origin(y, x),
        config.padded_width(),
        config.spatial_radius as int,
    )
}

/// Whether the windows of the first `count` output pixels, in row-major
/// order, are in the table's domain.
pub open spec fn prefix_in_domain(source: Seq<i32>, config: FilterConfig, count: int) -> bool {
    forall|p: int|
        0 <= p < count ==> #[trigger] pixel_in_domain(
            source,
            config,
            p / (config.width as int),
            p % (config.width as int),
        )
}

/// Whether every window of the pass is in the table's domain.
pub open spec fn all_in_domain(source: Seq<i32>, config: FilterConfig) -> bool {
    prefix_in_domain(source, config, config.output_len())
}

/// The weights of a row are not negative, and their sum is at least each of
/// them.
pub proof fn lemma_row_norm_lower(
    source: Seq<i32>,
    table: Seq<u32>,
    center: int,
    start: int,
    len: nat,
    k: int,
)
    requires
        0 <= k < len,
    ensures
        row_norm(source, table, center, start, len) >= weight_of(source, table, center, start + k),
        row_norm(source, table, center, start, len) >= 0,
    decreases len,
{
    lemma_row_norm_nonnegative(source, table, center, start, (len - 1) as nat);
    if k < len - 1 {
        lemma_row_norm_lower(source, table, center, start, (len - 1) as nat, k);
    }
}

pub proof fn lemma_row_norm_nonnegative(
    source: Seq<i32>,
    table: Seq<u32>,
    center: int,
    start: int,
    len: nat,
)
    ensures
        row_norm(source, table, center, start, len) >= 0,
    decreases len,
{
    if len > 0 {
        lemma_row_norm_nonnegative(source, table, center, start, (len - 1) as nat);
    }
}

pub proof fn lemma_block_norm_nonnegative(
    source: Seq<i32>,
    table: Seq<u32>,
    center: int,
    origin: int,
    stride: int,
    side: nat,
    rows: nat,
)
    ensures
        block_norm(source, table, center, origin, stride, side, rows) >= 0,
    decreases rows,
{
    if rows > 0 {
        lemma_block_norm_nonnegative(source, table, center, origin, stride, side, (rows - 1) as nat);
        lemma_row_norm_nonnegative(source, table, center, origin + (rows - 1) * stride, side);
    }
}

/// The sum of the weights of a block is at least the weight of each of its
/// samples.
pub proof fn lemma_block_norm_lower(
    source: Seq<i32>,
    table: Seq<u32>,
    center: int,
    origin: int,
    stride: int,
    side: nat,
    rows: nat,
    r: int,
    c: int,
)
    requires
        0 <= r < rows,
        0 <= c < side,
    ensures
        block_norm(source, table, center, origin, stride, side, rows) >= weight_of(
            source,
            table,
            center,
            origin + r * stride + c,
        ),
    decreases rows,
{
    lemma_block_norm_nonnegative(source, table, center, origin, stride, side, (rows - 1) as nat);
    lemma_row_norm_nonnegative(source, table, center, origin + (rows - 1) * stride, side);
    if r < rows - 1 {
        lemma_block_norm_lower(source, table, center, origin, stride, side, (rows - 1) as nat, r, c);
    } else {
        lemma_row_norm_lower(source, table, center, origin + r * stride, side, c);
    }
}

/// The norm of a window is positive whenever the table gives equal
/// intensities a positive weight: the center is one of its samples.
pub proof fn lemma_norm_positive(
    source: Seq<i32>,
    table: Seq<u32>,
    origin: int,
    stride: int,
    radius: int,
)
    requires
        radius >= 0,
        table.len() > 0,
        table[0] > 0,
    ensures
        block_norm(
            source,
            table,
            window_center(origin, stride, radius),
            origin,
            stride,
            (2 * radius + 1) as nat,
            (2 * radius + 1) as nat,
        ) > 0,
{
    let center = window_center(origin, stride, radius);
    let side = (2 * radius + 1) as nat;
    lemma_block_norm_lower(source, table, center, origin, stride, side, side, radius, radius);
    assert(gap(source[center], source[center]) == 0);
}

/// Computes the refined mask value of one window, or finds a sample of it
/// whose intensity difference to the center the table does not cover.
pub fn refine_window(
    source: &[i32],
    mask: &[u32],
    table: &[u32],
    origin: usize,
    stride: usize,
    radius: usize,
) -> (value: Option<u32>)
    requires
        table@.len() == TABLE_SIZE,
        table@[0] > 0,
        origin + 2 * radius * stride + 2 * radius < source@.len(),
        origin + 2 * radius * stride + 2 * radius < mask@.len(),
        (2 * radius + 1) * (2 * radius + 1) <= usize::MAX,
    ensures
        value is Some <==> window_in_domain(source@, origin as int, stride as int, radius as int),
        value is Some ==> value->0 == window_mean(
            source@,
            mask@,
            table@,
            origin as int,
            stride as int,
            radius as int,
        ),
{
    let source_len: usize = source.len();
    proof {
        assert(0 <= radius * stride <= 2 * radius * stride) by (nonlinear_arith);
    }
    let side: usize = 2 * radius + 1;
    let center: usize = origin + radius * stride + radius;
    let pivot: i64 = source[center] as i64;
    let mut norm: u128 = 0;
    let mut sum: u128 = 0;
    let mut r: usize = 0;
    while r < side
        invariant
            r <= side,
            side == 2 * radius + 1,
            side * side <= usize::MAX,
            center == window_center(origin as int, stride as int, radius as int),
            center < source@.len(),
            source@.len() <= usize::MAX,
            pivot == source@[center as int],
            table@.len() == TABLE_SIZE,
            origin + 2 * radius * stride + 2 * radius < source@.len(),
            origin + 2 * radius * stride + 2 * radius < mask@.len(),
            norm == block_norm(source@, table@, center as int, origin as int, stride as int, side as nat, r as nat),
            sum == block_sum(source@, mask@, table@, center as int, origin as int, stride as int, side as nat, r as nat),
            norm <= r * side * SAMPLE_MAX,
            sum <= SAMPLE_MAX * norm,
            forall|i: int, j: int|
                0 <= i < r && 0 <= j < side ==> #[trigger] cell_in_domain(
                    source@,
                    center as int,
                    origin as int,
                    stride as int,
                    i,
                    j,
                ),
        decreases side - r,
    {
        proof {
            assert(0 <= r * stride <= 2 * radius * stride) by (nonlinear_arith)
                requires
                    0 <= r <= 2 * radius,
                    0 <= stride,
            ;
        }
        let start: usize = origin + r * stride;
        let mut row_n: u128 = 0;
        let mut row_s: u128 = 0;
        let mut c: usize = 0;
        while c < side
            invariant
                c <= side,
                r < side,
                side == 2 * radius + 1,
                side * side <= usize::MAX,
                start == origin + r * stride,
                start + 2 * radius < source@.len(),
                start + 2 * radius < mask@.len(),
                center == window_center(origin as int, stride as int, radius as int),
                center < source@.len(),
                source@.len() <= usize::MAX,
                pivot == source@[center as int],
                table@.len() == TABLE_SIZE,
                row_n == row_norm(source@, table@, center as int, start as int, c as nat),
                row_s == row_sum(source@, mask@, table@, center as int, start as int, c as nat),
                row_n <= c * SAMPLE_MAX,
                row_s <= SAMPLE_MAX * row_n,
                forall|j: int|
                    0 <= j < c ==> #[trigger] cell_in_domain(
                        source@,
                        center as int,
                        origin as int,
                        stride as int,
                        r as int,
                        j,
                    ),
            decreases side - c,
        {
            let at: usize = start + c;
            let sample: i64 = source[at] as i64;
            let d: i64 = if sample >= pivot {
                sample - pivot
            } else {
                pivot - sample
            };
            assert(d == gap(source@[at as int], source@[center as int]));
            if d > 255 {
                proof {
                    assert(!cell_in_domain(
                        source@,
                        center as int,
                        origin as int,
                        stride as int,
                        r as int,
                        c as int,
                    ));
                }
                return None;
            }
            let weight: u128 = table[d as usize] as u128;
            let m: u128 = mask[at] as u128;
            proof {
                assert(weight == weight_of(source@, table@, center as int, at as int));
                assert(side <= usize::MAX) by (nonlinear_arith)
                    requires
                        side * side <= usize::MAX,
                        side >= 1,
                ;
                assert(m * weight <= SAMPLE_MAX * weight) by (nonlinear_arith)
                    requires
                        m <= SAMPLE_MAX,
                        weight >= 0,
                ;
                assert(row_s + m * weight <= SAMPLE_MAX * (row_n + weight)) by (nonlinear_arith)
                    requires
                        row_s <= SAMPLE_MAX * row_n,
                        m * weight <= SAMPLE_MAX * weight,
                ;
                assert(row_n + weight <= (c + 1) * SAMPLE_MAX) by (nonlinear_arith)
                    requires
                        row_n <= c * SAMPLE_MAX,
                        weight <= SAMPLE_MAX,
                ;
                assert(SAMPLE_MAX * (row_n + weight) <= 0xFFFF_FFFF * (0x1_0000_0000_0000_0000
                    * 0xFFFF_FFFF)) by (nonlinear_arith)
                    requires
                        row_n + weight <= (c + 1) * SAMPLE_MAX,
                        c + 1 <= 0x1_0000_0000_0000_0000,
                        SAMPLE_MAX == 0xFFFF_FFFF,
                ;
            }
            row_n = row_n + weight;
            row_s = row_s + m * weight;
            c = c + 1;
        }
        proof {
            assert((r + 1) * side <= side * side) by (nonlinear_arith)
                requires
                    r + 1 <= side,
                    side >= 0,
            ;
            assert(norm + row_n <= (r + 1) * side * SAMPLE_MAX) by (nonlinear_arith)
                requires
                    norm <= r * side * SAMPLE_MAX,
                    row_n <= side * SAMPLE_MAX,
            ;
            assert((r + 1) * side * SAMPLE_MAX <= 0x1_0000_0000_0000_0000 * 0xFFFF_FFFF)
                by (nonlinear_arith)
                requires
                    (r + 1) * side <= 0x1_0000_0000_0000_0000,
                    SAMPLE_MAX == 0xFFFF_FFFF,
            ;
            assert(sum + row_s <= SAMPLE_MAX * (norm + row_n)) by (nonlinear_arith)
                requires
                    sum <= SAMPLE_MAX * norm,
                    row_s <= SAMPLE_MAX * row_n,
            ;
            assert(SAMPLE_MAX * (norm + row_n) <= 0xFFFF_FFFF * (0x1_0000_0000_0000_0000
                * 0xFFFF_FFFF)) by (nonlinear_arith)
                requires
                    norm + row_n <= 0x1_0000_0000_0000_0000 * 0xFFFF_FFFF,
                    SAMPLE_MAX == 0xFFFF_FFFF,
            ;
            assert forall|i: int, j: int| 0 <= i < r + 1 && 0 <= j < side implies #[trigger] cell_in_domain(
                source@,
                center as int,
                origin as int,
                stride as int,
                i,
                j,
            ) by {
                if i == r {
                    assert(cell_in_domain(source@, center as int, origin as int, stride as int, r as int, j));
                }
            }
        }
        norm = norm + row_n;
        sum = sum + row_s;
        r = r + 1;
    }
    proof {
        lemma_norm_positive(source@, table@, origin as int, stride as int, radius as int);
        assert(sum / norm <= SAMPLE_MAX) by (nonlinear_arith)
            requires
                sum <= SAMPLE_MAX * norm,
                norm > 0,
                sum >= 0,
        ;
    }
    Some((sum / norm) as u32)
}

} // verus!
