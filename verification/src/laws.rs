use vstd::prelude::*;
use vstd::arithmetic::div_mod::{
    lemma_div_is_ordered, lemma_div_is_ordered_by_denominator, lemma_div_multiples_vanish_quotient,
};
use crate::engine::{is_pass_output, JointBilateralFilter2};
use crate::geometry::{lemma_pixel_of_index, lemma_row_major, FilterConfig};
use crate::kernel::{install_rejection, range_after, table_after, usable_table, TABLE_SIZE};
use crate::window::{
    all_in_domain, block_norm, block_sum, cell_in_domain, gap, in_domain, lemma_norm_positive,
    pixel_in_domain, refined, row_norm, row_sum, weight_of, window_center,
};

verus! {

/// Index of the sample in row `r`, column `c` of the window at `origin`.
pub open spec fn cell(origin: int, stride: int, r: int, c: int) -> int {
    origin + r * stride + c
}

/// Plain sum of the mask over `len` samples from `start` on.
pub open spec fn row_total(mask: Seq<u32>, start: int, len: nat) -> int
    decreases len,
{
    if len == 0 {
        0
    } else {
        row_total(mask, start, (len - 1) as nat) + mask[start + len - 1]
    }
}

/// Plain sum of the mask over `rows` rows of `side` samples.
pub open spec fn block_total(mask: Seq<u32>, origin: int, stride: int, side: nat, rows: nat) -> int
    decreases rows,
{
    if rows == 0 {
        0
    } else {
        block_total(mask, origin, stride, side, (rows - 1) as nat) + row_total(
            mask,
            origin + (rows - 1) * stride,
            side,
        )
    }
}

/// The plain sum of the mask over the window of output pixel `(y, x)`.
pub open spec fn box_total(mask: Seq<u32>, config: FilterConfig, y: int, x: int) -> int {
    block_total(
        mask,
        config.origin(y, x),
        config.padded_width(),
        config.side() as nat,
        config.side() as nat,
    )
}

/// The unweighted mean of the mask over the window of output pixel `(y, x)`,
/// rounded down.
pub open spec fn box_mean(mask: Seq<u32>, config: FilterConfig, y: int, x: int) -> int {
    box_total(mask, config, y, x) / (config.side() * config.side())
}

proof fn lemma_row_bounded(
    source: Seq<i32>,
    mask: Seq<u32>,
    table: Seq<u32>,
    center: int,
    start: int,
    len: nat,
    lo: u32,
    hi: u32,
)
    requires
        forall|k: int| start <= k < start + len ==> lo <= #[trigger] mask[k] <= hi,
    ensures
        lo * row_norm(source, table, center, start, len) <= row_sum(
            source,
            mask,
            table,
            center,
            start,
            len,
        ) <= hi * row_norm(source, table, center, start, len),
    decreases len,
{
    if len > 0 {
        lemma_row_bounded(source, mask, table, center, start, (len - 1) as nat, lo, hi);
        let a = row_norm(source, table, center, start, (len - 1) as nat);
        let s = row_sum(source, mask, table, center, start, (len - 1) as nat);
        let w = weight_of(source, table, center, start + len - 1);
        let m = mask[start + len - 1] as int;
        assert(lo * (a + w) <= s + m * w <= hi * (a + w)) by (nonlinear_arith)
            requires
                lo * a <= s <= hi * a,
                lo <= m <= hi,
                w >= 0,
        ;
    }
}

proof fn lemma_block_bounded(
    source: Seq<i32>,
    mask: Seq<u32>,
    table: Seq<u32>,
    center: int,
    origin: int,
    stride: int,
    side: nat,
    rows: nat,
    lo: u32,
    hi: u32,
)
    requires
        forall|r: int, c: int|
            0 <= r < rows && 0 <= c < side ==> lo <= mask[#[trigger] cell(origin, stride, r, c)]
                <= hi,
    ensures
        lo * block_norm(source, table, center, origin, stride, side, rows) <= block_sum(
            source,
            mask,
            table,
            center,
            origin,
            stride,
            side,
            rows,
        ) <= hi * block_norm(source, table, center, origin, stride, side, rows),
    decreases rows,
{
    if rows > 0 {
        lemma_block_bounded(
            source,
            mask,
            table,
            center,
            origin,
            stride,
            side,
            (rows - 1) as nat,
            lo,
            hi,
        );
        let start = origin + (rows - 1) * stride;
        assert forall|k: int| start <= k < start + side implies lo <= #[trigger] mask[k] <= hi by {
            assert(cell(origin, stride, rows - 1, k - start) == k);
        }
        lemma_row_bounded(source, mask, table, center, start, side, lo, hi);
        let a = block_norm(source, table, center, origin, stride, side, (rows - 1) as nat);
        let b = row_norm(source, table, center, start, side);
        assert(lo * a + lo * b == lo * (a + b)) by (nonlinear_arith);
        assert(hi * a + hi * b == hi * (a + b)) by (nonlinear_arith);
    }
}

/// The refined value of a pixel is a weighted mean: it lies between any two
/// bounds that hold of the mask on the whole padded extent, whatever the
/// source and the weights are.
pub proof fn law_refined_within_mask_bounds(
    source: Seq<i32>,
    mask: Seq<u32>,
    table: Seq<u32>,
    config: FilterConfig,
    lo: u32,
    hi: u32,
    y: int,
    x: int,
)
    requires
        usable_table(table),
        0 <= y < config.height,
        0 <= x < config.width,
        forall|k: int| 0 <= k < config.padded_len() ==> lo <= #[trigger] mask[k] <= hi,
    ensures
        lo <= refined(source, mask, table, config, y, x) <= hi,
{
    let origin = config.origin(y, x);
    let stride = config.padded_width();
    let radius = config.spatial_radius as int;
    let side = config.side() as nat;
    let center = window_center(origin, stride, radius);
    assert forall|r: int, c: int| 0 <= r < side && 0 <= c < side implies lo <= mask[#[trigger] cell(
        origin,
        stride,
        r,
        c,
    )] <= hi by {
        config.lemma_cell_inside(y, x, r, c);
    }
    lemma_block_bounded(source, mask, table, center, origin, stride, side, side, lo, hi);
    lemma_norm_positive(source, table, origin, stride, radius);
    let norm = block_norm(source, table, center, origin, stride, side, side);
    let sum = block_sum(source, mask, table, center, origin, stride, side, side);
    assert(lo <= sum / norm <= hi) by (nonlinear_arith)
        requires
            lo * norm <= sum <= hi * norm,
            norm > 0,
    ;
}

/// Over a mask that is `v` on the whole padded extent, the refined value of
/// every output pixel is `v`, whatever the source and the weights are.
pub proof fn law_constant_mask_pixel(
    source: Seq<i32>,
    mask: Seq<u32>,
    table: Seq<u32>,
    config: FilterConfig,
    v: u32,
    y: int,
    x: int,
)
    requires
        usable_table(table),
        0 <= y < config.height,
        0 <= x < config.width,
        forall|k: int| 0 <= k < config.padded_len() ==> mask[k] == v,
    ensures
        refined(source, mask, table, config, y, x) == v,
{
    law_refined_within_mask_bounds(source, mask, table, config, v, v, y, x);
}

/// A pass over a mask that is `v` on the whole padded extent writes `v` to
/// every output pixel, whatever the source and the weights are.
pub proof fn law_constant_mask(
    source: Seq<i32>,
    mask: Seq<u32>,
    table: Seq<u32>,
    config: FilterConfig,
    before: Seq<u32>,
    after: Seq<u32>,
    v: u32,
)
    requires
        usable_table(table),
        config.width > 0,
        config.output_len() <= after.len(),
        is_pass_output(source, mask, table, config, before, after),
        forall|k: int| 0 <= k < config.padded_len() ==> mask[k] == v,
    ensures
        forall|p: int| 0 <= p < config.output_len() ==> after[p] == v,
{
    assert forall|p: int| 0 <= p < config.output_len() implies after[p] == v by {
        lemma_pixel_of_index(config.width as int, config.height as int, p);
        law_constant_mask_pixel(
            source,
            mask,
            table,
            config,
            v,
            p / (config.width as int),
            p % (config.width as int),
        );
        assert(after[p] as int == v);
    }
}

/// With radius zero the window of a pixel is the pixel alone, and its refined
/// value is its own mask sample.
pub proof fn law_zero_radius_pixel(
    source: Seq<i32>,
    mask: Seq<u32>,
    table: Seq<u32>,
    config: FilterConfig,
    y: int,
    x: int,
)
    requires
        usable_table(table),
        config.spatial_radius == 0,
    ensures
        refined(source, mask, table, config, y, x) == mask[y * config.width + x],
{
    let origin = config.origin(y, x);
    let stride = config.padded_width();
    let center = window_center(origin, stride, 0);
    assert(center == origin) by (nonlinear_arith)
        requires
            center == origin + 0 * stride + 0,
    ;
    assert(origin + (1 - 1) * stride == origin) by (nonlinear_arith);
    reveal_with_fuel(block_sum, 2);
    reveal_with_fuel(block_norm, 2);
    reveal_with_fuel(row_sum, 2);
    reveal_with_fuel(row_norm, 2);
    assert(gap(source[origin], source[origin]) == 0);
    let t = table[0] as int;
    let m = mask[origin] as int;
    assert(block_norm(source, table, center, origin, stride, 1, 1) == t);
    assert(block_sum(source, mask, table, center, origin, stride, 1, 1) == m * t);
    assert((m * t) / t == m) by (nonlinear_arith)
        requires
            t > 0,
    ;
}

/// A pass with radius zero copies the mask to the output.
pub proof fn law_zero_radius(
    source: Seq<i32>,
    mask: Seq<u32>,
    table: Seq<u32>,
    config: FilterConfig,
    before: Seq<u32>,
    after: Seq<u32>,
)
    requires
        usable_table(table),
        config.width > 0,
        config.spatial_radius == 0,
        config.output_len() <= after.len(),
        is_pass_output(source, mask, table, config, before, after),
    ensures
        forall|p: int| 0 <= p < config.output_len() ==> after[p] == mask[p],
{
    assert forall|p: int| 0 <= p < config.output_len() implies after[p] == mask[p] by {
        lemma_pixel_of_index(config.width as int, config.height as int, p);
        law_zero_radius_pixel(
            source,
            mask,
            table,
            config,
            p / (config.width as int),
            p % (config.width as int),
        );
        assert(after[p] as int == mask[p]);
    }
}

/// Every weight of the table lies between `lo` and `hi`.
pub open spec fn table_within(table: Seq<u32>, lo: u32, hi: u32) -> bool {
    &&& table.len() == TABLE_SIZE
    &&& forall|d: int| 0 <= d < TABLE_SIZE ==> lo <= #[trigger] table[d] <= hi
}

proof fn lemma_row_banded(
    source: Seq<i32>,
    mask: Seq<u32>,
    table: Seq<u32>,
    center: int,
    start: int,
    len: nat,
    lo: u32,
    hi: u32,
)
    requires
        table_within(table, lo, hi),
        forall|k: int| start <= k < start + len ==> in_domain(source, center, k),
    ensures
        lo * len <= row_norm(source, table, center, start, len) <= hi * len,
        lo * row_total(mask, start, len) <= row_sum(source, mask, table, center, start, len) <= hi
            * row_total(mask, start, len),
    decreases len,
{
    if len > 0 {
        lemma_row_banded(source, mask, table, center, start, (len - 1) as nat, lo, hi);
        let k = start + len - 1;
        assert(in_domain(source, center, k));
        let w = weight_of(source, table, center, k);
        assert(lo <= w <= hi);
        let a = row_total(mask, start, (len - 1) as nat);
        let s = row_sum(source, mask, table, center, start, (len - 1) as nat);
        let n = row_norm(source, table, center, start, (len - 1) as nat);
        let m = mask[k] as int;
        assert(lo * (a + m) <= s + m * w <= hi * (a + m)) by (nonlinear_arith)
            requires
                lo * a <= s <= hi * a,
                lo <= w <= hi,
                m >= 0,
        ;
        assert(lo * len <= n + w <= hi * len) by (nonlinear_arith)
            requires
                lo * (len - 1) <= n <= hi * (len - 1),
                lo <= w <= hi,
        ;
    } else {
        assert(lo * len == 0 && hi * len == 0) by (nonlinear_arith)
            requires
                len == 0,
        ;
    }
}

proof fn lemma_block_banded(
    source: Seq<i32>,
    mask: Seq<u32>,
    table: Seq<u32>,
    center: int,
    origin: int,
    stride: int,
    side: nat,
    rows: nat,
    lo: u32,
    hi: u32,
)
    requires
        table_within(table, lo, hi),
        forall|r: int, c: int|
            0 <= r < rows && 0 <= c < side ==> #[trigger] cell_in_domain(
                source,
                center,
                origin,
                stride,
                r,
                c,
            ),
    ensures
        lo * (rows * side) <= block_norm(source, table, center, origin, stride, side, rows) <= hi
            * (rows * side),
        lo * block_total(mask, origin, stride, side, rows) <= block_sum(
            source,
            mask,
            table,
            center,
            origin,
            stride,
            side,
            rows,
        ) <= hi * block_total(mask, origin, stride, side, rows),
    decreases rows,
{
    if rows > 0 {
        lemma_block_banded(source, mask, table, center, origin, stride, side, (rows - 1) as nat, lo, hi);
        let start = origin + (rows - 1) * stride;
        assert forall|k: int| start <= k < start + side implies in_domain(source, center, k) by {
            assert(cell_in_domain(source, center, origin, stride, rows - 1, k - start));
        }
        lemma_row_banded(source, mask, table, center, start, side, lo, hi);
        let a = block_total(mask, origin, stride, side, (rows - 1) as nat);
        let b = row_total(mask, start, side);
        assert(lo * a + lo * b == lo * (a + b)) by (nonlinear_arith);
        assert(hi * a + hi * b == hi * (a + b)) by (nonlinear_arith);
        assert(lo * ((rows - 1) * side) + lo * side == lo * (rows * side)) by (nonlinear_arith);
        assert(hi * ((rows - 1) * side) + hi * side == hi * (rows * side)) by (nonlinear_arith);
    } else {
        assert(lo * (rows * side) == 0 && hi * (rows * side) == 0) by (nonlinear_arith)
            requires
                rows == 0,
        ;
    }
}

/// Where every weight of the table lies between `lo` and `hi`, the refined
/// value of a pixel whose window the table covers lies between the box mean
/// scaled down by `lo / hi` and the box mean scaled up by `hi / lo`: the
/// closer the weights are to each other, as they are for a large range, the
/// closer the pass is to the unweighted mean.
pub proof fn law_banded_table_is_near_box_mean(
    source: Seq<i32>,
    mask: Seq<u32>,
    table: Seq<u32>,
    config: FilterConfig,
    lo: u32,
    hi: u32,
    y: int,
    x: int,
)
    requires
        lo > 0,
        table_within(table, lo, hi),
        pixel_in_domain(source, config, y, x),
    ensures
        (lo * box_total(mask, config, y, x)) / (hi * (config.side() * config.side())) <= refined(
            source,
            mask,
            table,
            config,
            y,
            x,
        ) <= (hi * box_total(mask, config, y, x)) / (lo * (config.side() * config.side())),
{
    let origin = config.origin(y, x);
    let stride = config.padded_width();
    let radius = config.spatial_radius as int;
    let side = config.side() as nat;
    let center = window_center(origin, stride, radius);
    lemma_block_banded(source, mask, table, center, origin, stride, side, side, lo, hi);
    let total = block_total(mask, origin, stride, side, side);
    let sum = block_sum(source, mask, table, center, origin, stride, side, side);
    let norm = block_norm(source, table, center, origin, stride, side, side);
    let count = (side * side) as int;
    lemma_block_total_nonnegative(mask, origin, stride, side, side);
    assert(0 < count) by (nonlinear_arith)
        requires
            side >= 1,
            count == side * side,
    ;
    assert(table[0] >= lo);
    assert(0 < lo * count <= norm && norm <= hi * count && 0 <= lo * total && 0 <= sum) by (nonlinear_arith)
        requires
            lo * count <= norm <= hi * count,
            lo * total <= sum,
            lo > 0,
            count > 0,
            total >= 0,
    ;
    lemma_div_is_ordered(lo * total, sum, hi * count);
    lemma_div_is_ordered_by_denominator(sum, norm, hi * count);
    lemma_div_is_ordered(sum, hi * total, norm);
    assert(0 <= hi * total) by (nonlinear_arith)
        requires
            total >= 0,
            hi >= 0,
    ;
    lemma_div_is_ordered_by_denominator(hi * total, lo * count, norm);
}

/// Where every weight of the table is the same, the refined value of a pixel
/// whose window the table covers is the unweighted mean of the mask over the
/// window: the limit that a growing range approaches.
pub proof fn law_uniform_table_is_box_mean(
    source: Seq<i32>,
    mask: Seq<u32>,
    table: Seq<u32>,
    config: FilterConfig,
    t: u32,
    y: int,
    x: int,
)
    requires
        table.len() == TABLE_SIZE,
        t > 0,
        forall|d: int| 0 <= d < TABLE_SIZE ==> table[d] == t,
        pixel_in_domain(source, config, y, x),
    ensures
        refined(source, mask, table, config, y, x) == box_mean(mask, config, y, x),
{
    let origin = config.origin(y, x);
    let stride = config.padded_width();
    let radius = config.spatial_radius as int;
    let side = config.side() as nat;
    let center = window_center(origin, stride, radius);
    lemma_block_banded(source, mask, table, center, origin, stride, side, side, t, t);
    let total = block_total(mask, origin, stride, side, side);
    lemma_block_total_nonnegative(mask, origin, stride, side, side);
    assert(0 < side * side) by (nonlinear_arith)
        requires
            side >= 1,
    ;
    lemma_div_multiples_vanish_quotient(t as int, total, (side * side) as int);
}

proof fn lemma_block_total_nonnegative(mask: Seq<u32>, origin: int, stride: int, side: nat, rows: nat)
    ensures
        block_total(mask, origin, stride, side, rows) >= 0,
    decreases rows,
{
    if rows > 0 {
        lemma_block_total_nonnegative(mask, origin, stride, side, (rows - 1) as nat);
        lemma_row_total_nonnegative(mask, origin + (rows - 1) * stride, side);
    }
}

proof fn lemma_row_total_nonnegative(mask: Seq<u32>, start: int, len: nat)
    ensures
        row_total(mask, start, len) >= 0,
    decreases len,
{
    if len > 0 {
        lemma_row_total_nonnegative(mask, start, (len - 1) as nat);
    }
}

/// The middle sample of the window of output pixel `(y, x)` is the pixel
/// itself, at its padded coordinates.
pub proof fn law_window_is_centered(config: FilterConfig, y: int, x: int)
    ensures
        window_center(config.origin(y, x), config.padded_width(), config.spatial_radius as int)
            == config.center(y, x),
{
    let stride = config.padded_width();
    let radius = config.spatial_radius as int;
    assert(y * stride + x + radius * stride + radius == (y + radius) * stride + (x + radius))
        by (nonlinear_arith);
}

/// With radius zero the only sample of a window is its center, which the
/// table always covers: no such pass is rejected for a difference.
pub proof fn law_zero_radius_in_domain(source: Seq<i32>, config: FilterConfig)
    requires
        config.spatial_radius == 0,
    ensures
        all_in_domain(source, config),
{
    assert forall|p: int| 0 <= p < config.output_len() implies #[trigger] pixel_in_domain(
        source,
        config,
        p / (config.width as int),
        p % (config.width as int),
    ) by {
        let origin = config.origin(p / (config.width as int), p % (config.width as int));
        let stride = config.padded_width();
        assert forall|r: int, c: int| 0 <= r < 1 && 0 <= c < 1 implies #[trigger] cell_in_domain(
            source,
            window_center(origin, stride, 0),
            origin,
            stride,
            r,
            c,
        ) by {
            assert(origin + 0 * stride + 0 == origin) by (nonlinear_arith);
        }
    }
}

/// A pass leaves the length of the output buffer as it is and changes no
/// sample beyond the first `width * height`.
pub proof fn law_pass_writes_only_output_extent(
    source: Seq<i32>,
    mask: Seq<u32>,
    table: Seq<u32>,
    config: FilterConfig,
    before: Seq<u32>,
    after: Seq<u32>,
)
    requires
        is_pass_output(source, mask, table, config, before, after),
    ensures
        after.len() == before.len(),
        forall|p: int| config.output_len() <= p < after.len() ==> after[p] == before[p],
{
    assert forall|p: int| config.output_len() <= p < after.len() implies after[p] == before[p] by {
        assert(after[p] as int == before[p] as int);
    }
}

/// Once a cache serves a range, a further request for that range is accepted
/// and leaves every weight as it is, whatever table is at hand.
pub proof fn law_kernel_memoized(
    held: Seq<u32>,
    cached: u32,
    range: u32,
    first: Seq<u32>,
    second: Seq<u32>,
)
    requires
        install_rejection(cached, range, first) is None,
    ensures
        install_rejection(range_after(cached, range, first), range, second) is None,
        range_after(range_after(cached, range, first), range, second) == range,
        table_after(
            table_after(held, cached, range, first),
            range_after(cached, range, first),
            range,
            second,
        ) == table_after(held, cached, range, first),
{
}

/// An accepted request for a range other than the one a cache serves
/// replaces every weight and records the new range.
pub proof fn law_kernel_recomputed(held: Seq<u32>, cached: u32, range: u32, offered: Seq<u32>)
    requires
        range != cached,
        install_rejection(cached, range, offered) is None,
    ensures
        table_after(held, cached, range, offered) == offered,
        range_after(cached, range, offered) == range,
        usable_table(offered),
{
}

/// The output of a pass is laid out row by row: pixel `(y, x)` stands at
/// index `y * width + x`.
pub proof fn law_pass_is_row_major(
    source: Seq<i32>,
    mask: Seq<u32>,
    table: Seq<u32>,
    config: FilterConfig,
    before: Seq<u32>,
    after: Seq<u32>,
    y: int,
    x: int,
)
    requires
        is_pass_output(source, mask, table, config, before, after),
        config.output_len() <= after.len(),
        0 <= y < config.height,
        0 <= x < config.width,
    ensures
        0 <= y * config.width + x < config.output_len(),
        after[y * config.width + x] == refined(source, mask, table, config, y, x),
{
    lemma_row_major(config.width as int, config.height as int, y, x);
    let p = y * config.width + x;
    assert(after[p] as int == refined(
        source,
        mask,
        table,
        config,
        p / (config.width as int),
        p % (config.width as int),
    ));
}

/// With a usable table at hand a pass is rejected for a zero size, a zero
/// range, an extent beyond the capacity or an intensity difference outside
/// the table, and for nothing else, whatever range the cache was made for.
pub proof fn law_pass_rejected_only_for_listed_faults(
    engine: JointBilateralFilter2,
    config: FilterConfig,
    table: Seq<u32>,
)
    requires
        usable_table(table),
    ensures
        engine.pass_rejection(config, table) is Some <==> (config.width == 0 || config.height == 0
            || config.range == 0 || config.padded_len() > engine.capacity() || !all_in_domain(
            engine.source(),
            config,
        )),
{
}

/// A pass over a cache made for another range, a fresh one too, takes every
/// weight from the table at hand and records the range.
pub proof fn law_pass_recomputes_kernel(
    engine: JointBilateralFilter2,
    config: FilterConfig,
    table: Seq<u32>,
)
    requires
        config.rejection(engine.capacity() as int) is None,
        config.range != engine.kernel().cached_range(),
        usable_table(table),
    ensures
        engine.table_after_pass(config, table) == table,
        engine.range_after_pass(config, table) == config.range,
{
}

/// A pass over a cache that serves its range leaves every weight as it is,
/// whatever table is at hand, and is not rejected for that table.
pub proof fn law_pass_reuses_kernel(
    engine: JointBilateralFilter2,
    config: FilterConfig,
    table: Seq<u32>,
)
    requires
        config.rejection(engine.capacity() as int) is None,
        engine.kernel().serves(config.range),
    ensures
        engine.table_after_pass(config, table) == engine.kernel().table(),
        engine.range_after_pass(config, table) == config.range,
        engine.pass_rejection(config, table) is Some <==> !all_in_domain(engine.source(), config),
{
}

/// A pass is determined by its inputs: two outputs of the same pass over the
/// same images and table are equal, also where the second pass starts from
/// the output of the first.
pub proof fn law_pass_idempotent(
    source: Seq<i32>,
    mask: Seq<u32>,
    table: Seq<u32>,
    config: FilterConfig,
    before: Seq<u32>,
    first: Seq<u32>,
    second: Seq<u32>,
)
    requires
        is_pass_output(source, mask, table, config, before, first),
        is_pass_output(source, mask, table, config, first, second),
    ensures
        second == first,
{
    assert forall|p: int| 0 <= p < first.len() implies first[p] == second[p] by {
        assert(first[p] as int == second[p] as int);
    }
    assert(second =~= first);
}

} // verus!
