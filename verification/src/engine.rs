use vstd::prelude::*;
use crate::error::FilterError;
use crate::geometry::{lemma_row_major, Extent, FilterConfig};
use crate::kernel::{
    install_rejection, range_after, table_after, usable_table, KernelAction, KernelCache,
    TABLE_SIZE,
};
use crate::window::{all_in_domain, pixel_in_domain, prefix_in_domain, refine_window, refined};

verus! {

/// Samples each buffer of the default engine holds: a padded frame of 1024 by
/// 1024 samples.
pub const DEFAULT_CAPACITY: usize = 1048576;

/// The filtering engine: the source, mask and output buffers, all of one
/// fixed capacity, a buffer of the same capacity in which a pass is assembled
/// before it is committed to the output, and the kernel cache. No operation
/// changes the capacity of a buffer, so a buffer never has to move.
#[derive(Debug)]
pub struct JointBilateralFilter2 {
    src_image: Vec<i32>,
    seg_image: Vec<u32>,
    out_image: Vec<u32>,
    pending: Vec<u32>,
    kernel: KernelCache,
}

/// Whether `after` holds, in its first `width * height` samples, the refined
/// value of every output pixel in row-major order, and beyond them what
/// `before` held.
pub open spec fn is_pass_output(
    source: Seq<i32>,
    mask: Seq<u32>,
    table: Seq<u32>,
    config: FilterConfig,
    before: Seq<u32>,
    after: Seq<u32>,
) -> bool {
    &&& after.len() == before.len()
    &&& forall|p: int|
        0 <= p < after.len() ==> #[trigger] after[p] as int == (if p < config.output_len() {
            refined(source, mask, table, config, p / (config.width as int), p % (config.width as int))
        } else {
            before[p] as int
        })
}

/// A buffer of `len` zero mask samples.
fn blank_mask(len: usize) -> (buffer: Vec<u32>)
    ensures
        buffer@ == Seq::new(len as nat, |k: int| 0u32),
{
    let mut buffer: Vec<u32> = Vec::with_capacity(len);
    let mut k: usize = 0;
    while k < len
        invariant
            k <= len,
            buffer@.len() == k,
            forall|i: int| 0 <= i < k ==> buffer@[i] == 0,
        decreases len - k,
    {
        buffer.push(0);
        k += 1;
    }
    assert(buffer@ =~= Seq::new(len as nat, |k: int| 0u32));
    buffer
}

/// A buffer of `len` zero intensities.
fn blank_source(len: usize) -> (buffer: Vec<i32>)
    ensures
        buffer@ == Seq::new(len as nat, |k: int| 0i32),
{
    let mut buffer: Vec<i32> = Vec::with_capacity(len);
    let mut k: usize = 0;
    while k < len
        invariant
            k <= len,
            buffer@.len() == k,
            forall|i: int| 0 <= i < k ==> buffer@[i] == 0,
        decreases len - k,
    {
        buffer.push(0);
        k += 1;
    }
    assert(buffer@ =~= Seq::new(len as nat, |k: int| 0i32));
    buffer
}

/// Refines every output pixel into the front of `target`, or stops at the
/// first window that the table does not cover.
pub(crate) fn sweep(
    source: &[i32],
    mask: &[u32],
    table: &[u32],
    config: &FilterConfig,
    extent: &Extent,
    target: &mut Vec<u32>,
) -> (complete: bool)
    requires
        config.valid(source@.len() as int),
        *extent == config.extent(),
        mask@.len() == source@.len(),
        old(target)@.len() == source@.len(),
        usable_table(table@),
    ensures
        final(target)@.len() == old(target)@.len(),
        complete == all_in_domain(source@, *config),
        complete ==> forall|p: int|
            0 <= p < config.output_len() ==> #[trigger] final(target)@[p] as int == refined(
                source@,
                mask@,
                table@,
                *config,
                p / (config.width as int),
                p % (config.width as int),
            ),
{
    let source_len: usize = source.len();
    proof {
        config.lemma_sizes_fit();
    }
    let width: usize = extent.width;
    let stride: usize = extent.stride;
    let radius: usize = extent.radius;
    let total: usize = extent.output_len;
    let mut p: usize = 0;
    let mut y: usize = 0;
    let mut x: usize = 0;
    while p < total
        invariant
            config.valid(source@.len() as int),
            *extent == config.extent(),
            width == config.width,
            stride == config.padded_width(),
            radius == config.spatial_radius,
            total == config.output_len(),
            source@.len() == source_len,
            mask@.len() == source@.len(),
            target@.len() == source@.len(),
            target@.len() == old(target)@.len(),
            usable_table(table@),
            config.side() * config.side() <= config.padded_len(),
            config.output_len() <= config.padded_len(),
            p <= total,
            0 <= x < width,
            p == y * width + x,
            prefix_in_domain(source@, *config, p as int),
            forall|q: int|
                0 <= q < p ==> #[trigger] target@[q] as int == refined(
                    source@,
                    mask@,
                    table@,
                    *config,
                    q / (config.width as int),
                    q % (config.width as int),
                ),
        decreases total - p,
    {
        proof {
            assert(y < config.height) by (nonlinear_arith)
                requires
                    y * width + x < width * config.height,
                    0 <= x,
                    0 < width,
                    0 <= y,
            ;
            lemma_row_major(width as int, config.height as int, y as int, x as int);
            config.lemma_cell_inside(y as int, x as int, 0, 0);
            config.lemma_cell_inside(y as int, x as int, 2 * radius, 2 * radius);
            assert(0 <= y * stride <= y * stride + x) by (nonlinear_arith)
                requires
                    0 <= y,
                    0 <= stride,
                    0 <= x,
            ;
        }
        let origin: usize = y * stride + x;
        match refine_window(source, mask, table, origin, stride, radius) {
            None => {
                proof {
                    assert(!pixel_in_domain(
                        source@,
                        *config,
                        p as int / (config.width as int),
                        p as int % (config.width as int),
                    ));
                }
                return false;
            },
            Some(value) => {
                target.set(p, value);
                proof {
                    assert(pixel_in_domain(
                        source@,
                        *config,
                        p as int / (config.width as int),
                        p as int % (config.width as int),
                    ));
                }
            },
        }
        p = p + 1;
        if x + 1 == width {
            x = 0;
            y = y + 1;
        } else {
            x = x + 1;
        }
        proof {
            assert(p == y * width + x) by (nonlinear_arith)
                requires
                    (x == 0 && p == (y - 1) * width + width) || (x > 0 && p == y * width + x),
            ;
        }
    }
    true
}

impl JointBilateralFilter2 {
    /// The padded source image, row by row.
    pub closed spec fn source(&self) -> Seq<i32> {
        self.src_image@
    }

    /// The padded segmentation mask, row by row.
    pub closed spec fn mask(&self) -> Seq<u32> {
        self.seg_image@
    }

    /// The unpadded refined mask, row by row.
    pub closed spec fn output(&self) -> Seq<u32> {
        self.out_image@
    }

    /// The kernel cache.
    pub closed spec fn kernel(&self) -> KernelCache {
        self.kernel
    }

    /// Samples that each buffer holds.
    pub closed spec fn capacity(&self) -> nat {
        self.src_image@.len()
    }

    /// The buffer that a pass fills before it commits has the capacity of the
    /// others.
    pub closed spec fn pending_fits(&self) -> bool {
        self.pending@.len() == self.src_image@.len()
    }

    pub open spec fn wf(&self) -> bool {
        &&& self.source().len() == self.capacity()
        &&& self.mask().len() == self.capacity()
        &&& self.output().len() == self.capacity()
        &&& self.pending_fits()
        &&& self.kernel().wf()
    }

    /// The first reason, if any, for which a pass with `config` is rejected
    /// when `table` is at hand for its range: the configuration, then the
    /// table where the cache has to take it, then the intensity differences.
    pub open spec fn pass_rejection(&self, config: FilterConfig, table: Seq<u32>) -> Option<
        FilterError,
    > {
        if config.rejection(self.capacity() as int) is Some {
            config.rejection(self.capacity() as int)
        } else if install_rejection(self.kernel().cached_range(), config.range, table) is Some {
            install_rejection(self.kernel().cached_range(), config.range, table)
        } else if !all_in_domain(self.source(), config) {
            Some(FilterError::DifferenceOutOfDomain)
        } else {
            None
        }
    }

    /// The kernel table after a pass with `config` and `table` at hand. A
    /// configuration that is rejected leaves the cache alone; otherwise the
    /// cache is asked to serve the range, also where the pass is then
    /// rejected for an intensity difference.
    pub open spec fn table_after_pass(&self, config: FilterConfig, table: Seq<u32>) -> Seq<u32> {
        if config.rejection(self.capacity() as int) is Some {
            self.kernel().table()
        } else {
            table_after(self.kernel().table(), self.kernel().cached_range(), config.range, table)
        }
    }

    /// The range that the kernel cache is made for after the same pass.
    pub open spec fn range_after_pass(&self, config: FilterConfig, table: Seq<u32>) -> u32 {
        if config.rejection(self.capacity() as int) is Some {
            self.kernel().cached_range()
        } else {
            range_after(self.kernel().cached_range(), config.range, table)
        }
    }

    /// An engine whose buffers hold `capacity` samples each, all zero, and
    /// whose kernel cache is empty.
    pub fn new(capacity: usize) -> (engine: JointBilateralFilter2)
        ensures
            engine.wf(),
            engine.capacity() == capacity,
            engine.source() == Seq::new(capacity as nat, |k: int| 0i32),
            engine.mask() == Seq::new(capacity as nat, |k: int| 0u32),
            engine.output() == Seq::new(capacity as nat, |k: int| 0u32),
            engine.kernel().cached_range() == 0,
            engine.kernel().table() == Seq::new(TABLE_SIZE as nat, |d: int| 0u32),
    {
        JointBilateralFilter2 {
            src_image: blank_source(capacity),
            seg_image: blank_mask(capacity),
            out_image: blank_mask(capacity),
            pending: blank_mask(capacity),
            kernel: KernelCache::new(),
        }
    }

    /// Samples that each buffer holds.
    pub fn buffer_capacity(&self) -> (capacity: usize)
        ensures
            capacity == self.capacity(),
    {
        self.src_image.len()
    }

    /// The source buffer, for reading and for publishing where it lies.
    pub fn source_buffer(&self) -> (buffer: &[i32])
        ensures
            buffer@ == self.source(),
    {
        self.src_image.as_slice()
    }

    /// The mask buffer, for reading and for publishing where it lies.
    pub fn mask_buffer(&self) -> (buffer: &[u32])
        ensures
            buffer@ == self.mask(),
    {
        self.seg_image.as_slice()
    }

    /// The output buffer, for reading and for publishing where it lies.
    pub fn output_buffer(&self) -> (buffer: &[u32])
        ensures
            buffer@ == self.output(),
    {
        self.out_image.as_slice()
    }

    /// The weights that the kernel cache holds.
    pub fn kernel_weights(&self) -> (weights: &[u32])
        ensures
            weights@ == self.kernel().table(),
    {
        self.kernel.weights()
    }

    /// The range that the kernel cache is made for; zero while it holds no
    /// table.
    pub fn kernel_range(&self) -> (range: u32)
        ensures
            range == self.kernel().cached_range(),
    {
        self.kernel.range()
    }

    /// Writes one intensity of the padded source image in place.
    pub fn store_source(&mut self, index: usize, value: i32) -> (result: Result<(), FilterError>)
        requires
            old(self).wf(),
        ensures
            final(self).wf(),
            final(self).capacity() == old(self).capacity(),
            final(self).mask() == old(self).mask(),
            final(self).output() == old(self).output(),
            final(self).kernel() == old(self).kernel(),
            result == (if index < old(self).capacity() {
                Ok::<(), FilterError>(())
            } else {
                Err(FilterError::CapacityExceeded)
            }),
            final(self).source() == (if index < old(self).capacity() {
                old(self).source().update(index as int, value)
            } else {
                old(self).source()
            }),
    {
        if index >= self.src_image.len() {
            return Err(FilterError::CapacityExceeded);
        }
        self.src_image.set(index, value);
        Ok(())
    }

    /// Writes one sample of the padded mask in place.
    pub fn store_mask(&mut self, index: usize, value: u32) -> (result: Result<(), FilterError>)
        requires
            old(self).wf(),
        ensures
            final(self).wf(),
            final(self).capacity() == old(self).capacity(),
            final(self).source() == old(self).source(),
            final(self).output() == old(self).output(),
            final(self).kernel() == old(self).kernel(),
            result == (if index < old(self).capacity() {
                Ok::<(), FilterError>(())
            } else {
                Err(FilterError::CapacityExceeded)
            }),
            final(self).mask() == (if index < old(self).capacity() {
                old(self).mask().update(index as int, value)
            } else {
                old(self).mask()
            }),
    {
        if index >= self.seg_image.len() {
            return Err(FilterError::CapacityExceeded);
        }
        self.seg_image.set(index, value);
        Ok(())
    }

    /// What has to happen before a pass with `config`: nothing where the
    /// kernel cache serves its range, else a table for that range has to be
    /// computed and installed. A configuration that the buffers cannot serve
    /// is rejected here already.
    pub fn prepare(&self, config: FilterConfig) -> (result: Result<KernelAction, FilterError>)
        ensures
            result == (match config.rejection(self.capacity() as int) {
                Some(e) => Err(e),
                None => Ok(
                    if self.kernel().serves(config.range) {
                        KernelAction::Reuse
                    } else {
                        KernelAction::Recompute
                    },
                ),
            }),
    {
        match config.measure(self.src_image.len()) {
            Err(e) => Err(e),
            Ok(_) => Ok(self.kernel.action(config.range)),
        }
    }

    /// Makes the kernel cache serve `range`; see `KernelCache::install`. The
    /// images stay as they are.
    pub fn install_kernel(&mut self, range: u32, table: &[u32]) -> (result: Result<(), FilterError>)
        requires
            old(self).wf(),
        ensures
            final(self).wf(),
            final(self).capacity() == old(self).capacity(),
            final(self).source() == old(self).source(),
            final(self).mask() == old(self).mask(),
            final(self).output() == old(self).output(),
            result == (match install_rejection(old(self).kernel().cached_range(), range, table@) {
                Some(e) => Err(e),
                None => Ok(()),
            }),
            final(self).kernel().table() == table_after(
                old(self).kernel().table(),
                old(self).kernel().cached_range(),
                range,
                table@,
            ),
            final(self).kernel().cached_range() == range_after(
                old(self).kernel().cached_range(),
                range,
                table@,
            ),
    {
        self.kernel.install(range, table)
    }

    /// The pass proper, over the table that the cache holds.
    fn convolve(&mut self, config: FilterConfig, extent: Extent) -> (complete: bool)
        requires
            old(self).wf(),
            config.valid(old(self).capacity() as int),
            extent == config.extent(),
            old(self).kernel().serves(config.range),
        ensures
            final(self).wf(),
            final(self).capacity() == old(self).capacity(),
            final(self).source() == old(self).source(),
            final(self).mask() == old(self).mask(),
            final(self).kernel() == old(self).kernel(),
            complete == all_in_domain(old(self).source(), config),
            !complete ==> final(self).output() == old(self).output(),
            complete ==> is_pass_output(
                old(self).source(),
                old(self).mask(),
                old(self).kernel().table(),
                config,
                old(self).output(),
                final(self).output(),
            ),
    {
        let capacity: usize = self.src_image.len();
        let complete = sweep(
            self.src_image.as_slice(),
            self.seg_image.as_slice(),
            self.kernel.weights(),
            &config,
            &extent,
            &mut self.pending,
        );
        if !complete {
            return false;
        }
        proof {
            config.lemma_sizes_fit();
            assert(config.output_len() <= capacity);
        }
        let total: usize = extent.output_len;
        let ghost filled = self.pending@;
        let mut p: usize = 0;
        while p < total
            invariant
                p <= total,
                total <= self.out_image@.len(),
                self.pending@ == filled,
                self.out_image@.len() == old(self).out_image@.len(),
                self.pending@.len() == self.out_image@.len(),
                self.src_image == old(self).src_image,
                self.seg_image == old(self).seg_image,
                self.kernel == old(self).kernel,
                forall|q: int| 0 <= q < p ==> self.out_image@[q] == self.pending@[q],
                forall|q: int|
                    p <= q < self.out_image@.len() ==> self.out_image@[q] == old(self).out_image@[q],
            decreases total - p,
        {
            let value: u32 = self.pending[p];
            self.out_image.set(p, value);
            p = p + 1;
        }
        true
    }

    /// One joint bilateral pass. The kernel cache is first made to serve the
    /// range of `config`: where it does already, its table stays and `table`
    /// is not read; otherwise every weight is taken from `table`. Then every
    /// output pixel becomes the mean of the mask over its window, each sample
    /// weighted by the kernel weight of its intensity difference to the
    /// center of the window in the source image; the distance of a sample
    /// from the center does not enter.
    ///
    /// A rejected pass changes neither image. One rejected for its
    /// configuration or its table leaves the cache as it was; one rejected
    /// for an intensity difference keeps the table it has just taken.
    pub fn refine(&mut self, config: FilterConfig, table: &[u32]) -> (result: Result<
        (),
        FilterError,
    >)
        requires
            old(self).wf(),
        ensures
            final(self).wf(),
            final(self).capacity() == old(self).capacity(),
            final(self).source() == old(self).source(),
            final(self).mask() == old(self).mask(),
            result == (match old(self).pass_rejection(config, table@) {
                Some(e) => Err(e),
                None => Ok(()),
            }),
            result is Err ==> final(self).output() == old(self).output(),
            config.rejection(old(self).capacity() as int) is Some ==> final(self).kernel() == old(
                self
            ).kernel(),
            final(self).kernel().table() == old(self).table_after_pass(config, table@),
            final(self).kernel().cached_range() == old(self).range_after_pass(config, table@),
            result is Ok ==> final(self).kernel().serves(config.range) && usable_table(
                final(self).kernel().table(),
            ),
            result is Ok ==> is_pass_output(
                old(self).source(),
                old(self).mask(),
                final(self).kernel().table(),
                config,
                old(self).output(),
                final(self).output(),
            ),
    {
        let extent = match config.measure(self.src_image.len()) {
            Ok(extent) => extent,
            Err(e) => {
                return Err(e);
            },
        };
        match self.kernel.install(config.range, table) {
            Ok(()) => {},
            Err(e) => {
                return Err(e);
            },
        }
        if self.convolve(config, extent) {
            Ok(())
        } else {
            Err(FilterError::DifferenceOutOfDomain)
        }
    }
}

/// Runs one pass of `engine` over an output of `w` by `h` pixels with window
/// radius `sp` and the kernel of `range`, for which `table` is at hand; see
/// `JointBilateralFilter2::refine`.
pub fn do_filter(
    engine: &mut JointBilateralFilter2,
    w: u32,
    h: u32,
    sp: u32,
    range: u32,
    table: &[u32],
) -> (result: Result<(), FilterError>)
    requires
        old(engine).wf(),
    ensures
        final(engine).wf(),
        final(engine).capacity() == old(engine).capacity(),
        final(engine).source() == old(engine).source(),
        final(engine).mask() == old(engine).mask(),
        result == (match old(engine).pass_rejection(
            FilterConfig { width: w, height: h, spatial_radius: sp, range },
            table@,
        ) {
            Some(e) => Err(e),
            None => Ok(()),
        }),
        result is Err ==> final(engine).output() == old(engine).output(),
        (FilterConfig { width: w, height: h, spatial_radius: sp, range }).rejection(
            old(engine).capacity() as int,
        ) is Some ==> final(engine).kernel() == old(engine).kernel(),
        final(engine).kernel().table() == old(engine).table_after_pass(
            FilterConfig { width: w, height: h, spatial_radius: sp, range },
            table@,
        ),
        final(engine).kernel().cached_range() == old(engine).range_after_pass(
            FilterConfig { width: w, height: h, spatial_radius: sp, range },
            table@,
        ),
        result is Ok ==> final(engine).kernel().serves(range) && usable_table(
            final(engine).kernel().table(),
        ),
        result is Ok ==> is_pass_output(
            old(engine).source(),
            old(engine).mask(),
            final(engine).kernel().table(),
            FilterConfig { width: w, height: h, spatial_radius: sp, range },
            old(engine).output(),
            final(engine).output(),
        ),
{
    engine.refine(FilterConfig::new(w, h, sp, range), table)
}

} // verus!
