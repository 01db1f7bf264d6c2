use joint_bilateral::engine::JointBilateralFilter2;
use joint_bilateral::error::FilterError;
use joint_bilateral::geometry::{Extent, FilterConfig};
use joint_bilateral::kernel::{KernelAction, KernelCache, TABLE_SIZE};

fn ramp(first: u32) -> Vec<u32> {
    let mut table = Vec::with_capacity(TABLE_SIZE);
    for d in 0..TABLE_SIZE {
        table.push(first - d as u32);
    }
    table
}

#[test]
fn new_cache_is_empty() {
    let cache = KernelCache::new();
    assert_eq!(cache.range(), 0);
    assert_eq!(cache.weights(), &[0; 256]);
    assert_eq!(cache.action(0), KernelAction::Recompute);
    assert_eq!(cache.action(1), KernelAction::Recompute);
    assert_eq!(cache.weight(0), Some(0));
    assert_eq!(cache.weight(256), None);
}

#[test]
fn same_range_leaves_the_table_unchanged() {
    let mut cache = KernelCache::new();
    let first = ramp(1000);
    let second = ramp(2000);
    assert_eq!(cache.install(3, &first), Ok(()));
    assert_eq!(cache.range(), 3);
    assert_eq!(cache.weights(), &first[..]);
    assert_eq!(cache.action(3), KernelAction::Reuse);
    assert_eq!(cache.install(3, &second), Ok(()));
    assert_eq!(cache.weights(), &first[..]);
    assert_eq!(cache.install(3, &[]), Ok(()));
    assert_eq!(cache.weights(), &first[..]);
    assert_eq!(cache.range(), 3);
}

#[test]
fn range_zero_is_never_served() {
    let mut cache = KernelCache::new();
    assert_eq!(cache.action(0), KernelAction::Recompute);
    assert_eq!(cache.install(0, &ramp(1000)), Err(FilterError::ZeroRange));
    assert_eq!(cache.install(2, &ramp(1000)), Ok(()));
    assert_eq!(cache.action(0), KernelAction::Recompute);
    assert_eq!(cache.action(2), KernelAction::Reuse);
}

#[test]
fn new_range_replaces_every_weight() {
    let mut cache = KernelCache::new();
    let first = ramp(1000);
    let second = ramp(2000);
    assert_eq!(cache.install(3, &first), Ok(()));
    assert_eq!(cache.action(4), KernelAction::Recompute);
    assert_eq!(cache.install(4, &second), Ok(()));
    assert_eq!(cache.range(), 4);
    assert_eq!(cache.weights(), &second[..]);
    for d in 0..TABLE_SIZE {
        assert_eq!(cache.weight(d), Some(2000 - d as u32));
    }
}

#[test]
fn install_rejects_unusable_tables() {
    let mut cache = KernelCache::new();
    let good = ramp(500);
    assert_eq!(cache.install(0, &good), Err(FilterError::ZeroRange));
    assert_eq!(cache.install(1, &good[..255]), Err(FilterError::KernelLength));
    assert_eq!(cache.install(1, &[1; 257]), Err(FilterError::KernelLength));
    assert_eq!(cache.install(1, &[]), Err(FilterError::KernelLength));
    let mut flat = good.clone();
    flat[0] = 0;
    assert_eq!(cache.install(1, &flat), Err(FilterError::KernelDegenerate));
    assert_eq!(cache.range(), 0);
    assert_eq!(cache.weights(), &[0; 256]);
    assert_eq!(cache.install(1, &good), Ok(()));
    assert_eq!(cache.install(2, &flat), Err(FilterError::KernelDegenerate));
    assert_eq!(cache.range(), 1);
    assert_eq!(cache.weights(), &good[..]);
}

#[test]
fn engine_tells_when_to_recompute() {
    let mut engine = JointBilateralFilter2::new(4);
    assert_eq!(engine.prepare(FilterConfig::new(2, 2, 0, 6)), Ok(KernelAction::Recompute));
    assert_eq!(engine.install_kernel(6, &ramp(300)), Ok(()));
    assert_eq!(engine.prepare(FilterConfig::new(2, 2, 0, 6)), Ok(KernelAction::Reuse));
    assert_eq!(engine.prepare(FilterConfig::new(2, 2, 0, 7)), Ok(KernelAction::Recompute));
    assert_eq!(engine.install_kernel(0, &ramp(300)), Err(FilterError::ZeroRange));
    assert_eq!(engine.install_kernel(7, &[3; 5]), Err(FilterError::KernelLength));
    assert_eq!(engine.prepare(FilterConfig::new(2, 2, 0, 6)), Ok(KernelAction::Reuse));
}

#[test]
fn prepare_rejects_what_the_buffers_cannot_serve() {
    let engine = JointBilateralFilter2::new(4);
    assert_eq!(engine.prepare(FilterConfig::new(0, 2, 0, 6)), Err(FilterError::ZeroWidth));
    assert_eq!(engine.prepare(FilterConfig::new(2, 0, 0, 6)), Err(FilterError::ZeroHeight));
    assert_eq!(engine.prepare(FilterConfig::new(2, 2, 0, 0)), Err(FilterError::ZeroRange));
    assert_eq!(engine.prepare(FilterConfig::new(2, 2, 1, 6)), Err(FilterError::CapacityExceeded));
    assert_eq!(engine.prepare(FilterConfig::new(1, 5, 0, 6)), Err(FilterError::CapacityExceeded));
    assert_eq!(engine.prepare(FilterConfig::new(4, 1, 0, 6)), Ok(KernelAction::Recompute));
}

#[test]
fn measure_gives_the_padded_geometry() {
    let config = FilterConfig::new(4, 3, 2, 9);
    assert_eq!(
        config.measure(56),
        Ok(Extent { width: 4, height: 3, radius: 2, stride: 8, output_len: 12 })
    );
    assert_eq!(config.measure(55), Err(FilterError::CapacityExceeded));
    assert_eq!(FilterConfig::new(0, 3, 2, 9).measure(1000), Err(FilterError::ZeroWidth));
    assert_eq!(FilterConfig::new(4, 0, 2, 9).measure(1000), Err(FilterError::ZeroHeight));
    assert_eq!(FilterConfig::new(4, 3, 2, 0).measure(1000), Err(FilterError::ZeroRange));
    assert_eq!(
        FilterConfig::new(u32::MAX, u32::MAX, u32::MAX, 1).measure(usize::MAX),
        Err(FilterError::CapacityExceeded)
    );
    assert_eq!(
        FilterConfig::new(7, 1, 0, 1).measure(7),
        Ok(Extent { width: 7, height: 1, radius: 0, stride: 7, output_len: 7 })
    );
}

#[test]
fn every_error_has_its_own_text() {
    let all = [
        FilterError::ZeroWidth,
        FilterError::ZeroHeight,
        FilterError::ZeroRange,
        FilterError::CapacityExceeded,
        FilterError::KernelLength,
        FilterError::KernelDegenerate,
        FilterError::DifferenceOutOfDomain,
    ];
    for (i, a) in all.iter().enumerate() {
        assert!(!a.describe().is_empty());
        for b in all.iter().skip(i + 1) {
            assert_ne!(a.describe(), b.describe());
        }
    }
    assert_eq!(FilterError::ZeroRange.describe(), "range must be positive");
}

#[test]
fn buffers_stay_where_they_are() {
    let mut engine = JointBilateralFilter2::new(36);
    let source: usize = engine.source_buffer().as_ptr() as usize;
    let mask: usize = engine.mask_buffer().as_ptr() as usize;
    let output: usize = engine.output_buffer().as_ptr() as usize;
    assert_eq!(engine.source_buffer().as_ptr() as usize, source);
    let weights: usize = engine.kernel_weights().as_ptr() as usize;
    assert_eq!(engine.store_source(35, 4), Ok(()));
    assert_eq!(engine.store_mask(35, 4), Ok(()));
    assert_eq!(engine.refine(FilterConfig::new(4, 4, 1, 2), &ramp(900)), Ok(()));
    assert_eq!(engine.refine(FilterConfig::new(6, 6, 0, 3), &ramp(800)), Ok(()));
    assert_eq!(
        engine.refine(FilterConfig::new(6, 6, 1, 2), &ramp(900)),
        Err(FilterError::CapacityExceeded)
    );
    assert_eq!(engine.kernel_weights().as_ptr() as usize, weights);
    assert_eq!(engine.source_buffer().as_ptr() as usize, source);
    assert_eq!(engine.mask_buffer().as_ptr() as usize, mask);
    assert_eq!(engine.output_buffer().as_ptr() as usize, output);
}
