use vstd::prelude::*;

verus! {

/// Why a call was rejected. A rejected call leaves the engine as it was.
#[derive(Clone, Copy, Debug, PartialEq, Eq, Structural)]
pub enum FilterError {
    /// The configured width is zero.
    ZeroWidth,
    /// The configured height is zero.
    ZeroHeight,
    /// The range parameter is zero, for which no kernel exists.
    ZeroRange,
    /// The padded extent, or an index, lies beyond the fixed capacity.
    CapacityExceeded,
    /// A kernel table that the cache has to take does not have one weight per
    /// quantized difference.
    KernelLength,
    /// A kernel table that the cache has to take gives weight zero to equal
    /// intensities, so a window could have an empty norm.
    KernelDegenerate,
    /// Some intensity difference inside a window lies outside the table.
    DifferenceOutOfDomain,
}

impl FilterError {
    /// The text of `describe`.
    pub open spec fn description(&self) -> Seq<char> {
        match self {
            FilterError::ZeroWidth => "width must be positive"@,
            FilterError::ZeroHeight => "height must be positive"@,
            FilterError::ZeroRange => "range must be positive"@,
            FilterError::CapacityExceeded => "padded extent or index exceeds buffer capacity"@,
            FilterError::KernelLength => "kernel table must hold 256 weights"@,
            FilterError::KernelDegenerate => "kernel table gives weight zero to equal intensities"@,
            FilterError::DifferenceOutOfDomain => "intensity difference exceeds 255"@,
        }
    }

    /// A short text for the host.
    pub fn describe(&self) -> (text: &'static str)
        ensures
            text@ == self.description(),
    {
        match self {
            FilterError::ZeroWidth => "width must be positive",
            FilterError::ZeroHeight => "height must be positive",
            FilterError::ZeroRange => "range must be positive",
            FilterError::CapacityExceeded => "padded extent or index exceeds buffer capacity",
            FilterError::KernelLength => "kernel table must hold 256 weights",
            FilterError::KernelDegenerate => "kernel table gives weight zero to equal intensities",
            FilterError::DifferenceOutOfDomain => "intensity difference exceeds 255",
        }
    }
}

} // verus!
