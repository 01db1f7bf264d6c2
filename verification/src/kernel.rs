use vstd::prelude::*;
use crate::error::FilterError;

verus! {

/// Number of weights in a kernel table: one per quantized intensity
/// difference from 0 to 255.
pub const TABLE_SIZE: usize = 256;

/// What a caller has to do before a pass with a given range.
#[derive(Clone, Copy, Debug, PartialEq, Eq, Structural)]
pub enum KernelAction {
    /// The table held was made for this range.
    Reuse,
    /// A table for this range has to be computed and installed.
    Recompute,
}

/// The weight table of the range kernel together with the range it was made
/// for. Range zero stands for "no table yet".
#[derive(Debug)]
pub struct KernelCache {
    weights: Vec<u32>,
    range: u32,
}

/// A table that may be installed: one weight per difference, and a positive
/// weight for equal intensities.
pub open spec fn usable_table(table: Seq<u32>) -> bool {
    table.len() == TABLE_SIZE && table[0] > 0
}

/// The first reason, if any, for which `table` cannot be installed for
/// `range` over a cache made for `cached`.
pub open spec fn install_rejection(cached: u32, range: u32, table: Seq<u32>) -> Option<FilterError> {
    if range == 0 {
        Some(FilterError::ZeroRange)
    } else if range == cached {
        None
    } else if table.len() != TABLE_SIZE {
        Some(FilterError::KernelLength)
    } else if table[0] == 0 {
        Some(FilterError::KernelDegenerate)
    } else {
        None
    }
}

/// The table that a cache holds after a request to serve `range` with
/// `offered` at hand: the one it `held` where the request is rejected or the
/// cache was made for `range` already, else `offered`.
pub open spec fn table_after(held: Seq<u32>, cached: u32, range: u32, offered: Seq<u32>) -> Seq<u32> {
    if install_rejection(cached, range, offered) is Some || range == cached {
        held
    } else {
        offered
    }
}

/// The range that a cache is made for after the same request.
pub open spec fn range_after(cached: u32, range: u32, offered: Seq<u32>) -> u32 {
    if install_rejection(cached, range, offered) is Some {
        cached
    } else {
        range
    }
}

impl KernelCache {
    /// The weights, indexed by quantized intensity difference.
    pub closed spec fn table(&self) -> Seq<u32> {
        self.weights@
    }

    /// The range the table was made for; zero before the first installation.
    pub closed spec fn cached_range(&self) -> u32 {
        self.range
    }

    pub open spec fn wf(&self) -> bool {
        &&& self.table().len() == TABLE_SIZE
        &&& self.cached_range() != 0 ==> self.table()[0] > 0
    }

    /// Whether the table held serves a pass with `range`.
    pub open spec fn serves(&self, range: u32) -> bool {
        range != 0 && self.cached_range() == range
    }

    /// An empty cache: all weights zero, made for no range.
    pub fn new() -> (cache: KernelCache)
        ensures
            cache.wf(),
            cache.cached_range() == 0,
            cache.table() == Seq::new(TABLE_SIZE as nat, |d: int| 0u32),
    {
        let mut weights: Vec<u32> = Vec::with_capacity(TABLE_SIZE);
        let mut d: usize = 0;
        while d < TABLE_SIZE
            invariant
                d <= TABLE_SIZE,
                weights.len() == d,
                forall|k: int| 0 <= k < d ==> weights[k] == 0,
            decreases TABLE_SIZE - d,
        {
            weights.push(0);
            d += 1;
        }
        assert(weights@ =~= Seq::new(TABLE_SIZE as nat, |d: int| 0u32));
        KernelCache { weights, range: 0 }
    }

    /// The range the table was made for.
    pub fn range(&self) -> (range: u32)
        ensures
            range == self.cached_range(),
    {
        self.range
    }

    /// Tells whether a table for `range` must be computed before a pass:
    /// always, unless the cache serves that range. A cache that holds no
    /// table yet serves none.
    pub fn action(&self, range: u32) -> (action: KernelAction)
        ensures
            action == (if self.serves(range) {
                KernelAction::Reuse
            } else {
                KernelAction::Recompute
            }),
    {
        if range != 0 && range == self.range {
            KernelAction::Reuse
        } else {
            KernelAction::Recompute
        }
    }

    /// The weight of quantized difference `d`.
    pub fn weight(&self, d: usize) -> (weight: Option<u32>)
        requires
            self.wf(),
        ensures
            weight == (if d < TABLE_SIZE {
                Some(self.table()[d as int])
            } else {
                None
            }),
    {
        if d < TABLE_SIZE {
            Some(self.weights[d])
        } else {
            None
        }
    }

    /// The whole table, for the accumulation loops.
    pub fn weights(&self) -> (weights: &[u32])
        ensures
            weights@ == self.table(),
    {
        self.weights.as_slice()
    }

    /// Makes the cache serve `range`. Where it already does, the table stays
    /// as it is and `table` is not read; otherwise every weight is replaced
    /// by the one in `table`, in place, and `range` is recorded.
    pub fn install(&mut self, range: u32, table: &[u32]) -> (result: Result<(), FilterError>)
        requires
            old(self).wf(),
        ensures
            final(self).wf(),
            result == (match install_rejection(old(self).cached_range(), range, table@) {
                Some(e) => Err(e),
                None => Ok(()),
            }),
            final(self).table() == table_after(
                old(self).table(),
                old(self).cached_range(),
                range,
                table@,
            ),
            final(self).cached_range() == range_after(old(self).cached_range(), range, table@),
    {
        if range == 0 {
            return Err(FilterError::ZeroRange);
        }
        if range == self.range {
            return Ok(());
        }
        if table.len() != TABLE_SIZE {
            return Err(FilterError::KernelLength);
        }
        if table[0] == 0 {
            return Err(FilterError::KernelDegenerate);
        }
        let mut d: usize = 0;
        while d < TABLE_SIZE
            invariant
                d <= TABLE_SIZE,
                table.len() == TABLE_SIZE,
                self.weights.len() == TABLE_SIZE,
                forall|k: int| 0 <= k < d ==> self.weights[k] == table[k],
            decreases TABLE_SIZE - d,
        {
            self.weights.set(d, table[d]);
            d += 1;
        }
        self.range = range;
        assert(self.weights@ =~= table@);
        Ok(())
    }
}

} // verus!
