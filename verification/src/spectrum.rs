//! Spectral bins: a ray carries exactly one bin of a fixed-size table.
use vstd::prelude::*;

verus! {

/// Number of discretized wavelength bins.
pub const SIZE: usize = 24;

/// Index of one spectral bin, always reduced into the table.
#[derive(Copy, Clone, Debug, PartialEq, Eq, Structural)]
pub struct Frequency {
    index: usize,
}

impl Frequency {
    /// The bin this frequency selects.
    pub closed spec fn view(&self) -> nat {
        self.index as nat
    }

    #[verifier::type_invariant]
    spec fn in_table(&self) -> bool {
        self.index < SIZE
    }

    /// The frequency that `index` is reduced to.
    pub closed spec fn reduced(index: usize) -> Frequency {
        Frequency { index: (index % SIZE) as usize }
    }

    /// The bin of a reduced index is the index modulo the table size.
    pub proof fn lemma_reduced(index: usize)
        ensures
            Self::reduced(index)@ == index as nat % SIZE as nat,
            Self::reduced(index)@ < SIZE,
    {
    }

    /// Reduces `index` modulo the table size.
    pub fn new(index: usize) -> (frequency: Frequency)
        ensures
            frequency == Self::reduced(index),
            frequency@ == index as nat % SIZE as nat,
    {
        Frequency { index: index % SIZE }
    }

    /// Place in a reference table of `table_size` entries that this bin is
    /// read from: the bins are spread evenly over the table, the first bin at
    /// its first entry.
    pub fn table_index(&self, table_size: usize) -> (place: usize)
        ensures
            place == (self@ * table_size) / SIZE as int,
            table_size > 0 ==> place < table_size,
    {
        proof {
            use_type_invariant(self);
        }
        let i = self.index;
        let whole = table_size / SIZE;
        let rest = table_size % SIZE;
        proof {
            let t = table_size as int;
            let q = whole as int;
            let r = rest as int;
            assert(i * t == 24 * (i * q) + i * r) by (nonlinear_arith)
                requires
                    t == 24 * q + r,
            ;
            assert(0 <= i * r <= 23 * 23) by (nonlinear_arith)
                requires
                    0 <= i <= 23,
                    0 <= r <= 23,
            ;
            assert(0 <= i * q <= 23 * q) by (nonlinear_arith)
                requires
                    0 <= i <= 23,
                    0 <= q,
            ;
            assert(i * t <= 23 * t) by (nonlinear_arith)
                requires
                    0 <= i <= 23,
                    0 <= t,
            ;
        }
        i * whole + (i * rest) / SIZE
    }

    /// The bin as a machine integer.
    pub fn index(&self) -> (index: usize)
        ensures
            index == self@,
            index < SIZE,
    {
        proof {
            use_type_invariant(self);
        }
        self.index
    }
}

} // verus!
