use vstd::prelude::*;

verus! {

/// The live coverage map: a fixed-length sequence of counters, one per
/// instrumented edge. The length never changes after construction.
pub struct CoverageMap {
    cells: Vec<u8>,
}

impl View for CoverageMap {
    type V = Seq<u8>;

    closed spec fn view(&self) -> Seq<u8> {
        self.cells@
    }
}

/// A sequence of `n` zero counters.
pub open spec fn zeros(n: nat) -> Seq<u8> {
    Seq::new(n, |_i: int| 0u8)
}

impl CoverageMap {
    /// A map of `len` counters, all zero.
    pub fn new(len: usize) -> (r: CoverageMap)
        ensures
            r@ == zeros(len as nat),
    {
        let mut cells: Vec<u8> = Vec::with_capacity(len);
        let mut i: usize = 0;
        while i < len
            invariant
                i <= len,
                cells@ == zeros(i as nat),
            decreases len - i,
        {
            cells.push(0);
            i = i + 1;
            assert(cells@ =~= zeros(i as nat));
        }
        CoverageMap { cells }
    }

    /// The number of counters.
    pub fn len(&self) -> (r: usize)
        ensures
            r == self@.len(),
    {
        self.cells.len()
    }

    /// The counter at `idx`.
    pub fn get(&self, idx: usize) -> (r: u8)
        requires
            idx < self@.len(),
        ensures
            r == self@[idx as int],
    {
        self.cells[idx]
    }

    /// Marks the edge at `idx` as covered (its counter becomes 1).
    pub fn mark(&mut self, idx: usize)
        requires
            idx < old(self)@.len(),
        ensures
            final(self)@ == old(self)@.update(idx as int, 1u8),
    {
        self.cells.set(idx, 1);
    }

    /// Clears every counter before a new execution.
    pub fn reset(&mut self)
        ensures
            final(self)@ == zeros(old(self)@.len()),
    {
        let n = self.cells.len();
        let mut i: usize = 0;
        while i < n
            invariant
                i <= n,
                n == self.cells@.len(),
                n == old(self)@.len(),
                forall|j: int| 0 <= j < i ==> self.cells@[j] == 0u8,
            decreases n - i,
        {
            self.cells.set(i, 0);
            i = i + 1;
        }
        assert(self.cells@ =~= zeros(n as nat));
    }

    /// A copy of the current counters, taken after an execution.
    pub fn observe(&self) -> (r: Vec<u8>)
        ensures
            r@ == self@,
    {
        self.cells.clone()
    }
}

} // verus!
