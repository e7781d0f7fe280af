use vstd::prelude::*;
use core::marker::PhantomData;
use crate::coverage::{CoverageMap, zeros};
use crate::target::{ExecutionOutcome, MagicTarget, target_outcome, target_marks, target_coverage};

verus! {

/// Runs candidates directly in the calling context against a magic-word
/// target. It owns the live coverage map, which it clears before each run.
pub struct InProcessExecutor {
    target: MagicTarget,
    map: CoverageMap,
}

impl InProcessExecutor {
    pub closed spec fn magic(&self) -> Seq<u8> {
        self.target.magic()
    }

    pub closed spec fn map_view(&self) -> Seq<u8> {
        self.map@
    }

    /// The map is large enough for every edge of the target.
    pub closed spec fn wf(&self) -> bool {
        self.target.magic().len() > 0 && self.map@.len() >= self.target.magic().len()
    }

    /// A well-formed executor has a non-empty magic word and a map at
    /// least as long.
    pub proof fn lemma_wf(&self)
        requires
            self.wf(),
        ensures
            self.magic().len() > 0,
            self.map_view().len() >= self.magic().len(),
    {
    }

    /// An executor over `target` with a live map of `map_len` counters.
    pub fn new(target: MagicTarget, map_len: usize) -> (r: InProcessExecutor)
        requires
            target.magic().len() > 0,
            map_len >= target.magic().len(),
        ensures
            r.wf(),
            r.magic() == target.magic(),
            r.map_view() == zeros(map_len as nat),
    {
        InProcessExecutor { target, map: CoverageMap::new(map_len) }
    }

    /// Runs `input` once. The live map afterwards holds exactly what this run
    /// marked, so outcome and map depend on the input alone.
    pub fn run(&mut self, input: &[u8]) -> (r: ExecutionOutcome)
        requires
            old(self).wf(),
        ensures
            final(self).wf(),
            final(self).magic() == old(self).magic(),
            run_result(old(self).magic(), old(self).map_view().len(), input@, r, final(self).map_view()),
    {
        self.map.reset();
        self.target.run(input, &mut self.map)
    }

    /// A snapshot of the live map as the last run left it.
    pub fn observe(&self) -> (r: Vec<u8>)
        ensures
            r@ == self.map_view(),
    {
        self.map.observe()
    }

    /// The number of counters in the live map.
    pub fn map_len(&self) -> (r: usize)
        ensures
            r == self.map_view().len(),
    {
        self.map.len()
    }
}

/// What one run of `input` against the magic word gives on a map of `len`
/// counters: the outcome and the coverage snapshot.
pub open spec fn run_result(
    magic: Seq<u8>,
    len: nat,
    input: Seq<u8>,
    outcome: ExecutionOutcome,
    map: Seq<u8>,
) -> bool {
    outcome == target_outcome(magic, input) && map == target_coverage(magic, input, len)
}

/// Feeding the same input twice through the executor against the same
/// target gives the same outcome and the same coverage snapshot.
pub proof fn lemma_run_deterministic(
    magic: Seq<u8>,
    len: nat,
    input: Seq<u8>,
    outcome1: ExecutionOutcome,
    map1: Seq<u8>,
    outcome2: ExecutionOutcome,
    map2: Seq<u8>,
)
    requires
        run_result(magic, len, input, outcome1, map1),
        run_result(magic, len, input, outcome2, map2),
    ensures
        outcome1 == outcome2,
        map1 == map2,
{
}

/// An executor written by hand for a fuzzing state of type `S`: it counts
/// executions and runs the magic-word target on a caller's map.
pub struct CustomExecutor<S> {
    phantom: PhantomData<S>,
}

impl<S> CustomExecutor<S> {
    /// An executor tied to the state's type.
    pub fn new(_state: &S) -> (r: CustomExecutor<S>) {
        CustomExecutor { phantom: PhantomData }
    }

    /// Counts one execution and runs the target on `input`, marking `map`.
    pub fn run_target(
        &mut self,
        executions: &mut u64,
        target: &MagicTarget,
        input: &[u8],
        map: &mut CoverageMap,
    ) -> (r: ExecutionOutcome)
        requires
            *old(executions) < u64::MAX,
            target.magic().len() > 0,
            old(map)@.len() >= target.magic().len(),
        ensures
            *final(executions) == *old(executions) + 1,
            r == target_outcome(target.magic(), input@),
            final(map)@ == target_marks(target.magic(), input@, old(map)@),
    {
        *executions = *executions + 1;
        target.run(input, map)
    }
}

} // verus!
