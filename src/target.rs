use vstd::prelude::*;
use crate::coverage::{CoverageMap, zeros};

verus! {

/// What one execution of a candidate reports.
#[derive(Clone, Copy, Debug, PartialEq, Eq, Structural)]
pub enum ExecutionOutcome {
    Normal,
    Crash,
    Timeout,
}

/// Whether the first `k` bytes of `input` are the first `k` bytes of `magic`.
pub open spec fn matched(magic: Seq<u8>, input: Seq<u8>, k: int) -> bool {
    0 <= k <= input.len() && k <= magic.len() && forall|j: int| 0 <= j < k ==> input[j] == magic[j]
}

/// The outcome of the magic-word target: a crash exactly when the input
/// starts with the whole magic word.
pub open spec fn target_outcome(magic: Seq<u8>, input: Seq<u8>) -> ExecutionOutcome {
    if matched(magic, input, magic.len() as int) {
        ExecutionOutcome::Crash
    } else {
        ExecutionOutcome::Normal
    }
}

/// The number of leading bytes that must match for edge `i` to be marked:
/// `i` itself, except that the last edge takes the whole magic word.
pub open spec fn edge_prefix(magic: Seq<u8>, i: int) -> int {
    if i == magic.len() - 1 { magic.len() as int } else { i }
}

/// Whether the target marks edge `i` when run on `input`: edge 0 always,
/// edge `k` (for `0 < k < magic.len() - 1`) when the first `k` bytes match,
/// and the last edge (`magic.len() - 1`) only when the whole word matches,
/// which is also when the target crashes.
pub open spec fn edge_hit(magic: Seq<u8>, input: Seq<u8>, i: int) -> bool {
    i == 0 || (0 < i < magic.len() && matched(magic, input, edge_prefix(magic, i)))
}

/// The map after running the target on `input`, starting from `map`.
pub open spec fn target_marks(magic: Seq<u8>, input: Seq<u8>, map: Seq<u8>) -> Seq<u8> {
    Seq::new(map.len(), |i: int| if edge_hit(magic, input, i) { 1u8 } else { map[i] })
}

/// The coverage snapshot of one run on a freshly cleared map of `len` counters.
pub open spec fn target_coverage(magic: Seq<u8>, input: Seq<u8>, len: nat) -> Seq<u8> {
    target_marks(magic, input, zeros(len))
}

/// A target that walks a magic word byte by byte: each further matching
/// prefix byte reaches a new edge, and the whole word reaches the last
/// edge and crashes it.
pub struct MagicTarget {
    magic: Vec<u8>,
}

impl MagicTarget {
    pub closed spec fn magic(&self) -> Seq<u8> {
        self.magic@
    }

    /// A target for the given magic word, which must not be empty.
    pub fn new(magic: Vec<u8>) -> (r: MagicTarget)
        requires
            magic@.len() > 0,
        ensures
            r.magic() == magic@,
    {
        MagicTarget { magic }
    }

    /// The number of edges the target can mark: its map needs at least that many.
    pub fn edges(&self) -> (r: usize)
        ensures
            r == self.magic().len(),
    {
        self.magic.len()
    }

    /// Runs the target on `input`, marking edges in `map`.
    pub fn run(&self, input: &[u8], map: &mut CoverageMap) -> (r: ExecutionOutcome)
        requires
            self.magic().len() > 0,
            old(map)@.len() >= self.magic().len(),
        ensures
            r == target_outcome(self.magic(), input@),
            final(map)@ == target_marks(self.magic(), input@, old(map)@),
    {
        let ghost m = self.magic@;
        let ghost s = input@;
        let ghost base = map@;
        map.mark(0);
        let mut k: usize = 0;
        while k < input.len() && input[k] == self.magic[k]
            invariant
                m == self.magic@,
                s == input@,
                m.len() > 0,
                base == old(map)@,
                base.len() >= m.len(),
                k < m.len(),
                matched(m, s, k as int),
                map@ == Seq::new(
                    base.len(),
                    |i: int| if i == 0 || (0 < i <= k && i < m.len() - 1) { 1u8 } else { base[i] },
                ),
            decreases m.len() - k,
        {
            k = k + 1;
            if k == self.magic.len() {
                map.mark(k - 1);
                assert(matched(m, s, m.len() as int));
                assert forall|i: int| 0 <= i <= k implies matched(m, s, i) by {}
                assert(map@ =~= target_marks(m, s, base));
                return ExecutionOutcome::Crash;
            }
            if k < self.magic.len() - 1 {
                map.mark(k);
            }
            assert(map@ =~= Seq::new(
                base.len(),
                |i: int| if i == 0 || (0 < i <= k && i < m.len() - 1) { 1u8 } else { base[i] },
            ));
        }
        assert forall|i: int| 0 <= i <= k implies matched(m, s, i) by {}
        assert forall|i: int| k < i implies !matched(m, s, i) by {
            if k < i && matched(m, s, i) {
                assert(k < s.len() && s[k as int] == m[k as int]);
            }
        }
        assert(map@ =~= target_marks(m, s, base));
        ExecutionOutcome::Normal
    }
}

} // verus!
