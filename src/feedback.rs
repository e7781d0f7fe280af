use vstd::prelude::*;
use crate::coverage::zeros;
use crate::target::ExecutionOutcome;

verus! {

/// The larger of two counters.
pub open spec fn max_u8(a: u8, b: u8) -> u8 {
    if a >= b { a } else { b }
}

/// Index-by-index maximum of two maps of the same length.
pub open spec fn pointwise_max(a: Seq<u8>, b: Seq<u8>) -> Seq<u8> {
    Seq::new(a.len(), |i: int| max_u8(a[i], b[i]))
}

/// Whether `snapshot` exceeds the history at some index.
pub open spec fn is_novel(history: Seq<u8>, snapshot: Seq<u8>) -> bool {
    exists|i: int| 0 <= i < history.len() && snapshot[i] > history[i]
}

/// The history after accepting each snapshot of `snaps` in turn.
pub open spec fn history_after(history: Seq<u8>, snaps: Seq<Seq<u8>>) -> Seq<u8>
    decreases snaps.len(),
{
    if snaps.len() == 0 {
        history
    } else {
        pointwise_max(history_after(history, snaps.drop_last()), snaps.last())
    }
}

/// Judges novelty of coverage against the per-index maximum seen so far.
pub struct MaxMapFeedback {
    history: Vec<u8>,
}

impl View for MaxMapFeedback {
    type V = Seq<u8>;

    closed spec fn view(&self) -> Seq<u8> {
        self.history@
    }
}

impl MaxMapFeedback {
    /// A feedback for maps of `len` counters, with an all-zero history.
    pub fn new(len: usize) -> (r: MaxMapFeedback)
        ensures
            r@ == zeros(len as nat),
    {
        let mut history: Vec<u8> = Vec::with_capacity(len);
        let mut i: usize = 0;
        while i < len
            invariant
                i <= len,
                history@ == zeros(i as nat),
            decreases len - i,
        {
            history.push(0);
            i = i + 1;
            assert(history@ =~= zeros(i as nat));
        }
        MaxMapFeedback { history }
    }

    /// A feedback that resumes from `history`.
    pub fn from_history(history: Vec<u8>) -> (r: MaxMapFeedback)
        ensures
            r@ == history@,
    {
        MaxMapFeedback { history }
    }

    /// A copy of the history.
    pub fn history(&self) -> (r: Vec<u8>)
        ensures
            r@ == self@,
    {
        crate::corpus::copy_bytes(self.history.as_slice())
    }

    /// Whether some index of `snapshot` strictly exceeds the history.
    pub fn is_novel(&self, snapshot: &Vec<u8>) -> (r: bool)
        requires
            snapshot@.len() == self@.len(),
        ensures
            r == is_novel(self@, snapshot@),
    {
        let n = self.history.len();
        let mut i: usize = 0;
        while i < n
            invariant
                i <= n,
                n == self@.len(),
                snapshot@.len() == n,
                forall|j: int| 0 <= j < i ==> snapshot@[j] <= self@[j],
            decreases n - i,
        {
            if snapshot[i] > self.history[i] {
                return true;
            }
            i = i + 1;
        }
        false
    }

    /// Folds `snapshot` into the history, index by index.
    pub fn commit(&mut self, snapshot: &Vec<u8>)
        requires
            snapshot@.len() == old(self)@.len(),
        ensures
            final(self)@ == pointwise_max(old(self)@, snapshot@),
    {
        let n = self.history.len();
        let mut i: usize = 0;
        while i < n
            invariant
                i <= n,
                n == self@.len(),
                n == old(self)@.len(),
                snapshot@.len() == n,
                forall|j: int| 0 <= j < i ==> self@[j] == max_u8(old(self)@[j], snapshot@[j]),
                forall|j: int| i <= j < n ==> self@[j] == old(self)@[j],
            decreases n - i,
        {
            if snapshot[i] > self.history[i] {
                self.history.set(i, snapshot[i]);
            }
            i = i + 1;
        }
        assert(self@ =~= pointwise_max(old(self)@, snapshot@));
    }

    /// Whether `snapshot` is novel; when it is, the history takes it in.
    /// Either way the history ends as the index-by-index maximum.
    pub fn is_interesting(&mut self, snapshot: &Vec<u8>) -> (r: bool)
        requires
            snapshot@.len() == old(self)@.len(),
        ensures
            r == is_novel(old(self)@, snapshot@),
            final(self)@ == pointwise_max(old(self)@, snapshot@),
            r ==> final(self)@ != old(self)@,
    {
        let r = self.is_novel(snapshot);
        if r {
            self.commit(snapshot);
            proof {
                let i = choose|i: int| 0 <= i < old(self)@.len() && snapshot@[i] > old(self)@[i];
                assert(self@[i] != old(self)@[i]);
            }
        } else {
            assert(self@ =~= pointwise_max(old(self)@, snapshot@));
        }
        r
    }
}

/// Taking in any sequence of snapshots never lowers the history at any
/// index: the history after a prefix is below the history after the whole.
pub proof fn lemma_history_monotone(history: Seq<u8>, snaps: Seq<Seq<u8>>, k: int, i: int)
    requires
        forall|j: int| 0 <= j < snaps.len() ==> (#[trigger] snaps[j]).len() == history.len(),
        0 <= k <= snaps.len(),
        0 <= i < history.len(),
    ensures
        history_after(history, snaps.take(k)).len() == history.len(),
        history_after(history, snaps).len() == history.len(),
        history[i] <= history_after(history, snaps.take(k))[i],
        history_after(history, snaps.take(k))[i] <= history_after(history, snaps)[i],
    decreases snaps.len(),
{
    if snaps.len() > 0 {
        if k == snaps.len() {
            assert(snaps.take(k) =~= snaps);
            lemma_history_monotone(history, snaps.drop_last(), k - 1, i);
            assert(snaps.drop_last().take(k - 1) =~= snaps.drop_last());
        } else {
            lemma_history_monotone(history, snaps.drop_last(), k, i);
            assert(snaps.drop_last().take(k) =~= snaps.take(k));
            lemma_history_monotone(history, snaps.drop_last(), snaps.len() - 1, i);
            assert(snaps.drop_last().take(snaps.len() - 1) =~= snaps.drop_last());
        }
    } else {
        assert(snaps.take(k) =~= snaps);
    }
}

/// Remembers every crash signature (backtrace hash) seen so far, to keep
/// only crashes with a new signature.
pub struct HashFeedback {
    seen: Vec<u64>,
}

impl View for HashFeedback {
    type V = Set<u64>;

    closed spec fn view(&self) -> Set<u64> {
        self.seen@.to_set()
    }
}

/// Whether a run with signature `hash` has a signature not in `seen`; a run
/// without a signature never has.
pub open spec fn hash_is_new(seen: Set<u64>, hash: Option<u64>) -> bool {
    match hash {
        Some(h) => !seen.contains(h),
        None => false,
    }
}

/// The signatures known after a run with signature `hash`.
pub open spec fn hashes_after(seen: Set<u64>, hash: Option<u64>) -> Set<u64> {
    match hash {
        Some(h) => seen.insert(h),
        None => seen,
    }
}

impl HashFeedback {
    /// A feedback that has seen no signature.
    pub fn new() -> (r: HashFeedback)
        ensures
            r@ == Set::<u64>::empty(),
    {
        let r = HashFeedback { seen: Vec::new() };
        assert(r@ =~= Set::<u64>::empty());
        r
    }

    /// A feedback that resumes knowing the signatures in `seen`.
    pub fn from_signatures(seen: Vec<u64>) -> (r: HashFeedback)
        ensures
            r@ == seen@.to_set(),
    {
        HashFeedback { seen }
    }

    /// The known signatures, each once or more.
    pub fn signatures(&self) -> (r: Vec<u64>)
        ensures
            r@.to_set() == self@,
    {
        let mut r: Vec<u64> = Vec::new();
        let mut i: usize = 0;
        while i < self.seen.len()
            invariant
                i <= self.seen@.len(),
                r@ == self.seen@.take(i as int),
            decreases self.seen@.len() - i,
        {
            r.push(self.seen[i]);
            i = i + 1;
            assert(r@ =~= self.seen@.take(i as int));
        }
        assert(self.seen@.take(i as int) =~= self.seen@);
        r
    }

    /// Whether `hash` is a new signature; the signature is remembered.
    pub fn is_interesting(&mut self, hash: Option<u64>) -> (r: bool)
        ensures
            r == hash_is_new(old(self)@, hash),
            final(self)@ == hashes_after(old(self)@, hash),
    {
        match hash {
            None => false,
            Some(h) => {
                let n = self.seen.len();
                let mut i: usize = 0;
                let mut found = false;
                while i < n && !found
                    invariant
                        i <= n,
                        n == self.seen@.len(),
                        self.seen@ == old(self).seen@,
                        found ==> self.seen@.contains(h),
                        !found ==> forall|j: int| 0 <= j < i ==> self.seen@[j] != h,
                    decreases n - i,
                {
                    if self.seen[i] == h {
                        found = true;
                    }
                    i = i + 1;
                }
                if found {
                    assert(old(self)@.contains(h));
                    assert(old(self)@.insert(h) =~= old(self)@);
                    false
                } else {
                    assert(!self.seen@.contains(h));
                    self.seen.push(h);
                    proof {
                        old(self).seen@.lemma_push_to_set_commute(h);
                    }
                    true
                }
            }
        }
    }
}

/// Which executions count as solutions.
#[derive(Clone, Copy, Debug, PartialEq, Eq, Structural)]
pub enum ObjectivePolicy {
    /// Every crash.
    Crash,
    /// Every crash and every timeout.
    CrashOrTimeout,
    /// A crash whose coverage is new among crashes.
    NewCoverageCrash,
    /// A crash whose signature is new.
    NewSignatureCrash,
}

/// Where an evaluated execution goes.
#[derive(Clone, Copy, Debug, PartialEq, Eq, Structural)]
pub enum Verdict {
    Discard,
    Corpus,
    Solution,
}

/// The feedback state of a session: the corpus feedback, the history of
/// coverage among crashes and the known crash signatures.
pub struct Evaluator {
    pub policy: ObjectivePolicy,
    pub feedback: MaxMapFeedback,
    pub crash_feedback: MaxMapFeedback,
    pub hashes: HashFeedback,
}

/// Whether a run is a solution under `policy`. Checks joined by "and" stop
/// at the first that fails.
pub open spec fn is_solution(
    policy: ObjectivePolicy,
    crash_history: Seq<u8>,
    seen: Set<u64>,
    outcome: ExecutionOutcome,
    snapshot: Seq<u8>,
    hash: Option<u64>,
) -> bool {
    match policy {
        ObjectivePolicy::Crash => outcome == ExecutionOutcome::Crash,
        ObjectivePolicy::CrashOrTimeout => outcome == ExecutionOutcome::Crash || outcome
            == ExecutionOutcome::Timeout,
        ObjectivePolicy::NewCoverageCrash => is_novel(crash_history, snapshot) && outcome
            == ExecutionOutcome::Crash,
        ObjectivePolicy::NewSignatureCrash => outcome == ExecutionOutcome::Crash && hash_is_new(
            seen,
            hash,
        ),
    }
}

/// The verdict on a run: a solution first; else the corpus when its
/// coverage is novel; else nothing.
pub open spec fn verdict_of(
    policy: ObjectivePolicy,
    history: Seq<u8>,
    crash_history: Seq<u8>,
    seen: Set<u64>,
    outcome: ExecutionOutcome,
    snapshot: Seq<u8>,
    hash: Option<u64>,
) -> Verdict {
    if is_solution(policy, crash_history, seen, outcome, snapshot, hash) {
        Verdict::Solution
    } else if is_novel(history, snapshot) {
        Verdict::Corpus
    } else {
        Verdict::Discard
    }
}

impl Evaluator {
    /// Both coverage histories have the length of the live map.
    pub open spec fn wf(&self) -> bool {
        self.feedback@.len() == self.crash_feedback@.len()
    }

    /// The feedback state at session start: all-zero histories for maps of
    /// `len` counters and no known signature.
    pub fn new(policy: ObjectivePolicy, len: usize) -> (r: Evaluator)
        ensures
            r.wf(),
            r.policy == policy,
            r.feedback@ == zeros(len as nat),
            r.crash_feedback@ == zeros(len as nat),
            r.hashes@ == Set::<u64>::empty(),
    {
        Evaluator {
            policy,
            feedback: MaxMapFeedback::new(len),
            crash_feedback: MaxMapFeedback::new(len),
            hashes: HashFeedback::new(),
        }
    }

    /// Judges one run. A solution takes its coverage into the crash
    /// history; a corpus entry into the corpus history. A signature is
    /// remembered whenever the signature check runs.
    pub fn evaluate(&mut self, outcome: ExecutionOutcome, snapshot: &Vec<u8>, hash: Option<u64>) -> (r: Verdict)
        requires
            old(self).wf(),
            snapshot@.len() == old(self).feedback@.len(),
        ensures
            final(self).wf(),
            final(self).policy == old(self).policy,
            r == verdict_of(
                old(self).policy,
                old(self).feedback@,
                old(self).crash_feedback@,
                old(self).hashes@,
                outcome,
                snapshot@,
                hash,
            ),
            final(self).feedback@ == (if r == Verdict::Corpus {
                pointwise_max(old(self).feedback@, snapshot@)
            } else {
                old(self).feedback@
            }),
            final(self).crash_feedback@ == (if r == Verdict::Solution {
                pointwise_max(old(self).crash_feedback@, snapshot@)
            } else {
                old(self).crash_feedback@
            }),
            final(self).hashes@ == (if old(self).policy == ObjectivePolicy::NewSignatureCrash
                && outcome == ExecutionOutcome::Crash {
                hashes_after(old(self).hashes@, hash)
            } else {
                old(self).hashes@
            }),
    {
        let solution = match self.policy {
            ObjectivePolicy::Crash => outcome == ExecutionOutcome::Crash,
            ObjectivePolicy::CrashOrTimeout => outcome == ExecutionOutcome::Crash || outcome
                == ExecutionOutcome::Timeout,
            ObjectivePolicy::NewCoverageCrash => self.crash_feedback.is_novel(snapshot) && outcome
                == ExecutionOutcome::Crash,
            ObjectivePolicy::NewSignatureCrash => outcome == ExecutionOutcome::Crash
                && self.hashes.is_interesting(hash),
        };
        if solution {
            self.crash_feedback.commit(snapshot);
            Verdict::Solution
        } else if self.feedback.is_novel(snapshot) {
            self.feedback.commit(snapshot);
            Verdict::Corpus
        } else {
            Verdict::Discard
        }
    }
}

} // verus!
