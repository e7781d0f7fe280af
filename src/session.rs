use vstd::prelude::*;
use crate::corpus::{Corpus, CorpusError, Testcase, holds_bytes, same_cases, valid_entries};
use crate::coverage::zeros;
use crate::feedback::{
    Evaluator, HashFeedback, MaxMapFeedback, ObjectivePolicy, Verdict, hashes_after, pointwise_max, verdict_of,
};
use crate::mutation::{Havoc, Mutation, apply_stack, fits, is_printable};
use crate::scheduler::{QueueScheduler, better, favored, next_id};
use crate::target::ExecutionOutcome;

verus! {

/// Whether `new` is `old` after offering it an input with `bytes` and
/// coverage `cov`: with duplicate suppression, an input already held
/// changes nothing; otherwise the input is appended.
pub open spec fn admitted(old: Seq<Testcase>, dedup: bool, bytes: Seq<u8>, cov: Seq<u8>, new: Seq<Testcase>) -> bool {
    if dedup && holds_bytes(old, bytes) {
        new == old
    } else {
        &&& new.len() == old.len() + 1
        &&& new.drop_last() == old
        &&& new.last().bytes@ == bytes
        &&& new.last().coverage@ == cov
    }
}

/// Whether history `new` is at least history `old` at every index.
pub open spec fn dominates(new: Seq<u8>, old: Seq<u8>) -> bool {
    new.len() == old.len() && forall|i: int| 0 <= i < old.len() ==> new[i] >= old[i]
}

/// `n` added to `a`, saturated at `u64::MAX`.
pub open spec fn saturating_add(a: u64, n: nat) -> u64 {
    if a + n > u64::MAX { u64::MAX } else { (a + n) as u64 }
}

/// `c` as an optional number.
pub open spec fn opt_nat(c: Option<usize>) -> Option<nat> {
    match c {
        None => None,
        Some(v) => Some(v as nat),
    }
}

/// Everything a session needs to resume after a restart: its setup, the
/// position in its random stream, the queue's cursor, the histories, the
/// known signatures and both corpora. Every field is plain data, for the
/// caller to persist as it likes.
pub struct SessionState {
    pub map_len: usize,
    pub policy: ObjectivePolicy,
    pub dedup: bool,
    pub max_stack: usize,
    pub max_len: usize,
    pub seed: u64,
    pub draws: u64,
    pub cursor: Option<usize>,
    pub executions: u64,
    pub history: Vec<u8>,
    pub crash_history: Vec<u8>,
    pub signatures: Vec<u64>,
    pub corpus: Vec<Testcase>,
    pub solutions: Vec<Testcase>,
}

/// Whether a session can resume from `st`.
pub open spec fn valid_state(st: &SessionState) -> bool {
    &&& st.max_stack > 0
    &&& st.history@.len() == st.map_len
    &&& st.crash_history@.len() == st.map_len
    &&& valid_entries(st.corpus@, st.map_len as nat, st.dedup)
    &&& valid_entries(st.solutions@, st.map_len as nat, st.dedup)
}

/// The state of a fuzzing session apart from the target: its feedback, the
/// corpus, the solutions, the queue over the corpus and the mutation
/// engine. It hands out candidates and takes back what running them gave,
/// so the target may run anywhere: in process, in a forked child, in an
/// emulator.
pub struct Session {
    evaluator: Evaluator,
    corpus: Corpus,
    solutions: Corpus,
    scheduler: QueueScheduler,
    havoc: Havoc,
    executions: u64,
    map_len: usize,
}

impl Session {
    pub closed spec fn wf(&self) -> bool {
        &&& self.evaluator.wf()
        &&& self.evaluator.feedback@.len() == self.map_len
        &&& self.corpus.wf()
        &&& self.solutions.wf()
        &&& self.corpus.map_len() == self.map_len
        &&& self.solutions.map_len() == self.map_len
        &&& self.corpus.dedup() == self.solutions.dedup()
        &&& self.havoc.max_stack() > 0
    }

    /// The number of counters of the coverage maps the session judges.
    pub closed spec fn map_len(&self) -> nat {
        self.map_len as nat
    }

    pub closed spec fn policy(&self) -> ObjectivePolicy {
        self.evaluator.policy
    }

    pub closed spec fn dedup(&self) -> bool {
        self.corpus.dedup()
    }

    pub closed spec fn history(&self) -> Seq<u8> {
        self.evaluator.feedback@
    }

    pub closed spec fn crash_history(&self) -> Seq<u8> {
        self.evaluator.crash_feedback@
    }

    pub closed spec fn seen(&self) -> Set<u64> {
        self.evaluator.hashes@
    }

    pub closed spec fn corpus_entries(&self) -> Seq<Testcase> {
        self.corpus.entries()
    }

    pub closed spec fn solution_entries(&self) -> Seq<Testcase> {
        self.solutions.entries()
    }

    pub closed spec fn cursor(&self) -> Option<nat> {
        self.scheduler.cursor()
    }

    pub closed spec fn max_len(&self) -> nat {
        self.havoc.max_len()
    }

    pub closed spec fn max_stack(&self) -> nat {
        self.havoc.max_stack()
    }

    pub closed spec fn runs(&self) -> u64 {
        self.executions
    }

    /// The seed of the session's random stream.
    pub closed spec fn seed(&self) -> u64 {
        self.havoc.seed()
    }

    /// How far the session's random stream has been drawn.
    pub closed spec fn draws(&self) -> u64 {
        self.havoc.draws()
    }

    /// Whether `st` records session `s`.
    pub open spec fn saved(s: &Session, st: &SessionState) -> bool {
        &&& st.map_len == s.map_len()
        &&& st.policy == s.policy()
        &&& st.dedup == s.dedup()
        &&& st.max_stack == s.max_stack()
        &&& st.max_len == s.max_len()
        &&& st.seed == s.seed()
        &&& st.draws == s.draws()
        &&& opt_nat(st.cursor) == s.cursor()
        &&& st.executions == s.runs()
        &&& st.history@ == s.history()
        &&& st.crash_history@ == s.crash_history()
        &&& st.signatures@.to_set() == s.seen()
        &&& same_cases(st.corpus@, s.corpus_entries())
        &&& same_cases(st.solutions@, s.solution_entries())
    }

    /// Whether session `s` resumes from `st`.
    pub open spec fn loaded(st: &SessionState, s: &Session) -> bool {
        &&& s.wf()
        &&& s.map_len() == st.map_len
        &&& s.policy() == st.policy
        &&& s.dedup() == st.dedup
        &&& s.max_stack() == st.max_stack
        &&& s.max_len() == st.max_len
        &&& s.seed() == st.seed
        &&& s.draws() == st.draws
        &&& s.cursor() == opt_nat(st.cursor)
        &&& s.runs() == st.executions
        &&& s.history() == st.history@
        &&& s.crash_history() == st.crash_history@
        &&& s.seen() == st.signatures@.to_set()
        &&& s.corpus_entries() == st.corpus@
        &&& s.solution_entries() == st.solutions@
    }

    /// The histories have one counter per map index.
    pub proof fn lemma_history_len(&self)
        requires
            self.wf(),
        ensures
            self.history().len() == self.map_len(),
            self.crash_history().len() == self.map_len(),
    {
    }

    /// The fixed parts of a session that a step leaves alone.
    pub open spec fn same_setup(&self, other: &Session) -> bool {
        &&& self.wf()
        &&& self.map_len() == other.map_len()
        &&& self.policy() == other.policy()
        &&& self.dedup() == other.dedup()
        &&& self.max_len() == other.max_len()
        &&& self.max_stack() == other.max_stack()
    }

    /// Whether `b` shows the same corpus, solutions, histories, signatures
    /// and execution count as `a`.
    pub open spec fn same_state(a: &Session, b: &Session) -> bool {
        &&& b.same_setup(a)
        &&& b.history() == a.history()
        &&& b.crash_history() == a.crash_history()
        &&& b.seen() == a.seen()
        &&& b.corpus_entries() == a.corpus_entries()
        &&& b.solution_entries() == a.solution_entries()
        &&& b.runs() == a.runs()
    }

    /// Whether `new` is `old` after the report of a run of `input` that
    /// ended with `outcome`, coverage `snapshot` and crash signature
    /// `hash`: the verdict is `v`, the run is filed by it, the histories
    /// take in the snapshot where it was filed, the signatures change as
    /// the objective's signature check does, and one more execution is
    /// counted.
    pub open spec fn reported(
        old: &Session,
        input: Seq<u8>,
        outcome: ExecutionOutcome,
        snapshot: Seq<u8>,
        hash: Option<u64>,
        new: &Session,
        v: Verdict,
    ) -> bool {
        &&& new.same_setup(old)
        &&& v == verdict_of(
            old.policy(),
            old.history(),
            old.crash_history(),
            old.seen(),
            outcome,
            snapshot,
            hash,
        )
        &&& v == Verdict::Corpus ==> admitted(old.corpus_entries(), old.dedup(), input, snapshot, new.corpus_entries())
        &&& v != Verdict::Corpus ==> new.corpus_entries() == old.corpus_entries()
        &&& v == Verdict::Solution ==> admitted(
            old.solution_entries(),
            old.dedup(),
            input,
            snapshot,
            new.solution_entries(),
        )
        &&& v != Verdict::Solution ==> new.solution_entries() == old.solution_entries()
        &&& new.history() == (if v == Verdict::Corpus {
            pointwise_max(old.history(), snapshot)
        } else {
            old.history()
        })
        &&& new.crash_history() == (if v == Verdict::Solution {
            pointwise_max(old.crash_history(), snapshot)
        } else {
            old.crash_history()
        })
        &&& new.seen() == (if old.policy() == ObjectivePolicy::NewSignatureCrash && outcome
            == ExecutionOutcome::Crash {
            hashes_after(old.seen(), hash)
        } else {
            old.seen()
        })
        &&& new.runs() == saturating_add(old.runs(), 1)
        &&& dominates(new.history(), old.history())
    }

    /// Whether `candidate` was bred from entry `id` of `s`: some stack of one
    /// to `max_stack` mutations, the first fitting the parent, turned the
    /// entry, crossed over with some entry, into it.
    pub open spec fn bred_from(s: &Session, id: int, candidate: Seq<u8>) -> bool {
        exists|o: int, ops: Seq<Mutation>| {
            &&& 0 <= o < s.corpus_entries().len()
            &&& 1 <= ops.len() <= s.max_stack()
            &&& fits(ops[0], s.corpus_entries()[id].bytes@.len(), s.corpus_entries()[o].bytes@.len())
            &&& candidate == #[trigger] apply_stack(
                s.corpus_entries()[id].bytes@,
                s.corpus_entries()[o].bytes@,
                ops,
                s.max_len(),
            )
        }
    }

    /// A fresh session for maps of `map_len` counters: empty corpora,
    /// all-zero histories, the queue reset and the mutation engine seeded
    /// with `seed`.
    pub fn new(
        map_len: usize,
        policy: ObjectivePolicy,
        seed: u64,
        dedup: bool,
        max_stack: usize,
        max_len: usize,
    ) -> (r: Session)
        requires
            max_stack > 0,
        ensures
            r.wf(),
            r.map_len() == map_len,
            r.policy() == policy,
            r.dedup() == dedup,
            r.max_len() == max_len,
            r.max_stack() == max_stack,
            r.history() == zeros(map_len as nat),
            r.crash_history() == zeros(map_len as nat),
            r.seen() == Set::<u64>::empty(),
            r.corpus_entries().len() == 0,
            r.solution_entries().len() == 0,
            r.cursor() == None::<nat>,
            r.runs() == 0,
    {
        Session {
            evaluator: Evaluator::new(policy, map_len),
            corpus: Corpus::new(map_len, dedup),
            solutions: Corpus::new(map_len, dedup),
            scheduler: QueueScheduler::new(),
            havoc: Havoc::new(seed, max_stack, max_len),
            executions: 0,
            map_len,
        }
    }

    /// A record of the session to resume from after a restart.
    pub fn save(&self) -> (r: SessionState)
        requires
            self.wf(),
        ensures
            Session::saved(self, &r),
            valid_state(&r),
    {
        let r = SessionState {
            map_len: self.map_len,
            policy: self.evaluator.policy,
            dedup: self.corpus.dedup_exec(),
            max_stack: self.havoc.max_stack_exec(),
            max_len: self.havoc.max_len_exec(),
            seed: self.havoc.seed_exec(),
            draws: self.havoc.draws_exec(),
            cursor: self.scheduler.last(),
            executions: self.executions,
            history: self.evaluator.feedback.history(),
            crash_history: self.evaluator.crash_feedback.history(),
            signatures: self.evaluator.hashes.signatures(),
            corpus: self.corpus.cases(),
            solutions: self.solutions.cases(),
        };
        proof {
            self.corpus.lemma_valid();
            self.solutions.lemma_valid();
            lemma_same_cases_valid(self.corpus.entries(), r.corpus@, r.map_len as nat, r.dedup);
            lemma_same_cases_valid(self.solutions.entries(), r.solutions@, r.map_len as nat, r.dedup);
        }
        r
    }

    /// The session recorded in `st`, at the same point of its random
    /// stream; `None` when `st` is not a consistent record.
    pub fn load(st: SessionState) -> (r: Option<Session>)
        ensures
            r is Some <==> valid_state(&st),
            r matches Some(s) ==> Session::loaded(&st, &s),
    {
        if st.max_stack == 0 || st.history.len() != st.map_len || st.crash_history.len() != st.map_len {
            return None;
        }
        let ghost st0 = st;
        let corpus = match Corpus::from_entries(st.corpus, st.map_len, st.dedup) {
            Some(c) => c,
            None => {
                return None;
            },
        };
        let solutions = match Corpus::from_entries(st.solutions, st.map_len, st.dedup) {
            Some(c) => c,
            None => {
                return None;
            },
        };
        let evaluator = Evaluator {
            policy: st.policy,
            feedback: MaxMapFeedback::from_history(st.history),
            crash_feedback: MaxMapFeedback::from_history(st.crash_history),
            hashes: HashFeedback::from_signatures(st.signatures),
        };
        Some(Session {
            evaluator,
            corpus,
            solutions,
            scheduler: QueueScheduler::resume(st.cursor),
            havoc: Havoc::resume(st.seed, st.draws, st.max_stack, st.max_len),
            executions: st.executions,
            map_len: st.map_len,
        })
    }

    /// Takes back what a run of `input` gave: its outcome, its coverage
    /// snapshot and, where the backend records one, its crash signature.
    /// The run is judged and filed in the solutions, in the corpus, or
    /// nowhere; exec_time is how long it took.
    pub fn report(
        &mut self,
        input: Vec<u8>,
        outcome: ExecutionOutcome,
        snapshot: &Vec<u8>,
        hash: Option<u64>,
        exec_time: u64,
    ) -> (r: Verdict)
        requires
            old(self).wf(),
            snapshot@.len() == old(self).map_len(),
        ensures
            Session::reported(old(self), input@, outcome, snapshot@, hash, final(self), r),
            final(self).cursor() == old(self).cursor(),
    {
        if self.executions < u64::MAX {
            self.executions = self.executions + 1;
        }
        let verdict = self.evaluator.evaluate(outcome, snapshot, hash);
        let ghost bytes = input@;
        let ghost before = self.corpus.entries();
        let ghost sol_before = self.solutions.entries();
        if verdict == Verdict::Solution {
            let tc = Testcase { bytes: input, coverage: copy_snapshot(snapshot), exec_time, solution: true };
            let _id = self.solutions.add(tc);
            proof {
                if !(self.solutions.dedup() && holds_bytes(sol_before, bytes)) {
                    assert(self.solutions.entries().drop_last() =~= sol_before);
                }
            }
        } else if verdict == Verdict::Corpus {
            let tc = Testcase { bytes: input, coverage: copy_snapshot(snapshot), exec_time, solution: false };
            let _id = self.corpus.add(tc);
            proof {
                if !(self.corpus.dedup() && holds_bytes(before, bytes)) {
                    assert(self.corpus.entries().drop_last() =~= before);
                }
            }
        }
        proof {
            lemma_max_dominates(old(self).history(), snapshot@);
        }
        verdict
    }

    /// The next candidate to run: the queue picks a parent and the mutation
    /// engine derives a child from it, crossing over with a random other
    /// entry. Fails with `EmptyCorpus`, changing nothing, while the corpus
    /// is empty.
    pub fn next_candidate(&mut self) -> (r: Result<Vec<u8>, CorpusError>)
        requires
            old(self).wf(),
        ensures
            r is Err <==> old(self).corpus_entries().len() == 0,
            r is Err ==> r == Err::<Vec<u8>, CorpusError>(CorpusError::EmptyCorpus) && *final(self)
                == *old(self),
            Session::same_state(old(self), final(self)),
            r is Ok ==> {
                let id = next_id(old(self).cursor(), old(self).corpus_entries().len());
                &&& final(self).cursor() == Some(id)
                &&& Session::bred_from(old(self), id as int, r.unwrap()@)
            },
    {
        let count = self.corpus.count();
        if count == 0 {
            return Err(CorpusError::EmptyCorpus);
        }
        let id = match self.scheduler.next(count) {
            Ok(id) => id,
            Err(e) => {
                return Err(e);
            },
        };
        let ghost mid = *self;
        let child = self.breed(id);
        proof {
            Session::lemma_bred_from_same(&mid, old(self), id as int, child@);
        }
        Ok(child)
    }

    proof fn lemma_bred_from_same(a: &Session, b: &Session, id: int, c: Seq<u8>)
        requires
            Session::bred_from(a, id, c),
            a.corpus_entries() == b.corpus_entries(),
            a.max_stack() == b.max_stack(),
            a.max_len() == b.max_len(),
        ensures
            Session::bred_from(b, id, c),
    {
        let (o, ops) = choose|o: int, ops: Seq<Mutation>| {
            &&& 0 <= o < a.corpus_entries().len()
            &&& 1 <= ops.len() <= a.max_stack()
            &&& fits(ops[0], a.corpus_entries()[id].bytes@.len(), a.corpus_entries()[o].bytes@.len())
            &&& c == #[trigger] apply_stack(
                a.corpus_entries()[id].bytes@,
                a.corpus_entries()[o].bytes@,
                ops,
                a.max_len(),
            )
        };
        assert(c == apply_stack(b.corpus_entries()[id].bytes@, b.corpus_entries()[o].bytes@, ops, b.max_len()));
    }

    /// A candidate bred from the favored entry instead of the queue's next:
    /// the one with the most uniquely covered indices per unit of execution
    /// time, the earliest among equals. The queue is left alone. Fails with
    /// `EmptyCorpus`, changing nothing, while the corpus is empty.
    pub fn favored_candidate(&mut self) -> (r: Result<Vec<u8>, CorpusError>)
        requires
            old(self).wf(),
        ensures
            r is Err <==> old(self).corpus_entries().len() == 0,
            r is Err ==> r == Err::<Vec<u8>, CorpusError>(CorpusError::EmptyCorpus) && *final(self)
                == *old(self),
            Session::same_state(old(self), final(self)),
            final(self).cursor() == old(self).cursor(),
            r is Ok ==> exists|id: int| {
                let es = old(self).corpus_entries();
                &&& 0 <= id < es.len()
                &&& forall|j: int| 0 <= j < es.len() ==> !better(es, old(self).map_len(), j, id)
                &&& forall|j: int| 0 <= j < id ==> better(es, old(self).map_len(), id, j)
                &&& #[trigger] Session::bred_from(old(self), id, r.unwrap()@)
            },
    {
        let id = match favored(&self.corpus) {
            Ok(id) => id,
            Err(e) => {
                return Err(e);
            },
        };
        let ghost es = self.corpus_entries();
        let ghost m = self.map_len();
        assert(forall|j: int| 0 <= j < es.len() ==> !better(es, m, j, id as int));
        assert(forall|j: int| 0 <= j < id ==> better(es, m, id as int, j));
        let child = self.breed(id);
        let r: Result<Vec<u8>, CorpusError> = Ok(child);
        assert(Session::bred_from(old(self), id as int, r.unwrap()@));
        r
    }

    /// A child of entry `id`, crossed over with a random other entry.
    fn breed(&mut self, id: usize) -> (r: Vec<u8>)
        requires
            old(self).wf(),
            id < old(self).corpus_entries().len(),
        ensures
            Session::same_state(old(self), final(self)),
            final(self).cursor() == old(self).cursor(),
            Session::bred_from(old(self), id as int, r@),
    {
        let count = self.corpus.count();
        let o = self.havoc.below(count);
        let parent = self.corpus.entry(id);
        let other = self.corpus.entry(o);
        let (child, ops) = self.havoc.mutate(parent.bytes.as_slice(), other.bytes.as_slice());
        assert(child@ == apply_stack(
            old(self).corpus_entries()[id as int].bytes@,
            old(self).corpus_entries()[o as int].bytes@,
            ops@,
            old(self).max_len(),
        ));
        child
    }

    /// Whether duplicate suppression is on.
    pub fn dedup_exec(&self) -> (r: bool)
        ensures
            r == self.dedup(),
    {
        self.corpus.dedup_exec()
    }

    /// Whether some corpus entry holds exactly `bytes`.
    pub fn corpus_holds(&self, bytes: &[u8]) -> (r: bool)
        ensures
            r == holds_bytes(self.corpus_entries(), bytes@),
    {
        self.corpus.holds(bytes)
    }

    /// Replaces the bytes of corpus entry `id`, keeping its recorded
    /// coverage; with duplicate suppression on, no entry may hold `bytes`.
    pub fn replace_entry_bytes(&mut self, id: usize, bytes: Vec<u8>)
        requires
            old(self).wf(),
            id < old(self).corpus_entries().len(),
            old(self).dedup() ==> !holds_bytes(old(self).corpus_entries(), bytes@),
        ensures
            final(self).same_setup(old(self)),
            final(self).cursor() == old(self).cursor(),
            final(self).history() == old(self).history(),
            final(self).crash_history() == old(self).crash_history(),
            final(self).seen() == old(self).seen(),
            final(self).solution_entries() == old(self).solution_entries(),
            final(self).runs() == old(self).runs(),
            final(self).corpus_entries().len() == old(self).corpus_entries().len(),
            forall|j: int|
                0 <= j < old(self).corpus_entries().len() && j != id ==> final(self).corpus_entries()[j]
                    == old(self).corpus_entries()[j],
            final(self).corpus_entries()[id as int].bytes@ == bytes@,
            final(self).corpus_entries()[id as int].coverage@ == old(self).corpus_entries()[id as int].coverage@,
    {
        self.corpus.replace_bytes(id, bytes);
    }

    /// A random input of one to `max_size` printable bytes.
    pub fn printable(&mut self, max_size: usize) -> (r: Vec<u8>)
        requires
            old(self).wf(),
            max_size > 0,
        ensures
            Session::same_state(old(self), final(self)),
            final(self).cursor() == old(self).cursor(),
            1 <= r@.len() <= max_size,
            forall|i: int| 0 <= i < r@.len() ==> is_printable(#[trigger] r@[i]),
    {
        self.havoc.printable(max_size)
    }

    /// The corpus of retained inputs.
    pub fn corpus(&self) -> (r: &Corpus)
        ensures
            r.entries() == self.corpus_entries(),
    {
        &self.corpus
    }

    /// The inputs that met the objective.
    pub fn solutions(&self) -> (r: &Corpus)
        ensures
            r.entries() == self.solution_entries(),
    {
        &self.solutions
    }

    /// The number of executions reported so far.
    pub fn executions(&self) -> (r: u64)
        ensures
            r == self.runs(),
    {
        self.executions
    }

    /// The number of counters of the coverage maps the session judges.
    pub fn coverage_len(&self) -> (r: usize)
        ensures
            r == self.map_len(),
    {
        self.map_len
    }
}

/// An owned copy of a coverage snapshot.
fn copy_snapshot(s: &Vec<u8>) -> (r: Vec<u8>)
    ensures
        r@ == s@,
{
    crate::corpus::copy_bytes(s.as_slice())
}

proof fn lemma_same_cases_valid(a: Seq<Testcase>, b: Seq<Testcase>, map_len: nat, dedup: bool)
    requires
        valid_entries(a, map_len, dedup),
        same_cases(b, a),
    ensures
        valid_entries(b, map_len, dedup),
{
    assert forall|j: int| 0 <= j < b.len() implies (#[trigger] b[j]).coverage@.len() == map_len by {
        assert(b[j].coverage@ == a[j].coverage@);
    }
    if dedup {
        assert forall|j: int, k: int| 0 <= j < k < b.len() implies (#[trigger] b[j]).bytes@ != (#[trigger] b[k]).bytes@ by {
            assert(b[j].bytes@ == a[j].bytes@);
            assert(b[k].bytes@ == a[k].bytes@);
            assert(a[j].bytes@ != a[k].bytes@);
        }
    }
}

/// A session saved and loaded again shows the same setup, random stream
/// position, cursor, execution count, histories, signatures and corpora.
pub proof fn lemma_resume_round_trip(s: &Session, st: &SessionState, t: &Session)
    requires
        s.wf(),
        Session::saved(s, st),
        Session::loaded(st, t),
    ensures
        t.map_len() == s.map_len(),
        t.policy() == s.policy(),
        t.dedup() == s.dedup(),
        t.max_stack() == s.max_stack(),
        t.max_len() == s.max_len(),
        t.seed() == s.seed(),
        t.draws() == s.draws(),
        t.cursor() == s.cursor(),
        t.runs() == s.runs(),
        t.history() == s.history(),
        t.crash_history() == s.crash_history(),
        t.seen() == s.seen(),
        same_cases(t.corpus_entries(), s.corpus_entries()),
        same_cases(t.solution_entries(), s.solution_entries()),
{
}

proof fn lemma_max_dominates(old: Seq<u8>, snapshot: Seq<u8>)
    ensures
        dominates(old, old),
        old.len() == snapshot.len() ==> dominates(pointwise_max(old, snapshot), old),
{
}

} // verus!
