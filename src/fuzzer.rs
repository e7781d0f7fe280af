use vstd::prelude::*;
use crate::clock::Stopwatch;
use crate::corpus::{Corpus, CorpusError, Testcase, copy_bytes};
use crate::minimizer::{Preserve, minimize};
use crate::coverage::zeros;
use crate::executor::InProcessExecutor;
use crate::feedback::{ObjectivePolicy, Verdict, is_novel};
use crate::mutation::is_printable;
use crate::scheduler::{better, next_id};
use crate::session::{Session, saturating_add};
use crate::share::{decode, decoding};
use crate::target::{MagicTarget, target_outcome, target_coverage};

verus! {

/// Whether every entry's recorded coverage is what the magic-word target
/// marks on a cleared map of `len` counters when run on the entry's bytes.
pub open spec fn coverage_recorded(entries: Seq<Testcase>, magic: Seq<u8>, len: nat) -> bool {
    forall|j: int| 0 <= j < entries.len() ==> (#[trigger] entries[j]).coverage@ == target_coverage(magic, entries[j].bytes@, len)
}

/// A fuzzing session whose target, a magic word, runs in process: the
/// session state together with the executor that owns the live map. Each
/// step runs to completion before the next.
pub struct Fuzzer {
    executor: InProcessExecutor,
    session: Session,
}

impl Fuzzer {
    pub closed spec fn wf(&self) -> bool {
        &&& self.executor.wf()
        &&& self.session.wf()
        &&& self.session.map_len() == self.executor.map_view().len()
        &&& coverage_recorded(self.session.corpus_entries(), self.executor.magic(), self.executor.map_view().len())
        &&& coverage_recorded(self.session.solution_entries(), self.executor.magic(), self.executor.map_view().len())
    }

    /// The session state, apart from the target.
    pub closed spec fn inner(&self) -> Session {
        self.session
    }

    pub closed spec fn magic(&self) -> Seq<u8> {
        self.executor.magic()
    }

    pub open spec fn map_len(&self) -> nat {
        self.inner().map_len()
    }

    pub open spec fn policy(&self) -> ObjectivePolicy {
        self.inner().policy()
    }

    pub open spec fn dedup(&self) -> bool {
        self.inner().dedup()
    }

    pub open spec fn history(&self) -> Seq<u8> {
        self.inner().history()
    }

    pub open spec fn crash_history(&self) -> Seq<u8> {
        self.inner().crash_history()
    }

    pub open spec fn seen(&self) -> Set<u64> {
        self.inner().seen()
    }

    pub open spec fn corpus_entries(&self) -> Seq<Testcase> {
        self.inner().corpus_entries()
    }

    pub open spec fn solution_entries(&self) -> Seq<Testcase> {
        self.inner().solution_entries()
    }

    pub open spec fn cursor(&self) -> Option<nat> {
        self.inner().cursor()
    }

    pub open spec fn max_len(&self) -> nat {
        self.inner().max_len()
    }

    pub open spec fn runs(&self) -> u64 {
        self.inner().runs()
    }

    /// In a session, every retained entry's recorded coverage is the
    /// coverage of its bytes: edge 0 is always set, edge `k` below the last
    /// exactly when the entry starts with the magic word's first `k` bytes,
    /// and the last edge exactly when it starts with the whole word.
    pub proof fn lemma_recorded_coverage(&self)
        requires
            self.wf(),
        ensures
            coverage_recorded(self.corpus_entries(), self.magic(), self.map_len()),
            coverage_recorded(self.solution_entries(), self.magic(), self.map_len()),
    {
    }

    /// Whether `new` is `old` after running `input` in process and
    /// reporting it with verdict `v`.
    pub open spec fn evaluated(old: &Fuzzer, input: Seq<u8>, new: &Fuzzer, v: Verdict) -> bool {
        &&& new.wf()
        &&& new.magic() == old.magic()
        &&& Session::reported(
            &old.inner(),
            input,
            target_outcome(old.magic(), input),
            target_coverage(old.magic(), input, old.map_len()),
            None,
            &new.inner(),
            v,
        )
    }

    /// Whether `b` is `a` after running and reporting `inputs` one after
    /// another.
    pub open spec fn evaluated_all(a: Fuzzer, inputs: Seq<Seq<u8>>, b: Fuzzer) -> bool
        decreases inputs.len(),
    {
        if inputs.len() == 0 {
            &&& Session::same_state(&a.inner(), &b.inner())
            &&& b.wf()
            &&& b.magic() == a.magic()
        } else {
            exists|mid: Fuzzer, v: Verdict|
                Fuzzer::evaluated_all(a, inputs.drop_last(), mid) && #[trigger] Fuzzer::evaluated(
                    &mid,
                    inputs.last(),
                    &b,
                    v,
                )
        }
    }

    /// Whether `new` is `old` after one in-process iteration that bred a
    /// child from entry `id` and ran and reported it with verdict `v`.
    pub open spec fn bred(old: &Fuzzer, new: &Fuzzer, id: int, v: Verdict) -> bool {
        exists|child: Seq<u8>|
            #[trigger] Session::bred_from(&old.inner(), id, child) && Fuzzer::evaluated(old, child, new, v)
    }

    /// A fresh session: empty corpora, all-zero histories, the queue reset
    /// and the mutation engine seeded with `seed`.
    pub fn new(
        target: MagicTarget,
        map_len: usize,
        policy: ObjectivePolicy,
        seed: u64,
        dedup: bool,
        max_stack: usize,
        max_len: usize,
    ) -> (r: Fuzzer)
        requires
            target.magic().len() > 0,
            map_len >= target.magic().len(),
            max_stack > 0,
        ensures
            r.wf(),
            r.magic() == target.magic(),
            r.map_len() == map_len,
            r.policy() == policy,
            r.dedup() == dedup,
            r.max_len() == max_len,
            r.inner().max_stack() == max_stack,
            r.history() == zeros(map_len as nat),
            r.crash_history() == zeros(map_len as nat),
            r.seen() == Set::<u64>::empty(),
            r.corpus_entries().len() == 0,
            r.solution_entries().len() == 0,
            r.cursor() == None::<nat>,
            r.runs() == 0,
    {
        Fuzzer {
            executor: InProcessExecutor::new(target, map_len),
            session: Session::new(map_len, policy, seed, dedup, max_stack, max_len),
        }
    }

    /// Runs `input`, judges it and files it: in the solutions, in the
    /// corpus, or nowhere.
    pub fn evaluate_input(&mut self, input: Vec<u8>) -> (r: Verdict)
        requires
            old(self).wf(),
        ensures
            Fuzzer::evaluated(old(self), input@, final(self), r),
            final(self).cursor() == old(self).cursor(),
    {
        let watch = Stopwatch::start();
        let outcome = self.executor.run(input.as_slice());
        let exec_time = watch.micros();
        let snapshot = self.executor.observe();
        let ghost bytes = input@;
        let ghost before = self.session.corpus_entries();
        let ghost sol_before = self.session.solution_entries();
        let verdict = self.session.report(input, outcome, &snapshot, None, exec_time);
        proof {
            let magic = self.executor.magic();
            let len = self.executor.map_view().len();
            let es = self.session.corpus_entries();
            if es != before {
                assert forall|j: int| 0 <= j < es.len() implies (#[trigger] es[j]).coverage@ == target_coverage(
                    magic,
                    es[j].bytes@,
                    len,
                ) by {
                    if j < before.len() {
                        assert(es.drop_last()[j] == before[j]);
                    }
                }
            }
            let ss = self.session.solution_entries();
            if ss != sol_before {
                assert forall|j: int| 0 <= j < ss.len() implies (#[trigger] ss[j]).coverage@ == target_coverage(
                    magic,
                    ss[j].bytes@,
                    len,
                ) by {
                    if j < sol_before.len() {
                        assert(ss.drop_last()[j] == sol_before[j]);
                    }
                }
            }
        }
        verdict
    }

    /// Generates `count` random printable inputs of one to `max_size` bytes
    /// and runs and reports each in turn. On a fresh session at least one
    /// of them is kept, since every run reaches edge 0.
    pub fn generate_initial_inputs(&mut self, count: usize, max_size: usize)
        requires
            old(self).wf(),
            max_size > 0,
        ensures
            final(self).cursor() == old(self).cursor(),
            final(self).runs() == saturating_add(old(self).runs(), count as nat),
            exists|inputs: Seq<Seq<u8>>| {
                &&& inputs.len() == count
                &&& forall|j: int|
                    0 <= j < count ==> {
                        &&& 1 <= (#[trigger] inputs[j]).len() <= max_size
                        &&& forall|k: int| 0 <= k < inputs[j].len() ==> is_printable(#[trigger] inputs[j][k])
                    }
                &&& Fuzzer::evaluated_all(*old(self), inputs, *final(self))
            },
            count > 0 && old(self).history() == zeros(old(self).map_len()) && old(self).corpus_entries().len() == 0
                && old(self).solution_entries().len() == 0 ==> final(self).corpus_entries().len()
                + final(self).solution_entries().len() > 0,
    {
        let ghost inputs: Seq<Seq<u8>> = Seq::empty();
        let ghost fresh = old(self).history() == zeros(old(self).map_len()) && old(self).corpus_entries().len()
            == 0 && old(self).solution_entries().len() == 0;
        let mut i: usize = 0;
        proof {
            self.lemma_wf_magic();
        }
        while i < count
            invariant
                i <= count,
                max_size > 0,
                self.wf(),
                self.magic() == old(self).magic(),
                self.cursor() == old(self).cursor(),
                self.runs() == saturating_add(old(self).runs(), i as nat),
                self.inner().same_setup(&old(self).inner()),
                inputs.len() == i,
                forall|j: int|
                    0 <= j < i ==> {
                        &&& 1 <= (#[trigger] inputs[j]).len() <= max_size
                        &&& forall|k: int| 0 <= k < inputs[j].len() ==> is_printable(#[trigger] inputs[j][k])
                    },
                Fuzzer::evaluated_all(*old(self), inputs, *self),
                i == 0 ==> Session::same_state(&old(self).inner(), &self.inner()),
                fresh == (old(self).history() == zeros(old(self).map_len()) && old(self).corpus_entries().len()
                    == 0 && old(self).solution_entries().len() == 0),
                fresh && i > 0 ==> self.corpus_entries().len() + self.solution_entries().len() > 0,
            decreases count - i,
        {
            let ghost before = *self;
            let input = self.session.printable(max_size);
            let ghost mid = *self;
            proof {
                Fuzzer::lemma_evaluated_all_same_state(*old(self), inputs, before, mid);
            }
            let ghost bytes = input@;
            let v = self.evaluate_input(input);
            proof {
                let next = inputs.push(bytes);
                assert(next.drop_last() =~= inputs);
                assert(next.last() == bytes);
                assert(Fuzzer::evaluated(&mid, next.last(), self, v));
                assert(Fuzzer::evaluated_all(*old(self), next, *self));
                if fresh && i == 0 {
                    mid.lemma_wf_magic();
                    let cov = target_coverage(mid.magic(), bytes, mid.map_len());
                    assert(cov[0] == 1u8);
                    assert(mid.history() == before.history());
                    assert(before.history() == old(self).history());
                    assert(mid.map_len() == old(self).map_len());
                    assert(mid.history() == zeros(mid.map_len()));
                    assert(mid.history()[0] == 0u8);
                    assert(is_novel(mid.history(), cov));
                    assert(v != Verdict::Discard);
                }
                inputs = next;
            }
            i = i + 1;
        }
    }

    proof fn lemma_wf_magic(&self)
        requires
            self.wf(),
        ensures
            self.magic().len() > 0,
            self.map_len() >= self.magic().len(),
    {
        self.executor.lemma_wf();
    }

    proof fn lemma_evaluated_all_same_state(a: Fuzzer, inputs: Seq<Seq<u8>>, b: Fuzzer, c: Fuzzer)
        requires
            Fuzzer::evaluated_all(a, inputs, b),
            Session::same_state(&b.inner(), &c.inner()),
            c.wf(),
            c.magic() == b.magic(),
        ensures
            Fuzzer::evaluated_all(a, inputs, c),
    {
        if inputs.len() > 0 {
            let (mid, v) = choose|mid: Fuzzer, v: Verdict|
                Fuzzer::evaluated_all(a, inputs.drop_last(), mid) && #[trigger] Fuzzer::evaluated(
                    &mid,
                    inputs.last(),
                    &b,
                    v,
                );
            assert(Fuzzer::evaluated(&mid, inputs.last(), &c, v));
        }
    }

    /// One iteration of the loop: the queue picks a parent, the mutation
    /// engine derives a child from it (crossing over with a random other
    /// entry), and the child is run, judged and filed. Fails with
    /// `EmptyCorpus`, changing nothing, while the corpus is empty.
    pub fn fuzz_one(&mut self) -> (r: Result<Verdict, CorpusError>)
        requires
            old(self).wf(),
        ensures
            final(self).wf(),
            old(self).corpus_entries().len() == 0 <==> r == Err::<Verdict, CorpusError>(
                CorpusError::EmptyCorpus,
            ),
            old(self).corpus_entries().len() == 0 ==> *final(self) == *old(self),
            r is Ok ==> {
                let id = next_id(old(self).cursor(), old(self).corpus_entries().len());
                &&& final(self).cursor() == Some(id)
                &&& Fuzzer::bred(old(self), final(self), id as int, r.unwrap())
            },
    {
        let child = match self.session.next_candidate() {
            Ok(c) => c,
            Err(e) => {
                return Err(e);
            },
        };
        let ghost c = child@;
        let v = self.evaluate_input(child);
        let r: Result<Verdict, CorpusError> = Ok(v);
        assert(Fuzzer::evaluated(old(self), c, self, r.unwrap()));
        r
    }

    /// One iteration that mutates the favored entry instead of the queue's
    /// next: the one with the most uniquely covered indices per unit of
    /// execution time, the earliest among equals. The queue is left alone.
    /// Fails with `EmptyCorpus`, changing nothing, while the corpus is empty.
    pub fn fuzz_favored(&mut self) -> (r: Result<Verdict, CorpusError>)
        requires
            old(self).wf(),
        ensures
            final(self).wf(),
            final(self).cursor() == old(self).cursor(),
            old(self).corpus_entries().len() == 0 <==> r == Err::<Verdict, CorpusError>(
                CorpusError::EmptyCorpus,
            ),
            old(self).corpus_entries().len() == 0 ==> *final(self) == *old(self),
            r is Ok ==> exists|id: int| {
                let es = old(self).corpus_entries();
                &&& 0 <= id < es.len()
                &&& forall|j: int| 0 <= j < es.len() ==> !better(es, old(self).map_len(), j, id)
                &&& forall|j: int| 0 <= j < id ==> better(es, old(self).map_len(), id, j)
                &&& #[trigger] Fuzzer::bred(old(self), final(self), id, r.unwrap())
            },
    {
        let cand = self.session.favored_candidate();
        let child = match cand {
            Ok(c) => c,
            Err(e) => {
                return Err(e);
            },
        };
        let ghost c = child@;
        let v = self.evaluate_input(child);
        let r: Result<Verdict, CorpusError> = Ok(v);
        proof {
            let es = old(self).corpus_entries();
            let m = old(self).map_len();
            let id = choose|id: int| {
                &&& 0 <= id < es.len()
                &&& forall|j: int| 0 <= j < es.len() ==> !better(es, m, j, id)
                &&& forall|j: int| 0 <= j < id ==> better(es, m, id, j)
                &&& #[trigger] Session::bred_from(&old(self).inner(), id, cand.unwrap()@)
            };
            assert(Fuzzer::evaluated(old(self), c, self, r.unwrap()));
            assert(Fuzzer::bred(old(self), self, id, r.unwrap()));
        }
        r
    }

    /// Shrinks corpus entry `id` while it keeps its coverage: the minimizer
    /// removes chunks from `max_chunk` bytes down, running at most `budget`
    /// candidates, and the entry takes the result when it is shorter (and,
    /// with duplicate suppression, not already held). Returns whether the
    /// entry changed; `NotFound`, changing nothing, when there is no entry
    /// `id`.
    pub fn shrink_entry(&mut self, id: usize, max_chunk: usize, budget: usize) -> (r: Result<bool, CorpusError>)
        requires
            old(self).wf(),
        ensures
            final(self).wf(),
            final(self).magic() == old(self).magic(),
            id >= old(self).corpus_entries().len() <==> r == Err::<bool, CorpusError>(CorpusError::NotFound),
            id >= old(self).corpus_entries().len() ==> *final(self) == *old(self),
            id < old(self).corpus_entries().len() ==> {
                let before = old(self).corpus_entries()[id as int];
                let after = final(self).corpus_entries()[id as int];
                &&& r is Ok
                &&& final(self).cursor() == old(self).cursor()
                &&& final(self).history() == old(self).history()
                &&& final(self).crash_history() == old(self).crash_history()
                &&& final(self).seen() == old(self).seen()
                &&& final(self).solution_entries() == old(self).solution_entries()
                &&& final(self).runs() == old(self).runs()
                &&& final(self).corpus_entries().len() == old(self).corpus_entries().len()
                &&& forall|j: int|
                    0 <= j < old(self).corpus_entries().len() && j != id ==> final(self).corpus_entries()[j]
                        == old(self).corpus_entries()[j]
                &&& after.coverage@ == before.coverage@
                &&& target_coverage(old(self).magic(), after.bytes@, old(self).map_len()) == target_coverage(
                    old(self).magic(),
                    before.bytes@,
                    old(self).map_len(),
                )
                &&& r == Ok::<bool, CorpusError>(true) ==> after.bytes@.len() < before.bytes@.len()
                &&& r == Ok::<bool, CorpusError>(false) ==> after.bytes@ == before.bytes@
            },
    {
        if id >= self.session.corpus().count() {
            return Err(CorpusError::NotFound);
        }
        let bytes = copy_bytes(self.session.corpus().entry(id).bytes.as_slice());
        let ghost len = self.executor.map_view().len();
        let result = minimize(&mut self.executor, bytes.as_slice(), Preserve::Coverage, max_chunk, budget);
        match result {
            Some((best, _)) => {
                if best.len() < bytes.len() && !(self.session.dedup_exec() && self.session.corpus_holds(best.as_slice())) {
                    let ghost b = best@;
                    self.session.replace_entry_bytes(id, best);
                    proof {
                        let es = self.session.corpus_entries();
                        assert forall|j: int| 0 <= j < es.len() implies (#[trigger] es[j]).coverage@ == target_coverage(
                            self.executor.magic(),
                            es[j].bytes@,
                            len,
                        ) by {
                            if j != id {
                                assert(es[j] == old(self).corpus_entries()[j]);
                            }
                        }
                    }
                    Ok(true)
                } else {
                    Ok(false)
                }
            },
            None => Ok(false),
        }
    }

    /// Takes in a test case shared by another session: its input is run and
    /// judged like any other. `None`, changing nothing, when `shared` is not
    /// a well-formed shared form.
    pub fn import(&mut self, shared: &[u8]) -> (r: Option<Verdict>)
        requires
            old(self).wf(),
        ensures
            final(self).cursor() == old(self).cursor(),
            decoding(shared@) is None <==> r is None,
            r is None ==> *final(self) == *old(self),
            r is Some ==> Fuzzer::evaluated(old(self), decoding(shared@).unwrap().0, final(self), r.unwrap()),
    {
        match decode(shared) {
            None => None,
            Some(tc) => Some(self.evaluate_input(tc.bytes)),
        }
    }

    /// The corpus of retained inputs.
    pub fn corpus(&self) -> (r: &Corpus)
        ensures
            r.entries() == self.corpus_entries(),
    {
        self.session.corpus()
    }

    /// The inputs that met the objective.
    pub fn solutions(&self) -> (r: &Corpus)
        ensures
            r.entries() == self.solution_entries(),
    {
        self.session.solutions()
    }

    /// The number of executions so far.
    pub fn executions(&self) -> (r: u64)
        ensures
            r == self.runs(),
    {
        self.session.executions()
    }
}

} // verus!
