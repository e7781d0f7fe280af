use vstd::prelude::*;
use crate::corpus::{Corpus, CorpusError, Testcase};

verus! {

/// The identifier dispatched after `cursor` in a corpus of `n` entries:
/// the next one in insertion order, wrapping to the first.
pub open spec fn next_id(cursor: Option<nat>, n: nat) -> nat {
    match cursor {
        None => 0,
        Some(c) => if c + 1 < n { (c + 1) as nat } else { 0 },
    }
}

/// The identifier of the `k`-th dispatch (counting from 0) of a freshly
/// reset queue over a corpus of `n` entries.
pub open spec fn visit(k: nat, n: nat) -> nat
    decreases k,
{
    if k == 0 {
        next_id(None, n)
    } else {
        next_id(Some(visit((k - 1) as nat, n)), n)
    }
}

/// Dispatches corpus entries in insertion order, cycling forever.
pub struct QueueScheduler {
    cursor: Option<usize>,
}

impl QueueScheduler {
    /// The identifier last dispatched, if any.
    pub closed spec fn cursor(&self) -> Option<nat> {
        match self.cursor {
            None => None,
            Some(c) => Some(c as nat),
        }
    }

    /// A queue reset to the start of the session.
    pub fn new() -> (r: QueueScheduler)
        ensures
            r.cursor() == None::<nat>,
    {
        QueueScheduler { cursor: None }
    }

    /// A queue that resumes after `cursor`.
    pub fn resume(cursor: Option<usize>) -> (r: QueueScheduler)
        ensures
            r.cursor() == (match cursor {
                None => None::<nat>,
                Some(c) => Some(c as nat),
            }),
    {
        QueueScheduler { cursor }
    }

    /// The identifier last dispatched, if any.
    pub fn last(&self) -> (r: Option<usize>)
        ensures
            self.cursor() == (match r {
                None => None::<nat>,
                Some(c) => Some(c as nat),
            }),
    {
        self.cursor
    }

    /// The next entry to mutate in a corpus of `count` entries.
    pub fn next(&mut self, count: usize) -> (r: Result<usize, CorpusError>)
        ensures
            count == 0 ==> r == Err::<usize, CorpusError>(CorpusError::EmptyCorpus) && final(self).cursor()
                == old(self).cursor(),
            count > 0 ==> r == Ok::<usize, CorpusError>(next_id(old(self).cursor(), count as nat) as usize)
                && final(self).cursor() == Some(next_id(old(self).cursor(), count as nat)),
    {
        if count == 0 {
            return Err(CorpusError::EmptyCorpus);
        }
        let id: usize = match self.cursor {
            None => 0,
            Some(c) => if c < count - 1 { c + 1 } else { 0 },
        };
        self.cursor = Some(id);
        Ok(id)
    }
}

/// Successive calls of `QueueScheduler::next` on a corpus frozen at `n`
/// entries, from a freshly reset queue: call `i` starts at cursor
/// `cursors[i]` and dispatches `ids[i]`, which its contract relates. Then
/// call `i` dispatches entry `i % n`, so each run of `n` calls dispatches
/// every entry exactly once.
pub proof fn lemma_fifo_calls(n: nat, cursors: Seq<Option<nat>>, ids: Seq<nat>)
    requires
        n > 0,
        cursors.len() == ids.len() + 1,
        cursors[0] == None::<nat>,
        forall|i: int|
            0 <= i < ids.len() ==> #[trigger] ids[i] == next_id(cursors[i], n) && cursors[i + 1] == Some(ids[i]),
    ensures
        forall|i: int| 0 <= i < ids.len() ==> #[trigger] ids[i] == (i as nat) % n,
        forall|i: int, j: int|
            0 <= i < j < ids.len() && j - i < n ==> #[trigger] ids[i] != #[trigger] ids[j],
{
    assert forall|i: int| 0 <= i < ids.len() implies ids[i] == visit(i as nat, n) by {
        lemma_calls_visit(n, cursors, ids, i);
    }
    assert forall|i: int| 0 <= i < ids.len() implies #[trigger] ids[i] == (i as nat) % n by {
        lemma_visit_mod(i as nat, n);
    }
    assert forall|i: int, j: int| 0 <= i < j < ids.len() && j - i < n implies #[trigger] ids[i] != #[trigger] ids[j] by {
        vstd::arithmetic::div_mod::lemma_fundamental_div_mod(i, n as int);
        vstd::arithmetic::div_mod::lemma_fundamental_div_mod(j, n as int);
        assert(ids[i] == (i as nat) % n);
        assert(ids[j] == (j as nat) % n);
        if ids[i] == ids[j] {
            assert((j - i) == (j / n as int - i / n as int) * n as int) by (nonlinear_arith)
                requires
                    i == n as int * (i / n as int) + i % n as int,
                    j == n as int * (j / n as int) + j % n as int,
                    i % n as int == j % n as int,
            ;
            assert(false) by (nonlinear_arith)
                requires
                    j - i == (j / n as int - i / n as int) * n as int,
                    0 < j - i < n,
                    n > 0,
            ;
        }
    }
}

proof fn lemma_calls_visit(n: nat, cursors: Seq<Option<nat>>, ids: Seq<nat>, i: int)
    requires
        n > 0,
        cursors.len() == ids.len() + 1,
        cursors[0] == None::<nat>,
        forall|k: int|
            0 <= k < ids.len() ==> #[trigger] ids[k] == next_id(cursors[k], n) && cursors[k + 1] == Some(ids[k]),
        0 <= i < ids.len(),
    ensures
        ids[i] == visit(i as nat, n),
    decreases i,
{
    assert(ids[i] == next_id(cursors[i], n));
    if i > 0 {
        lemma_calls_visit(n, cursors, ids, i - 1);
        assert(ids[i - 1] == next_id(cursors[i - 1], n));
        assert(cursors[i] == Some(ids[i - 1]));
    }
}

/// The `k`-th dispatch over a frozen corpus of `n` entries is entry `k % n`.
pub proof fn lemma_visit_mod(k: nat, n: nat)
    requires
        n > 0,
    ensures
        visit(k, n) == k % n,
    decreases k,
{
    if k > 0 {
        lemma_visit_mod((k - 1) as nat, n);
        let q = (k - 1) as int / n as int;
        let p = (k - 1) as int % n as int;
        vstd::arithmetic::div_mod::lemma_fundamental_div_mod((k - 1) as int, n as int);
        assert(visit(k, n) == next_id(Some(visit((k - 1) as nat, n)), n));
        if p + 1 < n {
            vstd::arithmetic::div_mod::lemma_fundamental_div_mod_converse(k as int, n as int, q, p + 1);
        } else {
            assert(k as int == (q + 1) * n + 0) by (nonlinear_arith)
                requires
                    (k - 1) as int == n * q + p,
                    p + 1 == n,
                    k > 0,
            ;
            vstd::arithmetic::div_mod::lemma_fundamental_div_mod_converse(k as int, n as int, q + 1, 0);
        }
    } else {
        vstd::arithmetic::div_mod::lemma_small_mod(0, n);
    }
}

/// Over a corpus frozen at `n` entries, each round of `n` dispatches
/// visits every identifier exactly once: dispatch `round * n + id` is `id`,
/// and two dispatches of one round differ.
pub proof fn lemma_fifo_round(n: nat, round: nat, a: nat, b: nat)
    requires
        n > 0,
        a < n,
        b < n,
    ensures
        visit(round * n + a, n) == a,
        a != b ==> visit(round * n + a, n) != visit(round * n + b, n),
{
    lemma_visit_mod(round * n + a, n);
    lemma_visit_mod(round * n + b, n);
    vstd::arithmetic::div_mod::lemma_fundamental_div_mod_converse(
        (round * n + a) as int,
        n as int,
        round as int,
        a as int,
    );
    vstd::arithmetic::div_mod::lemma_fundamental_div_mod_converse(
        (round * n + b) as int,
        n as int,
        round as int,
        b as int,
    );
}

/// Whether entry `e` is the only one whose coverage reaches index `i`.
pub open spec fn covers_alone(entries: Seq<Testcase>, e: int, i: int) -> bool {
    &&& entries[e].coverage@[i] > 0
    &&& forall|j: int| 0 <= j < entries.len() && j != e ==> (#[trigger] entries[j]).coverage@[i] == 0
}

/// The number of indices below `k` that entry `e` alone covers.
pub open spec fn unique_count(entries: Seq<Testcase>, e: int, k: int) -> nat
    decreases k,
{
    if k <= 0 {
        0
    } else {
        unique_count(entries, e, k - 1) + if covers_alone(entries, e, k - 1) { 1nat } else { 0nat }
    }
}

/// The cost of an entry: its execution time, and at least one.
pub open spec fn cost(t: u64) -> nat {
    if t == 0 { 1 } else { t as nat }
}

/// Whether score `ua / ta` exceeds score `ub / tb` (costs are positive).
pub open spec fn scores_above(ua: nat, ta: nat, ub: nat, tb: nat) -> bool {
    ua * tb > ub * ta
}

/// Whether entry `a` has a strictly higher score than entry `b`: more
/// uniquely covered indices per unit of execution time.
pub open spec fn better(entries: Seq<Testcase>, m: nat, a: int, b: int) -> bool {
    scores_above(
        unique_count(entries, a, m as int),
        cost(entries[a].exec_time),
        unique_count(entries, b, m as int),
        cost(entries[b].exec_time),
    )
}

proof fn lemma_better_chain(uj: nat, cj: nat, ub: nat, cb: nat, uk: nat, ck: nat)
    requires
        cj > 0,
        cb > 0,
        ck > 0,
        scores_above(uj, cj, ub, cb),
        !scores_above(uk, ck, ub, cb),
    ensures
        scores_above(uj, cj, uk, ck),
        !scores_above(uk, ck, uj, cj),
{
    assert(uj * cb * ck > ub * cj * ck) by (nonlinear_arith)
        requires
            uj * cb > ub * cj,
            ck > 0,
    ;
    assert(ub * ck * cj >= uk * cb * cj) by (nonlinear_arith)
        requires
            uk * cb <= ub * ck,
    ;
    assert(uj * ck * cb > uk * cj * cb) by (nonlinear_arith)
        requires
            uj * cb * ck > ub * cj * ck,
            ub * ck * cj >= uk * cb * cj,
    ;
    assert(uj * ck > uk * cj) by (nonlinear_arith)
        requires
            uj * ck * cb > uk * cj * cb,
            cb > 0,
    ;
}

fn scores_above_exec(ua: usize, ta: u64, ub: usize, tb: u64) -> (r: bool)
    ensures
        r == scores_above(ua as nat, cost(ta), ub as nat, cost(tb)),
{
    let ca: u128 = if ta == 0 { 1 } else { ta as u128 };
    let cb: u128 = if tb == 0 { 1 } else { tb as u128 };
    let ua: u128 = ua as u128;
    let ub: u128 = ub as u128;
    assert(ua * cb < 0x1_0000_0000_0000_0000_0000_0000_0000_0000) by (nonlinear_arith)
        requires
            ua < 0x1_0000_0000_0000_0000,
            cb < 0x1_0000_0000_0000_0000,
    ;
    assert(ub * ca < 0x1_0000_0000_0000_0000_0000_0000_0000_0000) by (nonlinear_arith)
        requires
            ub < 0x1_0000_0000_0000_0000,
            ca < 0x1_0000_0000_0000_0000,
    ;
    ua * cb > ub * ca
}

/// The number of indices that entry `e` alone covers.
fn count_unique(corpus: &Corpus, e: usize) -> (r: usize)
    requires
        corpus.wf(),
        e < corpus.entries().len(),
    ensures
        r == unique_count(corpus.entries(), e as int, corpus.map_len() as int),
{
    let n = corpus.count();
    let m = corpus.map_len_exec();
    let mine = corpus.entry(e);
    let mut count: usize = 0;
    let mut i: usize = 0;
    while i < m
        invariant
            corpus.wf(),
            n == corpus.entries().len(),
            m == corpus.map_len(),
            e < n,
            *mine == corpus.entries()[e as int],
            i <= m,
            count == unique_count(corpus.entries(), e as int, i as int),
            count <= i,
        decreases m - i,
    {
        proof {
            corpus.lemma_coverage_len(e as int);
        }
        if mine.coverage[i] > 0 {
            let mut alone = true;
            let mut j: usize = 0;
            while j < n
                invariant
                    corpus.wf(),
                    n == corpus.entries().len(),
                    m == corpus.map_len(),
                    i < m,
                    e < n,
                    j <= n,
                    alone == forall|k: int| 0 <= k < j && k != e ==> (#[trigger] corpus.entries()[k]).coverage@[i as int] == 0,
                decreases n - j,
            {
                if j != e {
                    proof {
                        corpus.lemma_coverage_len(j as int);
                    }
                    if corpus.entry(j).coverage[i] > 0 {
                        alone = false;
                    }
                }
                j = j + 1;
            }
            if alone {
                count = count + 1;
            }
        }
        i = i + 1;
    }
    count
}

/// The entry most worth mutating: the highest number of uniquely covered
/// coverage indices per unit of execution time, the earliest among equals.
pub fn favored(corpus: &Corpus) -> (r: Result<usize, CorpusError>)
    requires
        corpus.wf(),
    ensures
        corpus.entries().len() == 0 ==> r == Err::<usize, CorpusError>(CorpusError::EmptyCorpus),
        corpus.entries().len() > 0 ==> {
            &&& r is Ok
            &&& r.unwrap() < corpus.entries().len()
            &&& forall|j: int|
                0 <= j < corpus.entries().len() ==> !better(corpus.entries(), corpus.map_len(), j, r.unwrap() as int)
            &&& forall|j: int|
                0 <= j < r.unwrap() ==> better(corpus.entries(), corpus.map_len(), r.unwrap() as int, j)
        },
{
    let n = corpus.count();
    if n == 0 {
        return Err(CorpusError::EmptyCorpus);
    }
    let ghost es = corpus.entries();
    let ghost m = corpus.map_len();
    let mut best: usize = 0;
    let mut best_unique = count_unique(corpus, 0);
    let mut j: usize = 1;
    while j < n
        invariant
            corpus.wf(),
            es == corpus.entries(),
            m == corpus.map_len(),
            n == es.len(),
            1 <= j <= n,
            best < j,
            best_unique == unique_count(es, best as int, m as int),
            forall|k: int| 0 <= k < j ==> !better(es, m, k, best as int),
            forall|k: int| 0 <= k < best ==> better(es, m, best as int, k),
        decreases n - j,
    {
        let u = count_unique(corpus, j);
        let tj = corpus.entry(j).exec_time;
        let tb = corpus.entry(best).exec_time;
        if scores_above_exec(u, tj, best_unique, tb) {
            proof {
                assert forall|k: int| 0 <= k < j implies better(es, m, j as int, k) && !better(es, m, k, j as int) by {
                    assert(!better(es, m, k, best as int));
                    lemma_better_chain(
                        unique_count(es, j as int, m as int),
                        cost(es[j as int].exec_time),
                        unique_count(es, best as int, m as int),
                        cost(es[best as int].exec_time),
                        unique_count(es, k, m as int),
                        cost(es[k].exec_time),
                    );
                }
            }
            best = j;
            best_unique = u;
        }
        j = j + 1;
    }
    Ok(best)
}

} // verus!
