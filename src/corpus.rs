use vstd::prelude::*;

verus! {

/// A retained input with what was recorded when it was accepted.
pub struct Testcase {
    pub bytes: Vec<u8>,
    /// The coverage snapshot taken on the run that accepted it.
    pub coverage: Vec<u8>,
    /// How long that run took, in microseconds.
    pub exec_time: u64,
    /// Whether that run met the objective.
    pub solution: bool,
}

/// Why a corpus lookup failed.
#[derive(Clone, Copy, Debug, PartialEq, Eq, Structural)]
pub enum CorpusError {
    NotFound,
    EmptyCorpus,
}

/// Whether some entry of `entries` holds exactly `bytes`.
pub open spec fn holds_bytes(entries: Seq<Testcase>, bytes: Seq<u8>) -> bool {
    exists|j: int| 0 <= j < entries.len() && (#[trigger] entries[j]).bytes@ == bytes
}

/// An insertion-ordered collection of test cases; an entry's identifier is
/// its position. With duplicate suppression on, no two entries hold the
/// same bytes.
pub struct Corpus {
    entries: Vec<Testcase>,
    dedup: bool,
    map_len: usize,
}

/// Whether `a` and `b` hold the same bytes.
pub fn same_bytes(a: &[u8], b: &[u8]) -> (r: bool)
    ensures
        r == (a@ == b@),
{
    if a.len() != b.len() {
        return false;
    }
    let mut i: usize = 0;
    while i < a.len()
        invariant
            i <= a@.len(),
            a@.len() == b@.len(),
            forall|j: int| 0 <= j < i ==> a@[j] == b@[j],
        decreases a@.len() - i,
    {
        if a[i] != b[i] {
            return false;
        }
        i = i + 1;
    }
    assert(a@ =~= b@);
    true
}

/// An owned copy of `s`.
pub fn copy_bytes(s: &[u8]) -> (r: Vec<u8>)
    ensures
        r@ == s@,
{
    let mut r: Vec<u8> = Vec::with_capacity(s.len());
    let mut i: usize = 0;
    while i < s.len()
        invariant
            i <= s@.len(),
            r@ == s@.take(i as int),
        decreases s@.len() - i,
    {
        r.push(s[i]);
        i = i + 1;
        assert(r@ =~= s@.take(i as int));
    }
    assert(r@ =~= s@);
    r
}

/// Whether two sequences of test cases hold the same inputs and records.
pub open spec fn same_cases(a: Seq<Testcase>, b: Seq<Testcase>) -> bool {
    &&& a.len() == b.len()
    &&& forall|j: int|
        0 <= j < a.len() ==> {
            &&& (#[trigger] a[j]).bytes@ == b[j].bytes@
            &&& a[j].coverage@ == b[j].coverage@
            &&& a[j].exec_time == b[j].exec_time
            &&& a[j].solution == b[j].solution
        }
}

/// Whether `entries` can form a corpus for snapshots of `map_len`
/// counters: each snapshot has that length and, with duplicate
/// suppression, no two entries hold the same bytes.
pub open spec fn valid_entries(entries: Seq<Testcase>, map_len: nat, dedup: bool) -> bool {
    &&& forall|j: int| 0 <= j < entries.len() ==> (#[trigger] entries[j]).coverage@.len() == map_len
    &&& dedup ==> forall|j: int, k: int|
        0 <= j < k < entries.len() ==> (#[trigger] entries[j]).bytes@ != (#[trigger] entries[k]).bytes@
}

/// A copy of `tc`.
pub fn copy_case(tc: &Testcase) -> (r: Testcase)
    ensures
        r.bytes@ == tc.bytes@,
        r.coverage@ == tc.coverage@,
        r.exec_time == tc.exec_time,
        r.solution == tc.solution,
{
    Testcase {
        bytes: copy_bytes(tc.bytes.as_slice()),
        coverage: copy_bytes(tc.coverage.as_slice()),
        exec_time: tc.exec_time,
        solution: tc.solution,
    }
}

impl Corpus {
    /// The entries of a well-formed corpus could form it again.
    pub proof fn lemma_valid(&self)
        requires
            self.wf(),
        ensures
            valid_entries(self.entries(), self.map_len(), self.dedup()),
    {
    }

    /// A copy of every entry, in order.
    pub fn cases(&self) -> (r: Vec<Testcase>)
        ensures
            same_cases(r@, self.entries()),
    {
        let mut r: Vec<Testcase> = Vec::new();
        let mut i: usize = 0;
        while i < self.entries.len()
            invariant
                i <= self.entries@.len(),
                same_cases(r@, self.entries@.take(i as int)),
            decreases self.entries@.len() - i,
        {
            r.push(copy_case(&self.entries[i]));
            i = i + 1;
            assert(same_cases(r@, self.entries@.take(i as int))) by {
                assert forall|j: int| 0 <= j < r@.len() implies {
                    &&& (#[trigger] r@[j]).bytes@ == self.entries@.take(i as int)[j].bytes@
                    &&& r@[j].coverage@ == self.entries@.take(i as int)[j].coverage@
                    &&& r@[j].exec_time == self.entries@.take(i as int)[j].exec_time
                    &&& r@[j].solution == self.entries@.take(i as int)[j].solution
                } by {
                    if j < i - 1 {
                        assert(self.entries@.take(i as int)[j] == self.entries@.take(i - 1)[j]);
                    }
                }
            }
        }
        assert(self.entries@.take(i as int) =~= self.entries@);
        r
    }

    /// A corpus holding `entries` in order, for snapshots of `map_len`
    /// counters; `None` when they cannot form one.
    pub fn from_entries(entries: Vec<Testcase>, map_len: usize, dedup: bool) -> (r: Option<Corpus>)
        ensures
            r is Some <==> valid_entries(entries@, map_len as nat, dedup),
            r matches Some(c) ==> {
                &&& c.wf()
                &&& c.entries() == entries@
                &&& c.map_len() == map_len
                &&& c.dedup() == dedup
            },
    {
        let n = entries.len();
        let mut i: usize = 0;
        while i < n
            invariant
                i <= n,
                n == entries@.len(),
                forall|j: int| 0 <= j < i ==> (#[trigger] entries@[j]).coverage@.len() == map_len,
                dedup ==> forall|j: int, k: int|
                    0 <= j < k < i ==> (#[trigger] entries@[j]).bytes@ != (#[trigger] entries@[k]).bytes@,
            decreases n - i,
        {
            if entries[i].coverage.len() != map_len {
                return None;
            }
            if dedup {
                let mut j: usize = 0;
                while j < i
                    invariant
                        j <= i,
                        i < n,
                        dedup,
                        n == entries@.len(),
                        forall|k: int| 0 <= k < j ==> (#[trigger] entries@[k]).bytes@ != entries@[i as int].bytes@,
                    decreases i - j,
                {
                    if same_bytes(entries[j].bytes.as_slice(), entries[i].bytes.as_slice()) {
                        assert(entries@[j as int].bytes@ == entries@[i as int].bytes@);
                        assert(!valid_entries(entries@, map_len as nat, dedup)) by {
                            if valid_entries(entries@, map_len as nat, dedup) {
                                assert(0 <= j < i < entries@.len());
                                assert(entries@[j as int].bytes@ != entries@[i as int].bytes@);
                            }
                        }
                        return None;
                    }
                    j = j + 1;
                }
            }
            i = i + 1;
        }
        Some(Corpus { entries, dedup, map_len })
    }
    pub closed spec fn entries(&self) -> Seq<Testcase> {
        self.entries@
    }

    pub closed spec fn dedup(&self) -> bool {
        self.dedup
    }

    /// The length of every entry's coverage snapshot.
    pub closed spec fn map_len(&self) -> nat {
        self.map_len as nat
    }

    pub closed spec fn wf(&self) -> bool {
        &&& forall|j: int| 0 <= j < self.entries@.len() ==> (#[trigger] self.entries@[j]).coverage@.len()
            == self.map_len
        &&& self.dedup ==> forall|j: int, k: int|
            0 <= j < k < self.entries@.len() ==> (#[trigger] self.entries@[j]).bytes@
                != (#[trigger] self.entries@[k]).bytes@
    }

    /// An empty corpus for snapshots of `map_len` counters; `dedup` turns on
    /// duplicate suppression.
    pub fn new(map_len: usize, dedup: bool) -> (r: Corpus)
        ensures
            r.wf(),
            r.entries().len() == 0,
            r.dedup() == dedup,
            r.map_len() == map_len,
    {
        Corpus { entries: Vec::new(), dedup, map_len }
    }

    /// Appends `tc` and returns its identifier. With duplicate suppression
    /// on, an input already held is not added again: its identifier is
    /// returned instead.
    pub fn add(&mut self, tc: Testcase) -> (r: usize)
        requires
            old(self).wf(),
            tc.coverage@.len() == old(self).map_len(),
        ensures
            final(self).wf(),
            final(self).dedup() == old(self).dedup(),
            final(self).map_len() == old(self).map_len(),
            (old(self).dedup() && holds_bytes(old(self).entries(), tc.bytes@)) ==> {
                &&& final(self).entries() == old(self).entries()
                &&& r < old(self).entries().len()
                &&& old(self).entries()[r as int].bytes@ == tc.bytes@
            },
            !(old(self).dedup() && holds_bytes(old(self).entries(), tc.bytes@)) ==> {
                &&& final(self).entries() == old(self).entries().push(tc)
                &&& r == old(self).entries().len()
            },
    {
        if self.dedup {
            let n = self.entries.len();
            let mut i: usize = 0;
            let mut found = false;
            while i < n && !found
                invariant
                    i <= n,
                    n == self.entries@.len(),
                    self.entries@ == old(self).entries@,
                    found ==> i > 0 && self.entries@[i - 1].bytes@ == tc.bytes@,
                    !found ==> forall|j: int| 0 <= j < i ==> self.entries@[j].bytes@ != tc.bytes@,
                decreases n - i,
            {
                if same_bytes(self.entries[i].bytes.as_slice(), tc.bytes.as_slice()) {
                    found = true;
                }
                i = i + 1;
            }
            if found {
                return i - 1;
            }
        }
        let id = self.entries.len();
        self.entries.push(tc);
        id
    }

    /// Whether duplicate suppression is on.
    pub fn dedup_exec(&self) -> (r: bool)
        ensures
            r == self.dedup(),
    {
        self.dedup
    }

    /// Whether some entry holds exactly `bytes`.
    pub fn holds(&self, bytes: &[u8]) -> (r: bool)
        ensures
            r == holds_bytes(self.entries(), bytes@),
    {
        let n = self.entries.len();
        let mut i: usize = 0;
        let mut found = false;
        while i < n && !found
            invariant
                i <= n,
                n == self.entries@.len(),
                found ==> holds_bytes(self.entries@, bytes@),
                !found ==> forall|j: int| 0 <= j < i ==> self.entries@[j].bytes@ != bytes@,
            decreases n - i,
        {
            if same_bytes(self.entries[i].bytes.as_slice(), bytes) {
                found = true;
                assert(self.entries@[i as int].bytes@ == bytes@);
            }
            i = i + 1;
        }
        found
    }

    /// Replaces the bytes of entry `id`, keeping what was recorded with it.
    /// With duplicate suppression on, no entry may already hold `bytes`.
    pub fn replace_bytes(&mut self, id: usize, bytes: Vec<u8>)
        requires
            old(self).wf(),
            id < old(self).entries().len(),
            old(self).dedup() ==> !holds_bytes(old(self).entries(), bytes@),
        ensures
            final(self).wf(),
            final(self).dedup() == old(self).dedup(),
            final(self).map_len() == old(self).map_len(),
            final(self).entries().len() == old(self).entries().len(),
            forall|j: int| 0 <= j < old(self).entries().len() && j != id ==> final(self).entries()[j] == old(self).entries()[j],
            final(self).entries()[id as int].bytes@ == bytes@,
            final(self).entries()[id as int].coverage@ == old(self).entries()[id as int].coverage@,
            final(self).entries()[id as int].exec_time == old(self).entries()[id as int].exec_time,
            final(self).entries()[id as int].solution == old(self).entries()[id as int].solution,
    {
        let old_tc = &self.entries[id];
        let tc = Testcase {
            bytes,
            coverage: copy_bytes(old_tc.coverage.as_slice()),
            exec_time: old_tc.exec_time,
            solution: old_tc.solution,
        };
        let ghost b = tc.bytes@;
        self.entries.set(id, tc);
        proof {
            if self.dedup {
                assert forall|j: int, k: int| 0 <= j < k < self.entries@.len() implies (#[trigger] self.entries@[j]).bytes@
                    != (#[trigger] self.entries@[k]).bytes@ by {
                    if j == id {
                        assert(old(self).entries@[k].bytes@ != b);
                    } else if k == id {
                        assert(old(self).entries@[j].bytes@ != b);
                    } else {
                        assert(old(self).entries@[j].bytes@ != old(self).entries@[k].bytes@);
                    }
                }
            }
        }
    }

    /// The entry with identifier `id`.
    pub fn get(&self, id: usize) -> (r: Result<&Testcase, CorpusError>)
        ensures
            id < self.entries().len() ==> r == Ok::<&Testcase, CorpusError>(&self.entries()[id as int]),
            id >= self.entries().len() ==> r == Err::<&Testcase, CorpusError>(CorpusError::NotFound),
    {
        if id < self.entries.len() {
            Ok(&self.entries[id])
        } else {
            Err(CorpusError::NotFound)
        }
    }

    /// The entry with identifier `id`, which must exist.
    pub fn entry(&self, id: usize) -> (r: &Testcase)
        requires
            id < self.entries().len(),
        ensures
            *r == self.entries()[id as int],
    {
        &self.entries[id]
    }

    /// The length of every entry's coverage snapshot.
    pub fn map_len_exec(&self) -> (r: usize)
        ensures
            r == self.map_len(),
    {
        self.map_len
    }

    /// Every entry's coverage snapshot has the corpus's map length.
    pub proof fn lemma_coverage_len(&self, j: int)
        requires
            self.wf(),
            0 <= j < self.entries().len(),
        ensures
            self.entries()[j].coverage@.len() == self.map_len(),
    {
    }

    /// The number of entries.
    pub fn count(&self) -> (r: usize)
        ensures
            r == self.entries().len(),
    {
        self.entries.len()
    }

    /// Whether the corpus holds no entry.
    pub fn is_empty(&self) -> (r: bool)
        ensures
            r == (self.entries().len() == 0),
    {
        self.entries.len() == 0
    }

    /// The identifier of the earliest entry.
    pub fn first(&self) -> (r: Result<usize, CorpusError>)
        ensures
            self.entries().len() > 0 ==> r == Ok::<usize, CorpusError>(0),
            self.entries().len() == 0 ==> r == Err::<usize, CorpusError>(CorpusError::EmptyCorpus),
    {
        if self.entries.len() > 0 {
            Ok(0)
        } else {
            Err(CorpusError::EmptyCorpus)
        }
    }
}

} // verus!
