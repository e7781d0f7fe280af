use vstd::prelude::*;
use crate::corpus::{copy_bytes, same_bytes};
use crate::executor::InProcessExecutor;
use crate::target::{ExecutionOutcome, target_outcome, target_coverage};

verus! {

/// The property a reduction must keep.
#[derive(Clone, Copy, Debug, PartialEq, Eq, Structural)]
pub enum Preserve {
    /// The candidate still crashes the target.
    Crash,
    /// The candidate reaches exactly the coverage of the given input.
    Coverage,
}

/// Whether `s` keeps the property that `mode` asks of reductions of
/// `given`, against the magic word on a map of `len` counters.
pub open spec fn preserved(magic: Seq<u8>, len: nat, mode: Preserve, given: Seq<u8>, s: Seq<u8>) -> bool {
    match mode {
        Preserve::Crash => target_outcome(magic, s) == ExecutionOutcome::Crash,
        Preserve::Coverage => target_coverage(magic, s, len) == target_coverage(magic, given, len),
    }
}

/// `s` without the `c` bytes that start at offset `o`.
pub open spec fn without_chunk(s: Seq<u8>, o: int, c: int) -> Seq<u8> {
    s.take(o) + s.skip(o + c)
}

/// Whether no removal of a chunk of `c` bytes from `s` keeps the property.
pub open spec fn chunk_fails(
    magic: Seq<u8>,
    len: nat,
    mode: Preserve,
    given: Seq<u8>,
    s: Seq<u8>,
    c: nat,
) -> bool {
    forall|o: int| 0 <= o && o + c <= s.len() ==> !preserved(magic, len, mode, given, #[trigger] without_chunk(s, o, c as int))
}

/// Whether every chunk size from `cur` down by halving, before `stop` is
/// reached, fails on `s`.
pub open spec fn sizes_fail(
    magic: Seq<u8>,
    len: nat,
    mode: Preserve,
    given: Seq<u8>,
    s: Seq<u8>,
    cur: nat,
    stop: nat,
) -> bool
    decreases cur,
{
    if cur == 0 || cur == stop {
        true
    } else {
        chunk_fails(magic, len, mode, given, s, cur) && sizes_fail(magic, len, mode, given, s, cur / 2, stop)
    }
}

/// Whether `c` is reached from `m` by halving.
pub open spec fn on_chain(m: nat, c: nat) -> bool
    decreases m,
{
    c == m || (m > 0 && on_chain(m / 2, c))
}

/// The number of chunk sizes tried from `m`: `m`, half of it, and so on
/// while positive.
pub open spec fn chain_len(m: nat) -> nat
    decreases m,
{
    if m == 0 { 0 } else { 1 + chain_len(m / 2) }
}

/// Whether `s` is a fixed point of the minimizer: no chunk of any size of
/// the halving sequence from `max_chunk` can go.
pub open spec fn is_minimal(
    magic: Seq<u8>,
    len: nat,
    mode: Preserve,
    given: Seq<u8>,
    s: Seq<u8>,
    max_chunk: nat,
) -> bool {
    sizes_fail(magic, len, mode, given, s, max_chunk, 0)
}

/// What a run of the minimizer on `input` promises of its result: `None`
/// exactly when the input itself lacks the property; else a result no
/// longer than the input that keeps it, a fixed point when the run
/// converged, and the input itself when the input was a fixed point.
pub open spec fn minimize_result(
    magic: Seq<u8>,
    len: nat,
    mode: Preserve,
    max_chunk: nat,
    input: Seq<u8>,
    r: Option<(Seq<u8>, bool)>,
) -> bool {
    match r {
        None => !preserved(magic, len, mode, input, input),
        Some((best, converged)) => {
            &&& preserved(magic, len, mode, input, input)
            &&& best.len() <= input.len()
            &&& preserved(magic, len, mode, input, best)
            &&& converged ==> is_minimal(magic, len, mode, input, best, max_chunk)
            &&& is_minimal(magic, len, mode, input, input, max_chunk) ==> best == input
        },
    }
}

proof fn lemma_sizes_step(
    magic: Seq<u8>,
    len: nat,
    mode: Preserve,
    given: Seq<u8>,
    s: Seq<u8>,
    m: nat,
    c: nat,
)
    requires
        c > 0,
        sizes_fail(magic, len, mode, given, s, m, c),
        chunk_fails(magic, len, mode, given, s, c),
    ensures
        sizes_fail(magic, len, mode, given, s, m, c / 2),
    decreases m,
{
    if m != 0 && m != c {
        lemma_sizes_step(magic, len, mode, given, s, m / 2, c);
    } else if m == c {
        assert(sizes_fail(magic, len, mode, given, s, c / 2, c / 2));
    }
}

proof fn lemma_minimal_fails(
    magic: Seq<u8>,
    len: nat,
    mode: Preserve,
    given: Seq<u8>,
    s: Seq<u8>,
    m: nat,
    c: nat,
)
    requires
        c > 0,
        on_chain(m, c),
        sizes_fail(magic, len, mode, given, s, m, 0),
    ensures
        chunk_fails(magic, len, mode, given, s, c),
    decreases m,
{
    if m != c {
        lemma_minimal_fails(magic, len, mode, given, s, m / 2, c);
    }
}

/// `s` without the `c` bytes that start at offset `o`.
pub fn remove_chunk(s: &[u8], o: usize, c: usize) -> (r: Vec<u8>)
    requires
        o + c <= s@.len(),
    ensures
        r@ == without_chunk(s@, o as int, c as int),
{
    let mut r: Vec<u8> = Vec::with_capacity(s.len() - c);
    let mut i: usize = 0;
    while i < s.len()
        invariant
            o + c <= s@.len(),
            i <= s@.len(),
            r@ == (if i <= o { s@.take(i as int) } else if i <= o + c { s@.take(o as int) } else {
                s@.take(o as int) + s@.subrange((o + c) as int, i as int)
            }),
        decreases s@.len() - i,
    {
        if i < o || i >= o + c {
            r.push(s[i]);
        }
        i = i + 1;
        assert(r@ =~= (if i <= o { s@.take(i as int) } else if i <= o + c { s@.take(o as int) } else {
            s@.take(o as int) + s@.subrange((o + c) as int, i as int)
        }));
    }
    assert(r@ =~= without_chunk(s@, o as int, c as int));
    r
}

/// Runs `candidate` and tells whether it keeps the property; `reference`
/// is the coverage of the given input.
fn keeps(
    exec: &mut InProcessExecutor,
    mode: Preserve,
    reference: &Vec<u8>,
    candidate: &[u8],
    Ghost(given): Ghost<Seq<u8>>,
) -> (r: bool)
    requires
        old(exec).wf(),
        reference@ == target_coverage(old(exec).magic(), given, old(exec).map_view().len()),
    ensures
        final(exec).wf(),
        final(exec).magic() == old(exec).magic(),
        final(exec).map_view().len() == old(exec).map_view().len(),
        r == preserved(old(exec).magic(), old(exec).map_view().len(), mode, given, candidate@),
{
    let outcome = exec.run(candidate);
    match mode {
        Preserve::Crash => outcome == ExecutionOutcome::Crash,
        Preserve::Coverage => {
            let seen = exec.observe();
            same_bytes(seen.as_slice(), reference.as_slice())
        },
    }
}

/// Shrinks `input` while it keeps the property that `mode` names. Chunks of
/// `max_chunk` bytes, then of half that and so on down to one byte, are
/// tried at every offset; a removal that keeps the property is taken and
/// the sizes start again from `max_chunk`. At most `budget` candidates run.
/// Returns the smallest input found and whether the sizes ran out (the
/// result is then a fixed point, and a budget above the square of one more
/// than the input's length times the number of chunk sizes always
/// suffices), or `None` when `input` itself lacks the property.
pub fn minimize(
    exec: &mut InProcessExecutor,
    input: &[u8],
    mode: Preserve,
    max_chunk: usize,
    budget: usize,
) -> (r: Option<(Vec<u8>, bool)>)
    requires
        old(exec).wf(),
    ensures
        final(exec).wf(),
        final(exec).magic() == old(exec).magic(),
        final(exec).map_view().len() == old(exec).map_view().len(),
        minimize_result(
            old(exec).magic(),
            old(exec).map_view().len(),
            mode,
            max_chunk as nat,
            input@,
            match r {
                None => None,
                Some((b, c)) => Some((b@, c)),
            },
        ),
        r is Some && budget > (input@.len() + 1) * (input@.len() + 1) * chain_len(max_chunk as nat)
            ==> r.unwrap().1,
{
    let ghost magic = exec.magic();
    let ghost len = exec.map_view().len();
    let ghost given = input@;
    let first = exec.run(input);
    let reference = exec.observe();
    let ok = match mode {
        Preserve::Crash => first == ExecutionOutcome::Crash,
        Preserve::Coverage => true,
    };
    if !ok {
        return None;
    }
    let mut best: Vec<u8> = copy_bytes(input);
    let mut c: usize = max_chunk;
    let mut o: usize = 0;
    let mut runs: usize = 0;
    let ghost n = given.len() as int;
    let ghost k = chain_len(max_chunk as nat) as int;
    let ghost sweep = k * (n + 1);
    while c > 0 && runs < budget
        invariant
            exec.wf(),
            exec.magic() == magic,
            exec.map_view().len() == len,
            given == input@,
            reference@ == target_coverage(magic, given, len),
            preserved(magic, len, mode, given, given),
            preserved(magic, len, mode, given, best@),
            best@.len() <= given.len(),
            on_chain(max_chunk as nat, c as nat),
            sizes_fail(magic, len, mode, given, best@, max_chunk as nat, c as nat),
            c > 0 ==> forall|p: int|
                0 <= p < o && p + c <= best@.len() ==> !preserved(
                    magic,
                    len,
                    mode,
                    given,
                    #[trigger] without_chunk(best@, p, c as int),
                ),
            is_minimal(magic, len, mode, given, given, max_chunk as nat) ==> best@ == given,
            runs <= budget,
            n == given.len(),
            k == chain_len(max_chunk as nat),
            sweep == k * (n + 1),
            o <= n + 1,
            chain_len(c as nat) <= k,
            runs <= (n - best@.len()) * sweep + (k - chain_len(c as nat)) * (n + 1) + o,
        decreases budget - runs, c,
    {
        if c > best.len() || o > best.len() - c {
            proof {
                let kc = chain_len(c as nat) as int;
                assert(chain_len((c / 2) as nat) == kc - 1);
                assert((k - kc) * (n + 1) + o <= (k - (kc - 1)) * (n + 1)) by (nonlinear_arith)
                    requires
                        o <= n + 1,
                ;
                lemma_sizes_step(magic, len, mode, given, best@, max_chunk as nat, c as nat);
                assert(on_chain(max_chunk as nat, (c / 2) as nat)) by {
                    lemma_chain_half(max_chunk as nat, c as nat);
                }
            }
            c = c / 2;
            o = 0;
        } else {
            let candidate = remove_chunk(best.as_slice(), o, c);
            let kept = keeps(exec, mode, &reference, candidate.as_slice(), Ghost(given));
            runs = runs + 1;
            if kept {
                proof {
                    let kc = chain_len(c as nat) as int;
                    let l = best@.len() as int;
                    assert(kc >= 1);
                    assert((n - l) * sweep + (k - kc) * (n + 1) + o + 1 <= (n - (l - c)) * sweep) by (nonlinear_arith)
                        requires
                            sweep == k * (n + 1),
                            kc >= 1,
                            kc <= k,
                            o + c <= l,
                            l <= n,
                            c >= 1,
                    ;
                    if is_minimal(magic, len, mode, given, given, max_chunk as nat) {
                        lemma_minimal_fails(magic, len, mode, given, given, max_chunk as nat, c as nat);
                        assert(!preserved(magic, len, mode, given, without_chunk(best@, o as int, c as int)));
                    }
                }
                best = candidate;
                c = max_chunk;
                o = 0;
            } else {
                o = o + 1;
            }
        }
    }
    let converged = c == 0;
    proof {
        if !converged {
            let kc = chain_len(c as nat) as int;
            assert(kc >= 1);
            assert(runs <= (n + 1) * (n + 1) * k) by (nonlinear_arith)
                requires
                    runs <= (n - best@.len()) * sweep + (k - kc) * (n + 1) + o,
                    sweep == k * (n + 1),
                    kc >= 1,
                    o <= n + 1,
                    best@.len() >= 0,
                    n >= 0,
                    k >= kc,
            ;
        }
    }
    Some((best, converged))
}

proof fn lemma_chain_half(m: nat, c: nat)
    requires
        on_chain(m, c),
        c > 0,
    ensures
        on_chain(m, c / 2),
    decreases m,
{
    if m != c {
        lemma_chain_half(m / 2, c);
    } else {
        assert(on_chain(m / 2, c / 2));
    }
}

proof fn lemma_sizes_fail_same_property(
    magic: Seq<u8>,
    len: nat,
    mode: Preserve,
    a: Seq<u8>,
    b: Seq<u8>,
    s: Seq<u8>,
    cur: nat,
    stop: nat,
)
    requires
        forall|t: Seq<u8>| preserved(magic, len, mode, a, t) == preserved(magic, len, mode, b, t),
        sizes_fail(magic, len, mode, a, s, cur, stop),
    ensures
        sizes_fail(magic, len, mode, b, s, cur, stop),
    decreases cur,
{
    if cur != 0 && cur != stop {
        lemma_sizes_fail_same_property(magic, len, mode, a, b, s, cur / 2, stop);
        assert forall|o: int| 0 <= o && o + cur <= s.len() implies !preserved(
            magic,
            len,
            mode,
            b,
            #[trigger] without_chunk(s, o, cur as int),
        ) by {
            assert(!preserved(magic, len, mode, a, without_chunk(s, o, cur as int)));
        }
    }
}

/// Minimizing a result of a converged run again changes nothing: the
/// second run keeps the property and returns its input unchanged.
pub proof fn lemma_minimize_idempotent(
    magic: Seq<u8>,
    len: nat,
    mode: Preserve,
    max_chunk: nat,
    input: Seq<u8>,
    first: Seq<u8>,
    second: Option<(Seq<u8>, bool)>,
)
    requires
        minimize_result(magic, len, mode, max_chunk, input, Some((first, true))),
        minimize_result(magic, len, mode, max_chunk, first, second),
    ensures
        second is Some,
        second.unwrap().0 == first,
{
    assert forall|t: Seq<u8>| preserved(magic, len, mode, input, t) == preserved(magic, len, mode, first, t) by {}
    lemma_sizes_fail_same_property(magic, len, mode, input, first, first, max_chunk, 0);
}

} // verus!
