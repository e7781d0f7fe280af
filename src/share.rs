use vstd::prelude::*;
use crate::corpus::Testcase;

verus! {

/// `256` to the power `n`.
pub open spec fn pow256(n: nat) -> nat
    decreases n,
{
    if n == 0 { 1 } else { 256 * pow256((n - 1) as nat) }
}

/// The `n` little-endian bytes of `v`.
pub open spec fn le_bytes(v: nat, n: nat) -> Seq<u8>
    decreases n,
{
    if n == 0 {
        Seq::empty()
    } else {
        seq![(v % 256) as u8] + le_bytes(v / 256, (n - 1) as nat)
    }
}

/// The number that little-endian bytes `s` stand for.
pub open spec fn le_value(s: Seq<u8>) -> nat
    decreases s.len(),
{
    if s.len() == 0 {
        0
    } else {
        s[0] as nat + 256 * le_value(s.drop_first())
    }
}

/// The shared form of a test case: the input's length in four
/// little-endian bytes and the input, the coverage snapshot's length and
/// the snapshot likewise, the execution time in eight little-endian bytes,
/// and one byte that is 1 for a solution and 0 otherwise.
pub open spec fn encoding(bytes: Seq<u8>, coverage: Seq<u8>, exec_time: u64, solution: bool) -> Seq<u8> {
    le_bytes(bytes.len(), 4) + bytes + le_bytes(coverage.len(), 4) + coverage + le_bytes(exec_time as nat, 8)
        + seq![if solution { 1u8 } else { 0u8 }]
}

/// What a shared form holds: input, snapshot, execution time and solution
/// flag, or `None` when `b` is cut short, runs on past the flag, or has a
/// flag other than 0 or 1.
pub open spec fn decoding(b: Seq<u8>) -> Option<(Seq<u8>, Seq<u8>, u64, bool)> {
    if b.len() < 4 {
        None
    } else {
        let n1 = le_value(b.subrange(0, 4)) as int;
        if b.len() < 8 + n1 {
            None
        } else {
            let n2 = le_value(b.subrange(4 + n1, 8 + n1)) as int;
            if b.len() != 17 + n1 + n2 {
                None
            } else {
                let flag = b[16 + n1 + n2];
                if flag > 1 {
                    None
                } else {
                    Some(
                        (
                            b.subrange(4, 4 + n1),
                            b.subrange(8 + n1, 8 + n1 + n2),
                            le_value(b.subrange(8 + n1 + n2, 16 + n1 + n2)) as u64,
                            flag == 1,
                        ),
                    )
                }
            }
        }
    }
}

proof fn lemma_pow256_facts()
    ensures
        pow256(4) == 0x1_0000_0000,
        pow256(8) == 0x1_0000_0000_0000_0000,
{
    assert(pow256(0) == 1);
    assert(pow256(1) == 256);
    assert(pow256(2) == 0x1_0000);
    assert(pow256(3) == 0x100_0000);
    assert(pow256(4) == 0x1_0000_0000);
    assert(pow256(5) == 0x100_0000_0000);
    assert(pow256(6) == 0x1_0000_0000_0000);
    assert(pow256(7) == 0x100_0000_0000_0000);
}

proof fn lemma_le_bytes_len(v: nat, n: nat)
    ensures
        le_bytes(v, n).len() == n,
    decreases n,
{
    if n > 0 {
        lemma_le_bytes_len(v / 256, (n - 1) as nat);
    }
}

proof fn lemma_le_round_trip(v: nat, n: nat)
    requires
        v < pow256(n),
    ensures
        le_value(le_bytes(v, n)) == v,
    decreases n,
{
    if n > 0 {
        let rest = le_bytes(v / 256, (n - 1) as nat);
        assert(v / 256 < pow256((n - 1) as nat)) by (nonlinear_arith)
            requires
                v < 256 * pow256((n - 1) as nat),
        ;
        lemma_le_round_trip(v / 256, (n - 1) as nat);
        assert(le_bytes(v, n).drop_first() =~= rest);
    } else {
        assert(v == 0);
    }
}

proof fn lemma_le_value_bound(s: Seq<u8>)
    ensures
        le_value(s) < pow256(s.len()),
    decreases s.len(),
{
    if s.len() > 0 {
        lemma_le_value_bound(s.drop_first());
        let x = le_value(s.drop_first());
        let p = pow256((s.len() - 1) as nat);
        assert(s[0] as nat + 256 * x < 256 * p) by (nonlinear_arith)
            requires
                x < p,
                s[0] < 256,
        ;
    }
}

/// Appends the `n` little-endian bytes of `v` to `out`.
fn push_le(out: &mut Vec<u8>, v: u64, n: usize)
    requires
        n <= 8,
    ensures
        final(out)@ == old(out)@ + le_bytes(v as nat, n as nat),
{
    let mut x: u64 = v;
    let mut i: usize = 0;
    while i < n
        invariant
            i <= n,
            out@ + le_bytes(x as nat, (n - i) as nat) == old(out)@ + le_bytes(v as nat, n as nat),
        decreases n - i,
    {
        let ghost before = out@;
        out.push((x % 256) as u8);
        proof {
            let rest = le_bytes((x / 256) as nat, (n - i - 1) as nat);
            assert(le_bytes(x as nat, (n - i) as nat) == seq![(x % 256) as u8] + rest);
            assert(out@ + rest =~= before + le_bytes(x as nat, (n - i) as nat));
        }
        x = x / 256;
        i = i + 1;
    }
    assert(out@ + le_bytes(x as nat, 0) =~= out@);
}

/// The number that the `n` little-endian bytes of `b` at `at` stand for.
fn read_le(b: &[u8], at: usize, n: usize) -> (r: u64)
    requires
        n <= 8,
        at + n <= b@.len(),
    ensures
        r == le_value(b@.subrange(at as int, at + n)),
{
    let bl = b.len();
    let end = at + n;
    let mut i: usize = end;
    let mut value: u64 = 0;
    proof {
        lemma_pow256_facts();
    }
    while i > at
        invariant
            at <= i <= end,
            end == at + n,
            n <= 8,
            end <= b@.len(),
            value == le_value(b@.subrange(i as int, end as int)),
            pow256(8) == 0x1_0000_0000_0000_0000,
        decreases i - at,
    {
        proof {
            lemma_le_value_bound(b@.subrange(i as int, end as int));
            lemma_pow256_monotone((end - i) as nat, 7);
            assert(value * 256 + 255 < 0x1_0000_0000_0000_0000) by (nonlinear_arith)
                requires
                    value < pow256((end - i) as nat),
                    pow256((end - i) as nat) <= pow256(7),
                    pow256(8) == 256 * pow256(7),
                    pow256(8) == 0x1_0000_0000_0000_0000,
            ;
        }
        i = i - 1;
        value = value * 256 + b[i] as u64;
        assert(b@.subrange(i as int, end as int).drop_first() =~= b@.subrange(i + 1, end as int));
    }
    value
}

proof fn lemma_pow256_monotone(a: nat, b: nat)
    requires
        a <= b,
    ensures
        pow256(a) <= pow256(b),
    decreases b,
{
    if a < b {
        lemma_pow256_monotone(a, (b - 1) as nat);
    }
}

/// The shared form of `tc`, for handing an accepted test case to other
/// sessions.
pub fn encode(tc: &Testcase) -> (r: Vec<u8>)
    requires
        tc.bytes@.len() < 0x1_0000_0000,
        tc.coverage@.len() < 0x1_0000_0000,
    ensures
        r@ == encoding(tc.bytes@, tc.coverage@, tc.exec_time, tc.solution),
{
    let mut out: Vec<u8> = Vec::new();
    push_le(&mut out, tc.bytes.len() as u64, 4);
    let mut i: usize = 0;
    let ghost head = out@;
    while i < tc.bytes.len()
        invariant
            i <= tc.bytes@.len(),
            out@ == head + tc.bytes@.take(i as int),
        decreases tc.bytes@.len() - i,
    {
        out.push(tc.bytes[i]);
        i = i + 1;
        assert(out@ =~= head + tc.bytes@.take(i as int));
    }
    assert(tc.bytes@.take(i as int) =~= tc.bytes@);
    push_le(&mut out, tc.coverage.len() as u64, 4);
    let ghost head2 = out@;
    let mut j: usize = 0;
    while j < tc.coverage.len()
        invariant
            j <= tc.coverage@.len(),
            out@ == head2 + tc.coverage@.take(j as int),
        decreases tc.coverage@.len() - j,
    {
        out.push(tc.coverage[j]);
        j = j + 1;
        assert(out@ =~= head2 + tc.coverage@.take(j as int));
    }
    assert(tc.coverage@.take(j as int) =~= tc.coverage@);
    push_le(&mut out, tc.exec_time, 8);
    out.push(if tc.solution { 1u8 } else { 0u8 });
    assert(out@ =~= encoding(tc.bytes@, tc.coverage@, tc.exec_time, tc.solution));
    out
}

/// Reads a test case shared by another session; `None` when `b` is not a
/// well-formed shared form.
pub fn decode(b: &[u8]) -> (r: Option<Testcase>)
    ensures
        match r {
            None => decoding(b@) is None,
            Some(tc) => decoding(b@) == Some((tc.bytes@, tc.coverage@, tc.exec_time, tc.solution)),
        },
{
    let len = b.len();
    if len < 4 {
        return None;
    }
    let n1 = read_le(b, 0, 4);
    proof {
        lemma_le_value_bound(b@.subrange(0, 4));
        lemma_pow256_facts();
    }
    if (len as u64) < 8 || n1 > len as u64 - 8 {
        return None;
    }
    let n1 = n1 as usize;
    let n2 = read_le(b, 4 + n1, 4);
    proof {
        lemma_le_value_bound(b@.subrange(4 + n1, 8 + n1));
    }
    if (len as u64) < 17 || n2 > len as u64 - 17 || n1 as u64 > len as u64 - 17 - n2 || len as u64 != 17 + n1 as u64 + n2 {
        return None;
    }
    let n2 = n2 as usize;
    let flag = b[16 + n1 + n2];
    if flag > 1 {
        return None;
    }
    let bytes = copy_range(b, 4, n1);
    let coverage = copy_range(b, 8 + n1, n2);
    let exec_time = read_le(b, 8 + n1 + n2, 8);
    Some(Testcase { bytes, coverage, exec_time, solution: flag == 1 })
}

/// The `n` bytes of `b` from `at`.
fn copy_range(b: &[u8], at: usize, n: usize) -> (r: Vec<u8>)
    requires
        at + n <= b@.len(),
    ensures
        r@ == b@.subrange(at as int, at + n),
{
    let bl = b.len();
    let mut r: Vec<u8> = Vec::with_capacity(n);
    let mut i: usize = 0;
    while i < n
        invariant
            i <= n,
            at + n <= b@.len(),
            bl == b@.len(),
            r@ == b@.subrange(at as int, at + i),
        decreases n - i,
    {
        r.push(b[at + i]);
        i = i + 1;
        assert(r@ =~= b@.subrange(at as int, at + i));
    }
    r
}

/// Reading back the shared form of a test case gives the test case.
pub proof fn lemma_share_round_trip(bytes: Seq<u8>, coverage: Seq<u8>, exec_time: u64, solution: bool)
    requires
        bytes.len() < 0x1_0000_0000,
        coverage.len() < 0x1_0000_0000,
    ensures
        decoding(encoding(bytes, coverage, exec_time, solution)) == Some((bytes, coverage, exec_time, solution)),
{
    lemma_pow256_facts();
    let n1 = bytes.len() as int;
    let n2 = coverage.len() as int;
    let h1 = le_bytes(bytes.len(), 4);
    let h2 = le_bytes(coverage.len(), 4);
    let t = le_bytes(exec_time as nat, 8);
    lemma_le_bytes_len(bytes.len(), 4);
    lemma_le_bytes_len(coverage.len(), 4);
    lemma_le_bytes_len(exec_time as nat, 8);
    lemma_le_round_trip(bytes.len(), 4);
    lemma_le_round_trip(coverage.len(), 4);
    lemma_le_round_trip(exec_time as nat, 8);
    let e = encoding(bytes, coverage, exec_time, solution);
    assert(e.subrange(0, 4) =~= h1);
    assert(e.subrange(4, 4 + n1) =~= bytes);
    assert(e.subrange(4 + n1, 8 + n1) =~= h2);
    assert(e.subrange(8 + n1, 8 + n1 + n2) =~= coverage);
    assert(e.subrange(8 + n1 + n2, 16 + n1 + n2) =~= t);
    assert(e.len() == 17 + n1 + n2);
    assert(e[16 + n1 + n2] == if solution { 1u8 } else { 0u8 });
}

} // verus!
