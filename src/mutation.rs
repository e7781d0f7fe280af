use vstd::prelude::*;
use libafl_bolts::rands::RomuDuoJrRand;
use crate::corpus::copy_bytes;
use crate::random::{below, seeded};

verus! {

/// One atomic mutation with all its random choices made.
#[derive(Clone, Copy, Debug, PartialEq, Eq, Structural)]
pub enum Mutation {
    /// Flips bit `bit` of the byte at `pos`.
    BitFlip { pos: usize, bit: u8 },
    /// Inverts every bit of the byte at `pos`.
    ByteFlip { pos: usize },
    /// Adds one to the byte at `pos`, wrapping.
    ByteInc { pos: usize },
    /// Subtracts one from the byte at `pos`, wrapping.
    ByteDec { pos: usize },
    /// Replaces the byte at `pos` by `value`.
    ByteSet { pos: usize, value: u8 },
    /// Replaces the byte at `pos` by the interesting value number `which`.
    ByteInteresting { pos: usize, which: usize },
    /// Removes `len` bytes from `start`.
    DeleteBlock { start: usize, len: usize },
    /// Inserts a copy of the `len` bytes at `start` right after them.
    DuplicateBlock { start: usize, len: usize },
    /// Inserts `value` before `pos`.
    InsertByte { pos: usize, value: u8 },
    /// Inserts `len` bytes of another corpus entry, from `from`, before `pos`.
    Crossover { pos: usize, from: usize, len: usize },
}

/// The number of interesting byte values.
pub const INTERESTING_COUNT: usize = 9;

/// The interesting byte values: the boundaries of signed and unsigned
/// bytes and a few small powers and round numbers.
pub open spec fn interesting(which: int) -> u8 {
    if which == 0 {
        128u8
    } else if which == 1 {
        255u8
    } else if which == 2 {
        0u8
    } else if which == 3 {
        1u8
    } else if which == 4 {
        16u8
    } else if which == 5 {
        32u8
    } else if which == 6 {
        64u8
    } else if which == 7 {
        100u8
    } else {
        127u8
    }
}

fn interesting_value(which: usize) -> (r: u8)
    ensures
        r == interesting(which as int),
{
    if which == 0 {
        128
    } else if which == 1 {
        255
    } else if which == 2 {
        0
    } else if which == 3 {
        1
    } else if which == 4 {
        16
    } else if which == 5 {
        32
    } else if which == 6 {
        64
    } else if which == 7 {
        100
    } else {
        127
    }
}

/// `s` with the `cut` bytes at `pos` replaced by `ins`.
pub open spec fn splice(s: Seq<u8>, pos: int, cut: int, ins: Seq<u8>) -> Seq<u8> {
    s.take(pos) + ins + s.skip(pos + cut)
}

/// What `op` makes of `s`, with `other` the entry that crossover draws on
/// and `max_len` the largest accepted input. A mutation whose positions do
/// not fit `s`, or that would grow it past `max_len`, leaves it unchanged.
pub open spec fn apply_spec(s: Seq<u8>, other: Seq<u8>, op: Mutation, max_len: nat) -> Seq<u8> {
    match op {
        Mutation::BitFlip { pos, bit } => if pos < s.len() && bit < 8 {
            s.update(pos as int, s[pos as int] ^ (1u8 << bit))
        } else {
            s
        },
        Mutation::ByteFlip { pos } => if pos < s.len() {
            s.update(pos as int, s[pos as int] ^ 255u8)
        } else {
            s
        },
        Mutation::ByteInc { pos } => if pos < s.len() {
            s.update(pos as int, if s[pos as int] == 255 { 0u8 } else { (s[pos as int] + 1) as u8 })
        } else {
            s
        },
        Mutation::ByteDec { pos } => if pos < s.len() {
            s.update(pos as int, if s[pos as int] == 0 { 255u8 } else { (s[pos as int] - 1) as u8 })
        } else {
            s
        },
        Mutation::ByteSet { pos, value } => if pos < s.len() {
            s.update(pos as int, value)
        } else {
            s
        },
        Mutation::ByteInteresting { pos, which } => if pos < s.len() && which < INTERESTING_COUNT {
            s.update(pos as int, interesting(which as int))
        } else {
            s
        },
        Mutation::DeleteBlock { start, len } => if 0 < len && start + len <= s.len() {
            splice(s, start as int, len as int, Seq::empty())
        } else {
            s
        },
        Mutation::DuplicateBlock { start, len } => if 0 < len && start + len <= s.len() && s.len() + len
            <= max_len {
            splice(s, start + len, 0, s.subrange(start as int, start + len))
        } else {
            s
        },
        Mutation::InsertByte { pos, value } => if pos <= s.len() && s.len() + 1 <= max_len {
            splice(s, pos as int, 0, seq![value])
        } else {
            s
        },
        Mutation::Crossover { pos, from, len } => if pos <= s.len() && from + len <= other.len() && s.len()
            + len <= max_len {
            splice(s, pos as int, 0, other.subrange(from as int, from + len))
        } else {
            s
        },
    }
}

/// Whether the positions and sizes of `op` fit an input of `len` bytes and
/// a crossover entry of `other_len` bytes.
pub open spec fn fits(op: Mutation, len: nat, other_len: nat) -> bool {
    match op {
        Mutation::BitFlip { pos, bit } => pos < len && bit < 8,
        Mutation::ByteFlip { pos } => pos < len,
        Mutation::ByteInc { pos } => pos < len,
        Mutation::ByteDec { pos } => pos < len,
        Mutation::ByteSet { pos, .. } => pos < len,
        Mutation::ByteInteresting { pos, which } => pos < len && which < INTERESTING_COUNT,
        Mutation::DeleteBlock { start, len: l } => 0 < l && start + l <= len,
        Mutation::DuplicateBlock { start, len: l } => 0 < l && start + l <= len,
        Mutation::InsertByte { pos, .. } => pos <= len,
        Mutation::Crossover { pos, from, len: l } => pos <= len && 0 < l && from + l <= other_len,
    }
}

/// What a stack of mutations makes of `s`, applied first to last.
pub open spec fn apply_stack(s: Seq<u8>, other: Seq<u8>, ops: Seq<Mutation>, max_len: nat) -> Seq<u8>
    decreases ops.len(),
{
    if ops.len() == 0 {
        s
    } else {
        apply_spec(apply_stack(s, other, ops.drop_last(), max_len), other, ops.last(), max_len)
    }
}

/// `s` with the `cut` bytes at `pos` replaced by `len` bytes of `src` from `from`.
fn splice_exec(s: &[u8], pos: usize, cut: usize, src: &[u8], from: usize, len: usize) -> (r: Vec<u8>)
    requires
        pos + cut <= s@.len(),
        from + len <= src@.len(),
    ensures
        r@ == splice(s@, pos as int, cut as int, src@.subrange(from as int, from + len)),
{
    let sl = s.len();
    let srcl = src.len();
    let mut r: Vec<u8> = Vec::new();
    let mut i: usize = 0;
    while i < pos
        invariant
            i <= pos,
            pos + cut <= s@.len(),
            r@ == s@.take(i as int),
        decreases pos - i,
    {
        r.push(s[i]);
        i = i + 1;
        assert(r@ =~= s@.take(i as int));
    }
    let mut j: usize = 0;
    while j < len
        invariant
            j <= len,
            from + len <= src@.len(),
            pos + cut <= s@.len(),
            sl == s@.len(),
            srcl == src@.len(),
            r@ == s@.take(pos as int) + src@.subrange(from as int, from + j),
        decreases len - j,
    {
        r.push(src[from + j]);
        j = j + 1;
        assert(r@ =~= s@.take(pos as int) + src@.subrange(from as int, from + j));
    }
    let mut k: usize = pos + cut;
    while k < s.len()
        invariant
            pos + cut <= k <= s@.len(),
            from + len <= src@.len(),
            sl == s@.len(),
            r@ == s@.take(pos as int) + src@.subrange(from as int, from + len) + s@.subrange(
                pos + cut,
                k as int,
            ),
        decreases s@.len() - k,
    {
        r.push(s[k]);
        k = k + 1;
        assert(r@ =~= s@.take(pos as int) + src@.subrange(from as int, from + len) + s@.subrange(
            pos + cut,
            k as int,
        ));
    }
    assert(r@ =~= splice(s@, pos as int, cut as int, src@.subrange(from as int, from + len)));
    r
}

fn set_byte(s: &[u8], pos: usize, value: u8) -> (r: Vec<u8>)
    requires
        pos < s@.len(),
    ensures
        r@ == s@.update(pos as int, value),
{
    let one = [value];
    let r = splice_exec(s, pos, 1, &one, 0, 1);
    assert(r@ =~= s@.update(pos as int, value));
    r
}

/// Applies one mutation to `s`.
pub fn apply(s: &[u8], other: &[u8], op: Mutation, max_len: usize) -> (r: Vec<u8>)
    ensures
        r@ == apply_spec(s@, other@, op, max_len as nat),
{
    let n = s.len();
    match op {
        Mutation::BitFlip { pos, bit } => if pos < n && bit < 8 {
            set_byte(s, pos, s[pos] ^ (1u8 << bit))
        } else {
            copy_bytes(s)
        },
        Mutation::ByteFlip { pos } => if pos < n {
            set_byte(s, pos, s[pos] ^ 255u8)
        } else {
            copy_bytes(s)
        },
        Mutation::ByteInc { pos } => if pos < n {
            set_byte(s, pos, if s[pos] == 255 { 0u8 } else { s[pos] + 1 })
        } else {
            copy_bytes(s)
        },
        Mutation::ByteDec { pos } => if pos < n {
            set_byte(s, pos, if s[pos] == 0 { 255u8 } else { s[pos] - 1 })
        } else {
            copy_bytes(s)
        },
        Mutation::ByteSet { pos, value } => if pos < n {
            set_byte(s, pos, value)
        } else {
            copy_bytes(s)
        },
        Mutation::ByteInteresting { pos, which } => if pos < n && which < INTERESTING_COUNT {
            set_byte(s, pos, interesting_value(which))
        } else {
            copy_bytes(s)
        },
        Mutation::DeleteBlock { start, len } => if 0 < len && len <= n && start <= n - len {
            splice_exec(s, start, len, s, 0, 0)
        } else {
            copy_bytes(s)
        },
        Mutation::DuplicateBlock { start, len } => if 0 < len && len <= n && start <= n - len && len
            <= max_len && n <= max_len - len {
            splice_exec(s, start + len, 0, s, start, len)
        } else {
            copy_bytes(s)
        },
        Mutation::InsertByte { pos, value } => if pos <= n && n < max_len {
            let one = [value];
            let r = splice_exec(s, pos, 0, &one, 0, 1);
            assert(one@.subrange(0, 1) =~= seq![value]);
            r
        } else {
            copy_bytes(s)
        },
        Mutation::Crossover { pos, from, len } => if pos <= n && len <= other.len() && from <= other.len()
            - len && len <= max_len && n <= max_len - len {
            splice_exec(s, pos, 0, other, from, len)
        } else {
            copy_bytes(s)
        },
    }
}

/// Whether `b` is a printable byte: a visible character, space, tab or newline.
pub open spec fn is_printable(b: u8) -> bool {
    (32 <= b && b <= 126) || b == 9 || b == 10
}

/// Draws stacks of atomic mutations from a seeded random stream.
pub struct Havoc {
    rng: RomuDuoJrRand,
    seed: u64,
    draws: u64,
    max_stack: usize,
    max_len: usize,
}

impl Havoc {
    /// The largest number of mutations in one stack.
    pub closed spec fn max_stack(&self) -> nat {
        self.max_stack as nat
    }

    /// The largest input a mutation may produce.
    pub closed spec fn max_len(&self) -> nat {
        self.max_len as nat
    }

    /// The seed of the random stream.
    pub closed spec fn seed(&self) -> u64 {
        self.seed
    }

    /// How many values were drawn from the stream, saturated at `u64::MAX`.
    pub closed spec fn draws(&self) -> u64 {
        self.draws
    }

    /// The largest number of mutations in one stack.
    pub fn max_stack_exec(&self) -> (r: usize)
        ensures
            r == self.max_stack(),
    {
        self.max_stack
    }

    /// The largest input a mutation may produce.
    pub fn max_len_exec(&self) -> (r: usize)
        ensures
            r == self.max_len(),
    {
        self.max_len
    }

    /// The seed of the random stream.
    pub fn seed_exec(&self) -> (r: u64)
        ensures
            r == self.seed(),
    {
        self.seed
    }

    /// How many values were drawn from the stream.
    pub fn draws_exec(&self) -> (r: u64)
        ensures
            r == self.draws(),
    {
        self.draws
    }

    /// An engine at stream position `draws` of the stream seeded with
    /// `seed`: the stream is replayed up to there, one value per draw.
    pub fn resume(seed: u64, draws: u64, max_stack: usize, max_len: usize) -> (r: Havoc)
        requires
            max_stack > 0,
        ensures
            r.max_stack() == max_stack,
            r.max_len() == max_len,
            r.seed() == seed,
            r.draws() == draws,
    {
        let mut h = Havoc::new(seed, max_stack, max_len);
        while h.draws < draws
            invariant
                h.max_stack() == max_stack,
                h.max_len() == max_len,
                h.seed() == seed,
                h.draws() <= draws,
            decreases draws - h.draws,
        {
            let _ = h.below(1);
        }
        h
    }

    /// A mutation engine seeded with `seed`, stacking up to `max_stack`
    /// mutations and growing inputs up to `max_len` bytes.
    pub fn new(seed: u64, max_stack: usize, max_len: usize) -> (r: Havoc)
        requires
            max_stack > 0,
        ensures
            r.max_stack() == max_stack,
            r.max_len() == max_len,
            r.seed() == seed,
            r.draws() == 0,
    {
        Havoc { rng: seeded(seed), seed, draws: 0, max_stack, max_len }
    }

    /// A random value below `bound`, which must not be zero.
    pub fn below(&mut self, bound: usize) -> (r: usize)
        requires
            bound > 0,
        ensures
            r < bound,
            final(self).max_stack() == old(self).max_stack(),
            final(self).max_len() == old(self).max_len(),
            final(self).seed() == old(self).seed(),
            final(self).draws() == (if old(self).draws() < u64::MAX {
                (old(self).draws() + 1) as u64
            } else {
                old(self).draws()
            }),
    {
        if self.draws < u64::MAX {
            self.draws = self.draws + 1;
        }
        below(&mut self.rng, bound)
    }

    /// Draws one mutation for an input of `len` bytes; an empty input only
    /// ever gets a byte inserted.
    pub fn draw(&mut self, len: usize, other_len: usize) -> (r: Mutation)
        ensures
            final(self).max_stack() == old(self).max_stack(),
            final(self).max_len() == old(self).max_len(),
            len == 0 ==> r matches Mutation::InsertByte { pos: 0, .. },
            fits(r, len as nat, other_len as nat),
    {
        if len == 0 {
            let value = self.below(256) as u8;
            return Mutation::InsertByte { pos: 0, value };
        }
        let kind = self.below(10);
        if kind == 0 {
            let pos = self.below(len);
            let bit = self.below(8) as u8;
            Mutation::BitFlip { pos, bit }
        } else if kind == 1 {
            Mutation::ByteFlip { pos: self.below(len) }
        } else if kind == 2 {
            Mutation::ByteInc { pos: self.below(len) }
        } else if kind == 3 {
            Mutation::ByteDec { pos: self.below(len) }
        } else if kind == 4 {
            let pos = self.below(len);
            let value = self.below(256) as u8;
            Mutation::ByteSet { pos, value }
        } else if kind == 5 {
            let pos = self.below(len);
            let which = self.below(INTERESTING_COUNT);
            Mutation::ByteInteresting { pos, which }
        } else if kind == 6 {
            let start = self.below(len);
            let blen = 1 + self.below(len - start);
            Mutation::DeleteBlock { start, len: blen }
        } else if kind == 7 {
            let start = self.below(len);
            let blen = 1 + self.below(len - start);
            Mutation::DuplicateBlock { start, len: blen }
        } else if kind == 8 || other_len == 0 {
            let pos = self.below(len);
            let value = self.below(256) as u8;
            Mutation::InsertByte { pos, value }
        } else {
            let pos = self.below(len);
            let from = self.below(other_len);
            let blen = 1 + self.below(other_len - from);
            Mutation::Crossover { pos, from, len: blen }
        }
    }

    /// Derives a child of `parent` by a random stack of one to `max_stack`
    /// mutations; `other` is the entry that crossover draws on. Returns the
    /// child and the stack, which reproduces the child exactly.
    pub fn mutate(&mut self, parent: &[u8], other: &[u8]) -> (r: (Vec<u8>, Vec<Mutation>))
        requires
            old(self).max_stack() > 0,
        ensures
            final(self).max_stack() == old(self).max_stack(),
            final(self).max_len() == old(self).max_len(),
            1 <= r.1@.len() <= old(self).max_stack(),
            r.0@ == apply_stack(parent@, other@, r.1@, old(self).max_len()),
            fits(r.1@[0], parent@.len(), other@.len()),
            parent@.len() == 0 ==> r.1@[0] matches Mutation::InsertByte { pos: 0, .. },
    {
        let count = 1 + self.below(self.max_stack);
        let mut child = copy_bytes(parent);
        let mut ops: Vec<Mutation> = Vec::new();
        assert(child@ =~= parent@);
        let mut i: usize = 0;
        while i < count
            invariant
                i <= count,
                count <= self.max_stack(),
                self.max_stack() == old(self).max_stack(),
                self.max_len() == old(self).max_len(),
                ops@.len() == i,
                child@ == apply_stack(parent@, other@, ops@, self.max_len()),
                i == 0 ==> child@ == parent@,
                i > 0 ==> fits(ops@[0], parent@.len(), other@.len()),
                i > 0 && parent@.len() == 0 ==> ops@[0] matches Mutation::InsertByte { pos: 0, .. },
            decreases count - i,
        {
            let op = self.draw(child.len(), other.len());
            let next = apply(child.as_slice(), other, op, self.max_len);
            let ghost before = ops@;
            ops.push(op);
            assert(ops@.drop_last() =~= before);
            child = next;
            i = i + 1;
        }
        (child, ops)
    }

    /// A random input of one to `max_size` printable bytes.
    pub fn printable(&mut self, max_size: usize) -> (r: Vec<u8>)
        requires
            max_size > 0,
        ensures
            final(self).max_stack() == old(self).max_stack(),
            final(self).max_len() == old(self).max_len(),
            1 <= r@.len() <= max_size,
            forall|i: int| 0 <= i < r@.len() ==> is_printable(#[trigger] r@[i]),
    {
        let size = 1 + self.below(max_size);
        let mut r: Vec<u8> = Vec::with_capacity(size);
        let mut i: usize = 0;
        while i < size
            invariant
                i <= size,
                r@.len() == i,
                self.max_stack() == old(self).max_stack(),
                self.max_len() == old(self).max_len(),
                forall|j: int| 0 <= j < r@.len() ==> is_printable(#[trigger] r@[j]),
            decreases size - i,
        {
            let pick = self.below(97);
            let b: u8 = if pick < 95 { 32 + pick as u8 } else if pick == 95 { 9 } else { 10 };
            r.push(b);
            i = i + 1;
        }
        r
    }
}

} // verus!
