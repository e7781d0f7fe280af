use baby_fuzzers::corpus::CorpusError;
use baby_fuzzers::feedback::{ObjectivePolicy, Verdict};
use baby_fuzzers::fuzzer::Fuzzer;
use baby_fuzzers::mutation::{apply, Havoc, Mutation};
use baby_fuzzers::target::MagicTarget;

fn printable(b: u8) -> bool {
    (32..=126).contains(&b) || b == 9 || b == 10
}

#[test]
fn byte_mutations() {
    let s = b"abc";
    assert_eq!(apply(s, b"", Mutation::BitFlip { pos: 0, bit: 1 }, 64), b"cbc".to_vec());
    assert_eq!(apply(s, b"", Mutation::BitFlip { pos: 0, bit: 8 }, 64), b"abc".to_vec());
    assert_eq!(apply(s, b"", Mutation::ByteFlip { pos: 1 }, 64), vec![b'a', !b'b', b'c']);
    assert_eq!(apply(s, b"", Mutation::ByteInc { pos: 2 }, 64), b"abd".to_vec());
    assert_eq!(apply(&[255], b"", Mutation::ByteInc { pos: 0 }, 64), vec![0]);
    assert_eq!(apply(s, b"", Mutation::ByteDec { pos: 2 }, 64), b"abb".to_vec());
    assert_eq!(apply(&[0], b"", Mutation::ByteDec { pos: 0 }, 64), vec![255]);
    assert_eq!(apply(s, b"", Mutation::ByteSet { pos: 1, value: b'Z' }, 64), b"aZc".to_vec());
    assert_eq!(apply(s, b"", Mutation::ByteSet { pos: 3, value: b'Z' }, 64), b"abc".to_vec());
    assert_eq!(apply(s, b"", Mutation::ByteInteresting { pos: 0, which: 1 }, 64), vec![255, b'b', b'c']);
    assert_eq!(apply(s, b"", Mutation::ByteInteresting { pos: 0, which: 7 }, 64), vec![100, b'b', b'c']);
    assert_eq!(apply(s, b"", Mutation::ByteInteresting { pos: 0, which: 9 }, 64), b"abc".to_vec());
}

#[test]
fn block_mutations() {
    let s = b"abcdef";
    assert_eq!(apply(s, b"", Mutation::DeleteBlock { start: 1, len: 2 }, 64), b"adef".to_vec());
    assert_eq!(apply(s, b"", Mutation::DeleteBlock { start: 5, len: 2 }, 64), b"abcdef".to_vec());
    assert_eq!(apply(s, b"", Mutation::DuplicateBlock { start: 1, len: 2 }, 64), b"abcbcdef".to_vec());
    assert_eq!(apply(s, b"", Mutation::DuplicateBlock { start: 1, len: 2 }, 7), b"abcdef".to_vec());
    assert_eq!(apply(s, b"", Mutation::InsertByte { pos: 6, value: b'!' }, 64), b"abcdef!".to_vec());
    assert_eq!(apply(s, b"", Mutation::InsertByte { pos: 6, value: b'!' }, 6), b"abcdef".to_vec());
    assert_eq!(apply(s, b"XYZ", Mutation::Crossover { pos: 2, from: 1, len: 2 }, 64), b"abYZcdef".to_vec());
    assert_eq!(apply(s, b"XYZ", Mutation::Crossover { pos: 2, from: 2, len: 2 }, 64), b"abcdef".to_vec());
}

#[test]
fn empty_parent_only_gets_insertions() {
    let mut h = Havoc::new(7, 4, 64);
    for _ in 0..50 {
        let op = h.draw(0, 0);
        assert!(matches!(op, Mutation::InsertByte { pos: 0, .. }));
        let (child, ops) = h.mutate(b"", b"");
        assert!(!ops.is_empty() && ops.len() <= 4);
        assert!(matches!(ops[0], Mutation::InsertByte { pos: 0, .. }));
        assert!(child.len() <= ops.len());
    }
}

#[test]
fn mutation_stack_reproduces_the_child() {
    let mut h = Havoc::new(1234, 6, 64);
    let parent = b"hello world";
    let other = b"other entry";
    for _ in 0..200 {
        let (child, ops) = h.mutate(parent, other);
        assert!(!ops.is_empty() && ops.len() <= 6);
        let mut again = parent.to_vec();
        for op in ops.iter() {
            again = apply(&again, other, *op, 64);
        }
        assert_eq!(again, child);
        assert!(child.len() <= 64);
    }
}

#[test]
fn same_seed_same_children() {
    let mut a = Havoc::new(99, 8, 64);
    let mut b = Havoc::new(99, 8, 64);
    for _ in 0..100 {
        assert_eq!(a.mutate(b"parent", b"x"), b.mutate(b"parent", b"x"));
    }
    let mut c = Havoc::new(100, 8, 64);
    let differs = (0..100).any(|_| a.mutate(b"parent", b"x") != c.mutate(b"parent", b"x"));
    assert!(differs);
}

#[test]
fn random_draws_stay_below_the_bound() {
    let mut h = Havoc::new(5, 1, 16);
    let mut hit_top = false;
    for _ in 0..1000 {
        let v = h.below(3);
        assert!(v < 3);
        hit_top |= v == 2;
    }
    assert!(hit_top);
}

#[test]
fn printable_inputs() {
    let mut h = Havoc::new(42, 1, 64);
    for _ in 0..200 {
        let s = h.printable(32);
        assert!(!s.is_empty() && s.len() <= 32);
        assert!(s.iter().all(|b| printable(*b)));
    }
}

#[test]
fn fuzzing_an_empty_corpus_fails() {
    let mut f = Fuzzer::new(MagicTarget::new(b"MATT".to_vec()), 8, ObjectivePolicy::Crash, 1, false, 4, 64);
    assert_eq!(f.fuzz_one(), Err(CorpusError::EmptyCorpus));
    assert_eq!(f.executions(), 0);
}

#[test]
fn favored_iterations_breed_from_the_corpus() {
    let mut f = Fuzzer::new(MagicTarget::new(b"MATT".to_vec()), 8, ObjectivePolicy::Crash, 11, false, 4, 64);
    assert_eq!(f.fuzz_favored(), Err(CorpusError::EmptyCorpus));
    assert_eq!(f.evaluate_input(b"abc".to_vec()), Verdict::Corpus);
    assert_eq!(f.evaluate_input(b"Mbc".to_vec()), Verdict::Corpus);
    for _ in 0..100 {
        assert!(f.fuzz_favored().is_ok());
    }
    assert_eq!(f.executions(), 102);
    assert!(f.fuzz_one().is_ok());
}

#[test]
fn evaluating_inputs_files_them() {
    let mut f = Fuzzer::new(MagicTarget::new(b"MATT".to_vec()), 8, ObjectivePolicy::Crash, 1, true, 4, 64);
    assert_eq!(f.evaluate_input(b"abc".to_vec()), Verdict::Corpus);
    assert_eq!(f.evaluate_input(b"xyz".to_vec()), Verdict::Discard);
    assert_eq!(f.evaluate_input(b"Mxyz".to_vec()), Verdict::Corpus);
    assert_eq!(f.evaluate_input(b"MATTe".to_vec()), Verdict::Solution);
    assert_eq!(f.evaluate_input(b"MATTe".to_vec()), Verdict::Solution);
    assert_eq!(f.corpus().count(), 2);
    assert_eq!(f.solutions().count(), 1);
    assert_eq!(f.solutions().get(0).unwrap().bytes, b"MATTe".to_vec());
    assert_eq!(f.corpus().get(1).unwrap().coverage, vec![1, 1, 0, 0, 0, 0, 0, 0]);
    assert_eq!(f.executions(), 5);
}

#[test]
fn fuzzing_finds_the_magic_word() {
    let mut f = Fuzzer::new(MagicTarget::new(b"MATT".to_vec()), 8, ObjectivePolicy::Crash, 0x5eed, false, 4, 64);
    f.generate_initial_inputs(8, 32);
    assert!(!f.corpus().is_empty());
    let mut rounds = 0u32;
    while f.solutions().is_empty() && rounds < 3_000_000 {
        f.fuzz_one().unwrap();
        rounds += 1;
    }
    assert!(!f.solutions().is_empty(), "no solution after {rounds} iterations");
    let sol = f.solutions().get(0).unwrap();
    assert!(sol.bytes.starts_with(b"MATT"));
    let magic = b"MATT";
    for id in 0..f.corpus().count() {
        let e = f.corpus().get(id).unwrap();
        assert_eq!(e.coverage[0], 1);
        for k in 1..4 {
            // the last edge needs the whole word
            let need = if k == 3 { 4 } else { k };
            let hit = e.bytes.len() >= need && e.bytes[..need] == magic[..need];
            assert_eq!(e.coverage[k] == 1, hit);
        }
        for k in 4..8 {
            assert_eq!(e.coverage[k], 0);
        }
    }
}

#[test]
fn shrinking_an_entry_keeps_its_coverage() {
    let mut f = Fuzzer::new(MagicTarget::new(b"MATT".to_vec()), 8, ObjectivePolicy::Crash, 1, true, 4, 64);
    assert_eq!(f.shrink_entry(0, 128, 128), Err(CorpusError::NotFound));
    assert_eq!(f.evaluate_input(b"MAxxxxxxxx".to_vec()), Verdict::Corpus);
    assert_eq!(f.shrink_entry(0, 128, 1000), Ok(true));
    assert_eq!(f.corpus().get(0).unwrap().bytes, b"MA".to_vec());
    assert_eq!(f.corpus().get(0).unwrap().coverage, vec![1, 1, 1, 0, 0, 0, 0, 0]);
    assert_eq!(f.shrink_entry(0, 128, 1000), Ok(false));
    assert_eq!(f.evaluate_input(b"zz".to_vec()), Verdict::Discard);
}
