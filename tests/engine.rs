use baby_fuzzers::corpus::{Corpus, CorpusError, Testcase};
use baby_fuzzers::coverage::CoverageMap;
use baby_fuzzers::executor::{CustomExecutor, InProcessExecutor};
use baby_fuzzers::feedback::{Evaluator, HashFeedback, MaxMapFeedback, ObjectivePolicy, Verdict};
use baby_fuzzers::scheduler::QueueScheduler;
use baby_fuzzers::target::{ExecutionOutcome, MagicTarget};

fn matt() -> MagicTarget {
    MagicTarget::new(b"MATT".to_vec())
}

fn tc(bytes: &[u8], cov: &[u8]) -> Testcase {
    Testcase { bytes: bytes.to_vec(), coverage: cov.to_vec(), exec_time: 1, solution: false }
}

#[test]
fn coverage_map_marks_and_resets() {
    let mut map = CoverageMap::new(8);
    assert_eq!(map.len(), 8);
    assert_eq!(map.observe(), vec![0u8; 8]);
    map.mark(3);
    assert_eq!(map.get(3), 1);
    assert_eq!(map.observe(), vec![0, 0, 0, 1, 0, 0, 0, 0]);
    map.reset();
    assert_eq!(map.observe(), vec![0u8; 8]);
}

#[test]
fn target_marks_prefix_edges() {
    let t = matt();
    assert_eq!(t.edges(), 4);
    let mut map = CoverageMap::new(8);
    assert_eq!(t.run(b"hello", &mut map), ExecutionOutcome::Normal);
    assert_eq!(map.observe(), vec![1, 0, 0, 0, 0, 0, 0, 0]);
    let mut map = CoverageMap::new(8);
    assert_eq!(t.run(b"MAX", &mut map), ExecutionOutcome::Normal);
    assert_eq!(map.observe(), vec![1, 1, 1, 0, 0, 0, 0, 0]);
    let mut map = CoverageMap::new(8);
    assert_eq!(t.run(b"MAT", &mut map), ExecutionOutcome::Normal);
    assert_eq!(map.observe(), vec![1, 1, 1, 0, 0, 0, 0, 0]);
    let mut map = CoverageMap::new(8);
    assert_eq!(t.run(b"MATX", &mut map), ExecutionOutcome::Normal);
    assert_eq!(map.observe(), vec![1, 1, 1, 0, 0, 0, 0, 0]);
    let mut map = CoverageMap::new(8);
    assert_eq!(t.run(b"MATTER", &mut map), ExecutionOutcome::Crash);
    assert_eq!(map.observe(), vec![1, 1, 1, 1, 0, 0, 0, 0]);
    let mut map = CoverageMap::new(8);
    assert_eq!(t.run(b"", &mut map), ExecutionOutcome::Normal);
    assert_eq!(map.observe(), vec![1, 0, 0, 0, 0, 0, 0, 0]);
}

#[test]
fn three_letter_target_crashes_on_mat() {
    let t = MagicTarget::new(b"MAT".to_vec());
    let mut map = CoverageMap::new(16);
    assert_eq!(t.run(b"MATX", &mut map), ExecutionOutcome::Crash);
    let mut expected = vec![0u8; 16];
    expected[0] = 1;
    expected[1] = 1;
    expected[2] = 1;
    assert_eq!(map.observe(), expected);
}

#[test]
fn executor_runs_are_deterministic() {
    let mut exec = InProcessExecutor::new(matt(), 8);
    for input in [&b"MA"[..], b"MATT", b"zzz", b""] {
        let a = exec.run(input);
        let map_a = exec.observe();
        exec.run(b"MAT");
        let b = exec.run(input);
        let map_b = exec.observe();
        assert_eq!(a, b);
        assert_eq!(map_a, map_b);
    }
    assert_eq!(exec.map_len(), 8);
}

#[test]
fn custom_executor_counts_executions() {
    let state = 0u32;
    let mut exec = CustomExecutor::new(&state);
    let mut executions = 0u64;
    let mut map = CoverageMap::new(8);
    let t = matt();
    assert_eq!(exec.run_target(&mut executions, &t, b"MATT", &mut map), ExecutionOutcome::Crash);
    assert_eq!(exec.run_target(&mut executions, &t, b"xyz", &mut map), ExecutionOutcome::Normal);
    assert_eq!(executions, 2);
    assert_eq!(map.observe(), vec![1, 1, 1, 1, 0, 0, 0, 0]);
}

#[test]
fn max_map_feedback_detects_increases() {
    let mut f = MaxMapFeedback::new(4);
    assert!(f.is_interesting(&vec![1, 0, 0, 0]));
    assert!(!f.is_interesting(&vec![1, 0, 0, 0]));
    assert!(!f.is_interesting(&vec![0, 0, 0, 0]));
    assert!(f.is_interesting(&vec![0, 2, 0, 0]));
    assert!(!f.is_novel(&vec![1, 1, 0, 0]));
    assert!(f.is_novel(&vec![2, 0, 0, 0]));
}

#[test]
fn history_never_decreases() {
    let mut f = MaxMapFeedback::new(3);
    let snaps = [vec![3u8, 0, 1], vec![1, 5, 0], vec![0, 0, 0], vec![4, 1, 2]];
    let mut last = vec![0u8; 3];
    for s in snaps.iter() {
        f.is_interesting(s);
        // the history is the running maximum: check it through novelty
        for i in 0..3 {
            last[i] = last[i].max(s[i]);
        }
        assert!(!f.is_novel(&last));
        for i in 0..3 {
            let mut above = last.clone();
            if above[i] < 255 {
                above[i] += 1;
                assert!(f.is_novel(&above));
            }
        }
    }
}

#[test]
fn hash_feedback_keeps_new_signatures_only() {
    let mut h = HashFeedback::new();
    assert!(!h.is_interesting(None));
    assert!(h.is_interesting(Some(7)));
    assert!(!h.is_interesting(Some(7)));
    assert!(h.is_interesting(Some(8)));
    assert!(!h.is_interesting(None));
}

#[test]
fn evaluator_verdicts_per_policy() {
    let cov = vec![1u8, 1, 0, 0];
    let mut e = Evaluator::new(ObjectivePolicy::Crash, 4);
    assert_eq!(e.evaluate(ExecutionOutcome::Normal, &cov, None), Verdict::Corpus);
    assert_eq!(e.evaluate(ExecutionOutcome::Normal, &cov, None), Verdict::Discard);
    assert_eq!(e.evaluate(ExecutionOutcome::Timeout, &cov, None), Verdict::Discard);
    assert_eq!(e.evaluate(ExecutionOutcome::Crash, &cov, None), Verdict::Solution);

    let mut e = Evaluator::new(ObjectivePolicy::CrashOrTimeout, 4);
    assert_eq!(e.evaluate(ExecutionOutcome::Timeout, &cov, None), Verdict::Solution);
    assert_eq!(e.evaluate(ExecutionOutcome::Normal, &cov, None), Verdict::Corpus);

    let mut e = Evaluator::new(ObjectivePolicy::NewCoverageCrash, 4);
    assert_eq!(e.evaluate(ExecutionOutcome::Crash, &cov, None), Verdict::Solution);
    // the same crash coverage again is no new solution, but still new for the corpus
    assert_eq!(e.evaluate(ExecutionOutcome::Crash, &cov, None), Verdict::Corpus);
    assert_eq!(e.evaluate(ExecutionOutcome::Crash, &cov, None), Verdict::Discard);

    let mut e = Evaluator::new(ObjectivePolicy::NewSignatureCrash, 4);
    assert_eq!(e.evaluate(ExecutionOutcome::Crash, &cov, Some(1)), Verdict::Solution);
    assert_eq!(e.evaluate(ExecutionOutcome::Crash, &cov, Some(1)), Verdict::Corpus);
    assert_eq!(e.evaluate(ExecutionOutcome::Crash, &cov, Some(2)), Verdict::Solution);
    assert_eq!(e.evaluate(ExecutionOutcome::Normal, &cov, Some(3)), Verdict::Discard);
    assert_eq!(e.evaluate(ExecutionOutcome::Crash, &cov, Some(3)), Verdict::Solution);
}

#[test]
fn corpus_add_get_count() {
    let mut c = Corpus::new(2, false);
    assert!(c.is_empty());
    assert_eq!(c.first(), Err(CorpusError::EmptyCorpus));
    assert!(matches!(c.get(0), Err(CorpusError::NotFound)));
    assert_eq!(c.add(tc(b"a", &[1, 0])), 0);
    assert_eq!(c.add(tc(b"b", &[1, 1])), 1);
    assert_eq!(c.add(tc(b"a", &[1, 0])), 2);
    assert_eq!(c.count(), 3);
    assert!(!c.is_empty());
    assert_eq!(c.first(), Ok(0));
    assert_eq!(c.get(1).unwrap().bytes, b"b".to_vec());
    assert!(matches!(c.get(3), Err(CorpusError::NotFound)));
}

#[test]
fn corpus_suppresses_duplicates_when_asked() {
    let mut c = Corpus::new(2, true);
    assert_eq!(c.add(tc(b"a", &[1, 0])), 0);
    assert_eq!(c.add(tc(b"b", &[1, 1])), 1);
    assert_eq!(c.add(tc(b"a", &[1, 0])), 0);
    assert_eq!(c.add(tc(b"b", &[1, 1])), 1);
    assert_eq!(c.add(tc(b"", &[1, 1])), 2);
    assert_eq!(c.add(tc(b"", &[1, 1])), 2);
    assert_eq!(c.count(), 3);
}

#[test]
fn queue_visits_every_id_once_per_round() {
    let mut q = QueueScheduler::new();
    assert_eq!(q.next(0), Err(CorpusError::EmptyCorpus));
    let mut seen = Vec::new();
    for _ in 0..5 {
        seen.push(q.next(5).unwrap());
    }
    assert_eq!(seen, vec![0, 1, 2, 3, 4]);
    for round in 0..3 {
        for id in 0..5 {
            assert_eq!(q.next(5).unwrap(), id, "round {round}");
        }
    }
}

#[test]
fn queue_follows_a_growing_corpus() {
    let mut q = QueueScheduler::new();
    assert_eq!(q.next(1), Ok(0));
    assert_eq!(q.next(1), Ok(0));
    assert_eq!(q.next(3), Ok(1));
    assert_eq!(q.next(3), Ok(2));
    assert_eq!(q.next(3), Ok(0));
}
