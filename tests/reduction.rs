use baby_fuzzers::backend::{classify_child, classify_stop, injected_bytes, ChildStatus, EmulatorVerdict, StopReason};
use baby_fuzzers::executor::InProcessExecutor;
use baby_fuzzers::minimizer::{minimize, remove_chunk, Preserve};
use baby_fuzzers::target::{ExecutionOutcome, MagicTarget};

fn exec() -> InProcessExecutor {
    InProcessExecutor::new(MagicTarget::new(b"MATT".to_vec()), 8)
}

#[test]
fn minimizing_a_crash_converges_to_the_magic_word() {
    let mut e = exec();
    // the target crashes only on inputs that start with the magic word, so
    // this input is no solution and there is nothing to minimize
    assert_eq!(e.run(b"XXXXMATTXXXX"), ExecutionOutcome::Normal);
    assert!(minimize(&mut e, b"XXXXMATTXXXX", Preserve::Crash, 1 << 10, 100_000).is_none());
    let (best, converged) = minimize(&mut e, b"MATTXXXXMATTXXXX", Preserve::Crash, 1 << 10, 100_000).unwrap();
    assert_eq!(best, b"MATT".to_vec());
    assert!(converged);
    assert_eq!(e.run(&best), ExecutionOutcome::Crash);
}

#[test]
fn minimizing_twice_changes_nothing() {
    let mut e = exec();
    let (first, converged) = minimize(&mut e, b"MATTcdMATTab", Preserve::Crash, 16, 100_000).unwrap();
    assert!(converged);
    let (second, again) = minimize(&mut e, &first, Preserve::Crash, 16, 100_000).unwrap();
    assert_eq!(second, first);
    assert!(again);
}

#[test]
fn minimizer_never_grows_and_keeps_the_crash_on_a_small_budget() {
    let mut e = exec();
    let input = b"MATT0123456789xyz";
    for budget in 0..40 {
        let (best, _) = minimize(&mut e, input, Preserve::Crash, 1024, budget).unwrap();
        assert!(best.len() <= input.len());
        assert_eq!(e.run(&best), ExecutionOutcome::Crash);
    }
    let (best, converged) = minimize(&mut e, input, Preserve::Crash, 1024, 0).unwrap();
    assert_eq!(best, input.to_vec());
    assert!(!converged);
}

#[test]
fn a_budget_past_the_bound_always_converges() {
    let mut e = exec();
    // twelve bytes and chunk sizes 1024, 512, ..., 1: eleven sizes
    let bound = 13 * 13 * 11;
    for input in [&b"MATTXXXXMATT"[..], b"MATTMATTMATT", b"MATT00000000"] {
        let (best, converged) = minimize(&mut e, input, Preserve::Crash, 1024, bound + 1).unwrap();
        assert!(converged);
        assert_eq!(best, b"MATT".to_vec());
    }
}

#[test]
fn minimizer_refuses_an_input_without_the_property() {
    let mut e = exec();
    assert!(minimize(&mut e, b"MATX", Preserve::Crash, 8, 100).is_none());
}

#[test]
fn minimizing_by_coverage_keeps_the_coverage() {
    let mut e = exec();
    e.run(b"zzMAzz");
    let before = e.observe();
    let (best, converged) = minimize(&mut e, b"zzMAzz", Preserve::Coverage, 8, 10_000).unwrap();
    assert!(converged);
    e.run(&best);
    assert_eq!(e.observe(), before);
    assert_eq!(best, Vec::<u8>::new());
    e.run(b"MAxyz");
    let before = e.observe();
    let (best, _) = minimize(&mut e, b"MAxyz", Preserve::Coverage, 8, 10_000).unwrap();
    assert_eq!(best, b"MA".to_vec());
    e.run(&best);
    assert_eq!(e.observe(), before);
}

#[test]
fn chunk_removal() {
    assert_eq!(remove_chunk(b"abcdef", 1, 2), b"adef".to_vec());
    assert_eq!(remove_chunk(b"abcdef", 0, 6), Vec::<u8>::new());
    assert_eq!(remove_chunk(b"abc", 3, 0), b"abc".to_vec());
}

#[test]
fn forked_child_outcomes() {
    assert_eq!(classify_child(ChildStatus::Exited(0)), ExecutionOutcome::Normal);
    assert_eq!(classify_child(ChildStatus::Exited(1)), ExecutionOutcome::Normal);
    assert_eq!(classify_child(ChildStatus::Exited(128 + 11)), ExecutionOutcome::Crash);
    assert_eq!(classify_child(ChildStatus::Exited(128 + 14)), ExecutionOutcome::Timeout);
    assert_eq!(classify_child(ChildStatus::Exited(160)), ExecutionOutcome::Normal);
    assert_eq!(classify_child(ChildStatus::Signaled(11)), ExecutionOutcome::Crash);
    assert_eq!(classify_child(ChildStatus::Signaled(6)), ExecutionOutcome::Crash);
    assert_eq!(classify_child(ChildStatus::Signaled(14)), ExecutionOutcome::Timeout);
    assert_eq!(classify_child(ChildStatus::Signaled(12)), ExecutionOutcome::Timeout);
    assert_eq!(classify_child(ChildStatus::TimedOut), ExecutionOutcome::Timeout);
}

#[test]
fn emulator_stops() {
    let exit = 0x1000u32;
    assert_eq!(
        classify_stop(StopReason::Breakpoint, &[Some(0x1000)], exit),
        EmulatorVerdict::Outcome(ExecutionOutcome::Normal)
    );
    assert_eq!(
        classify_stop(StopReason::Breakpoint, &[Some(0x20), Some(0x1004)], exit),
        EmulatorVerdict::Outcome(ExecutionOutcome::Normal)
    );
    assert_eq!(
        classify_stop(StopReason::Breakpoint, &[Some(0x1005)], exit),
        EmulatorVerdict::Outcome(ExecutionOutcome::Crash)
    );
    assert_eq!(
        classify_stop(StopReason::Breakpoint, &[None, Some(0xfff)], exit),
        EmulatorVerdict::Outcome(ExecutionOutcome::Crash)
    );
    assert_eq!(
        classify_stop(StopReason::Breakpoint, &[None], 0),
        EmulatorVerdict::Outcome(ExecutionOutcome::Normal)
    );
    assert_eq!(
        classify_stop(StopReason::Breakpoint, &[], exit),
        EmulatorVerdict::Outcome(ExecutionOutcome::Crash)
    );
    assert_eq!(
        classify_stop(StopReason::Timeout, &[Some(0x1000)], exit),
        EmulatorVerdict::Outcome(ExecutionOutcome::Timeout)
    );
    assert_eq!(classify_stop(StopReason::HostShutdown, &[], exit), EmulatorVerdict::Shutdown);
    assert_eq!(
        classify_stop(StopReason::UnexpectedExit, &[], exit),
        EmulatorVerdict::Outcome(ExecutionOutcome::Crash)
    );
    assert_eq!(classify_stop(StopReason::Other, &[], exit), EmulatorVerdict::Fatal);
}

#[test]
fn injected_input_is_cut_to_the_buffer() {
    let long = vec![7u8; 80];
    assert_eq!(injected_bytes(&long, 50), vec![7u8; 50]);
    assert_eq!(injected_bytes(b"abc", 50), b"abc".to_vec());
    assert_eq!(injected_bytes(b"", 50), Vec::<u8>::new());
}
