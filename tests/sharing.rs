use baby_fuzzers::backend::{EmulatorVerdict, SessionError, SessionPhase, SnapshotSession, StopReason};
use baby_fuzzers::corpus::{Corpus, CorpusError, Testcase};
use baby_fuzzers::feedback::{ObjectivePolicy, Verdict};
use baby_fuzzers::fuzzer::Fuzzer;
use baby_fuzzers::scheduler::favored;
use baby_fuzzers::session::Session;
use baby_fuzzers::share::{decode, encode};
use baby_fuzzers::target::{ExecutionOutcome, MagicTarget};

fn tc(bytes: &[u8], cov: &[u8], exec_time: u64) -> Testcase {
    Testcase { bytes: bytes.to_vec(), coverage: cov.to_vec(), exec_time, solution: false }
}

#[test]
fn favored_prefers_unique_cheap_coverage() {
    let mut c = Corpus::new(4, false);
    assert_eq!(favored(&c), Err(CorpusError::EmptyCorpus));
    c.add(tc(b"a", &[1, 1, 0, 0], 10));
    c.add(tc(b"b", &[1, 0, 1, 1], 10));
    c.add(tc(b"c", &[1, 0, 0, 0], 1));
    // a covers index 1 alone (1 per 10), b covers 2 and 3 alone (2 per 10), c none
    assert_eq!(favored(&c), Ok(1));
    c.add(tc(b"d", &[0, 0, 0, 0], 0));
    assert_eq!(favored(&c), Ok(1));
}

#[test]
fn favored_breaks_ties_by_insertion() {
    let mut c = Corpus::new(3, false);
    c.add(tc(b"a", &[1, 0, 0], 4));
    c.add(tc(b"b", &[0, 1, 0], 4));
    c.add(tc(b"c", &[0, 0, 1], 2));
    assert_eq!(favored(&c), Ok(2));
    let mut c = Corpus::new(3, false);
    c.add(tc(b"a", &[1, 0, 0], 4));
    c.add(tc(b"b", &[0, 1, 0], 4));
    assert_eq!(favored(&c), Ok(0));
    let mut c = Corpus::new(2, false);
    c.add(tc(b"a", &[1, 0], 0));
    c.add(tc(b"b", &[0, 1], 1));
    assert_eq!(favored(&c), Ok(0));
}

#[test]
fn shared_form_round_trips() {
    let t = Testcase { bytes: b"MATT!".to_vec(), coverage: vec![1, 1, 1, 1, 0], exec_time: 0x0102_0304_0506_0708, solution: true };
    let bytes = encode(&t);
    assert_eq!(bytes.len(), 4 + 5 + 4 + 5 + 8 + 1);
    assert_eq!(&bytes[0..4], &[5, 0, 0, 0]);
    assert_eq!(&bytes[18..26], &[8, 7, 6, 5, 4, 3, 2, 1]);
    assert_eq!(bytes[26], 1);
    let back = decode(&bytes).unwrap();
    assert_eq!(back.bytes, t.bytes);
    assert_eq!(back.coverage, t.coverage);
    assert_eq!(back.exec_time, t.exec_time);
    assert!(back.solution);
    let empty = Testcase { bytes: vec![], coverage: vec![], exec_time: 0, solution: false };
    let e = encode(&empty);
    assert_eq!(e, vec![0u8; 17]);
    let back = decode(&e).unwrap();
    assert!(back.bytes.is_empty() && back.coverage.is_empty() && !back.solution);
}

#[test]
fn malformed_shared_forms_are_refused() {
    let t = tc(b"abc", &[1, 0], 9);
    let good = encode(&t);
    assert!(decode(&good[..good.len() - 1]).is_none());
    let mut longer = good.clone();
    longer.push(0);
    assert!(decode(&longer).is_none());
    let mut bad_flag = good.clone();
    let last = bad_flag.len() - 1;
    bad_flag[last] = 2;
    assert!(decode(&bad_flag).is_none());
    assert!(decode(&[]).is_none());
    assert!(decode(&[255, 255, 255, 255, 0, 0]).is_none());
}

#[test]
fn imported_cases_are_evaluated() {
    let mut f = Fuzzer::new(MagicTarget::new(b"MATT".to_vec()), 8, ObjectivePolicy::Crash, 3, false, 4, 64);
    assert_eq!(f.import(&[1, 2, 3]), None);
    assert_eq!(f.executions(), 0);
    let shared = encode(&tc(b"MAxx", &[1, 1, 1, 0, 0, 0, 0, 0], 5));
    assert_eq!(f.import(&shared), Some(Verdict::Corpus));
    assert_eq!(f.import(&shared), Some(Verdict::Discard));
    let crash = encode(&tc(b"MATT", &[0; 8], 5));
    assert_eq!(f.import(&crash), Some(Verdict::Solution));
    assert_eq!(f.corpus().count(), 1);
    assert_eq!(f.solutions().count(), 1);
}

#[test]
fn snapshot_session_protocol() {
    let mut s = SnapshotSession::new(0x2000, 4);
    assert_eq!(s.begin_run(b"x"), Err(SessionError::OutOfOrder));
    assert_eq!(s.booted(StopReason::Breakpoint), Ok(()));
    assert_eq!(s.booted(StopReason::Breakpoint), Err(SessionError::OutOfOrder));
    assert_eq!(s.begin_run(b"abcdefgh"), Ok(b"abcd".to_vec()));
    assert_eq!(s.begin_run(b"x"), Err(SessionError::OutOfOrder));
    assert_eq!(
        s.end_run(StopReason::Breakpoint, &[Some(0x2002)]),
        Ok(EmulatorVerdict::Outcome(ExecutionOutcome::Normal))
    );
    assert_eq!(s.begin_run(b"x"), Err(SessionError::OutOfOrder));
    assert_eq!(s.restored(), Ok(()));
    assert_eq!(s.begin_run(b"xy"), Ok(b"xy".to_vec()));
    assert_eq!(
        s.end_run(StopReason::Breakpoint, &[Some(0x10)]),
        Ok(EmulatorVerdict::Outcome(ExecutionOutcome::Crash))
    );
    assert_eq!(s.restored(), Ok(()));
    assert_eq!(s.begin_run(b""), Ok(vec![]));
    assert_eq!(s.end_run(StopReason::HostShutdown, &[]), Ok(EmulatorVerdict::Shutdown));
    assert_eq!(s.restored(), Err(SessionError::OutOfOrder));
    assert_eq!(s.begin_run(b"x"), Err(SessionError::OutOfOrder));
    let _ = SessionPhase::Closed;
}

#[test]
fn failed_boot_closes_the_session() {
    let mut s = SnapshotSession::new(0x2000, 4);
    assert_eq!(s.booted(StopReason::Timeout), Err(SessionError::BootFailed));
    assert_eq!(s.begin_run(b"x"), Err(SessionError::OutOfOrder));
}

#[test]
fn session_reports_runs_made_elsewhere() {
    let mut s = Session::new(4, ObjectivePolicy::NewSignatureCrash, 9, false, 4, 64);
    assert_eq!(s.next_candidate(), Err(CorpusError::EmptyCorpus));
    assert_eq!(s.favored_candidate(), Err(CorpusError::EmptyCorpus));
    let cov = vec![1u8, 0, 0, 0];
    assert_eq!(s.report(b"seed".to_vec(), ExecutionOutcome::Normal, &cov, None, 3), Verdict::Corpus);
    assert_eq!(s.report(b"boom".to_vec(), ExecutionOutcome::Crash, &cov, Some(42), 3), Verdict::Solution);
    // the same signature again is no new solution
    assert_eq!(s.report(b"boom2".to_vec(), ExecutionOutcome::Crash, &cov, Some(42), 3), Verdict::Discard);
    assert_eq!(s.report(b"bang".to_vec(), ExecutionOutcome::Crash, &cov, Some(7), 3), Verdict::Solution);
    // a crash without a signature is never new
    assert_eq!(s.report(b"x".to_vec(), ExecutionOutcome::Crash, &vec![1, 1, 0, 0], None, 3), Verdict::Corpus);
    assert_eq!(s.executions(), 5);
    assert_eq!(s.corpus().count(), 2);
    assert_eq!(s.solutions().count(), 2);
    assert_eq!(s.solutions().get(1).unwrap().bytes, b"bang".to_vec());
    assert_eq!(s.coverage_len(), 4);
    for _ in 0..50 {
        let c = s.next_candidate().unwrap();
        assert!(c.len() <= 64);
        let f = s.favored_candidate().unwrap();
        assert!(f.len() <= 64);
    }
    assert_eq!(s.executions(), 5);
}

#[test]
fn fresh_generation_keeps_an_input() {
    for seed in 0..20u64 {
        let mut f = Fuzzer::new(MagicTarget::new(b"MATT".to_vec()), 8, ObjectivePolicy::Crash, seed, true, 4, 64);
        f.generate_initial_inputs(3, 16);
        assert_eq!(f.executions(), 3);
        assert!(f.corpus().count() + f.solutions().count() > 0);
        for id in 0..f.corpus().count() {
            let b = &f.corpus().get(id).unwrap().bytes;
            assert!(!b.is_empty() && b.len() <= 16);
        }
    }
}

#[test]
fn session_state_round_trips() {
    let mut s = Session::new(4, ObjectivePolicy::NewSignatureCrash, 77, true, 4, 64);
    s.report(b"seed".to_vec(), ExecutionOutcome::Normal, &vec![1, 0, 0, 0], None, 3);
    s.report(b"boom".to_vec(), ExecutionOutcome::Crash, &vec![1, 1, 0, 0], Some(5), 4);
    let _ = s.next_candidate().unwrap();
    let st = s.save();
    assert_eq!(st.cursor, Some(0));
    assert_eq!(st.executions, 2);
    assert_eq!(st.history, vec![1, 0, 0, 0]);
    assert_eq!(st.crash_history, vec![1, 1, 0, 0]);
    assert_eq!(st.signatures, vec![5]);
    assert_eq!(st.seed, 77);
    assert!(st.draws > 0);
    let mut t = Session::load(st).unwrap();
    assert_eq!(t.executions(), 2);
    assert_eq!(t.corpus().count(), 1);
    assert_eq!(t.solutions().get(0).unwrap().bytes, b"boom".to_vec());
    // the resumed stream continues where the saved one stood
    for _ in 0..20 {
        assert_eq!(s.next_candidate(), t.next_candidate());
    }
    assert_eq!(t.report(b"boom".to_vec(), ExecutionOutcome::Crash, &vec![1, 1, 1, 0], Some(5), 4), Verdict::Corpus);
}

#[test]
fn inconsistent_session_states_are_refused() {
    let s = Session::new(4, ObjectivePolicy::Crash, 1, true, 4, 64);
    let mut st = s.save();
    st.history = vec![0; 3];
    assert!(Session::load(st).is_none());
    let mut st = s.save();
    st.max_stack = 0;
    assert!(Session::load(st).is_none());
    let mut st = s.save();
    st.corpus = vec![tc(b"a", &[1, 0, 0, 0], 1), tc(b"a", &[1, 0, 0, 0], 1)];
    assert!(Session::load(st).is_none());
    let mut st = s.save();
    st.corpus = vec![tc(b"a", &[1, 0, 0], 1)];
    assert!(Session::load(st).is_none());
    let mut st = s.save();
    st.dedup = false;
    st.corpus = vec![tc(b"a", &[1, 0, 0, 0], 1), tc(b"a", &[1, 0, 0, 0], 1)];
    assert!(Session::load(st).is_some());
}
