use shake_lab::candidate::candidate;
use shake_lab::generator::CandidateGenerator;
use shake_lab::preimage::run_challenge_c;
use shake_lab::preimage::PASSWORD_SCHEME;
use shake_lab::search::run_worker;
use shake_lab::search::turn;
use shake_lab::search::Finding;
use shake_lab::search::WorkerExit;
use shake_lab::search::WORKERS;
use shake_lab::second_preimage::run_challenge_b;
use shake_lab::second_preimage::CANDIDATE_SCHEME;
use shake_lab::second_preimage::TARGET_INPUT;
use shake_lab::signal::SearchSignal;
use shake_lab::target::hash_matches;
use shake_lab::target::Target;
use shake_lab::xof::shake128_4bytes;
use shake_lab::xof::shake128_5bytes;

fn sample_finding() -> Finding {
    Finding {
        ordinal: 12,
        candidate: b"password_12".to_vec(),
        digest: vec![0x79, 0x45, 0x52, 0x69, 0x41],
        attempts: 99,
    }
}

#[test]
fn scenario_constants() {
    assert_eq!(WORKERS, 8);
    assert_eq!(&CANDIDATE_SCHEME[..], b"candidate_");
    assert_eq!(&PASSWORD_SCHEME[..], b"password_");
    assert_eq!(&TARGET_INPUT[..], "Aluno: Rubens Rabelo Soares".as_bytes());
}

#[test]
fn fresh_signal_is_unset_and_counts_nothing() {
    let signal = SearchSignal::new();
    assert!(!signal.is_set());
    assert_eq!(signal.attempts(), 0);
}

#[test]
fn only_the_first_test_and_set_finds_the_flag_unset() {
    let signal = SearchSignal::new();
    assert!(!signal.test_and_set());
    assert!(signal.is_set());
    assert!(signal.test_and_set());
    assert!(signal.test_and_set());
    assert!(signal.is_set());
}

#[test]
fn attempts_are_counted_one_by_one() {
    let signal = SearchSignal::new();
    signal.count_attempt();
    signal.count_attempt();
    signal.count_attempt();
    assert_eq!(signal.attempts(), 3);
}

#[test]
fn the_worker_that_finds_the_flag_unset_reports() {
    match WorkerExit::after_test_and_set(false, sample_finding()) {
        WorkerExit::Reported(finding) => {
            assert_eq!(finding.ordinal, 12);
            assert_eq!(finding.candidate, b"password_12".to_vec());
            assert_eq!(finding.digest, vec![0x79, 0x45, 0x52, 0x69, 0x41]);
            assert_eq!(finding.attempts, 99);
        }
        _ => panic!("the worker that finds the flag unset reports"),
    }
}

#[test]
fn a_worker_that_finds_the_flag_set_is_outrun() {
    match WorkerExit::after_test_and_set(true, sample_finding()) {
        WorkerExit::Outrun { ordinal } => assert_eq!(ordinal, 12),
        _ => panic!("a worker that finds the flag set does not report"),
    }
}

#[test]
fn simulated_workers_with_an_early_match_report_once() {
    let signal = SearchSignal::new();
    let mut reports = 0;
    for _ in 0..WORKERS {
        let previous = signal.test_and_set();
        if let WorkerExit::Reported(_) = WorkerExit::after_test_and_set(previous, sample_finding()) {
            reports += 1;
        }
    }
    assert_eq!(reports, 1);
}

#[test]
fn worker_stops_when_the_flag_is_set() {
    let signal = SearchSignal::new();
    assert!(!signal.test_and_set());
    let exit = run_challenge_b(&signal, 0, 1000);
    assert!(matches!(exit, WorkerExit::Cancelled));
    let exit = run_challenge_c(&signal, 7, 1000);
    assert!(matches!(exit, WorkerExit::Cancelled));
    assert_eq!(signal.attempts(), 0);
}

#[test]
fn second_preimage_worker_exhausts_a_small_range() {
    let signal = SearchSignal::new();
    let exit = run_challenge_b(&signal, 0, 50);
    assert!(matches!(exit, WorkerExit::Exhausted));
    assert_eq!(signal.attempts(), 7);
    assert!(!signal.is_set());
    let target = shake128_4bytes(&TARGET_INPUT);
    for ordinal in [0u64, 8, 16, 24, 32, 40, 48] {
        assert_ne!(shake128_4bytes(&candidate(b"candidate_", ordinal)), target);
    }
}

#[test]
fn partial_preimage_worker_exhausts_a_small_range() {
    let signal = SearchSignal::new();
    let exit = run_challenge_c(&signal, 3, 100);
    assert!(matches!(exit, WorkerExit::Exhausted));
    assert_eq!(signal.attempts(), 13);
    assert!(!signal.is_set());
    let mut ordinal = 3u64;
    while ordinal < 100 {
        assert!(!hash_matches(&shake128_5bytes(&candidate(b"password_", ordinal))));
        ordinal += 8;
    }
}

#[test]
fn workers_with_nothing_below_the_limit_hash_nothing() {
    let signal = SearchSignal::new();
    assert!(matches!(run_challenge_b(&signal, 5, 5), WorkerExit::Exhausted));
    assert!(matches!(run_challenge_c(&signal, 0, 0), WorkerExit::Exhausted));
    assert_eq!(signal.attempts(), 0);
}

#[test]
fn the_original_input_is_skipped_and_not_counted() {
    let signal = SearchSignal::new();
    let target = Target::second_preimage(b"candidate_5");
    let exit = run_worker(&signal, &target, b"candidate_", 0, 1, 10);
    assert!(matches!(exit, WorkerExit::Exhausted));
    assert_eq!(signal.attempts(), 9);
    assert!(!signal.is_set());
}

#[test]
fn partial_preimage_worker_reports_the_first_match_of_its_share() {
    let digest = shake128_5bytes(b"password_1234");
    let target = Target::PartialPreimage {
        prefix: [digest[0], digest[1], digest[2], digest[3]],
        extra_bits: 2,
        extra_value: digest[4] >> 6,
    };
    let signal = SearchSignal::new();
    match run_worker(&signal, &target, b"password_", 1234 % 8, 8, 5000) {
        WorkerExit::Reported(finding) => {
            assert_eq!(finding.ordinal, 1234);
            assert_eq!(finding.candidate, b"password_1234".to_vec());
            assert_eq!(finding.digest, digest.to_vec());
            assert_eq!(finding.attempts, 1234 / 8 + 1);
        }
        _ => panic!("the worker owns a matching ordinal"),
    }
    assert!(signal.is_set());
    assert_eq!(signal.attempts(), 1234 / 8 + 1);
    let other = SearchSignal::new();
    assert!(matches!(run_worker(&other, &target, b"password_", 3, 8, 5000), WorkerExit::Exhausted));
    assert!(!other.is_set());
}

#[test]
fn the_limit_is_exclusive() {
    let digest = shake128_5bytes(b"password_40");
    let target = Target::PartialPreimage {
        prefix: [digest[0], digest[1], digest[2], digest[3]],
        extra_bits: 8,
        extra_value: digest[4],
    };
    let below = SearchSignal::new();
    assert!(matches!(run_worker(&below, &target, b"password_", 0, 8, 40), WorkerExit::Exhausted));
    assert_eq!(below.attempts(), 5);
    let reached = SearchSignal::new();
    match run_worker(&reached, &target, b"password_", 0, 8, 41) {
        WorkerExit::Reported(finding) => assert_eq!(finding.ordinal, 40),
        _ => panic!("ordinal 40 lies below the limit"),
    }
    assert_eq!(reached.attempts(), 6);
}

#[test]
fn second_preimage_worker_finds_the_other_input_of_a_collision() {
    assert_eq!(shake128_4bytes(b"candidate_8031"), shake128_4bytes(b"candidate_98251"));
    let target = Target::second_preimage(b"candidate_98251");
    let signal = SearchSignal::new();
    match run_worker(&signal, &target, b"candidate_", 8031 % 8, 8, 98252) {
        WorkerExit::Reported(finding) => {
            assert_eq!(finding.ordinal, 8031);
            assert_eq!(finding.candidate, b"candidate_8031".to_vec());
            assert_ne!(finding.candidate, b"candidate_98251".to_vec());
            assert_eq!(finding.digest, shake128_4bytes(b"candidate_98251").to_vec());
            assert_eq!(finding.attempts, 8031 / 8 + 1);
        }
        _ => panic!("candidate_8031 is a second preimage of candidate_98251"),
    }
    assert!(signal.is_set());
}

#[test]
fn second_preimage_worker_never_reports_the_input_itself() {
    assert_eq!(shake128_4bytes(b"candidate_8031"), shake128_4bytes(b"candidate_98251"));
    let target = Target::second_preimage(b"candidate_8031");
    let signal = SearchSignal::new();
    let exit = run_worker(&signal, &target, b"candidate_", 8031 % 8, 8, 9000);
    assert!(matches!(exit, WorkerExit::Exhausted));
    assert_eq!(signal.attempts(), 9000 / 8 - 1);
    assert!(!signal.is_set());
}

#[test]
fn workers_on_one_signal_report_once() {
    let digest = shake128_5bytes(b"password_1234");
    let target = Target::PartialPreimage {
        prefix: [digest[0], digest[1], digest[2], digest[3]],
        extra_bits: 8,
        extra_value: digest[4],
    };
    let signal = SearchSignal::new();
    let mut reported = 0;
    let mut exhausted = 0;
    let mut cancelled = 0;
    for worker in 0..WORKERS {
        match run_worker(&signal, &target, b"password_", worker, WORKERS, 5000) {
            WorkerExit::Reported(finding) => {
                assert_eq!(worker, 1234 % 8);
                assert_eq!(finding.ordinal, 1234);
                reported += 1;
            }
            WorkerExit::Exhausted => {
                assert!(worker < 1234 % 8);
                exhausted += 1;
            }
            WorkerExit::Cancelled => {
                assert!(worker > 1234 % 8);
                cancelled += 1;
            }
            WorkerExit::Outrun { .. } => panic!("only one candidate matches"),
        }
    }
    assert_eq!(reported, 1);
    assert_eq!(exhausted, 2);
    assert_eq!(cancelled, 5);
}

#[test]
fn a_turn_follows_the_poll_and_the_candidate() {
    let digest = shake128_5bytes(b"password_11");
    let target = Target::PartialPreimage {
        prefix: [digest[0], digest[1], digest[2], digest[3]],
        extra_bits: 8,
        extra_value: digest[4],
    };
    let signal = SearchSignal::new();
    let mut generator = CandidateGenerator::new(b"password_", 3, 8, 12);
    assert!(matches!(turn(&signal, &target, &mut generator, true), Some(WorkerExit::Cancelled)));
    assert_eq!(signal.attempts(), 0);
    assert!(turn(&signal, &target, &mut generator, false).is_none());
    assert_eq!(signal.attempts(), 1);
    assert!(!signal.is_set());
    match turn(&signal, &target, &mut generator, false) {
        Some(WorkerExit::Reported(finding)) => {
            assert_eq!(finding.ordinal, 11);
            assert_eq!(finding.candidate, b"password_11".to_vec());
            assert_eq!(finding.digest, digest.to_vec());
            assert_eq!(finding.attempts, 2);
        }
        _ => panic!("ordinal 11 matches and the flag was unset"),
    }
    assert!(signal.is_set());
    assert!(matches!(turn(&signal, &target, &mut generator, false), Some(WorkerExit::Exhausted)));
}

#[test]
fn a_turn_on_a_match_with_the_flag_set_is_outrun() {
    let digest = shake128_5bytes(b"password_3");
    let target = Target::PartialPreimage {
        prefix: [digest[0], digest[1], digest[2], digest[3]],
        extra_bits: 8,
        extra_value: digest[4],
    };
    let signal = SearchSignal::new();
    assert!(!signal.test_and_set());
    let mut generator = CandidateGenerator::new(b"password_", 3, 8, 12);
    match turn(&signal, &target, &mut generator, false) {
        Some(WorkerExit::Outrun { ordinal }) => assert_eq!(ordinal, 3),
        _ => panic!("the flag was set before the match"),
    }
    assert_eq!(signal.attempts(), 1);
}
