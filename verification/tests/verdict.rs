use sunwalker_invoker::verdict::{parse_points_scaled, ExitStatus, TestVerdict};

#[test]
fn exit_codes_map_to_verdicts() {
    assert!(matches!(
        TestVerdict::from_testlib(ExitStatus::ExitCode(0), b""),
        TestVerdict::Accepted
    ));
    assert!(matches!(
        TestVerdict::from_testlib(ExitStatus::ExitCode(1), b""),
        TestVerdict::WrongAnswer
    ));
    assert!(matches!(
        TestVerdict::from_testlib(ExitStatus::ExitCode(2), b""),
        TestVerdict::PresentationError
    ));
    assert!(matches!(
        TestVerdict::from_testlib(ExitStatus::ExitCode(3), b""),
        TestVerdict::CheckerFailed
    ));
    assert!(matches!(
        TestVerdict::from_testlib(ExitStatus::ExitCode(4), b""),
        TestVerdict::PresentationError
    ));
    assert!(matches!(
        TestVerdict::from_testlib(ExitStatus::ExitCode(8), b""),
        TestVerdict::PresentationError
    ));
}

#[test]
fn unknown_code_is_a_bug() {
    match TestVerdict::from_testlib(ExitStatus::ExitCode(42), b"") {
        TestVerdict::Bug(m) => assert_eq!(m, "Unknown testlib exit code: 42"),
        _ => panic!("expected a bug verdict"),
    }
}

#[test]
fn signal_is_a_bug() {
    match TestVerdict::from_testlib(ExitStatus::Signal(9), b"") {
        TestVerdict::Bug(m) => assert_eq!(m, "Testlib terminated by signal 9"),
        _ => panic!("expected a bug verdict"),
    }
}

#[test]
fn points_parse_to_ten_thousandths() {
    match TestVerdict::from_testlib(ExitStatus::ExitCode(7), b"points 0.5") {
        TestVerdict::PartialSolution(p) => assert_eq!(p, 5000),
        _ => panic!("expected a partial solution"),
    }
    match TestVerdict::from_testlib(ExitStatus::ExitCode(7), b"points 1") {
        TestVerdict::PartialSolution(p) => assert_eq!(p, 10000),
        _ => panic!("expected a partial solution"),
    }
    match TestVerdict::from_testlib(ExitStatus::ExitCode(7), b"points 12.3456 extra") {
        TestVerdict::PartialSolution(p) => assert_eq!(p, 123456),
        _ => panic!("expected a partial solution"),
    }
}

#[test]
fn fifth_fraction_digit_rounds_half_up() {
    match TestVerdict::from_testlib(ExitStatus::ExitCode(7), b"points 0.12345") {
        TestVerdict::PartialSolution(p) => assert_eq!(p, 1235),
        _ => panic!("expected a partial solution"),
    }
    match TestVerdict::from_testlib(ExitStatus::ExitCode(7), b"points 0.12344") {
        TestVerdict::PartialSolution(p) => assert_eq!(p, 1234),
        _ => panic!("expected a partial solution"),
    }
}

#[test]
fn negative_points_clamp_to_zero() {
    match TestVerdict::from_testlib(ExitStatus::ExitCode(7), b"points -0.5") {
        TestVerdict::PartialSolution(p) => assert_eq!(p, 0),
        _ => panic!("expected a partial solution"),
    }
}

#[test]
fn missing_prefix_is_a_bug() {
    match TestVerdict::from_testlib(ExitStatus::ExitCode(7), b"score 1") {
        TestVerdict::Bug(m) => {
            assert_eq!(m, "Testlib exit code is 7 (PT), but stderr does not start with 'points '")
        }
        _ => panic!("expected a bug verdict"),
    }
}

#[test]
fn malformed_points_are_a_bug() {
    assert!(matches!(
        TestVerdict::from_testlib(ExitStatus::ExitCode(7), b"points abc"),
        TestVerdict::Bug(_)
    ));
    assert!(matches!(
        TestVerdict::from_testlib(ExitStatus::ExitCode(7), b"points "),
        TestVerdict::Bug(_)
    ));
    assert!(matches!(
        TestVerdict::from_testlib(ExitStatus::ExitCode(7), b"points 1.2.3"),
        TestVerdict::Bug(_)
    ));
}

#[test]
fn oversized_points_saturate() {
    assert_eq!(
        parse_points_scaled("99999999999999999999999"),
        Some(u64::MAX)
    );
    assert_eq!(parse_points_scaled("+0.00005"), Some(1));
    assert_eq!(parse_points_scaled(""), None);
    assert_eq!(parse_points_scaled("."), None);
}

#[test]
fn short_strings() {
    assert_eq!(TestVerdict::Accepted.to_short_string(), "AC");
    assert_eq!(TestVerdict::WrongAnswer.to_short_string(), "WA");
    assert_eq!(TestVerdict::InQueue.to_short_string(), "PD");
    assert_eq!(TestVerdict::Bug(String::from("x")).to_short_string(), "CF");
    assert_eq!(TestVerdict::CheckerFailed.to_short_string(), "FL");
    assert_eq!(
        TestVerdict::RuntimeError(ExitStatus::Signal(9)).to_short_string(),
        "RE"
    );
}

#[test]
fn partial_solution_renders_trimmed_decimal() {
    assert_eq!(TestVerdict::PartialSolution(5000).to_short_string(), "PT 0.5");
    assert_eq!(TestVerdict::PartialSolution(120000).to_short_string(), "PT 12");
    assert_eq!(TestVerdict::PartialSolution(1).to_short_string(), "PT 0.0001");
    assert_eq!(TestVerdict::PartialSolution(123456).to_short_string(), "PT 12.3456");
    assert_eq!(TestVerdict::PartialSolution(0).to_short_string(), "PT 0");
}

#[test]
fn successful_verdicts() {
    assert!(TestVerdict::Accepted.is_successful());
    assert!(TestVerdict::PartialSolution(1).is_successful());
    assert!(!TestVerdict::WrongAnswer.is_successful());
    assert!(!TestVerdict::Ignored.is_successful());
    assert!(!TestVerdict::Bug(String::from("x")).is_successful());
}

#[test]
fn exit_status_from_parts() {
    assert_eq!(ExitStatus::from_parts(Some(11), 0), ExitStatus::Signal(11));
    assert_eq!(ExitStatus::from_parts(None, 1), ExitStatus::ExitCode(1));
}
