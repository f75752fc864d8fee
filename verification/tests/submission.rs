use sunwalker_invoker::errors::Error;
use sunwalker_invoker::problem::{DependencyGraph, ProblemRevision};
use sunwalker_invoker::program::{prerequisite_bound_files, CachedProgram, Program};
use sunwalker_invoker::submission::{
    combine_finalize_errors, submission_root, Command, Submission, W2IMessage,
};
use sunwalker_invoker::verdict::TestVerdict;

fn demo_submission() -> Submission {
    Submission::new(
        String::from("42"),
        ProblemRevision {
            dependency_graph: DependencyGraph { dependents_of: vec![(1, vec![2])] },
            strategy_root: String::from("/cache/problem"),
        },
        String::from("c++"),
        Vec::new(),
    )
}

fn demo_program() -> Program {
    Program {
        package: String::from("gcc"),
        prerequisites: vec![String::from("prog")],
        argv: vec![String::from("./prog")],
        artifacts_path: String::from("/cache/judge-42/artifacts"),
    }
}

#[test]
fn submission_paths() {
    assert_eq!(submission_root("42"), "/tmp/sunwalker_invoker/submissions/42");
    let mut s = demo_submission();
    let path = s.add_source_file("main.cpp");
    assert_eq!(path, "/tmp/sunwalker_invoker/submissions/42/main.cpp");
    assert_eq!(s.source_files, vec![path]);
}

#[test]
fn compile_then_judge() {
    let mut s = demo_submission();
    let (cmd, n) = s.compile_command().ok().unwrap();
    match cmd {
        Command::Compile(b) => assert_eq!(b, "judge-42"),
        _ => panic!("expected a compile command"),
    }
    assert_eq!(n, 1);

    match s.test_command(&vec![1, 2]) {
        Err(Error::ConductorFailure(m)) => {
            assert_eq!(m, "Cannot judge submission before the program is built")
        }
        _ => panic!("expected a conductor failure"),
    }

    let log = s
        .accept_compile_response(Some(W2IMessage::CompilationResult(
            demo_program(),
            String::from("warnings: none"),
        )))
        .ok()
        .unwrap();
    assert_eq!(log, "warnings: none");

    match s.compile_command() {
        Err(Error::ConductorFailure(m)) => assert_eq!(m, "The submission is already compiled"),
        _ => panic!("expected a conductor failure"),
    }

    let (cmd, n) = s.test_command(&vec![7, 8, 9]).ok().unwrap();
    match cmd {
        Command::Test(ts) => assert_eq!(ts, vec![7, 8, 9]),
        _ => panic!("expected a test command"),
    }
    assert_eq!(n, 3);
}

#[test]
fn unexpected_compile_response_is_an_invoker_failure() {
    let mut s = demo_submission();
    match s.accept_compile_response(None) {
        Err(Error::InvokerFailure(m)) => {
            assert_eq!(m, "Unexpected response to compilation request")
        }
        _ => panic!("expected an invoker failure"),
    }
    assert!(s.program.is_none());
}

#[test]
fn failed_worker_yields_a_bug_verdict() {
    let (test, result) = Submission::pair_test_result(
        5,
        W2IMessage::Failure(Error::InvokerFailure(String::from("lost"))),
    );
    assert_eq!(test, 5);
    assert!(matches!(result.verdict, TestVerdict::Bug(_)));
}

#[test]
fn batch_failure_disables_dependents() {
    let mut s = demo_submission();
    s.add_failed_tests(&vec![1]);
    assert!(!s.instantiated_dependency_graph.is_test_enabled(1));
    assert!(!s.instantiated_dependency_graph.is_test_enabled(2));
}

#[test]
fn finalize_outcomes() {
    assert!(combine_finalize_errors(&Vec::new()).is_ok());
    match combine_finalize_errors(&vec![Error::NoValue, Error::ChildFailed(String::new())]) {
        Err(Error::InvokerFailure(m)) => {
            assert_eq!(m, "Failed to finalize submission: no value returned, child failed")
        }
        _ => panic!("expected an invoker failure"),
    }
    let mut s = demo_submission();
    assert!(s.take_program().is_none());
}

#[test]
fn worker_slots() {
    let mut s = demo_submission();
    assert!(s.worker_for_core(3));
    assert!(!s.worker_for_core(3));
    assert!(s.worker_for_core(4));
    assert_eq!(s.workers, vec![3, 4]);
}

#[test]
fn cached_program_validation() {
    let cached = CachedProgram {
        package: String::from("gcc"),
        prerequisites: vec![String::from("prog")],
        argv: vec![String::from("./prog")],
    };
    let p = Program::from_cached_program(cached, "/cache/p", &vec![true], true).ok().unwrap();
    assert_eq!(p.artifacts_path, "/cache/p/artifacts");

    let cached = CachedProgram {
        package: String::from("gcc"),
        prerequisites: vec![String::from("prog")],
        argv: Vec::new(),
    };
    assert!(Program::from_cached_program(cached, "/cache/p", &vec![false], true).is_err());
}

#[test]
fn bound_files_for_prerequisites() {
    let bf = prerequisite_bound_files(
        &vec![String::from("prog"), String::from("data.txt")],
        "/cache/p/artifacts",
    );
    assert_eq!(bf, vec![
        (String::from("/cache/p/artifacts/prog"), String::from("/space/prog")),
        (String::from("/cache/p/artifacts/data.txt"), String::from("/space/data.txt")),
    ]);
}
