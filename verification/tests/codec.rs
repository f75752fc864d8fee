use sunwalker_invoker::builtins::WireFd;
use sunwalker_invoker::codec::{CodecError, Deserializer, Object, Serializer};
use sunwalker_invoker::errors::Error;
use sunwalker_invoker::problem::{DependencyGraph, InstantiatedDependencyGraph};
use sunwalker_invoker::program::Program;
use sunwalker_invoker::submission::{Command, W2IMessage};
use sunwalker_invoker::verdict::{ExitStatus, InvocationStat, TestJudgementResult, TestVerdict};

fn encode<T: Object>(v: &T) -> (Vec<u8>, Vec<i32>) {
    let mut s = Serializer::new();
    s.serialize(v);
    let fds = s.drain_fds();
    (s.into_vec(), fds)
}

fn decode<T: Object>(bytes: Vec<u8>, fds: Vec<i32>) -> Result<T, CodecError> {
    let mut d = Deserializer::from(bytes, fds);
    d.deserialize()
}

#[test]
fn round_trip_i64() {
    let v: i64 = 0x123456789abcdef;
    let (bytes, fds) = encode(&v);
    assert_eq!(bytes.len(), 8);
    assert!(fds.is_empty());
    assert_eq!(decode::<i64>(bytes, fds), Ok(0x123456789abcdef));
}

#[test]
fn round_trip_negative_i32() {
    let v: i32 = -12345;
    let (bytes, fds) = encode(&v);
    assert_eq!(decode::<i32>(bytes, fds), Ok(-12345));
}

#[test]
fn round_trip_pair_sum() {
    let v: (i32, i32) = (5, 7);
    let (bytes, fds) = encode(&v);
    let (x, y): (i32, i32) = decode(bytes, fds).unwrap();
    assert_eq!(x + y, 12);
}

#[test]
fn round_trip_string() {
    let v = String::from("hello");
    let (bytes, fds) = encode(&v);
    assert_eq!(decode::<String>(bytes, fds), Ok(String::from("hello")));
}

#[test]
fn round_trip_unicode_string() {
    let v = String::from("caf\u{e9} \u{1F600}");
    let (bytes, fds) = encode(&v);
    assert_eq!(decode::<String>(bytes, fds), Ok(v));
}

#[test]
fn round_trip_vec_u64() {
    let v: Vec<u64> = vec![1, 5, 7, 0xffff_ffff_ffff_ffff];
    let (bytes, fds) = encode(&v);
    assert_eq!(decode::<Vec<u64>>(bytes, fds), Ok(vec![1, 5, 7, 0xffff_ffff_ffff_ffff]));
}

#[test]
fn round_trip_bool_char() {
    let (bytes, fds) = encode(&true);
    assert_eq!(decode::<bool>(bytes, fds), Ok(true));
    let (bytes, fds) = encode(&'\u{1F600}');
    assert_eq!(decode::<char>(bytes, fds), Ok('\u{1F600}'));
}

#[test]
fn fd_order_preserved() {
    let v = vec![WireFd { fd: 10 }, WireFd { fd: 20 }, WireFd { fd: 30 }];
    let (bytes, fds) = encode(&v);
    assert_eq!(fds, vec![10, 20, 30]);
    let out: Vec<WireFd> = decode(bytes, fds).unwrap();
    assert_eq!(out, vec![WireFd { fd: 10 }, WireFd { fd: 20 }, WireFd { fd: 30 }]);
}

#[test]
fn short_read_is_fatal() {
    let r: Result<i64, CodecError> = decode(vec![1, 2, 3], Vec::new());
    assert_eq!(r, Err(CodecError::ShortRead));
}

#[test]
fn missing_fd_is_fatal() {
    let (bytes, _) = encode(&WireFd { fd: 7 });
    let r: Result<WireFd, CodecError> = decode(bytes, Vec::new());
    assert_eq!(r, Err(CodecError::MissingFd));
}

#[test]
fn invalid_bool_is_fatal() {
    let r: Result<bool, CodecError> = decode(vec![7], Vec::new());
    assert_eq!(r, Err(CodecError::InvalidValue));
}

#[test]
fn round_trip_exit_status() {
    let (bytes, fds) = encode(&ExitStatus::Signal(9));
    assert_eq!(decode::<ExitStatus>(bytes, fds), Ok(ExitStatus::Signal(9)));
    let (bytes, fds) = encode(&ExitStatus::ExitCode(1));
    assert_eq!(decode::<ExitStatus>(bytes, fds), Ok(ExitStatus::ExitCode(1)));
}

#[test]
fn round_trip_command() {
    let (bytes, fds) = encode(&Command::Compile(String::from("judge-17")));
    match decode::<Command>(bytes, fds).unwrap() {
        Command::Compile(b) => assert_eq!(b, "judge-17"),
        _ => panic!("wrong variant"),
    }
    let (bytes, fds) = encode(&Command::Test(vec![3, 1, 4]));
    match decode::<Command>(bytes, fds).unwrap() {
        Command::Test(ts) => assert_eq!(ts, vec![3, 1, 4]),
        _ => panic!("wrong variant"),
    }
    let (bytes, fds) = encode(&Command::Finalize);
    assert!(matches!(decode::<Command>(bytes, fds).unwrap(), Command::Finalize));
}

#[test]
fn unknown_variant_is_fatal() {
    let mut s = Serializer::new();
    s.write_u64(99);
    let bytes = s.into_vec();
    let r: Result<Command, CodecError> = decode(bytes, Vec::new());
    match r {
        Err(e) => assert_eq!(e, CodecError::UnknownVariant),
        Ok(_) => panic!("expected a codec error"),
    }
}

#[test]
fn round_trip_test_verdict() {
    let (bytes, fds) = encode(&TestVerdict::Accepted);
    assert!(matches!(decode::<TestVerdict>(bytes, fds).unwrap(), TestVerdict::Accepted));

    let (bytes, fds) = encode(&TestVerdict::PartialSolution(5000));
    match decode::<TestVerdict>(bytes, fds).unwrap() {
        TestVerdict::PartialSolution(p) => assert_eq!(p, 5000),
        _ => panic!("wrong variant"),
    }

    let (bytes, fds) = encode(&TestVerdict::Bug(String::from("boom")));
    match decode::<TestVerdict>(bytes, fds).unwrap() {
        TestVerdict::Bug(m) => assert_eq!(m, "boom"),
        _ => panic!("wrong variant"),
    }

    let (bytes, fds) = encode(&TestVerdict::RuntimeError(ExitStatus::Signal(11)));
    match decode::<TestVerdict>(bytes, fds).unwrap() {
        TestVerdict::RuntimeError(e) => assert_eq!(e, ExitStatus::Signal(11)),
        _ => panic!("wrong variant"),
    }
}

#[test]
fn nested_containers_round_trip() {
    let v: Vec<String> = vec![String::from("a"), String::new(), String::from("bc")];
    let (bytes, fds) = encode(&v);
    assert_eq!(decode::<Vec<String>>(bytes, fds), Ok(vec![
        String::from("a"),
        String::new(),
        String::from("bc"),
    ]));
}

#[test]
fn round_trip_program() {
    let p = Program {
        package: String::from("gcc"),
        prerequisites: vec![String::from("prog")],
        argv: vec![String::from("./prog"), String::from("--fast")],
        artifacts_path: String::from("/cache/judge-1/artifacts"),
    };
    let (bytes, fds) = encode(&p);
    let q: Program = decode(bytes, fds).unwrap();
    assert_eq!(q.package, "gcc");
    assert_eq!(q.prerequisites, vec![String::from("prog")]);
    assert_eq!(q.argv, vec![String::from("./prog"), String::from("--fast")]);
    assert_eq!(q.artifacts_path, "/cache/judge-1/artifacts");
}

#[test]
fn round_trip_judgement_result() {
    let j = TestJudgementResult {
        verdict: TestVerdict::PartialSolution(2500),
        logs: vec![(String::from("checker"), vec![1u8, 2, 3])],
        invocation_stats: vec![(
            String::from("solution"),
            InvocationStat {
                real_time: 1_000_000,
                cpu_time: 900_000,
                user_time: 800_000,
                sys_time: 100_000,
                memory: 65536,
            },
        )],
    };
    let (bytes, fds) = encode(&j);
    let out: TestJudgementResult = decode(bytes, fds).unwrap();
    assert!(matches!(out.verdict, TestVerdict::PartialSolution(2500)));
    assert_eq!(out.logs[0].0, "checker");
    assert_eq!(out.logs[0].1, vec![1, 2, 3]);
    assert_eq!(out.invocation_stats[0].1.memory, 65536);
}

#[test]
fn round_trip_worker_message() {
    let msg = W2IMessage::CompilationResult(
        Program {
            package: String::from("gcc"),
            prerequisites: Vec::new(),
            argv: vec![String::from("./prog")],
            artifacts_path: String::from("/cache/a"),
        },
        String::from("built fine"),
    );
    let (bytes, fds) = encode(&msg);
    match decode::<W2IMessage>(bytes, fds).unwrap() {
        W2IMessage::CompilationResult(p, log) => {
            assert_eq!(p.package, "gcc");
            assert_eq!(log, "built fine");
        }
        _ => panic!("wrong variant"),
    }
    let (bytes, fds) = encode(&W2IMessage::Failure(Error::NoValue));
    match decode::<W2IMessage>(bytes, fds).unwrap() {
        W2IMessage::Failure(Error::NoValue) => {}
        _ => panic!("wrong variant"),
    }
}

#[test]
fn round_trip_dependency_graph() {
    let mut g = DependencyGraph { dependents_of: vec![(1, vec![2, 3]), (2, vec![4])] }
        .instantiate();
    g.fail_test(2);
    let (bytes, fds) = encode(&g);
    let out: InstantiatedDependencyGraph = decode(bytes, fds).unwrap();
    assert_eq!(out.graph.dependents_of, vec![(1, vec![2, 3]), (2, vec![4])]);
    assert!(!out.is_test_enabled(2));
    assert!(!out.is_test_enabled(4));
    assert!(out.is_test_enabled(1));
}
