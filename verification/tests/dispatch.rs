use sunwalker_invoker::errors::Error;
use sunwalker_invoker::imp::{dispatch, Dispatch, Report};
use sunwalker_invoker::subprocess::{join_outcome, sentinel_argv};

fn argv(items: &[&str]) -> Vec<String> {
    items.iter().map(|s| String::from(*s)).collect()
}

#[test]
fn sentinel_with_valid_fds_runs_child() {
    let r = dispatch(&argv(&["_multiprocessing_", "3", "4", "5"]));
    assert_eq!(r, Dispatch::Child { entry_rx_fd: 3, input_rx_fd: 4, output_tx_fd: 5 });
}

#[test]
fn ordinary_argv_runs_main() {
    assert_eq!(dispatch(&argv(&["invoker", "serve"])), Dispatch::RunMain);
    assert_eq!(dispatch(&Vec::new()), Dispatch::RunMain);
}

#[test]
fn sentinel_with_bad_fds_is_rejected() {
    assert_eq!(
        dispatch(&argv(&["_multiprocessing_", "x", "4", "5"])),
        Dispatch::BadSentinelArgs
    );
    assert_eq!(dispatch(&argv(&["_multiprocessing_", "3"])), Dispatch::BadSentinelArgs);
    assert_eq!(
        dispatch(&argv(&["_multiprocessing_", "3", "4", "99999999999"])),
        Dispatch::BadSentinelArgs
    );
}

#[test]
fn spawn_argv_round_trips_through_dispatch() {
    let args = sentinel_argv(7, 8, 9);
    assert_eq!(args.len(), 4);
    assert_eq!(args[0], "_multiprocessing_");
    assert_eq!(args[1], "7");
    assert_eq!(
        dispatch(&args),
        Dispatch::Child { entry_rx_fd: 7, input_rx_fd: 8, output_tx_fd: 9 }
    );
}

#[test]
fn join_returns_the_value_on_success() {
    assert_eq!(join_outcome::<i32>(true, Some(12)).ok(), Some(12));
    let big: i64 = 0x123456789abcdef;
    assert_eq!(join_outcome::<i64>(true, Some(big)).ok(), Some(big));
}

#[test]
fn join_without_value_is_no_value() {
    match join_outcome::<i32>(true, None) {
        Err(Error::NoValue) => {}
        _ => panic!("expected no-value"),
    }
}

#[test]
fn join_after_failed_exit_is_child_failed() {
    match join_outcome(false, Some(12i32)) {
        Err(Error::ChildFailed(m)) => {
            assert_eq!(m, "The subprocess did not terminate successfully")
        }
        _ => panic!("expected child-failed"),
    }
}

#[test]
fn report_codes() {
    assert_eq!(().report(), 0);
    let ok: Result<u32, String> = Ok(5);
    let err: Result<u32, String> = Err(String::from("gone"));
    assert_eq!(ok.report(), 0);
    assert_eq!(err.report(), 1);
}
