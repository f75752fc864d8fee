use sunwalker_invoker::cgroups::{cpuset_migration_pids, tasks_file_content};
use sunwalker_invoker::problem::DependencyGraph;

fn demo_graph() -> DependencyGraph {
    DependencyGraph {
        dependents_of: vec![(1, vec![2, 3]), (2, vec![4]), (5, vec![6])],
    }
}

#[test]
fn failing_a_test_disables_its_dependents_transitively() {
    let mut g = demo_graph().instantiate();
    assert!(g.is_test_enabled(1));
    g.fail_test(1);
    assert!(!g.is_test_enabled(1));
    assert!(!g.is_test_enabled(2));
    assert!(!g.is_test_enabled(3));
    assert!(!g.is_test_enabled(4));
    assert!(g.is_test_enabled(5));
    assert!(g.is_test_enabled(6));
}

#[test]
fn failing_twice_changes_nothing_more() {
    let mut g = demo_graph().instantiate();
    g.fail_test(1);
    let before = g.disabled_tests.len();
    g.fail_test(1);
    assert_eq!(g.disabled_tests.len(), before);
}

#[test]
fn failing_a_leaf_disables_only_it() {
    let mut g = demo_graph().instantiate();
    g.fail_test(4);
    assert!(!g.is_test_enabled(4));
    assert!(g.is_test_enabled(1));
    assert!(g.is_test_enabled(2));
}

#[test]
fn propagation_stops_at_already_disabled_tests() {
    let mut g = demo_graph().instantiate();
    g.fail_test(2);
    assert!(!g.is_test_enabled(2) && !g.is_test_enabled(4));
    g.fail_test(1);
    assert!(!g.is_test_enabled(1) && !g.is_test_enabled(3));
}

#[test]
fn cyclic_graphs_terminate() {
    let mut g = DependencyGraph { dependents_of: vec![(1, vec![2]), (2, vec![1])] }.instantiate();
    g.fail_test(1);
    assert!(!g.is_test_enabled(1));
    assert!(!g.is_test_enabled(2));
}

#[test]
fn cpuset_scan_picks_exactly_the_unclassified_tasks() {
    let entries = vec![
        (String::from("123"), String::from("/\n")),
        (String::from("acpi"), String::from("/\n")),
        (String::from("456"), String::from("/workers\n")),
        (String::from("789"), String::from("/\n")),
    ];
    let pids = cpuset_migration_pids(&entries);
    assert_eq!(pids, vec![123, 789]);
    assert_eq!(tasks_file_content(&pids), "123\n789\n");
}

#[test]
fn cpuset_scan_of_nothing_moves_nothing() {
    let pids = cpuset_migration_pids(&Vec::new());
    assert!(pids.is_empty());
    assert_eq!(tasks_file_content(&pids), "");
}
