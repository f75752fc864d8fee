//! The cpuset controller: at startup every task still in the root cpuset is
//! moved into the invoker's own cpuset.

use vstd::prelude::*;
use vstd::string::StringExecFns;

use crate::strutil::{int_literal_val, is_int_literal, parse_i32, str_eq_str};

verus! {

/// Whether a `/proc` entry names a task that does not yet belong to any
/// cpuset: its name is a decimal process id and its cpuset is the root.
pub open spec fn unclassified(name: Seq<char>, cpuset: Seq<char>) -> bool {
    is_int_literal(name) && i32::MIN <= int_literal_val(name) <= i32::MAX && cpuset == "/\n"@
}

/// The process id a `/proc` entry names.
pub open spec fn entry_pid(name: Seq<char>) -> i32 {
    int_literal_val(name) as i32
}

/// The ids of the unclassified tasks among the entries, in order.
pub open spec fn unclassified_pids(entries: Seq<(String, String)>) -> Seq<i32>
    decreases entries.len(),
{
    if entries.len() == 0 {
        Seq::<i32>::empty()
    } else {
        (if unclassified(entries.first().0@, entries.first().1@) {
            seq![entry_pid(entries.first().0@)]
        } else {
            Seq::<i32>::empty()
        }) + unclassified_pids(entries.drop_first())
    }
}

pub proof fn lemma_unclassified_pids_push(entries: Seq<(String, String)>, e: (String, String))
    ensures
        unclassified_pids(entries.push(e)) == unclassified_pids(entries) + (if unclassified(
            e.0@,
            e.1@,
        ) {
            seq![entry_pid(e.0@)]
        } else {
            Seq::<i32>::empty()
        }),
    decreases entries.len(),
{
    if entries.len() == 0 {
        assert(entries.push(e).drop_first() =~= Seq::<(String, String)>::empty());
        assert(entries.push(e).first() == e);
        assert(unclassified_pids(Seq::<(String, String)>::empty()) == Seq::<i32>::empty());
        assert(unclassified_pids(entries) == Seq::<i32>::empty());
        assert(unclassified_pids(entries.push(e)) =~= unclassified_pids(entries) + (
        if unclassified(e.0@, e.1@) {
            seq![entry_pid(e.0@)]
        } else {
            Seq::<i32>::empty()
        }));
    } else {
        assert(entries.push(e).first() == entries.first());
        assert(entries.push(e).drop_first() =~= entries.drop_first().push(e));
        lemma_unclassified_pids_push(entries.drop_first(), e);
        assert(unclassified_pids(entries.push(e)) =~= unclassified_pids(entries) + (
        if unclassified(e.0@, e.1@) {
            seq![entry_pid(e.0@)]
        } else {
            Seq::<i32>::empty()
        }));
    }
}

/// Scan the `/proc` entries, given as (name, cpuset contents) pairs, and
/// collect the ids of every task whose cpuset is still the root.  Entries
/// with another cpuset, and entries that are no task at all, contribute
/// nothing.
pub fn cpuset_migration_pids(entries: &Vec<(String, String)>) -> (pids: Vec<i32>)
    ensures
        pids@ == unclassified_pids(entries@),
{
    let mut pids: Vec<i32> = Vec::new();
    let mut i: usize = 0;
    while i < entries.len()
        invariant
            i <= entries@.len(),
            pids@ == unclassified_pids(entries@.take(i as int)),
        decreases entries@.len() - i,
    {
        proof {
            lemma_unclassified_pids_push(entries@.take(i as int), entries@[i as int]);
            assert(entries@.take(i + 1) =~= entries@.take(i as int).push(entries@[i as int]));
        }
        let name = &entries[i].0;
        let cpuset = &entries[i].1;
        match parse_i32(name.as_str()) {
            Some(pid) => {
                if str_eq_str(cpuset.as_str(), "/\n") {
                    pids.push(pid);
                    proof {
                        assert(pids@ =~= unclassified_pids(entries@.take(i + 1)));
                    }
                } else {
                    proof {
                        assert(pids@ =~= unclassified_pids(entries@.take(i + 1)));
                    }
                }
            },
            None => {
                proof {
                    assert(pids@ =~= unclassified_pids(entries@.take(i + 1)));
                }
            },
        }
        i = i + 1;
    }
    proof {
        assert(entries@.take(entries@.len() as int) =~= entries@);
    }
    pids
}

/// Every unclassified task is moved, and only unclassified tasks are: the
/// collected ids are exactly those of entries whose cpuset was the root.
pub proof fn lemma_cpuset_scan_exact(entries: Seq<(String, String)>)
    ensures
        forall|i: int|
            0 <= i < entries.len() && unclassified(#[trigger] entries[i].0@, entries[i].1@)
                ==> unclassified_pids(entries).contains(entry_pid(entries[i].0@)),
        forall|p: i32|
            unclassified_pids(entries).contains(p) ==> exists|i: int|
                0 <= i < entries.len() && unclassified(#[trigger] entries[i].0@, entries[i].1@)
                    && entry_pid(entries[i].0@) == p,
    decreases entries.len(),
{
    if entries.len() > 0 {
        let t = entries.drop_first();
        lemma_cpuset_scan_exact(t);
        let head = if unclassified(entries.first().0@, entries.first().1@) {
            seq![entry_pid(entries.first().0@)]
        } else {
            Seq::<i32>::empty()
        };
        assert(unclassified_pids(entries) == head + unclassified_pids(t));
        assert forall|i: int|
            0 <= i < entries.len() && unclassified(#[trigger] entries[i].0@, entries[i].1@)
            implies unclassified_pids(entries).contains(entry_pid(entries[i].0@)) by {
            if i == 0 {
                assert(unclassified_pids(entries)[0] == entry_pid(entries[0].0@));
            } else {
                assert(t[i - 1] == entries[i]);
                assert(unclassified_pids(t).contains(entry_pid(entries[i].0@)));
                let j = choose|j: int|
                    0 <= j < unclassified_pids(t).len() && unclassified_pids(t)[j] == entry_pid(
                        entries[i].0@,
                    );
                assert(unclassified_pids(entries)[head.len() + j] == entry_pid(entries[i].0@));
            }
        }
        assert forall|p: i32| unclassified_pids(entries).contains(p) implies exists|i: int|
            0 <= i < entries.len() && unclassified(#[trigger] entries[i].0@, entries[i].1@)
                && entry_pid(entries[i].0@) == p by {
            let j = choose|j: int|
                0 <= j < unclassified_pids(entries).len() && unclassified_pids(entries)[j] == p;
            if j < head.len() {
                assert(unclassified(entries[0].0@, entries[0].1@) && entry_pid(entries[0].0@)
                    == p);
            } else {
                assert(unclassified_pids(t)[j - head.len()] == p);
                assert(unclassified_pids(t).contains(p));
                let i = choose|i: int|
                    0 <= i < t.len() && unclassified(#[trigger] t[i].0@, t[i].1@) && entry_pid(
                        t[i].0@,
                    ) == p;
                assert(entries[i + 1] == t[i]);
                assert(unclassified(entries[i + 1].0@, entries[i + 1].1@) && entry_pid(
                    entries[i + 1].0@,
                ) == p);
            }
        }
    }
}

/// The contents written to the cpuset's `tasks` file: each id in decimal on
/// its own line.
pub open spec fn tasks_content(pids: Seq<i32>) -> Seq<char>
    decreases pids.len(),
{
    if pids.len() == 0 {
        Seq::<char>::empty()
    } else {
        crate::strutil::dec_i32(pids.first()) + seq!['\n'] + tasks_content(pids.drop_first())
    }
}

pub proof fn lemma_tasks_content_push(pids: Seq<i32>, p: i32)
    ensures
        tasks_content(pids.push(p)) == tasks_content(pids) + crate::strutil::dec_i32(p) + seq![
            '\n',
        ],
    decreases pids.len(),
{
    if pids.len() == 0 {
        assert(pids.push(p).drop_first() =~= Seq::<i32>::empty());
        assert(pids.push(p).first() == p);
        assert(tasks_content(Seq::<i32>::empty()) == Seq::<char>::empty());
        assert(tasks_content(pids) == Seq::<char>::empty());
        assert(tasks_content(pids.push(p)) =~= tasks_content(pids) + crate::strutil::dec_i32(p)
            + seq!['\n']);
    } else {
        assert(pids.push(p).first() == pids.first());
        assert(pids.push(p).drop_first() =~= pids.drop_first().push(p));
        lemma_tasks_content_push(pids.drop_first(), p);
        assert(tasks_content(pids.push(p)) =~= tasks_content(pids) + crate::strutil::dec_i32(p)
            + seq!['\n']);
    }
}

/// Render the `tasks` file contents for a list of ids.
pub fn tasks_file_content(pids: &Vec<i32>) -> (r: String)
    ensures
        r@ == tasks_content(pids@),
{
    proof {
        reveal_strlit("\n");
    }
    let mut r = String::new();
    let mut i: usize = 0;
    while i < pids.len()
        invariant
            i <= pids@.len(),
            r@ == tasks_content(pids@.take(i as int)),
        decreases pids@.len() - i,
    {
        proof {
            lemma_tasks_content_push(pids@.take(i as int), pids@[i as int]);
            assert(pids@.take(i + 1) =~= pids@.take(i as int).push(pids@[i as int]));
            reveal_strlit("\n");
        }
        let num = crate::strutil::i32_to_dec(pids[i]);
        r.append(num.as_str());
        r.append("\n");
        proof {
            assert(r@ =~= tasks_content(pids@.take(i + 1)));
        }
        i = i + 1;
    }
    proof {
        assert(pids@.take(pids@.len() as int) =~= pids@);
    }
    r
}

/// The path of the invoker's root cpuset.
pub fn cpuset_root_dir() -> (r: &'static str)
    ensures
        r@ == "/sys/fs/cgroup/cpuset/sunwalker_root"@,
{
    "/sys/fs/cgroup/cpuset/sunwalker_root"
}

/// The path of the root cpuset's `tasks` file.
pub fn cpuset_tasks_path() -> (r: &'static str)
    ensures
        r@ == "/sys/fs/cgroup/cpuset/sunwalker_root/tasks"@,
{
    "/sys/fs/cgroup/cpuset/sunwalker_root/tasks"
}

} // verus!
