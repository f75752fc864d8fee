//! The test dependency graph: failing a test disables every test that
//! depends on it, transitively.

use vstd::prelude::*;

verus! {

/// The dependency graph of a problem: for each test, the tests that depend
/// on it.
pub struct DependencyGraph {
    pub dependents_of: Vec<(u64, Vec<u64>)>,
}

/// A dependency graph in use: the graph, and the set of disabled tests.
pub struct InstantiatedDependencyGraph {
    pub graph: DependencyGraph,
    pub disabled_tests: Vec<u64>,
}

/// A problem revision: the dependency graph, and where the judging strategy
/// was loaded from.
pub struct ProblemRevision {
    pub dependency_graph: DependencyGraph,
    pub strategy_root: String,
}

/// The dependents of a test: the first matching entry, or nothing.
pub open spec fn deps_of(g: Seq<(u64, Vec<u64>)>, t: u64) -> Seq<u64>
    decreases g.len(),
{
    if g.len() == 0 {
        Seq::<u64>::empty()
    } else if g[0].0 == t {
        g[0].1@
    } else {
        deps_of(g.skip(1), t)
    }
}

/// A dependency path of length at most `k` from `from` to `to` that touches
/// no blocked test.
pub open spec fn fresh_path(g: Seq<(u64, Vec<u64>)>, blocked: Seq<u64>, from: u64, to: u64, k: nat) -> bool
    decreases k,
{
    if blocked.contains(from) {
        false
    } else if from == to {
        true
    } else if k == 0 {
        false
    } else {
        exists|c: u64|
            #[trigger] deps_of(g, from).contains(c) && fresh_path(g, blocked, c, to, (k - 1) as nat)
    }
}

/// Whether `to` depends on `from`, along a path that avoids every blocked
/// test.
pub open spec fn reaches(g: Seq<(u64, Vec<u64>)>, blocked: Seq<u64>, from: u64, to: u64) -> bool {
    exists|k: nat| fresh_path(g, blocked, from, to, k)
}

/// A path may be extended by one dependency step.
pub proof fn lemma_path_extend(
    g: Seq<(u64, Vec<u64>)>,
    blocked: Seq<u64>,
    a: u64,
    b: u64,
    k: nat,
    c: u64,
)
    requires
        fresh_path(g, blocked, a, b, k),
        deps_of(g, b).contains(c),
        !blocked.contains(c),
    ensures
        fresh_path(g, blocked, a, c, (k + 1) as nat),
    decreases k,
{
    if a == b {
        if a != c {
            assert(fresh_path(g, blocked, c, c, k));
            assert(deps_of(g, a).contains(c));
        }
    } else {
        let c1 = choose|c1: u64|
            #[trigger] deps_of(g, a).contains(c1) && fresh_path(g, blocked, c1, b, (k - 1) as nat);
        lemma_path_extend(g, blocked, c1, b, (k - 1) as nat, c);
        assert(deps_of(g, a).contains(c1) && fresh_path(g, blocked, c1, c, k));
    }
}

/// One dependency step preserves reachability.
pub proof fn lemma_reach_step(g: Seq<(u64, Vec<u64>)>, blocked: Seq<u64>, a: u64, b: u64, c: u64)
    requires
        reaches(g, blocked, a, b),
        deps_of(g, b).contains(c),
        !blocked.contains(c),
    ensures
        reaches(g, blocked, a, c),
{
    let k = choose|k: nat| fresh_path(g, blocked, a, b, k);
    lemma_path_extend(g, blocked, a, b, k, c);
}

/// In a set that contains the start and is closed under fresh dependency
/// steps, every freshly reachable test is a member.
pub proof fn lemma_reach_complete(
    g: Seq<(u64, Vec<u64>)>,
    blocked: Seq<u64>,
    s: Seq<u64>,
    from: u64,
    u: u64,
    k: nat,
)
    requires
        fresh_path(g, blocked, from, u, k),
        s.contains(from),
        forall|i: int, c: u64|
            0 <= i < s.len() && !blocked.contains(s[i]) && #[trigger] deps_of(g, s[i]).contains(c)
                && !blocked.contains(c) ==> s.contains(c),
    ensures
        s.contains(u),
    decreases k,
{
    if from != u {
        let c = choose|c: u64|
            #[trigger] deps_of(g, from).contains(c) && fresh_path(g, blocked, c, u, (k - 1) as nat);
        assert(!blocked.contains(c));
        let i = choose|i: int| 0 <= i < s.len() && s[i] == from;
        assert(deps_of(g, s[i]).contains(c));
        assert(s.contains(c));
        lemma_reach_complete(g, blocked, s, c, u, (k - 1) as nat);
    }
}

/// All dependents mentioned anywhere in the graph, in declaration order.
pub open spec fn flat_deps(g: Seq<(u64, Vec<u64>)>) -> Seq<u64>
    decreases g.len(),
{
    if g.len() == 0 {
        Seq::<u64>::empty()
    } else {
        g[0].1@ + flat_deps(g.skip(1))
    }
}

/// Every dependent of any test occurs in the flattened dependent list.
pub proof fn lemma_deps_sub(g: Seq<(u64, Vec<u64>)>, t: u64, c: u64)
    requires
        deps_of(g, t).contains(c),
    ensures
        flat_deps(g).contains(c),
    decreases g.len(),
{
    if g.len() > 0 {
        if g[0].0 == t {
            let j = choose|j: int| 0 <= j < g[0].1@.len() && g[0].1@[j] == c;
            assert(flat_deps(g)[j] == c);
        } else {
            lemma_deps_sub(g.skip(1), t, c);
            let j = choose|j: int|
                0 <= j < flat_deps(g.skip(1)).len() && flat_deps(g.skip(1))[j] == c;
            assert(flat_deps(g)[g[0].1@.len() + j] == c);
        }
    }
}

/// The candidate pool a failure propagation draws from: the failed test and
/// every dependent mentioned in the graph.
pub open spec fn cand_list(g: Seq<(u64, Vec<u64>)>, test: u64) -> Seq<u64> {
    seq![test] + flat_deps(g)
}

/// How many candidates are not yet disabled: the termination measure of the
/// propagation.
pub open spec fn count_not_in(cand: Seq<u64>, dis: Seq<u64>) -> nat
    decreases cand.len(),
{
    if cand.len() == 0 {
        0nat
    } else {
        (if dis.contains(cand[0]) {
            0nat
        } else {
            1nat
        }) + count_not_in(cand.skip(1), dis)
    }
}

/// Disabling one more test never raises the measure.
pub proof fn lemma_count_not_in_mono(cand: Seq<u64>, dis: Seq<u64>, t: u64)
    ensures
        count_not_in(cand, dis.push(t)) <= count_not_in(cand, dis),
    decreases cand.len(),
{
    if cand.len() > 0 {
        if dis.contains(cand[0]) {
            let j = choose|j: int| 0 <= j < dis.len() && dis[j] == cand[0];
            assert(dis.push(t)[j] == cand[0]);
            assert(dis.push(t).contains(cand[0]));
        }
        lemma_count_not_in_mono(cand.skip(1), dis, t);
    }
}

/// Disabling a candidate that was not yet disabled lowers the measure.
pub proof fn lemma_count_not_in_dec(cand: Seq<u64>, dis: Seq<u64>, t: u64)
    requires
        cand.contains(t),
        !dis.contains(t),
    ensures
        count_not_in(cand, dis.push(t)) < count_not_in(cand, dis),
    decreases cand.len(),
{
    if cand[0] == t {
        assert(dis.push(t)[dis.len() as int] == t);
        assert(dis.push(t).contains(t));
        lemma_count_not_in_mono(cand.skip(1), dis, t);
    } else {
        if dis.contains(cand[0]) {
            let j = choose|j: int| 0 <= j < dis.len() && dis[j] == cand[0];
            assert(dis.push(t)[j] == cand[0]);
            assert(dis.push(t).contains(cand[0]));
        } else {
            assert forall|j: int| 0 <= j < dis.push(t).len() implies dis.push(t)[j] != cand[0] by {
                if j < dis.len() {
                    assert(dis.push(t)[j] == dis[j]);
                }
            }
            assert(!dis.push(t).contains(cand[0]));
        }
        let j = choose|j: int| 0 <= j < cand.len() && cand[j] == t;
        assert(cand.skip(1)[j - 1] == t);
        assert(cand.skip(1).contains(t));
        lemma_count_not_in_dec(cand.skip(1), dis, t);
    }
}

/// Whether a test id occurs in a list.
pub fn vec_contains_u64(v: &Vec<u64>, x: u64) -> (r: bool)
    ensures
        r <==> v@.contains(x),
{
    let mut i: usize = 0;
    while i < v.len()
        invariant
            i <= v@.len(),
            forall|j: int| 0 <= j < i ==> v@[j] != x,
        decreases v@.len() - i,
    {
        if v[i] == x {
            return true;
        }
        i = i + 1;
    }
    false
}

/// Look up the dependents of a test; the first matching entry wins.
pub fn deps_get<'x>(list: &'x Vec<(u64, Vec<u64>)>, key: u64) -> (r: Option<&'x Vec<u64>>)
    ensures
        r matches Some(v) ==> v@ == deps_of(list@, key),
        r is None ==> deps_of(list@, key) == Seq::<u64>::empty(),
{
    let mut i: usize = 0;
    proof {
        assert(list@.skip(0int) =~= list@);
    }
    while i < list.len()
        invariant
            i <= list@.len(),
            deps_of(list@, key) == deps_of(list@.skip(i as int), key),
        decreases list@.len() - i,
    {
        proof {
            assert(list@.skip(i as int)[0] == list@[i as int]);
            assert(list@.skip(i as int).skip(1) =~= list@.skip(i + 1));
        }
        if list[i].0 == key {
            return Some(&list[i].1);
        }
        i = i + 1;
    }
    proof {
        assert(list@.skip(list@.len() as int).len() == 0);
    }
    None
}

impl DependencyGraph {
    /// Put the graph in use, with no test disabled yet.
    pub fn instantiate(self) -> (r: InstantiatedDependencyGraph)
        ensures
            r.graph == self,
            r.disabled_tests@ == Seq::<u64>::empty(),
    {
        InstantiatedDependencyGraph { graph: self, disabled_tests: Vec::new() }
    }
}

impl InstantiatedDependencyGraph {
    /// Disable a test and, transitively, every test that depends on it.
    ///
    /// Propagation stops at tests that were already disabled: afterwards the
    /// disabled set has grown by exactly the tests that were freshly
    /// reachable from the failed one.
    pub fn _fail_test(dependents_of: &Vec<(u64, Vec<u64>)>, disabled_tests: &mut Vec<u64>, test: u64)
        ensures
            forall|t: u64|
                old(disabled_tests)@.contains(t) ==> final(disabled_tests)@.contains(t),
            forall|t: u64|
                final(disabled_tests)@.contains(t) ==> old(disabled_tests)@.contains(t) || reaches(
                    dependents_of@,
                    old(disabled_tests)@,
                    test,
                    t,
                ),
            forall|t: u64|
                reaches(dependents_of@, old(disabled_tests)@, test, t)
                    ==> final(disabled_tests)@.contains(t),
    {
        let ghost g = dependents_of@;
        let ghost b0 = old(disabled_tests)@;
        let ghost cand = cand_list(g, test);
        let mut stack: Vec<u64> = Vec::new();
        stack.push(test);
        proof {
            assert(cand[0] == test);
            assert(cand.contains(test));
            assert(stack@.contains(test));
            if !b0.contains(test) {
                assert(fresh_path(g, b0, test, test, 0nat));
                assert(reaches(g, b0, test, test));
            }
            assert forall|s: u64| stack@.contains(s) implies s == test by {
                let j = choose|j: int| 0 <= j < stack@.len() && stack@[j] == s;
            }
            assert forall|i: int, c: u64|
                0 <= i < disabled_tests@.len() && !b0.contains(disabled_tests@[i])
                    && #[trigger] deps_of(g, disabled_tests@[i]).contains(c) implies disabled_tests@.contains(
                c,
            ) || stack@.contains(c) by {
                assert(b0[i] == disabled_tests@[i]);
                assert(b0.contains(disabled_tests@[i]));
            }
        }
        while stack.len() > 0
            invariant
                g == dependents_of@,
                b0 == old(disabled_tests)@,
                cand == cand_list(g, test),
                forall|t: u64| b0.contains(t) ==> disabled_tests@.contains(t),
                forall|t: u64|
                    disabled_tests@.contains(t) ==> b0.contains(t) || reaches(g, b0, test, t),
                forall|s: u64| stack@.contains(s) ==> b0.contains(s) || reaches(g, b0, test, s),
                forall|s: u64| stack@.contains(s) ==> cand.contains(s),
                forall|i: int, c: u64|
                    0 <= i < disabled_tests@.len() && !b0.contains(disabled_tests@[i])
                        && #[trigger] deps_of(g, disabled_tests@[i]).contains(c) ==> disabled_tests@.contains(
                        c,
                    ) || stack@.contains(c),
                b0.contains(test) || disabled_tests@.contains(test) || stack@.contains(test),
            decreases count_not_in(cand, disabled_tests@), stack@.len(),
        {
            let ghost stack_pre = stack@;
            let ghost dis_pre = disabled_tests@;
            let t = match stack.pop() {
                Some(t) => t,
                None => {
                    proof {
                        assert(false);
                    }
                    return ;
                },
            };
            proof {
                assert(stack_pre[stack_pre.len() - 1] == t);
                assert(stack_pre.contains(t));
                assert(forall|x: u64| stack@.contains(x) ==> stack_pre.contains(x)) by {
                    assert forall|x: u64| stack@.contains(x) implies stack_pre.contains(x) by {
                        let j = choose|j: int| 0 <= j < stack@.len() && stack@[j] == x;
                        assert(stack_pre[j] == x);
                    }
                }
            }
            if vec_contains_u64(disabled_tests, t) {
                proof {
                    assert forall|i: int, c: u64|
                        0 <= i < disabled_tests@.len() && !b0.contains(disabled_tests@[i])
                            && #[trigger] deps_of(g, disabled_tests@[i]).contains(c) implies disabled_tests@.contains(
                        c,
                    ) || stack@.contains(c) by {
                        if !disabled_tests@.contains(c) {
                            assert(stack_pre.contains(c));
                            let j = choose|j: int| 0 <= j < stack_pre.len() && stack_pre[j] == c;
                            if j < stack_pre.len() - 1 {
                                assert(stack@[j] == c);
                            } else {
                                assert(c == t);
                                assert(disabled_tests@.contains(t));
                            }
                        }
                    }
                    if !b0.contains(test) && !disabled_tests@.contains(test) {
                        assert(stack_pre.contains(test));
                        let j = choose|j: int| 0 <= j < stack_pre.len() && stack_pre[j] == test;
                        if j < stack_pre.len() - 1 {
                            assert(stack@[j] == test);
                        } else {
                            assert(test == t);
                            assert(disabled_tests@.contains(test));
                        }
                    }
                }
            } else {
                proof {
                    assert(!b0.contains(t));
                    assert(reaches(g, b0, test, t));
                    lemma_count_not_in_dec(cand, dis_pre, t);
                }
                disabled_tests.push(t);
                proof {
                    assert(disabled_tests@[dis_pre.len() as int] == t);
                    assert(disabled_tests@.contains(t));
                    assert(forall|x: u64| dis_pre.contains(x) ==> disabled_tests@.contains(x))
                        by {
                        assert forall|x: u64| dis_pre.contains(x) implies disabled_tests@.contains(
                            x,
                        ) by {
                            let j = choose|j: int| 0 <= j < dis_pre.len() && dis_pre[j] == x;
                            assert(disabled_tests@[j] == x);
                        }
                    }
                }
                proof {
                    assert forall|i: int, c: u64|
                        0 <= i < dis_pre.len() && !b0.contains(dis_pre[i])
                            && #[trigger] deps_of(g, dis_pre[i]).contains(c) implies dis_pre.contains(
                        c,
                    ) || stack@.contains(c) || c == t by {
                        if !dis_pre.contains(c) {
                            assert(stack_pre.contains(c));
                            let j = choose|j: int| 0 <= j < stack_pre.len() && stack_pre[j] == c;
                            if j < stack_pre.len() - 1 {
                                assert(stack@[j] == c);
                            } else {
                                assert(c == t);
                            }
                        }
                    }
                    if !b0.contains(test) && !disabled_tests@.contains(test) {
                        assert(stack_pre.contains(test));
                        let j = choose|j: int| 0 <= j < stack_pre.len() && stack_pre[j] == test;
                        if j < stack_pre.len() - 1 {
                            assert(stack@[j] == test);
                        } else {
                            assert(test == t);
                            assert(disabled_tests@.contains(test));
                        }
                    }
                }
                let deps = deps_get(dependents_of, t);
                match deps {
                    Some(dv) => {
                        let mut di: usize = 0;
                        while di < dv.len()
                            invariant
                                g == dependents_of@,
                                b0 == old(disabled_tests)@,
                                cand == cand_list(g, test),
                                di <= dv@.len(),
                                dv@ == deps_of(g, t),
                                disabled_tests@ == dis_pre.push(t),
                                disabled_tests@.contains(t),
                                !b0.contains(t),
                                reaches(g, b0, test, t),
                                forall|t2: u64| b0.contains(t2) ==> disabled_tests@.contains(t2),
                                forall|t2: u64|
                                    disabled_tests@.contains(t2) ==> b0.contains(t2) || reaches(
                                        g,
                                        b0,
                                        test,
                                        t2,
                                    ),
                                forall|s: u64|
                                    stack@.contains(s) ==> b0.contains(s) || reaches(
                                        g,
                                        b0,
                                        test,
                                        s,
                                    ),
                                forall|s: u64| stack@.contains(s) ==> cand.contains(s),
                                forall|j: int|
                                    0 <= j < di ==> stack@.contains(#[trigger] dv@[j]),
                                forall|i: int, c: u64|
                                    0 <= i < dis_pre.len() && !b0.contains(dis_pre[i])
                                        && #[trigger] deps_of(g, dis_pre[i]).contains(c)
                                        ==> dis_pre.contains(c) || stack@.contains(c) || c == t,
                                b0.contains(test) || disabled_tests@.contains(test)
                                    || stack@.contains(test),
                            decreases dv@.len() - di,
                        {
                            let ghost stack_b = stack@;
                            let d = dv[di];
                            stack.push(d);
                            proof {
                                assert(stack@[stack_b.len() as int] == d);
                                assert(stack@.contains(d));
                                assert(forall|x: u64| stack_b.contains(x) ==> stack@.contains(x))
                                    by {
                                    assert forall|x: u64| stack_b.contains(x) implies stack@.contains(
                                        x,
                                    ) by {
                                        let j = choose|j: int|
                                            0 <= j < stack_b.len() && stack_b[j] == x;
                                        assert(stack@[j] == x);
                                    }
                                }
                                assert(deps_of(g, t).contains(d));
                                if !b0.contains(d) {
                                    lemma_reach_step(g, b0, test, t, d);
                                }
                                lemma_deps_sub(g, t, d);
                                let j = choose|j: int|
                                    0 <= j < flat_deps(g).len() && flat_deps(g)[j] == d;
                                assert(cand[1 + j] == d);
                                assert(cand.contains(d));
                                assert forall|j2: int| 0 <= j2 < di + 1 implies stack@.contains(
                                    #[trigger] dv@[j2],
                                ) by {
                                    if j2 < di {
                                        assert(stack_b.contains(dv@[j2]));
                                    }
                                }
                            }
                            di = di + 1;
                        }
                        proof {
                            assert forall|i: int, c: u64|
                                0 <= i < disabled_tests@.len() && !b0.contains(
                                    disabled_tests@[i],
                                ) && #[trigger] deps_of(g, disabled_tests@[i]).contains(c) implies disabled_tests@.contains(
                                c,
                            ) || stack@.contains(c) by {
                                if i < dis_pre.len() {
                                    assert(dis_pre[i] == disabled_tests@[i]);
                                    assert(dis_pre.contains(c) || stack@.contains(c) || c == t);
                                    if dis_pre.contains(c) {
                                        let j = choose|j: int|
                                            0 <= j < dis_pre.len() && dis_pre[j] == c;
                                        assert(disabled_tests@[j] == c);
                                    }
                                } else {
                                    assert(disabled_tests@[i] == t);
                                    let j = choose|j: int|
                                        0 <= j < dv@.len() && dv@[j] == c;
                                    assert(stack@.contains(dv@[j]));
                                }
                            }
                        }
                    },
                    None => {
                        proof {
                            assert(deps_of(g, t) == Seq::<u64>::empty());
                            assert forall|i: int, c: u64|
                                0 <= i < disabled_tests@.len() && !b0.contains(
                                    disabled_tests@[i],
                                ) && #[trigger] deps_of(g, disabled_tests@[i]).contains(c) implies disabled_tests@.contains(
                                c,
                            ) || stack@.contains(c) by {
                                if i < dis_pre.len() {
                                    assert(dis_pre[i] == disabled_tests@[i]);
                                    assert(dis_pre.contains(c) || stack_pre.contains(c));
                                    if dis_pre.contains(c) {
                                        let j = choose|j: int|
                                            0 <= j < dis_pre.len() && dis_pre[j] == c;
                                        assert(disabled_tests@[j] == c);
                                    } else {
                                        let j = choose|j: int|
                                            0 <= j < stack_pre.len() && stack_pre[j] == c;
                                        if j < stack_pre.len() - 1 {
                                            assert(stack@[j] == c);
                                        } else {
                                            assert(c == t);
                                        }
                                    }
                                } else {
                                    assert(disabled_tests@[i] == t);
                                    assert(deps_of(g, t).contains(c));
                                    assert(false);
                                }
                            }
                        }
                    },
                }
                proof {
                    lemma_count_not_in_mono(cand, dis_pre, t);
                }
            }
        }
        proof {
            assert(stack@.len() == 0);
            assert forall|u: u64| reaches(g, b0, test, u) implies disabled_tests@.contains(u) by {
                let k = choose|k: nat| fresh_path(g, b0, test, u, k);
                if b0.contains(test) {
                    assert(!fresh_path(g, b0, test, u, k));
                } else {
                    assert(disabled_tests@.contains(test));
                    assert forall|i: int, c: u64|
                        0 <= i < disabled_tests@.len() && !b0.contains(disabled_tests@[i])
                            && #[trigger] deps_of(g, disabled_tests@[i]).contains(c)
                            && !b0.contains(c) implies disabled_tests@.contains(c) by {
                        assert(!stack@.contains(c));
                    }
                    lemma_reach_complete(g, b0, disabled_tests@, test, u, k);
                }
            }
        }
    }

    /// Disable a test and, transitively, its dependents.
    pub fn fail_test(&mut self, test: u64)
        ensures
            final(self).graph == old(self).graph,
            forall|t: u64|
                old(self).disabled_tests@.contains(t) ==> final(self).disabled_tests@.contains(t),
            forall|t: u64|
                final(self).disabled_tests@.contains(t) ==> old(self).disabled_tests@.contains(t)
                    || reaches(
                    old(self).graph.dependents_of@,
                    old(self).disabled_tests@,
                    test,
                    t,
                ),
            forall|t: u64|
                reaches(old(self).graph.dependents_of@, old(self).disabled_tests@, test, t)
                    ==> final(self).disabled_tests@.contains(t),
    {
        Self::_fail_test(&self.graph.dependents_of, &mut self.disabled_tests, test)
    }

    /// Whether a test is still enabled.
    pub fn is_test_enabled(&self, test: u64) -> (r: bool)
        ensures
            r <==> !self.disabled_tests@.contains(test),
    {
        !vec_contains_u64(&self.disabled_tests, test)
    }
}

} // verus!
