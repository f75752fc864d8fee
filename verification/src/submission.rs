//! A submission under judgement: its state, the commands it sends to its
//! workers, and the interpretation of their responses.

use vstd::prelude::*;
use vstd::string::StringExecFns;

use crate::errors::Error;
use crate::problem::{
    reaches, DependencyGraph, InstantiatedDependencyGraph, ProblemRevision,
};
use crate::program::Program;
use crate::verdict::{InvocationLimit, TestJudgementResult, TestVerdict};

verus! {

/// A command the orchestrator sends to a worker.
pub enum Command {
    /// Compile the submission; the argument names the build.
    Compile(String),
    /// Judge the given tests, in order.
    Test(Vec<u64>),
    /// Shut the worker down.
    Finalize,
}

/// A worker's response to a command.
pub enum W2IMessage {
    /// The compiled program and the build log.
    CompilationResult(Program, String),
    /// One test's judgement.
    TestResult(TestJudgementResult),
    /// The command failed.
    Failure(Error),
}

/// One submission under judgement.
pub struct Submission {
    pub id: String,
    pub instantiated_dependency_graph: InstantiatedDependencyGraph,
    pub language_name: String,
    pub source_files: Vec<String>,
    pub program: Option<Program>,
    pub workers: Vec<u64>,
    pub problem_revision: ProblemRevision,
    pub invocation_limits: Vec<(String, InvocationLimit)>,
}

/// The directory a submission's files live in.
pub fn submission_root(id: &str) -> (r: String)
    ensures
        r@ == "/tmp/sunwalker_invoker/submissions/"@ + id@,
{
    proof {
        reveal_strlit("/tmp/sunwalker_invoker/submissions/");
    }
    let mut r = String::from_str("/tmp/sunwalker_invoker/submissions/");
    r.append(id);
    r
}

impl Submission {
    /// A fresh submission: the revision's dependency graph instantiated,
    /// nothing compiled, no source files, no workers yet.  The caller
    /// creates the submission's directory.
    pub fn new(
        id: String,
        problem_revision: ProblemRevision,
        language_name: String,
        invocation_limits: Vec<(String, InvocationLimit)>,
    ) -> (r: Submission)
        ensures
            r.id == id,
            graph_equiv(
                r.instantiated_dependency_graph.graph.dependents_of@,
                problem_revision.dependency_graph.dependents_of@,
            ),
            r.instantiated_dependency_graph.disabled_tests@ == Seq::<u64>::empty(),
            r.language_name == language_name,
            r.source_files@ == Seq::<String>::empty(),
            r.program is None,
            r.workers@ == Seq::<u64>::empty(),
            r.problem_revision == problem_revision,
            r.invocation_limits == invocation_limits,
    {
        let graph_copy = DependencyGraph {
            dependents_of: clone_graph_edges(&problem_revision.dependency_graph.dependents_of),
        };
        Submission {
            id,
            instantiated_dependency_graph: graph_copy.instantiate(),
            language_name,
            source_files: Vec::new(),
            program: None,
            workers: Vec::new(),
            problem_revision,
            invocation_limits,
        }
    }

    /// Record one more source file; the caller writes its contents at the
    /// returned path.
    pub fn add_source_file(&mut self, name: &str) -> (path: String)
        ensures
            path@ == "/tmp/sunwalker_invoker/submissions/"@ + old(self).id@ + "/"@ + name@,
            final(self).source_files@ == old(self).source_files@.push(path),
            final(self).id == old(self).id,
            final(self).program == old(self).program,
            final(self).instantiated_dependency_graph == old(self).instantiated_dependency_graph,
    {
        proof {
            reveal_strlit("/");
        }
        let mut path = submission_root(self.id.as_str());
        path.append("/");
        path.append(name);
        let copy = path.clone();
        self.source_files.push(copy);
        proof {
            assert(path@ =~= "/tmp/sunwalker_invoker/submissions/"@ + old(self).id@ + "/"@
                + name@);
        }
        path
    }

    /// Get or create the worker slot for a core.
    pub fn worker_for_core(&mut self, core: u64) -> (created: bool)
        ensures
            created <==> !old(self).workers@.contains(core),
            final(self).workers@.contains(core),
            !created ==> final(self).workers@ == old(self).workers@,
            created ==> final(self).workers@ == old(self).workers@.push(core),
            final(self).id == old(self).id,
            final(self).program == old(self).program,
    {
        if crate::problem::vec_contains_u64(&self.workers, core) {
            false
        } else {
            self.workers.push(core);
            proof {
                assert(self.workers@[old(self).workers@.len() as int] == core);
            }
            true
        }
    }

    /// The command that compiles the submission, and how many responses it
    /// promises.  A submission compiles at most once.
    pub fn compile_command(&self) -> (r: Result<(Command, usize), Error>)
        ensures
            self.program is Some ==> (r matches Err(e) && e matches Error::ConductorFailure(m)
                && m@ == "The submission is already compiled"@),
            self.program is None ==> (r matches Ok(cn) && (cn.0 matches Command::Compile(b) && b@
                == "judge-"@ + self.id@) && cn.1 == 1),
    {
        if self.program.is_some() {
            proof {
                reveal_strlit("The submission is already compiled");
            }
            return Err(
                Error::ConductorFailure(String::from_str("The submission is already compiled")),
            );
        }
        proof {
            reveal_strlit("judge-");
        }
        let mut build = String::from_str("judge-");
        build.append(self.id.as_str());
        Ok((Command::Compile(build), 1))
    }

    /// Accept the worker's answer to a compilation request: store the
    /// program and hand back the log; pass a failure through; anything
    /// else is a protocol violation.
    pub fn accept_compile_response(&mut self, response: Option<W2IMessage>) -> (r: Result<
        String,
        Error,
    >)
        ensures
            response matches Some(msg) ==> (match msg {
                W2IMessage::CompilationResult(p, log) => final(self).program == Some(p) && (
                r matches Ok(l) && l == log),
                W2IMessage::Failure(e) => final(self).program == old(self).program && r == Err::<
                    String,
                    Error,
                >(e),
                _ => final(self).program == old(self).program && (r matches Err(e2) && e2
                    matches Error::InvokerFailure(m) && m@
                    == "Unexpected response to compilation request"@),
            }),
            response is None ==> final(self).program == old(self).program && (r matches Err(e2)
                && e2 matches Error::InvokerFailure(m) && m@
                == "Unexpected response to compilation request"@),
    {
        proof {
            reveal_strlit("Unexpected response to compilation request");
        }
        match response {
            Some(W2IMessage::CompilationResult(p, log)) => {
                self.program = Some(p);
                Ok(log)
            },
            Some(W2IMessage::Failure(e)) => Err(e),
            _ => Err(
                Error::InvokerFailure(
                    String::from_str("Unexpected response to compilation request"),
                ),
            ),
        }
    }

    /// The command that judges a batch of tests, and how many responses it
    /// promises.  Judging needs a compiled program.
    pub fn test_command(&self, tests: &Vec<u64>) -> (r: Result<(Command, usize), Error>)
        ensures
            self.program is None ==> (r matches Err(e) && e matches Error::ConductorFailure(m)
                && m@ == "Cannot judge submission before the program is built"@),
            self.program is Some ==> (r matches Ok(cn) && (cn.0 matches Command::Test(ts) && ts@
                == tests@) && cn.1 == tests@.len()),
    {
        if self.program.is_none() {
            proof {
                reveal_strlit("Cannot judge submission before the program is built");
            }
            return Err(
                Error::ConductorFailure(
                    String::from_str("Cannot judge submission before the program is built"),
                ),
            );
        }
        let mut copy: Vec<u64> = Vec::new();
        let mut i: usize = 0;
        while i < tests.len()
            invariant
                i <= tests@.len(),
                copy@ == tests@.take(i as int),
            decreases tests@.len() - i,
        {
            copy.push(tests[i]);
            proof {
                assert(copy@ =~= tests@.take(i + 1));
            }
            i = i + 1;
        }
        proof {
            assert(tests@.take(tests@.len() as int) =~= tests@);
        }
        Ok((Command::Test(copy), tests.len()))
    }

    /// Pair one judgement response with its test: a result passes through,
    /// anything else becomes a bug verdict so one broken worker never
    /// stalls the submission.
    pub fn pair_test_result(test: u64, response: W2IMessage) -> (r: (u64, TestJudgementResult))
        ensures
            r.0 == test,
            response matches W2IMessage::TestResult(j) ==> r.1 == j,
            !(response is TestResult) ==> (r.1.verdict matches TestVerdict::Bug(m) && m@
                == "Failed to evaluate test"@ && r.1.logs@.len() == 0
                && r.1.invocation_stats@.len() == 0),
    {
        match response {
            W2IMessage::TestResult(j) => (test, j),
            _ => {
                proof {
                    reveal_strlit("Failed to evaluate test");
                }
                (
                    test,
                    TestJudgementResult {
                        verdict: TestVerdict::Bug(String::from_str("Failed to evaluate test")),
                        logs: Vec::new(),
                        invocation_stats: Vec::new(),
                    },
                )
            },
        }
    }

    /// Disable a batch of failed tests, and transitively everything that
    /// depends on them: nothing already disabled is forgotten, every test
    /// of the batch ends up disabled, and everything newly disabled was
    /// reachable from a test of the batch.
    pub fn add_failed_tests(&mut self, tests: &Vec<u64>)
        ensures
            final(self).instantiated_dependency_graph.graph == old(
                self,
            ).instantiated_dependency_graph.graph,
            forall|t: u64|
                old(self).instantiated_dependency_graph.disabled_tests@.contains(t) ==> final(self).instantiated_dependency_graph.disabled_tests@.contains(t),
            forall|i: int|
                0 <= i < tests@.len() ==> final(self).instantiated_dependency_graph.disabled_tests@.contains(#[trigger] tests@[i]),
            forall|t: u64|
                final(self).instantiated_dependency_graph.disabled_tests@.contains(t) ==> old(
                    self,
                ).instantiated_dependency_graph.disabled_tests@.contains(t) || (exists|i: int|
                    0 <= i < tests@.len() && reaches(
                        old(self).instantiated_dependency_graph.graph.dependents_of@,
                        old(self).instantiated_dependency_graph.disabled_tests@,
                        #[trigger] tests@[i],
                        t,
                    )),
            final(self).id == old(self).id,
            final(self).program == old(self).program,
    {
        let ghost g = self.instantiated_dependency_graph.graph.dependents_of@;
        let ghost b0 = self.instantiated_dependency_graph.disabled_tests@;
        let mut i: usize = 0;
        while i < tests.len()
            invariant
                i <= tests@.len(),
                g == self.instantiated_dependency_graph.graph.dependents_of@,
                g == old(self).instantiated_dependency_graph.graph.dependents_of@,
                b0 == old(self).instantiated_dependency_graph.disabled_tests@,
                self.instantiated_dependency_graph.graph == old(
                    self,
                ).instantiated_dependency_graph.graph,
                self.id == old(self).id,
                self.program == old(self).program,
                self.language_name == old(self).language_name,
                self.source_files == old(self).source_files,
                self.workers == old(self).workers,
                self.problem_revision == old(self).problem_revision,
                self.invocation_limits == old(self).invocation_limits,
                forall|t: u64|
                    b0.contains(t)
                        ==> self.instantiated_dependency_graph.disabled_tests@.contains(t),
                forall|j: int|
                    0 <= j < i ==> self.instantiated_dependency_graph.disabled_tests@.contains(
                        #[trigger] tests@[j],
                    ),
                forall|t: u64|
                    self.instantiated_dependency_graph.disabled_tests@.contains(t)
                        ==> b0.contains(t) || (exists|j: int|
                        0 <= j < i && reaches(g, b0, #[trigger] tests@[j], t)),
            decreases tests@.len() - i,
    {
            let ghost dis_pre = self.instantiated_dependency_graph.disabled_tests@;
            let t = tests[i];
            self.instantiated_dependency_graph.fail_test(t);
            proof {
                let dis_post = self.instantiated_dependency_graph.disabled_tests@;
                if !b0.contains(t) && !dis_pre.contains(t) {
                    assert(!dis_pre.contains(t));
                    assert(crate::problem::fresh_path(g, dis_pre, t, t, 0nat));
                    assert(reaches(g, dis_pre, t, t));
                }
                assert(dis_post.contains(t));
                assert forall|u: u64| dis_post.contains(u) implies b0.contains(u) || (exists|
                    j: int,
                |
                    0 <= j < i + 1 && reaches(g, b0, #[trigger] tests@[j], u)) by {
                    if !b0.contains(u) {
                        if dis_pre.contains(u) {
                            let j = choose|j: int|
                                0 <= j < i && reaches(g, b0, #[trigger] tests@[j], u);
                            assert(0 <= j < i + 1 && reaches(g, b0, tests@[j], u));
                        } else {
                            assert(reaches(g, dis_pre, t, u));
                            let k = choose|k: nat|
                                crate::problem::fresh_path(g, dis_pre, t, u, k);
                            lemma_fresh_path_fewer_blocks(g, dis_pre, b0, t, u, k);
                            assert(reaches(g, b0, t, u));
                            assert(tests@[i as int] == t);
                            assert(0 <= i < i + 1 && reaches(g, b0, tests@[i as int], u));
                        }
                    }
                }
                assert forall|j: int| 0 <= j < i + 1 implies self.instantiated_dependency_graph.disabled_tests@.contains(
                    #[trigger] tests@[j],
                ) by {
                    if j < i {
                        assert(dis_pre.contains(tests@[j]));
                    }
                }
            }
            i = i + 1;
        }
    }

    /// Take the compiled program out for removal.
    pub fn take_program(&mut self) -> (r: Option<Program>)
        ensures
            r == old(self).program,
            final(self).program is None,
            final(self).id == old(self).id,
    {
        let mut out: Option<Program> = None;
        core::mem::swap(&mut out, &mut self.program);
        out
    }
}

/// A path that avoids a blocked set also avoids any subset of it.
pub proof fn lemma_fresh_path_fewer_blocks(
    g: Seq<(u64, Vec<u64>)>,
    big: Seq<u64>,
    small: Seq<u64>,
    from: u64,
    to: u64,
    k: nat,
)
    requires
        crate::problem::fresh_path(g, big, from, to, k),
        forall|x: u64| small.contains(x) ==> big.contains(x),
    ensures
        crate::problem::fresh_path(g, small, from, to, k),
    decreases k,
{
    if from != to {
        let c = choose|c: u64|
            #[trigger] crate::problem::deps_of(g, from).contains(c) && crate::problem::fresh_path(
                g,
                big,
                c,
                to,
                (k - 1) as nat,
            );
        lemma_fresh_path_fewer_blocks(g, big, small, c, to, (k - 1) as nat);
        assert(crate::problem::deps_of(g, from).contains(c) && crate::problem::fresh_path(
            g,
            small,
            c,
            to,
            (k - 1) as nat,
        ));
    }
}

/// Two edge lists that agree on every key and dependent list.
pub open spec fn graph_equiv(a: Seq<(u64, Vec<u64>)>, b: Seq<(u64, Vec<u64>)>) -> bool {
    a.len() == b.len() && forall|i: int|
        0 <= i < a.len() ==> (#[trigger] a[i].0) == b[i].0 && a[i].1@ == b[i].1@
}

/// Copy the edge list of a dependency graph.
fn clone_graph_edges(edges: &Vec<(u64, Vec<u64>)>) -> (r: Vec<(u64, Vec<u64>)>)
    ensures
        graph_equiv(r@, edges@),
{
    let mut r: Vec<(u64, Vec<u64>)> = Vec::new();
    let mut i: usize = 0;
    while i < edges.len()
        invariant
            i <= edges@.len(),
            r@.len() == i,
            forall|k: int|
                0 <= k < i ==> (#[trigger] r@[k].0) == edges@[k].0 && r@[k].1@ == edges@[k].1@,
        decreases edges@.len() - i,
    {
        let key = edges[i].0;
        let mut vals: Vec<u64> = Vec::new();
        let mut j: usize = 0;
        while j < edges[i].1.len()
            invariant
                0 <= i < edges@.len(),
                j <= edges@[i as int].1@.len(),
                vals@ == edges@[i as int].1@.take(j as int),
            decreases edges@[i as int].1@.len() - j,
        {
            vals.push(edges[i].1[j]);
            proof {
                assert(vals@ =~= edges@[i as int].1@.take(j + 1));
            }
            j = j + 1;
        }
        proof {
            assert(edges@[i as int].1@.take(edges@[i as int].1@.len() as int) =~= edges@[
                i as int].1@);
            assert(vals@ == edges@[i as int].1@);
        }
        r.push((key, vals));
        i = i + 1;
    }
    r
}

/// The kinds of the errors that kept a submission from finalizing, joined
/// for the report.
pub open spec fn joined_error_kinds(es: Seq<Error>) -> Seq<char>
    decreases es.len(),
{
    if es.len() == 0 {
        Seq::<char>::empty()
    } else if es.len() == 1 {
        error_kind_chars(es[0])
    } else {
        error_kind_chars(es[0]) + ", "@ + joined_error_kinds(es.skip(1))
    }
}

/// The label of an error's kind.
pub open spec fn error_kind_chars(e: Error) -> Seq<char> {
    match e {
        Error::Codec(_) => "codec error"@,
        Error::Channel(_) => "channel error"@,
        Error::SandboxSetup(_) => "sandbox setup failed"@,
        Error::ChildFailed(_) => "child failed"@,
        Error::NoValue => "no value returned"@,
        Error::ConfigurationFailure(_) => "configuration failure"@,
        Error::InvokerFailure(_) => "invoker failure"@,
        Error::ConductorFailure(_) => "conductor failure"@,
    }
}

/// Fold a finalization run's failures into one outcome: success when no
/// worker failed, else one invoker failure naming every error's kind.
pub fn combine_finalize_errors(errors: &Vec<Error>) -> (r: Result<(), Error>)
    ensures
        errors@.len() == 0 <==> r is Ok,
        errors@.len() > 0 ==> (r matches Err(e) && e matches Error::InvokerFailure(m) && m@
            == "Failed to finalize submission: "@ + joined_error_kinds(errors@)),
{
    if errors.len() == 0 {
        return Ok(());
    }
    proof {
        reveal_strlit("Failed to finalize submission: ");
        reveal_strlit(", ");
    }
    let mut m = String::from_str("Failed to finalize submission: ");
    let mut i: usize = 0;
    while i < errors.len()
        invariant
            0 < errors@.len(),
            i <= errors@.len(),
            i == 0 ==> m@ == "Failed to finalize submission: "@,
            i > 0 ==> m@ == "Failed to finalize submission: "@ + joined_prefix(errors@, i as int),
        decreases errors@.len() - i,
    {
        proof {
            reveal_strlit(", ");
        }
        if i > 0 {
            m.append(", ");
        }
        m.append(errors[i].kind_str());
        proof {
            lemma_joined_prefix_step(errors@, i as int);
            assert(m@ =~= "Failed to finalize submission: "@ + joined_prefix(errors@, i + 1));
        }
        i = i + 1;
    }
    proof {
        lemma_joined_prefix_full(errors@);
    }
    Err(Error::InvokerFailure(m))
}

/// The join of the first `i` error kinds.
pub open spec fn joined_prefix(es: Seq<Error>, i: int) -> Seq<char>
    decreases i,
{
    if i <= 0 {
        Seq::<char>::empty()
    } else if i == 1 {
        error_kind_chars(es[0])
    } else {
        joined_prefix(es, i - 1) + ", "@ + error_kind_chars(es[i - 1])
    }
}

pub proof fn lemma_joined_prefix_step(es: Seq<Error>, i: int)
    requires
        0 <= i < es.len(),
    ensures
        i == 0 ==> joined_prefix(es, 1) == error_kind_chars(es[0]),
        i > 0 ==> joined_prefix(es, i + 1) == joined_prefix(es, i) + ", "@ + error_kind_chars(
            es[i],
        ),
{
}

/// The forward join of all kinds equals the recursive join.
pub proof fn lemma_joined_prefix_full(es: Seq<Error>)
    requires
        es.len() > 0,
    ensures
        joined_prefix(es, es.len() as int) == joined_error_kinds(es),
    decreases es.len(),
{
    if es.len() == 1 {
    } else {
        let t = es.skip(1);
        lemma_joined_prefix_full(t);
        lemma_joined_prefix_shift(es, es.len() as int);
        assert(joined_error_kinds(es) == error_kind_chars(es[0]) + ", "@ + joined_error_kinds(t));
    }
}

/// Joining a prefix of the tail, shifted by one.
pub proof fn lemma_joined_prefix_shift(es: Seq<Error>, i: int)
    requires
        2 <= i <= es.len(),
    ensures
        joined_prefix(es, i) == error_kind_chars(es[0]) + ", "@ + joined_prefix(es.skip(1), i - 1),
    decreases i,
{
    let t = es.skip(1);
    if i == 2 {
        assert(t[0] == es[1]);
        assert(joined_prefix(es, 2) == joined_prefix(es, 1) + ", "@ + error_kind_chars(es[1]));
        assert(joined_prefix(t, 1) == error_kind_chars(t[0]));
    } else {
        lemma_joined_prefix_shift(es, i - 1);
        assert(t[i - 2] == es[i - 1]);
        assert(joined_prefix(es, i) == joined_prefix(es, i - 1) + ", "@ + error_kind_chars(
            es[i - 1],
        ));
        assert(joined_prefix(t, i - 1) == joined_prefix(t, i - 2) + ", "@ + error_kind_chars(
            t[i - 2],
        ));
        assert(joined_prefix(es, i) =~= error_kind_chars(es[0]) + ", "@ + joined_prefix(
            t,
            i - 1,
        ));
    }
}

} // verus!
