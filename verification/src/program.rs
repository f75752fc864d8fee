//! Compiled programs: validation of a cached program's prerequisites and
//! the bind-mount list its sandbox is assembled from.

use vstd::prelude::*;
use vstd::string::StringExecFns;

use crate::errors::Error;

verus! {

/// A compiled program: its package, its prerequisite artifacts, the argv
/// that runs it, and where its artifacts live.
pub struct Program {
    pub package: String,
    pub prerequisites: Vec<String>,
    pub argv: Vec<String>,
    pub artifacts_path: String,
}

/// A program as stored in the problem cache.
pub struct CachedProgram {
    pub package: String,
    pub prerequisites: Vec<String>,
    pub argv: Vec<String>,
}

/// A sandbox root prepared for running a program.
pub struct RootFS {
    pub id: String,
}

/// A namespace prepared for running a program.
pub struct Namespace {
    pub id: String,
}

/// A program together with the sandbox it will run in.
pub struct InvocableProgram {
    pub program: Program,
    pub rootfs: RootFS,
    pub namespace: Namespace,
}

/// First index that is false, or -1 if all are true.
pub open spec fn first_false(bs: Seq<bool>) -> int
    decreases bs.len(),
{
    if bs.len() == 0 {
        -1
    } else if !bs[0] {
        0
    } else {
        let r = first_false(bs.skip(1));
        if r < 0 {
            -1
        } else {
            r + 1
        }
    }
}

pub proof fn lemma_first_false(bs: Seq<bool>)
    ensures
        first_false(bs) >= 0 ==> first_false(bs) < bs.len() && !bs[first_false(bs)],
        first_false(bs) < 0 ==> forall|j: int| 0 <= j < bs.len() ==> bs[j],
    decreases bs.len(),
{
    if bs.len() > 0 && bs[0] {
        let t = bs.skip(1);
        lemma_first_false(t);
        assert(forall|j: int| 0 <= j < t.len() ==> t[j] == bs[j + 1]);
        if first_false(t) < 0 {
            assert forall|j: int| 0 <= j < bs.len() implies bs[j] by {
                if j > 0 {
                    assert(t[j - 1] == bs[j]);
                }
            }
        }
    }
}

impl Program {
    /// Validate a cached program against the filesystem's answers: one
    /// regular-file check per prerequisite, in order.  On success the
    /// program's artifacts live under `<path>/artifacts`.
    pub fn from_cached_program(
        program: CachedProgram,
        path: &str,
        prereq_is_file: &Vec<bool>,
        package_in_image: bool,
    ) -> (r: Result<Program, Error>)
        requires
            prereq_is_file@.len() == program.prerequisites@.len(),
        ensures
            r is Ok <==> (forall|j: int|
                0 <= j < prereq_is_file@.len() ==> prereq_is_file@[j]) && package_in_image,
            r matches Ok(p) ==> p.package@ == program.package@ && p.prerequisites
                == program.prerequisites && p.argv == program.argv && p.artifacts_path@ == path@
                + "/artifacts"@,
            r matches Err(e) ==> e is ConfigurationFailure,
    {
        proof {
            reveal_strlit("/artifacts");
            reveal_strlit("Prerequisite is not a regular file: ");
            reveal_strlit("The current image fails to provide package ");
            lemma_first_false(prereq_is_file@);
        }
        let mut j: usize = 0;
        while j < prereq_is_file.len()
            invariant
                j <= prereq_is_file@.len(),
                prereq_is_file@.len() == program.prerequisites@.len(),
                forall|k: int| 0 <= k < j ==> prereq_is_file@[k],
            decreases prereq_is_file@.len() - j,
        {
            if !prereq_is_file[j] {
                proof {
                    reveal_strlit("Prerequisite is not a regular file: ");
                }
                let mut m = String::from_str("Prerequisite is not a regular file: ");
                m.append(program.prerequisites[j].as_str());
                return Err(Error::ConfigurationFailure(m));
            }
            j = j + 1;
        }
        if !package_in_image {
            let mut m = String::from_str("The current image fails to provide package ");
            m.append(program.package.as_str());
            return Err(Error::ConfigurationFailure(m));
        }
        let mut artifacts = String::new();
        artifacts.append(path);
        artifacts.append("/artifacts");
        Ok(
            Program {
                package: program.package,
                prerequisites: program.prerequisites,
                argv: program.argv,
                artifacts_path: artifacts,
            },
        )
    }
}

/// The bind mounts a program's sandbox needs: each prerequisite artifact,
/// read-only, at `/space/<name>`.
pub fn prerequisite_bound_files(prerequisites: &Vec<String>, artifacts_path: &str) -> (r: Vec<
    (String, String),
>)
    ensures
        r@.len() == prerequisites@.len(),
        forall|k: int|
            0 <= k < r@.len() ==> (#[trigger] r@[k].0)@ == artifacts_path@ + "/"@
                + prerequisites@[k]@,
        forall|k: int|
            0 <= k < r@.len() ==> (#[trigger] r@[k].1)@ == "/space/"@ + prerequisites@[k]@,
{
    proof {
        reveal_strlit("/");
        reveal_strlit("/space/");
    }
    let mut r: Vec<(String, String)> = Vec::new();
    let mut k: usize = 0;
    while k < prerequisites.len()
        invariant
            k <= prerequisites@.len(),
            r@.len() == k,
            forall|j: int|
                0 <= j < k ==> (#[trigger] r@[j].0)@ == artifacts_path@ + "/"@
                    + prerequisites@[j]@,
            forall|j: int| 0 <= j < k ==> (#[trigger] r@[j].1)@ == "/space/"@ + prerequisites@[j]@,
        decreases prerequisites@.len() - k,
    {
        proof {
            reveal_strlit("/");
            reveal_strlit("/space/");
        }
        let mut from = String::new();
        from.append(artifacts_path);
        from.append("/");
        from.append(prerequisites[k].as_str());
        let mut to = String::from_str("/space/");
        to.append(prerequisites[k].as_str());
        r.push((from, to));
        k = k + 1;
    }
    r
}

} // verus!
