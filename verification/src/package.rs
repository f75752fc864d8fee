//! The sandbox builder: per-worker tmpfs, overlay assembly, bind mounts,
//! the pivot into the user root, environment injection, and teardown.
//!
//! The decisions — which directories, mounts, and id maps, in which order —
//! are computed and verified here; performing the system calls is the
//! caller's part.

use vstd::prelude::*;
use vstd::string::StrSliceExecFns;
use vstd::string::StringExecFns;

use crate::errors::Error;
use crate::image::{assoc_get, assoc_idx, LanguageConfig, MountedImage};
use crate::strutil::{find_char, find_idx, lemma_find_idx, str_starts_with, u64_to_dec};

verus! {

/// Disk quotas and prerequisite files of one sandbox.
pub struct SandboxConfig {
    /// The size the worker tmpfs is mounted with.
    pub max_size_in_bytes: u64,
    /// The inode quota the worker tmpfs is mounted with.
    pub max_inodes: u64,
    /// Prerequisite files: the artifact path, and the target path inside
    /// the sandbox.
    pub bound_files: Vec<(String, String)>,
}

/// One package of a mounted image.
pub struct Package<'a> {
    pub image: &'a MountedImage,
    pub name: &'a str,
}

/// One language of a package.
pub struct Language<'a> {
    pub package: Package<'a>,
    pub config: &'a LanguageConfig,
    pub name: &'a str,
}

impl<'a> Package<'a> {
    /// Select a package of the image by name; the image must contain it.
    pub fn new(image: &'a MountedImage, name: &'a str) -> (r: Result<Package<'a>, Error>)
        ensures
            r is Ok <==> assoc_idx(image.config.packages@, name@) >= 0,
            r matches Ok(p) ==> p.image == image && p.name@ == name@,
            r matches Err(e) ==> (e matches Error::ConfigurationFailure(m) && m@
                == "Image does not contain package "@ + name@),
    {
        if !image.has_package(name) {
            proof {
                reveal_strlit("Image does not contain package ");
            }
            let mut m = String::from_str("Image does not contain package ");
            m.append(name);
            return Err(Error::ConfigurationFailure(m));
        }
        Ok(Package { image, name })
    }

    /// Select a language this package provides.
    pub fn get_language(&self, language_name: &'a str) -> (r: Result<Language<'a>, Error>)
        ensures
            ({
                let pi = assoc_idx(self.image.config.packages@, self.name@);
                &&& pi < 0 ==> (r matches Err(e) && e matches Error::ConfigurationFailure(m)
                    && m@ == "Package not found in the image: "@ + self.name@)
                &&& pi >= 0 ==> {
                    let li = assoc_idx(
                        self.image.config.packages@[pi].1.languages@,
                        language_name@,
                    );
                    &&& li < 0 ==> (r matches Err(e) && e matches Error::ConfigurationFailure(m)
                        && m@ == "Package does not provide language "@ + language_name@)
                    &&& li >= 0 ==> (r matches Ok(lang) && lang.name@ == language_name@
                        && lang.package.name@ == self.name@ && lang.package.image == self.image)
                }
            }),
    {
        let pkg = match assoc_get(&self.image.config.packages, self.name) {
            Some(pkg) => pkg,
            None => {
                proof {
                    reveal_strlit("Package not found in the image: ");
                }
                let mut m = String::from_str("Package not found in the image: ");
                m.append(self.name);
                return Err(Error::ConfigurationFailure(m));
            },
        };
        match assoc_get(&pkg.languages, language_name) {
            Some(config) => Ok(
                Language {
                    package: Package { image: self.image, name: self.name },
                    config,
                    name: language_name,
                },
            ),
            None => {
                proof {
                    reveal_strlit("Package does not provide language ");
                }
                let mut m = String::from_str("Package does not provide language ");
                m.append(language_name);
                Err(Error::ConfigurationFailure(m))
            },
        }
    }
}

/// The mount options of the per-worker tmpfs, from the disk quotas.
pub fn tmpfs_options(config: &SandboxConfig) -> (r: String)
    ensures
        r@ == "size="@ + crate::strutil::dec_u64(config.max_size_in_bytes) + ",nr_inodes="@
            + crate::strutil::dec_u64(config.max_inodes),
{
    proof {
        reveal_strlit("size=");
        reveal_strlit(",nr_inodes=");
    }
    let mut r = String::from_str("size=");
    let size = u64_to_dec(config.max_size_in_bytes);
    r.append(size.as_str());
    r.append(",nr_inodes=");
    let inodes = u64_to_dec(config.max_inodes);
    r.append(inodes.as_str());
    proof {
        assert(r@ =~= "size="@ + crate::strutil::dec_u64(config.max_size_in_bytes)
            + ",nr_inodes="@ + crate::strutil::dec_u64(config.max_inodes));
    }
    r
}

/// The mount options of the overlay: the package root as the lower layer,
/// the worker's user area on top.
pub fn overlay_options(mountpoint: &str, package_name: &str) -> (r: String)
    ensures
        r@ == "lowerdir="@ + mountpoint@ + "/"@ + package_name@
            + ",upperdir=/tmp/worker/user-area,workdir=/tmp/worker/work"@,
{
    proof {
        reveal_strlit("lowerdir=");
        reveal_strlit("/");
        reveal_strlit(",upperdir=/tmp/worker/user-area,workdir=/tmp/worker/work");
    }
    let mut r = String::from_str("lowerdir=");
    r.append(mountpoint);
    r.append("/");
    r.append(package_name);
    r.append(",upperdir=/tmp/worker/user-area,workdir=/tmp/worker/work");
    proof {
        assert(r@ =~= "lowerdir="@ + mountpoint@ + "/"@ + package_name@
            + ",upperdir=/tmp/worker/user-area,workdir=/tmp/worker/work"@);
    }
    r
}

/// A target path inside the overlay root.
pub fn overlay_path(target: &str) -> (r: String)
    ensures
        r@ == "/tmp/worker/overlay"@ + target@,
{
    proof {
        reveal_strlit("/tmp/worker/overlay");
    }
    let mut r = String::from_str("/tmp/worker/overlay");
    r.append(target);
    r
}

/// Split one line of the package's environment file at its first `=`:
/// the name before it, the value after it (possibly empty).
pub fn parse_env_line(line: &str) -> (r: Option<(String, String)>)
    ensures
        r is Some <==> find_idx(line@, '=') >= 0,
        r matches Some(nv) ==> nv.0@ == line@.take(find_idx(line@, '=')) && nv.1@ == line@.skip(
            find_idx(line@, '=') + 1,
        ),
{
    proof {
        lemma_find_idx(line@, '=');
    }
    match find_char(line, '=') {
        Some(i) => {
            proof {
                let r = find_idx(line@, '=');
                if r < 0 {
                    assert(line@[i as int] != '=');
                    assert(false);
                }
                if r < i {
                    assert(line@[r] != '=');
                    assert(false);
                }
                if r > i {
                    assert(line@[i as int] != '=');
                    assert(false);
                }
            }
            let n = line.unicode_len();
            let name = line.substring_char(0, i);
            let value = line.substring_char(i + 1, n);
            proof {
                assert(name@ =~= line@.take(i as int));
                assert(value@ =~= line@.skip(i + 1));
            }
            Some((String::from_str(name), String::from_str(value)))
        },
        None => {
            proof {
                let r = find_idx(line@, '=');
                if r >= 0 {
                    assert(line@[r] == '=');
                    assert(false);
                }
            }
            None
        },
    }
}

} // verus!

verus! {

/// One step of assembling a sandbox filesystem.
pub enum SandboxStep {
    /// Unshare the mount namespace from the host.
    UnshareMountNamespace,
    /// Mount a fresh tmpfs with the given options.
    MountTmpfs { target: String, options: String },
    /// Create a directory.
    CreateDir { path: String },
    /// Mount an overlay filesystem with the given options.
    MountOverlay { target: String, options: String },
    /// Create an empty file to serve as a bind-mount target.
    WriteEmptyFile { path: String },
    /// Bind-mount a path read-only onto a target.
    BindMountReadOnly { source: String, target: String },
    /// Change a path's owner.
    Chown { path: String, uid: u32, gid: u32 },
}

/// Phase A: unshare the mount namespace and mount the per-worker tmpfs,
/// sized by the worker's disk quotas.
pub fn make_worker_tmp_plan(config: &SandboxConfig) -> (r: Vec<SandboxStep>)
    ensures
        r@.len() == 2,
        r@[0] is UnshareMountNamespace,
        r@[1] matches SandboxStep::MountTmpfs { target, options } && target@ == "/tmp/worker"@
            && options@ == "size="@ + crate::strutil::dec_u64(config.max_size_in_bytes)
            + ",nr_inodes="@ + crate::strutil::dec_u64(config.max_inodes),
{
    proof {
        reveal_strlit("/tmp/worker");
    }
    let mut r: Vec<SandboxStep> = Vec::new();
    r.push(SandboxStep::UnshareMountNamespace);
    r.push(
        SandboxStep::MountTmpfs {
            target: String::from_str("/tmp/worker"),
            options: tmpfs_options(config),
        },
    );
    r
}

/// Phase B: assemble the per-invocation overlay inside the worker tmpfs:
/// the three overlay directories, the overlay mount over the package root,
/// the user's `space` directory, one empty file and read-only bind mount
/// per prerequisite, the read-only `/dev` bind, and the `space` ownership.
pub fn make_sandbox_plan(mountpoint: &str, package_name: &str, config: &SandboxConfig) -> (r: Vec<
    SandboxStep,
>)
    ensures
        r@.len() == 8 + 2 * config.bound_files@.len(),
        r@[0] matches SandboxStep::CreateDir { path } && path@ == "/tmp/worker/user-area"@,
        r@[1] matches SandboxStep::CreateDir { path } && path@ == "/tmp/worker/work"@,
        r@[2] matches SandboxStep::CreateDir { path } && path@ == "/tmp/worker/overlay"@,
        r@[3] matches SandboxStep::MountOverlay { target, options } && target@
            == "/tmp/worker/overlay"@ && options@ == "lowerdir="@ + mountpoint@ + "/"@
            + package_name@ + ",upperdir=/tmp/worker/user-area,workdir=/tmp/worker/work"@,
        r@[4] matches SandboxStep::CreateDir { path } && path@ == "/tmp/worker/overlay/space"@,
        forall|k: int|
            0 <= k < config.bound_files@.len() ==> (#[trigger] r@[5 + 2 * k]
                matches SandboxStep::WriteEmptyFile { path } && path@ == "/tmp/worker/overlay"@
                + config.bound_files@[k].1@),
        forall|k: int|
            0 <= k < config.bound_files@.len() ==> (#[trigger] r@[6 + 2 * k]
                matches SandboxStep::BindMountReadOnly { source, target } && source@
                == config.bound_files@[k].0@ && target@ == "/tmp/worker/overlay"@
                + config.bound_files@[k].1@),
        r@[5 + 2 * (config.bound_files@.len() as int)] matches SandboxStep::CreateDir { path } && path@
            == "/tmp/worker/overlay/dev"@,
        r@[6 + 2 * (config.bound_files@.len() as int)] matches SandboxStep::BindMountReadOnly {
            source,
            target,
        } && source@ == "/tmp/dev"@ && target@ == "/tmp/worker/overlay/dev"@,
        r@[7 + 2 * (config.bound_files@.len() as int)] matches SandboxStep::Chown { path, uid, gid }
            && path@ == "/tmp/worker/overlay/space"@ && uid == 65534u32 && gid == 65534u32,
{
    proof {
        reveal_strlit("/tmp/worker/user-area");
        reveal_strlit("/tmp/worker/work");
        reveal_strlit("/tmp/worker/overlay");
        reveal_strlit("/tmp/worker/overlay/space");
        reveal_strlit("/tmp/worker/overlay/dev");
        reveal_strlit("/tmp/dev");
    }
    let mut r: Vec<SandboxStep> = Vec::new();
    r.push(SandboxStep::CreateDir { path: String::from_str("/tmp/worker/user-area") });
    r.push(SandboxStep::CreateDir { path: String::from_str("/tmp/worker/work") });
    r.push(SandboxStep::CreateDir { path: String::from_str("/tmp/worker/overlay") });
    r.push(
        SandboxStep::MountOverlay {
            target: String::from_str("/tmp/worker/overlay"),
            options: overlay_options(mountpoint, package_name),
        },
    );
    r.push(SandboxStep::CreateDir { path: String::from_str("/tmp/worker/overlay/space") });
    let mut k: usize = 0;
    while k < config.bound_files.len()
        invariant
            k <= config.bound_files@.len(),
            r@.len() == 5 + 2 * k,
            r@[0] matches SandboxStep::CreateDir { path } && path@ == "/tmp/worker/user-area"@,
            r@[1] matches SandboxStep::CreateDir { path } && path@ == "/tmp/worker/work"@,
            r@[2] matches SandboxStep::CreateDir { path } && path@ == "/tmp/worker/overlay"@,
            r@[3] matches SandboxStep::MountOverlay { target, options } && target@
                == "/tmp/worker/overlay"@ && options@ == "lowerdir="@ + mountpoint@ + "/"@
                + package_name@ + ",upperdir=/tmp/worker/user-area,workdir=/tmp/worker/work"@,
            r@[4] matches SandboxStep::CreateDir { path } && path@
                == "/tmp/worker/overlay/space"@,
            forall|j: int|
                0 <= j < k ==> (#[trigger] r@[5 + 2 * j] matches SandboxStep::WriteEmptyFile {
                    path,
                } && path@ == "/tmp/worker/overlay"@ + config.bound_files@[j].1@),
            forall|j: int|
                0 <= j < k ==> (#[trigger] r@[6 + 2 * j]
                    matches SandboxStep::BindMountReadOnly { source, target } && source@
                    == config.bound_files@[j].0@ && target@ == "/tmp/worker/overlay"@
                    + config.bound_files@[j].1@),
        decreases config.bound_files@.len() - k,
    {
        let to_path = overlay_path(config.bound_files[k].1.as_str());
        let target_copy = overlay_path(config.bound_files[k].1.as_str());
        r.push(SandboxStep::WriteEmptyFile { path: to_path });
        r.push(
            SandboxStep::BindMountReadOnly {
                source: config.bound_files[k].0.clone(),
                target: target_copy,
            },
        );
        k = k + 1;
    }
    r.push(SandboxStep::CreateDir { path: String::from_str("/tmp/worker/overlay/dev") });
    r.push(
        SandboxStep::BindMountReadOnly {
            source: String::from_str("/tmp/dev"),
            target: String::from_str("/tmp/worker/overlay/dev"),
        },
    );
    r.push(
        SandboxStep::Chown {
            path: String::from_str("/tmp/worker/overlay/space"),
            uid: 65534,
            gid: 65534,
        },
    );
    r
}

} // verus!

verus! {

/// One step the sandboxed child performs to pivot into the user root.
pub enum IsolationStep {
    /// Unshare mount, IPC, network, user, UTS, System V semaphore and PID
    /// namespaces in one call.
    UnshareAll,
    /// Stop, so the parent can fill the id maps before any child appears.
    RaiseStop,
    /// Become the mapped root user.
    SetUid { uid: u32 },
    SetGid { gid: u32 },
    /// Bind-mount a path recursively onto itself: required to defeat the
    /// kernel's lock on the overlay that otherwise blocks the pivot under
    /// a user namespace.
    BindSelfRecursive { path: String },
    /// Change the working directory.
    Chdir { path: String },
    /// Swap the mount namespace's root for the working directory.
    PivotRoot,
    /// Lazily unmount the old root stacked under the working directory.
    UmountDetachCurrent,
    /// Set one environment variable.
    SetEnv { name: String, value: String },
    /// Read the package's environment file and inject each NAME=VALUE line.
    ReadEnvFile { path: String },
    /// Hand control to the user's closure.
    InvokeUserClosure,
}

/// The default environment the sandboxed child starts from.
pub fn sandbox_env_defaults() -> (r: Vec<(&'static str, &'static str)>)
    ensures
        r@.len() == 13,
        r@[0].0@ == "LD_LIBRARY_PATH"@ && r@[0].1@
            == "/usr/local/lib64:/usr/local/lib:/usr/lib64:/usr/lib:/lib64:/lib"@,
        r@[1].0@ == "LANGUAGE"@ && r@[1].1@ == "en_US"@,
        r@[2].0@ == "LC_ALL"@ && r@[2].1@ == "en_US.UTF-8"@,
        r@[3].0@ == "LC_ADDRESS"@ && r@[3].1@ == "en_US.UTF-8"@,
        r@[4].0@ == "LC_NAME"@ && r@[4].1@ == "en_US.UTF-8"@,
        r@[5].0@ == "LC_MONETARY"@ && r@[5].1@ == "en_US.UTF-8"@,
        r@[6].0@ == "LC_PAPER"@ && r@[6].1@ == "en_US.UTF-8"@,
        r@[7].0@ == "LC_IDENTIFIER"@ && r@[7].1@ == "en_US.UTF-8"@,
        r@[8].0@ == "LC_TELEPHONE"@ && r@[8].1@ == "en_US.UTF-8"@,
        r@[9].0@ == "LC_MEASUREMENT"@ && r@[9].1@ == "en_US.UTF-8"@,
        r@[10].0@ == "LC_TIME"@ && r@[10].1@ == "en_US.UTF-8"@,
        r@[11].0@ == "LC_NUMERIC"@ && r@[11].1@ == "en_US.UTF-8"@,
        r@[12].0@ == "LANG"@ && r@[12].1@ == "en_US.UTF-8"@,
{
    let mut r: Vec<(&'static str, &'static str)> = Vec::new();
    r.push(("LD_LIBRARY_PATH", "/usr/local/lib64:/usr/local/lib:/usr/lib64:/usr/lib:/lib64:/lib"));
    r.push(("LANGUAGE", "en_US"));
    r.push(("LC_ALL", "en_US.UTF-8"));
    r.push(("LC_ADDRESS", "en_US.UTF-8"));
    r.push(("LC_NAME", "en_US.UTF-8"));
    r.push(("LC_MONETARY", "en_US.UTF-8"));
    r.push(("LC_PAPER", "en_US.UTF-8"));
    r.push(("LC_IDENTIFIER", "en_US.UTF-8"));
    r.push(("LC_TELEPHONE", "en_US.UTF-8"));
    r.push(("LC_MEASUREMENT", "en_US.UTF-8"));
    r.push(("LC_TIME", "en_US.UTF-8"));
    r.push(("LC_NUMERIC", "en_US.UTF-8"));
    r.push(("LANG", "en_US.UTF-8"));
    r
}

/// Phase C, in the forked child: the steps, in order, that take it from
/// the worker mount namespace into the locked-down user root.  The
/// recursive self-bind of the overlay stands before the pivot: without it
/// the pivot fails under a user namespace.
pub fn sandbox_enter_plan(env_defaults: &Vec<(String, String)>) -> (r: Vec<IsolationStep>)
    ensures
        r@.len() == 9 + env_defaults@.len() + 2,
        r@[0] is UnshareAll,
        r@[1] is RaiseStop,
        r@[2] matches IsolationStep::SetUid { uid } && uid == 0u32,
        r@[3] matches IsolationStep::SetGid { gid } && gid == 0u32,
        r@[4] matches IsolationStep::BindSelfRecursive { path } && path@
            == "/tmp/worker/overlay"@,
        r@[5] matches IsolationStep::Chdir { path } && path@ == "/tmp/worker/overlay"@,
        r@[6] is PivotRoot,
        r@[7] is UmountDetachCurrent,
        r@[8] matches IsolationStep::Chdir { path } && path@ == "/"@,
        forall|k: int|
            0 <= k < env_defaults@.len() ==> (#[trigger] r@[9 + k]
                matches IsolationStep::SetEnv { name, value } && name@ == env_defaults@[k].0@
                && value@ == env_defaults@[k].1@),
        r@[9 + (env_defaults@.len() as int)] matches IsolationStep::ReadEnvFile { path } && path@
            == "/.sunwalker/env"@,
        r@[10 + (env_defaults@.len() as int)] is InvokeUserClosure,
{
    proof {
        reveal_strlit("/tmp/worker/overlay");
        reveal_strlit("/");
        reveal_strlit("/.sunwalker/env");
    }
    let mut r: Vec<IsolationStep> = Vec::new();
    r.push(IsolationStep::UnshareAll);
    r.push(IsolationStep::RaiseStop);
    r.push(IsolationStep::SetUid { uid: 0 });
    r.push(IsolationStep::SetGid { gid: 0 });
    r.push(IsolationStep::BindSelfRecursive { path: String::from_str("/tmp/worker/overlay") });
    r.push(IsolationStep::Chdir { path: String::from_str("/tmp/worker/overlay") });
    r.push(IsolationStep::PivotRoot);
    r.push(IsolationStep::UmountDetachCurrent);
    r.push(IsolationStep::Chdir { path: String::from_str("/") });
    let mut k: usize = 0;
    while k < env_defaults.len()
        invariant
            k <= env_defaults@.len(),
            r@.len() == 9 + k,
            r@[0] is UnshareAll,
            r@[1] is RaiseStop,
            r@[2] matches IsolationStep::SetUid { uid } && uid == 0u32,
            r@[3] matches IsolationStep::SetGid { gid } && gid == 0u32,
            r@[4] matches IsolationStep::BindSelfRecursive { path } && path@
                == "/tmp/worker/overlay"@,
            r@[5] matches IsolationStep::Chdir { path } && path@ == "/tmp/worker/overlay"@,
            r@[6] is PivotRoot,
            r@[7] is UmountDetachCurrent,
            r@[8] matches IsolationStep::Chdir { path } && path@ == "/"@,
            forall|j: int|
                0 <= j < k ==> (#[trigger] r@[9 + j] matches IsolationStep::SetEnv {
                    name,
                    value,
                } && name@ == env_defaults@[j].0@ && value@ == env_defaults@[j].1@),
        decreases env_defaults@.len() - k,
    {
        r.push(
            IsolationStep::SetEnv {
                name: env_defaults[k].0.clone(),
                value: env_defaults[k].1.clone(),
            },
        );
        k = k + 1;
    }
    r.push(IsolationStep::ReadEnvFile { path: String::from_str("/.sunwalker/env") });
    r.push(IsolationStep::InvokeUserClosure);
    r
}

/// The line written to a child's uid and gid map: root inside is the
/// unprivileged user outside.
pub fn id_map_contents() -> (r: &'static str)
    ensures
        r@ == "0 65534 1\n"@,
{
    "0 65534 1\n"
}

/// The line that disables setgroups before the gid map is written.
pub fn setgroups_contents() -> (r: &'static str)
    ensures
        r@ == "deny\n"@,
{
    "deny\n"
}

/// The path of a child's uid map.
pub fn proc_uid_map_path(pid: i32) -> (r: String)
    ensures
        r@ == "/proc/"@ + crate::strutil::dec_i32(pid) + "/uid_map"@,
{
    proof {
        reveal_strlit("/proc/");
        reveal_strlit("/uid_map");
    }
    let mut r = String::from_str("/proc/");
    let num = crate::strutil::i32_to_dec(pid);
    r.append(num.as_str());
    r.append("/uid_map");
    proof {
        assert(r@ =~= "/proc/"@ + crate::strutil::dec_i32(pid) + "/uid_map"@);
    }
    r
}

/// The path of a child's gid map.
pub fn proc_gid_map_path(pid: i32) -> (r: String)
    ensures
        r@ == "/proc/"@ + crate::strutil::dec_i32(pid) + "/gid_map"@,
{
    proof {
        reveal_strlit("/proc/");
        reveal_strlit("/gid_map");
    }
    let mut r = String::from_str("/proc/");
    let num = crate::strutil::i32_to_dec(pid);
    r.append(num.as_str());
    r.append("/gid_map");
    proof {
        assert(r@ =~= "/proc/"@ + crate::strutil::dec_i32(pid) + "/gid_map"@);
    }
    r
}

/// The path of a child's setgroups control file.
pub fn proc_setgroups_path(pid: i32) -> (r: String)
    ensures
        r@ == "/proc/"@ + crate::strutil::dec_i32(pid) + "/setgroups"@,
{
    proof {
        reveal_strlit("/proc/");
        reveal_strlit("/setgroups");
    }
    let mut r = String::from_str("/proc/");
    let num = crate::strutil::i32_to_dec(pid);
    r.append(num.as_str());
    r.append("/setgroups");
    proof {
        assert(r@ =~= "/proc/"@ + crate::strutil::dec_i32(pid) + "/setgroups"@);
    }
    r
}

} // verus!

verus! {

/// The mount target named by one line of the mount table: its second
/// space-separated field.
pub open spec fn mount_target(line: Seq<char>) -> Seq<char>
    recommends
        find_idx(line, ' ') >= 0,
{
    let rest = line.skip(find_idx(line, ' ') + 1);
    let sp2 = find_idx(rest, ' ');
    if sp2 < 0 {
        rest
    } else {
        rest.take(sp2)
    }
}

/// Whether a mount target lies under the overlay root.
pub open spec fn target_in_overlay(t: Seq<char>) -> bool {
    t.len() >= "/tmp/worker/overlay"@.len() && t.take("/tmp/worker/overlay"@.len() as int)
        == "/tmp/worker/overlay"@
}

/// Whether a mount-table line names a mount under the overlay root.
pub open spec fn overlay_line(line: Seq<char>) -> bool {
    find_idx(line, ' ') >= 0 && target_in_overlay(mount_target(line))
}

/// The targets of the overlay mounts, in mount-table order.
pub open spec fn overlay_targets(lines: Seq<String>) -> Seq<Seq<char>>
    decreases lines.len(),
{
    if lines.len() == 0 {
        Seq::<Seq<char>>::empty()
    } else {
        (if overlay_line(lines.first()@) {
            seq![mount_target(lines.first()@)]
        } else {
            Seq::<Seq<char>>::empty()
        }) + overlay_targets(lines.drop_first())
    }
}

pub proof fn lemma_overlay_targets_push(lines: Seq<String>, l: String)
    ensures
        overlay_targets(lines.push(l)) == overlay_targets(lines) + (if overlay_line(l@) {
            seq![mount_target(l@)]
        } else {
            Seq::<Seq<char>>::empty()
        }),
    decreases lines.len(),
{
    if lines.len() == 0 {
        assert(lines.push(l).drop_first() =~= Seq::<String>::empty());
        assert(lines.push(l).first() == l);
        assert(overlay_targets(Seq::<String>::empty()) == Seq::<Seq<char>>::empty());
        assert(overlay_targets(lines) == Seq::<Seq<char>>::empty());
        assert(overlay_targets(lines.push(l)) =~= overlay_targets(lines) + (if overlay_line(l@) {
            seq![mount_target(l@)]
        } else {
            Seq::<Seq<char>>::empty()
        }));
    } else {
        assert(lines.push(l).first() == lines.first());
        assert(lines.push(l).drop_first() =~= lines.drop_first().push(l));
        lemma_overlay_targets_push(lines.drop_first(), l);
        assert(overlay_targets(lines.push(l)) =~= overlay_targets(lines) + (if overlay_line(l@) {
            seq![mount_target(l@)]
        } else {
            Seq::<Seq<char>>::empty()
        }));
    }
}

/// A mount table that holds no overlay mounts yields an empty teardown
/// plan: tearing down a second time does nothing more.
pub proof fn lemma_teardown_idempotent(lines: Seq<String>)
    requires
        forall|i: int| 0 <= i < lines.len() ==> !overlay_line(#[trigger] lines[i]@),
    ensures
        overlay_targets(lines).len() == 0,
    decreases lines.len(),
{
    if lines.len() > 0 {
        assert(!overlay_line(lines[0]@));
        let t = lines.drop_first();
        assert forall|i: int| 0 <= i < t.len() implies !overlay_line(#[trigger] t[i]@) by {
            assert(t[i] == lines[i + 1]);
        }
        lemma_teardown_idempotent(t);
    }
}

/// Extract the mount target from one line of the mount table.
fn target_of_line(line: &str) -> (r: Option<String>)
    ensures
        r is Some <==> find_idx(line@, ' ') >= 0,
        r matches Some(t) ==> t@ == mount_target(line@),
{
    proof {
        lemma_find_idx(line@, ' ');
    }
    let sp = match find_char(line, ' ') {
        Some(sp) => {
            proof {
                let r = find_idx(line@, ' ');
                if r < 0 {
                    assert(line@[sp as int] != ' ');
                    assert(false);
                }
                if r < sp {
                    assert(line@[r] != ' ');
                    assert(false);
                }
                if r > sp {
                    assert(line@[sp as int] != ' ');
                    assert(false);
                }
            }
            sp
        },
        None => {
            proof {
                let r = find_idx(line@, ' ');
                if r >= 0 {
                    assert(line@[r] == ' ');
                    assert(false);
                }
            }
            return None;
        },
    };
    let n = line.unicode_len();
    let rest = line.substring_char(sp + 1, n);
    proof {
        assert(rest@ =~= line@.skip(sp + 1));
        lemma_find_idx(rest@, ' ');
    }
    match find_char(rest, ' ') {
        Some(sp2) => {
            proof {
                let r2 = find_idx(rest@, ' ');
                if r2 < 0 {
                    assert(rest@[sp2 as int] != ' ');
                    assert(false);
                }
                if r2 < sp2 {
                    assert(rest@[r2] != ' ');
                    assert(false);
                }
                if r2 > sp2 {
                    assert(rest@[sp2 as int] != ' ');
                    assert(false);
                }
            }
            let t = rest.substring_char(0, sp2);
            proof {
                assert(t@ =~= rest@.take(sp2 as int));
            }
            Some(String::from_str(t))
        },
        None => {
            proof {
                let r2 = find_idx(rest@, ' ');
                if r2 >= 0 {
                    assert(rest@[r2] == ' ');
                    assert(false);
                }
            }
            Some(String::from_str(rest))
        },
    }
}

/// Teardown: from the mount table, every mount under the overlay root, in
/// reverse mount order (deepest first).  A malformed table line is a
/// sandbox-setup error.
pub fn unmount_plan(lines: &Vec<String>) -> (r: Result<Vec<String>, Error>)
    ensures
        r is Ok <==> (forall|i: int|
            0 <= i < lines@.len() ==> find_idx(#[trigger] lines@[i]@, ' ') >= 0),
        r matches Ok(v) ==> v@.len() == overlay_targets(lines@).len() && (forall|i: int|
            0 <= i < v@.len() ==> (#[trigger] v@[i]@) == overlay_targets(lines@)[v@.len() - 1
                - i]),
        r matches Err(e) ==> (e matches Error::SandboxSetup(m) && m@
            == "Invalid format of /proc/self/mounts"@),
{
    proof {
        reveal_strlit("Invalid format of /proc/self/mounts");
        reveal_strlit("/tmp/worker/overlay");
    }
    let mut fwd: Vec<String> = Vec::new();
    let mut i: usize = 0;
    while i < lines.len()
        invariant
            i <= lines@.len(),
            forall|j: int| 0 <= j < i ==> find_idx(#[trigger] lines@[j]@, ' ') >= 0,
            fwd@.len() == overlay_targets(lines@.take(i as int)).len(),
            forall|j: int|
                0 <= j < fwd@.len() ==> (#[trigger] fwd@[j]@) == overlay_targets(
                    lines@.take(i as int),
                )[j],
        decreases lines@.len() - i,
    {
        proof {
            lemma_overlay_targets_push(lines@.take(i as int), lines@[i as int]);
            assert(lines@.take(i + 1) =~= lines@.take(i as int).push(lines@[i as int]));
        }
        match target_of_line(lines[i].as_str()) {
            Some(t) => {
                if str_starts_with(t.as_str(), "/tmp/worker/overlay") {
                    proof {
                        assert(overlay_line(lines@[i as int]@));
                    }
                    fwd.push(t);
                    proof {
                        let ot = overlay_targets(lines@.take(i + 1));
                        assert(ot == overlay_targets(lines@.take(i as int)) + seq![
                            mount_target(lines@[i as int]@),
                        ]);
                        assert(forall|j: int|
                            0 <= j < fwd@.len() ==> (#[trigger] fwd@[j]@) == ot[j]);
                    }
                } else {
                    proof {
                        assert(!overlay_line(lines@[i as int]@));
                        assert(overlay_targets(lines@.take(i + 1)) =~= overlay_targets(
                            lines@.take(i as int),
                        ));
                    }
                }
            },
            None => {
                return Err(
                    Error::SandboxSetup(String::from_str("Invalid format of /proc/self/mounts")),
                );
            },
        }
        i = i + 1;
    }
    proof {
        assert(lines@.take(lines@.len() as int) =~= lines@);
    }
    let mut out: Vec<String> = Vec::new();
    let total = fwd.len();
    let mut k: usize = 0;
    while k < total
        invariant
            k <= total,
            total == fwd@.len(),
            fwd@.len() == overlay_targets(lines@).len(),
            forall|j: int|
                0 <= j < fwd@.len() ==> (#[trigger] fwd@[j]@) == overlay_targets(lines@)[j],
            out@.len() == k,
            forall|j: int|
                0 <= j < k ==> (#[trigger] out@[j]@) == overlay_targets(lines@)[fwd@.len() - 1
                    - j],
        decreases total - k,
    {
        out.push(fwd[total - 1 - k].clone());
        k = k + 1;
    }
    Ok(out)
}

} // verus!
