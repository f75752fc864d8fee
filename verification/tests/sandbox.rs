use sunwalker_invoker::errors::Error;
use sunwalker_invoker::image::{ImageConfig, LanguageConfig, MountedImage, PackageConfig};
use sunwalker_invoker::package::{
    id_map_contents, make_sandbox_plan, make_worker_tmp_plan, parse_env_line, proc_uid_map_path,
    sandbox_enter_plan, sandbox_env_defaults, setgroups_contents, tmpfs_options, unmount_plan,
    IsolationStep, Package, SandboxConfig, SandboxStep,
};

fn demo_config() -> SandboxConfig {
    SandboxConfig {
        max_size_in_bytes: 32 * 1024 * 1024,
        max_inodes: 1024,
        bound_files: vec![(String::from("/artifacts/prog"), String::from("/space/prog"))],
    }
}

#[test]
fn tmpfs_options_render() {
    assert_eq!(tmpfs_options(&demo_config()), "size=33554432,nr_inodes=1024");
}

#[test]
fn worker_tmp_plan_mounts_tmpfs() {
    let plan = make_worker_tmp_plan(&demo_config());
    assert_eq!(plan.len(), 2);
    assert!(matches!(plan[0], SandboxStep::UnshareMountNamespace));
    match &plan[1] {
        SandboxStep::MountTmpfs { target, options } => {
            assert_eq!(target, "/tmp/worker");
            assert_eq!(options, "size=33554432,nr_inodes=1024");
        }
        _ => panic!("expected the tmpfs mount"),
    }
}

#[test]
fn sandbox_plan_binds_prerequisite_read_only() {
    let plan = make_sandbox_plan("/mnt/image", "gcc", &demo_config());
    assert_eq!(plan.len(), 10);
    match &plan[3] {
        SandboxStep::MountOverlay { target, options } => {
            assert_eq!(target, "/tmp/worker/overlay");
            assert_eq!(
                options,
                "lowerdir=/mnt/image/gcc,upperdir=/tmp/worker/user-area,workdir=/tmp/worker/work"
            );
        }
        _ => panic!("expected the overlay mount"),
    }
    match &plan[5] {
        SandboxStep::WriteEmptyFile { path } => {
            assert_eq!(path, "/tmp/worker/overlay/space/prog")
        }
        _ => panic!("expected the bind target file"),
    }
    match &plan[6] {
        SandboxStep::BindMountReadOnly { source, target } => {
            assert_eq!(source, "/artifacts/prog");
            assert_eq!(target, "/tmp/worker/overlay/space/prog");
        }
        _ => panic!("expected the read-only bind"),
    }
    match &plan[9] {
        SandboxStep::Chown { path, uid, gid } => {
            assert_eq!(path, "/tmp/worker/overlay/space");
            assert_eq!((*uid, *gid), (65534, 65534));
        }
        _ => panic!("expected the chown"),
    }
}

#[test]
fn enter_plan_binds_overlay_before_pivot() {
    let defaults: Vec<(String, String)> = sandbox_env_defaults()
        .iter()
        .map(|(n, v)| (String::from(*n), String::from(*v)))
        .collect();
    let plan = sandbox_enter_plan(&defaults);
    assert_eq!(plan.len(), 24);
    // The recursive self-bind defeats the kernel's lock on the overlay; it
    // must come before the pivot.
    match &plan[4] {
        IsolationStep::BindSelfRecursive { path } => assert_eq!(path, "/tmp/worker/overlay"),
        _ => panic!("expected the self bind"),
    }
    assert!(matches!(plan[6], IsolationStep::PivotRoot));
    match &plan[9] {
        IsolationStep::SetEnv { name, value } => {
            assert_eq!(name, "LD_LIBRARY_PATH");
            assert_eq!(value, "/usr/local/lib64:/usr/local/lib:/usr/lib64:/usr/lib:/lib64:/lib");
        }
        _ => panic!("expected the first default"),
    }
    match &plan[22] {
        IsolationStep::ReadEnvFile { path } => assert_eq!(path, "/.sunwalker/env"),
        _ => panic!("expected the env file read"),
    }
    assert!(matches!(plan[23], IsolationStep::InvokeUserClosure));
}

#[test]
fn id_maps() {
    assert_eq!(id_map_contents(), "0 65534 1\n");
    assert_eq!(setgroups_contents(), "deny\n");
    assert_eq!(proc_uid_map_path(1234), "/proc/1234/uid_map");
}

#[test]
fn env_lines() {
    assert_eq!(
        parse_env_line("PATH=/usr/bin"),
        Some((String::from("PATH"), String::from("/usr/bin")))
    );
    assert_eq!(parse_env_line("EMPTY="), Some((String::from("EMPTY"), String::new())));
    assert_eq!(
        parse_env_line("A=b=c"),
        Some((String::from("A"), String::from("b=c")))
    );
    assert_eq!(parse_env_line("novalue"), None);
}

#[test]
fn teardown_is_reverse_and_idempotent() {
    let lines = vec![
        String::from("tmpfs /tmp/worker tmpfs rw 0 0"),
        String::from("overlay /tmp/worker/overlay overlay rw 0 0"),
        String::from("none /tmp/worker/overlay/dev tmpfs ro 0 0"),
        String::from("none /tmp/worker/overlay/space/prog tmpfs ro 0 0"),
    ];
    let plan = unmount_plan(&lines).unwrap();
    assert_eq!(plan, vec![
        String::from("/tmp/worker/overlay/space/prog"),
        String::from("/tmp/worker/overlay/dev"),
        String::from("/tmp/worker/overlay"),
    ]);
    // After the teardown only the worker tmpfs remains: a second run finds
    // nothing left to unmount.
    let remaining = vec![String::from("tmpfs /tmp/worker tmpfs rw 0 0")];
    let second = unmount_plan(&remaining).unwrap();
    assert!(second.is_empty());
}

#[test]
fn malformed_mount_line_is_an_error() {
    let lines = vec![String::from("nonsense")];
    match unmount_plan(&lines) {
        Err(Error::SandboxSetup(m)) => assert_eq!(m, "Invalid format of /proc/self/mounts"),
        _ => panic!("expected a sandbox setup error"),
    }
}

#[test]
fn package_lookup() {
    let image = MountedImage {
        mountpoint: String::from("/mnt/image"),
        config: ImageConfig {
            packages: vec![(
                String::from("gcc"),
                PackageConfig {
                    languages: vec![(String::from("c++"), LanguageConfig {})],
                },
            )],
        },
    };
    let pkg = Package::new(&image, "gcc").ok().unwrap();
    assert!(pkg.get_language("c++").is_ok());
    match pkg.get_language("rust") {
        Err(Error::ConfigurationFailure(m)) => {
            assert_eq!(m, "Package does not provide language rust")
        }
        _ => panic!("expected a configuration failure"),
    }
    match Package::new(&image, "clang") {
        Err(Error::ConfigurationFailure(m)) => {
            assert_eq!(m, "Image does not contain package clang")
        }
        _ => panic!("expected a configuration failure"),
    }
}
