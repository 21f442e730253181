use cargo_careful::digits::encode_dec;
use cargo_careful::driver::{BuildMode, BuildPlan, OutEntry, SimBuilder};
use cargo_careful::fsmodel::{MemFs, Node};
use cargo_careful::sysroot::{BuildError, Sysroot, ToolchainInfo};

fn path(parts: &[&str]) -> Vec<String> {
    parts.iter().map(|s| s.to_string()).collect()
}

fn seeded_fs() -> MemFs {
    let mut fs = MemFs::new();
    fs.set_file(&path(&["src", "Cargo.lock"]), "lock-contents".to_string());
    fs
}

fn artifacts() -> BuildPlan {
    BuildPlan::Artifacts(vec![
        OutEntry { name: "libstd.rlib".to_string(), node: Node::File("STD".to_string()) },
        OutEntry { name: "libtest.rlib".to_string(), node: Node::File("TEST".to_string()) },
    ])
}

fn lib_dir() -> Vec<String> {
    path(&["root", "lib", "rustlib", "tgt", "lib"])
}

fn lib_file(name: &str) -> Vec<String> {
    let mut p = lib_dir();
    p.push(name.to_string());
    p
}

fn commit(c: &str) -> ToolchainInfo {
    ToolchainInfo { commit_hash: Some(c.to_string()) }
}

#[test]
fn end_to_end_first_build_installs_artifacts_and_fingerprint() {
    let mut fs = seeded_fs();
    let mut builder = SimBuilder::new(artifacts());
    let sysroot = Sysroot::new(&path(&["root"]), "tgt");
    let src = path(&["src", "rust-src"]);
    let info = commit("abc123");

    let r = sysroot.build_from_source(&mut fs, &src, BuildMode::Build, &info, &mut builder);
    assert!(r.is_ok());
    assert_eq!(builder.runs, 1);

    // The installed directory holds exactly the copied artifacts plus
    // the fingerprint file with the decimal value of the fingerprint.
    assert_eq!(fs.read_file(&lib_file("libstd.rlib")), Some("STD".to_string()));
    assert_eq!(fs.read_file(&lib_file("libtest.rlib")), Some("TEST".to_string()));
    let fp = sysroot.sysroot_compute_hash(&src, &info);
    assert_eq!(fs.read_file(&lib_file(".cargo-careful-hash")), Some(encode_dec(fp)));

    // Round trip: the persisted fingerprint reads back exactly.
    assert_eq!(sysroot.sysroot_read_hash(&fs), Some(fp));

    // The scratch workspace was cleaned up.
    assert!(!fs.contains_path(&path(&["tmp", "cargo-careful-0"])));
}

#[test]
fn second_call_is_a_no_op_without_invoking_the_driver() {
    let mut fs = seeded_fs();
    let mut builder = SimBuilder::new(artifacts());
    let sysroot = Sysroot::new(&path(&["root"]), "tgt");
    let src = path(&["src", "rust-src"]);
    let info = commit("abc123");

    assert!(sysroot.build_from_source(&mut fs, &src, BuildMode::Build, &info, &mut builder).is_ok());
    assert_eq!(builder.runs, 1);
    let installed = fs.read_file(&lib_file("libstd.rlib"));

    let r = sysroot.build_from_source(&mut fs, &src, BuildMode::Build, &info, &mut builder);
    assert!(r.is_ok());
    assert_eq!(builder.runs, 1, "cached call must not invoke the build driver");
    assert_eq!(fs.read_file(&lib_file("libstd.rlib")), installed);
}

#[test]
fn changed_toolchain_identity_forces_a_rebuild() {
    let mut fs = seeded_fs();
    let mut builder = SimBuilder::new(artifacts());
    let sysroot = Sysroot::new(&path(&["root"]), "tgt");
    let src = path(&["src", "rust-src"]);

    assert!(sysroot
        .build_from_source(&mut fs, &src, BuildMode::Build, &commit("abc123"), &mut builder)
        .is_ok());
    assert_eq!(builder.runs, 1);

    assert!(sysroot
        .build_from_source(&mut fs, &src, BuildMode::Build, &commit("def456"), &mut builder)
        .is_ok());
    assert_eq!(builder.runs, 2, "a new toolchain commit must force a rebuild");
}

#[test]
fn changed_source_directory_forces_a_rebuild() {
    let mut fs = seeded_fs();
    fs.set_file(&path(&["other", "Cargo.lock"]), "lock-contents".to_string());
    let mut builder = SimBuilder::new(artifacts());
    let sysroot = Sysroot::new(&path(&["root"]), "tgt");
    let info = commit("abc123");

    assert!(sysroot
        .build_from_source(&mut fs, &path(&["src", "rust-src"]), BuildMode::Build, &info, &mut builder)
        .is_ok());
    assert!(sysroot
        .build_from_source(&mut fs, &path(&["other", "rust-src"]), BuildMode::Build, &info, &mut builder)
        .is_ok());
    assert_eq!(builder.runs, 2, "a new source directory must force a rebuild");
}

#[test]
fn failed_removal_of_stale_installation_preserves_it_byte_for_byte() {
    let mut fs = seeded_fs();
    // Pre-seed a fake installed directory with stale contents.
    fs.mkdir(&lib_dir());
    fs.set_file(&lib_file("old.rlib"), "OLD".to_string());
    fs.set_file(&lib_file(".cargo-careful-hash"), "999".to_string());
    fs.set_fail_remove(true);

    let mut builder = SimBuilder::new(artifacts());
    let sysroot = Sysroot::new(&path(&["root"]), "tgt");
    let r = sysroot.build_from_source(
        &mut fs,
        &path(&["src", "rust-src"]),
        BuildMode::Build,
        &commit("abc123"),
        &mut builder,
    );
    assert_eq!(r, Err(BuildError::CleanTarget));
    assert_eq!(fs.read_file(&lib_file("old.rlib")), Some("OLD".to_string()));
    assert_eq!(fs.read_file(&lib_file(".cargo-careful-hash")), Some("999".to_string()));
}

#[test]
fn failed_install_rename_leaves_the_documented_indeterminate_state() {
    let mut fs = seeded_fs();
    fs.mkdir(&lib_dir());
    fs.set_file(&lib_file("old.rlib"), "OLD".to_string());
    fs.set_fail_rename(true);

    let mut builder = SimBuilder::new(artifacts());
    let sysroot = Sysroot::new(&path(&["root"]), "tgt");
    let r = sysroot.build_from_source(
        &mut fs,
        &path(&["src", "rust-src"]),
        BuildMode::Build,
        &commit("abc123"),
        &mut builder,
    );
    assert_eq!(r, Err(BuildError::InstallRename));
    // The stale installation was already removed: the target is absent.
    assert!(!fs.contains_path(&lib_file("old.rlib")));
    assert!(!fs.contains_path(&lib_dir()));
    // Everything outside the installation path is untouched.
    assert_eq!(
        fs.read_file(&path(&["src", "Cargo.lock"])),
        Some("lock-contents".to_string())
    );
    assert!(!fs.contains_path(&path(&["root", "cargo-careful-1"])));
}

#[test]
fn directory_in_build_output_fails_before_touching_the_installation() {
    let mut fs = seeded_fs();
    fs.mkdir(&lib_dir());
    fs.set_file(&lib_file("old.rlib"), "OLD".to_string());

    let mut builder = SimBuilder::new(BuildPlan::Artifacts(vec![
        OutEntry { name: "libstd.rlib".to_string(), node: Node::File("STD".to_string()) },
        OutEntry { name: "incremental".to_string(), node: Node::Dir },
    ]));
    let sysroot = Sysroot::new(&path(&["root"]), "tgt");
    let r = sysroot.build_from_source(
        &mut fs,
        &path(&["src", "rust-src"]),
        BuildMode::Build,
        &commit("abc123"),
        &mut builder,
    );
    assert_eq!(r, Err(BuildError::StagingViolation));
    // The pre-seeded installation is byte-for-byte unchanged.
    assert_eq!(fs.read_file(&lib_file("old.rlib")), Some("OLD".to_string()));
    // No staging or workspace residue is left behind.
    assert!(!fs.contains_path(&path(&["root", "cargo-careful-1"])));
    assert!(!fs.contains_path(&path(&["tmp", "cargo-careful-0"])));
}

#[test]
fn missing_lock_file_is_fatal_and_leaves_no_trace() {
    let mut fs = MemFs::new();
    let mut builder = SimBuilder::new(artifacts());
    let sysroot = Sysroot::new(&path(&["root"]), "tgt");
    let r = sysroot.build_from_source(
        &mut fs,
        &path(&["src", "rust-src"]),
        BuildMode::Build,
        &commit("abc123"),
        &mut builder,
    );
    assert_eq!(r, Err(BuildError::Lockfile));
    assert_eq!(builder.runs, 0);
    assert!(!fs.contains_path(&path(&["tmp", "cargo-careful-0"])));
}

#[test]
fn driver_launch_failure_is_fatal() {
    let mut fs = seeded_fs();
    let mut builder = SimBuilder::new(BuildPlan::LaunchFailure);
    let sysroot = Sysroot::new(&path(&["root"]), "tgt");
    let r = sysroot.build_from_source(
        &mut fs,
        &path(&["src", "rust-src"]),
        BuildMode::Build,
        &commit("abc123"),
        &mut builder,
    );
    assert_eq!(r, Err(BuildError::BuildLaunch));
    assert_eq!(builder.runs, 1);
    assert!(!fs.contains_path(&lib_dir()));
}

#[test]
fn driver_exit_failure_is_fatal_and_installs_nothing() {
    let mut fs = seeded_fs();
    let mut builder = SimBuilder::new(BuildPlan::ExitFailure);
    let sysroot = Sysroot::new(&path(&["root"]), "tgt");
    let r = sysroot.build_from_source(
        &mut fs,
        &path(&["src", "rust-src"]),
        BuildMode::Build,
        &commit("abc123"),
        &mut builder,
    );
    assert_eq!(r, Err(BuildError::BuildFailed));
    assert_eq!(builder.runs, 1);
    assert!(!fs.contains_path(&lib_dir()));
}

#[test]
fn occupied_workspace_path_is_a_workspace_error() {
    let mut fs = seeded_fs();
    fs.set_file(&path(&["tmp", "cargo-careful-0"]), "squatter".to_string());
    let mut builder = SimBuilder::new(artifacts());
    let sysroot = Sysroot::new(&path(&["root"]), "tgt");
    let r = sysroot.build_from_source(
        &mut fs,
        &path(&["src", "rust-src"]),
        BuildMode::Build,
        &commit("abc123"),
        &mut builder,
    );
    assert_eq!(r, Err(BuildError::WorkspaceDir));
    assert_eq!(builder.runs, 0);
}

#[test]
fn occupied_staging_path_is_a_staging_error() {
    let mut fs = seeded_fs();
    fs.set_file(&path(&["root", "cargo-careful-1"]), "squatter".to_string());
    let mut builder = SimBuilder::new(artifacts());
    let sysroot = Sysroot::new(&path(&["root"]), "tgt");
    let r = sysroot.build_from_source(
        &mut fs,
        &path(&["src", "rust-src"]),
        BuildMode::Build,
        &commit("abc123"),
        &mut builder,
    );
    assert_eq!(r, Err(BuildError::StagingDir));
    assert_eq!(builder.runs, 1);
    assert!(!fs.contains_path(&lib_dir()));
}

#[test]
fn file_on_the_installation_path_is_a_target_dir_error() {
    let mut fs = seeded_fs();
    fs.set_file(&path(&["root", "lib"]), "not a directory".to_string());
    let mut builder = SimBuilder::new(artifacts());
    let sysroot = Sysroot::new(&path(&["root"]), "tgt");
    let r = sysroot.build_from_source(
        &mut fs,
        &path(&["src", "rust-src"]),
        BuildMode::Build,
        &commit("abc123"),
        &mut builder,
    );
    assert_eq!(r, Err(BuildError::TargetDir));
    assert_eq!(
        fs.read_file(&path(&["root", "lib"])),
        Some("not a directory".to_string())
    );
}

#[test]
fn corrupt_fingerprint_file_means_rebuild() {
    let mut fs = seeded_fs();
    let mut builder = SimBuilder::new(artifacts());
    let sysroot = Sysroot::new(&path(&["root"]), "tgt");
    let src = path(&["src", "rust-src"]);
    let info = commit("abc123");

    assert!(sysroot.build_from_source(&mut fs, &src, BuildMode::Build, &info, &mut builder).is_ok());
    assert_eq!(builder.runs, 1);

    // Corrupt the persisted fingerprint: the reader soft-fails and the
    // next call rebuilds.
    fs.set_file(&lib_file(".cargo-careful-hash"), "not a number".to_string());
    assert_eq!(sysroot.sysroot_read_hash(&fs), None);
    assert!(sysroot.build_from_source(&mut fs, &src, BuildMode::Build, &info, &mut builder).is_ok());
    assert_eq!(builder.runs, 2);
}

#[test]
fn check_mode_is_passed_to_the_driver() {
    let mut fs = seeded_fs();
    let mut builder = SimBuilder::new(artifacts());
    let sysroot = Sysroot::new(&path(&["root"]), "tgt");
    let r = sysroot.build_from_source(
        &mut fs,
        &path(&["src", "rust-src"]),
        BuildMode::Check,
        &commit("abc123"),
        &mut builder,
    );
    assert!(r.is_ok());
    assert_eq!(builder.last_mode, Some(BuildMode::Check));
}

#[test]
fn missing_commit_hash_still_fingerprints_and_builds() {
    let mut fs = seeded_fs();
    let mut builder = SimBuilder::new(artifacts());
    let sysroot = Sysroot::new(&path(&["root"]), "tgt");
    let src = path(&["src", "rust-src"]);
    let info = ToolchainInfo { commit_hash: None };

    assert!(sysroot.build_from_source(&mut fs, &src, BuildMode::Build, &info, &mut builder).is_ok());
    assert_eq!(builder.runs, 1);
    assert_eq!(sysroot.sysroot_read_hash(&fs), Some(sysroot.sysroot_compute_hash(&src, &info)));

    // A commit appearing later changes the fingerprint.
    assert!(sysroot
        .build_from_source(&mut fs, &src, BuildMode::Build, &commit("abc123"), &mut builder)
        .is_ok());
    assert_eq!(builder.runs, 2);
}

#[test]
fn empty_artifact_set_installs_only_the_fingerprint() {
    let mut fs = seeded_fs();
    let mut builder = SimBuilder::new(BuildPlan::Artifacts(vec![]));
    let sysroot = Sysroot::new(&path(&["root"]), "tgt");
    let r = sysroot.build_from_source(
        &mut fs,
        &path(&["src", "rust-src"]),
        BuildMode::Build,
        &commit("abc123"),
        &mut builder,
    );
    assert!(r.is_ok());
    // An empty artifact set installs just the fingerprint file.
    assert!(fs.contains_path(&lib_file(".cargo-careful-hash")));
    assert!(!fs.contains_path(&lib_file("libstd.rlib")));
}

#[test]
fn errors_describe_their_failure() {
    assert_eq!(BuildError::BuildFailed.describe(), "sysroot build failed");
    assert_eq!(BuildError::Lockfile.describe(), "failed to copy lockfile");
    assert_eq!(
        BuildError::StagingViolation.describe(),
        "cargo out dir must not contain directories"
    );
    assert_eq!(BuildError::InstallRename.describe(), "failed installing sysroot");
}
