use cargo_careful::digits::{encode_dec, parse_dec_str};
use cargo_careful::fingerprint::{
    compute_fingerprint, FNV_OFFSET, FNV_PRIME, TAG_COMMIT, TAG_COMPONENT, TAG_NO_COMMIT,
};
use cargo_careful::fsmodel::{MemFs, Node};
use cargo_careful::manifest::{generate_manifest, render_path};

fn path(parts: &[&str]) -> Vec<String> {
    parts.iter().map(|s| s.to_string()).collect()
}

#[test]
fn decimal_encoding_exact_values() {
    assert_eq!(encode_dec(0), "0");
    assert_eq!(encode_dec(7), "7");
    assert_eq!(encode_dec(10), "10");
    assert_eq!(encode_dec(12345), "12345");
    assert_eq!(encode_dec(u64::MAX), "18446744073709551615");
}

#[test]
fn decimal_parsing_exact_values_and_rejections() {
    assert_eq!(parse_dec_str("0"), Some(0));
    assert_eq!(parse_dec_str("12345"), Some(12345));
    assert_eq!(parse_dec_str("018"), Some(18));
    assert_eq!(parse_dec_str("18446744073709551615"), Some(u64::MAX));
    assert_eq!(parse_dec_str(""), None);
    assert_eq!(parse_dec_str("4a"), None);
    assert_eq!(parse_dec_str("-3"), None);
    assert_eq!(parse_dec_str("18446744073709551616"), None);
    assert_eq!(parse_dec_str("99999999999999999999999"), None);
}

#[test]
fn decimal_round_trip_samples() {
    for n in [0u64, 1, 9, 10, 99, 100, 4096, 1u64 << 63, u64::MAX] {
        assert_eq!(parse_dec_str(&encode_dec(n)), Some(n));
    }
}

#[test]
fn fingerprint_exact_value_for_empty_inputs() {
    // One component-free path and no commit: offset, then the no-commit tag.
    let expected = (FNV_OFFSET ^ TAG_NO_COMMIT).wrapping_mul(FNV_PRIME);
    assert_eq!(compute_fingerprint(&path(&[]), &None), expected);
}

#[test]
fn fingerprint_exact_value_for_one_component() {
    // One component "a", commit tag, commit "b".
    let mut h = FNV_OFFSET;
    h = (h ^ ('a' as u64)).wrapping_mul(FNV_PRIME);
    h = (h ^ TAG_COMPONENT).wrapping_mul(FNV_PRIME);
    h = (h ^ TAG_COMMIT).wrapping_mul(FNV_PRIME);
    h = (h ^ ('b' as u64)).wrapping_mul(FNV_PRIME);
    assert_eq!(compute_fingerprint(&path(&["a"]), &Some("b".to_string())), h);
}

#[test]
fn fingerprint_distinguishes_inputs() {
    let src = path(&["src", "rust-src"]);
    let a = compute_fingerprint(&src, &Some("abc123".to_string()));
    let b = compute_fingerprint(&src, &Some("def456".to_string()));
    let c = compute_fingerprint(&path(&["elsewhere", "rust-src"]), &Some("abc123".to_string()));
    let d = compute_fingerprint(&src, &None);
    assert_eq!(a, compute_fingerprint(&src, &Some("abc123".to_string())));
    assert_ne!(a, b);
    assert_ne!(a, c);
    assert_ne!(a, d);
}

#[test]
fn rendered_paths_join_components_with_slashes() {
    assert_eq!(render_path(&path(&[])), "");
    assert_eq!(render_path(&path(&["a"])), "a");
    assert_eq!(render_path(&path(&["a", "b", "c"])), "a/b/c");
}

#[test]
fn generated_manifest_exact_text() {
    let m = generate_manifest(&path(&["srcdir"]));
    let expected = "[package]\nauthors = [\"The Rust Project Developers\"]\nname = \"sysroot\"\nversion = \"0.0.0\"\n\n[lib]\npath = \"lib.rs\"\n\n[dependencies.std]\nfeatures = [\"panic_unwind\", \"backtrace\"]\npath = \"srcdir/std\"\n[dependencies.test]\npath = \"srcdir/test\"\n\n[patch.crates-io.rustc-std-workspace-core]\npath = \"srcdir/rustc-std-workspace-core\"\n[patch.crates-io.rustc-std-workspace-alloc]\npath = \"srcdir/rustc-std-workspace-alloc\"\n[patch.crates-io.rustc-std-workspace-std]\npath = \"srcdir/rustc-std-workspace-std\"\n";
    assert_eq!(m, expected);
}

#[test]
fn filesystem_model_basic_operations() {
    let mut fs = MemFs::new();
    let f = path(&["a", "b"]);
    assert!(!fs.contains_path(&f));
    assert_eq!(fs.read_file(&f), None);
    fs.set_file(&f, "one".to_string());
    assert_eq!(fs.read_file(&f), Some("one".to_string()));
    fs.set_file(&f, "two".to_string());
    assert_eq!(fs.read_file(&f), Some("two".to_string()));
    fs.mkdir(&path(&["a", "c"]));
    assert!(fs.contains_path(&path(&["a", "c"])));
    assert_eq!(fs.read_file(&path(&["a", "c"])), None);
}

#[test]
fn filesystem_model_rename_moves_a_subtree() {
    let mut fs = MemFs::new();
    fs.mkdir(&path(&["from"]));
    fs.set_file(&path(&["from", "x"]), "X".to_string());
    fs.set_file(&path(&["to", "stale"]), "S".to_string());
    fs.set_file(&path(&["other"]), "O".to_string());
    assert!(fs.rename_subtree(&path(&["from"]), &path(&["to"])).is_ok());
    assert_eq!(fs.read_file(&path(&["to", "x"])), Some("X".to_string()));
    assert!(!fs.contains_path(&path(&["from"])));
    assert!(!fs.contains_path(&path(&["to", "stale"])));
    assert_eq!(fs.read_file(&path(&["other"])), Some("O".to_string()));
}

#[test]
fn filesystem_model_scratch_directories_are_counted() {
    let mut fs = MemFs::new();
    let a = fs.create_temp_dir(&path(&["tmp"]), "cargo-careful");
    assert_eq!(a, Some(path(&["tmp", "cargo-careful-0"])));
    let b = fs.create_temp_dir(&path(&["tmp"]), "cargo-careful");
    assert_eq!(b, Some(path(&["tmp", "cargo-careful-1"])));
    // An occupied candidate is refused.
    let mut fs2 = MemFs::new();
    fs2.set_file(&path(&["tmp", "cargo-careful-0", "x"]), "X".to_string());
    assert_eq!(fs2.create_temp_dir(&path(&["tmp"]), "cargo-careful"), None);
}

#[test]
fn filesystem_model_read_dir_lists_children() {
    let mut fs = MemFs::new();
    fs.mkdir(&path(&["d"]));
    fs.set_file(&path(&["d", "a"]), "A".to_string());
    fs.set_file(&path(&["d", "b"]), "B".to_string());
    fs.set_file(&path(&["d", "deep", "c"]), "C".to_string());
    let mut names = fs.read_dir(&path(&["d"]));
    names.sort();
    // Only direct children are listed; the model has no entry for the
    // intermediate "deep" path itself, and grandchildren do not appear.
    assert_eq!(names, vec!["a".to_string(), "b".to_string()]);
}

#[test]
fn node_clone_in_plans() {
    // Artifact entries carry plain nodes; a File keeps its contents.
    let e = Node::File("payload".to_string());
    match e {
        Node::File(s) => assert_eq!(s, "payload"),
        Node::Dir => unreachable!(),
    }
}
