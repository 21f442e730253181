//! The sysroot cache-and-install protocol.
//!
//! A `Sysroot` locates one installation: a root directory and a target
//! platform name.  `build_from_source` decides from the persisted
//! fingerprint whether the installation is current; if not it builds in
//! an isolated scratch workspace, stages the artifacts next to the
//! installation, and promotes the staging directory with one rename.
//! The whole protocol is a function of the starting filesystem value,
//! the build inputs and the driver's scripted behaviour; `build_spec`
//! is that function, and `build_from_source` is proved to realise it.

use vstd::prelude::*;
use crate::digits::{parse_dec, parse_dec_str, dec_chars, encode_dec};
use crate::fingerprint::{fingerprint_of, compute_fingerprint};
use crate::fsmodel::{
    MemFs,
    FsV,
    NodeV,
    next_counter,
    temp_name,
    nothing_under,
    remove_prefixed,
    rename_map,
    same_admin,
};
use crate::paths::{
    starts_with,
    lemma_path_index,
    lemma_path_len,
    path_push,
    path_clone,
    path_parent,
};
use crate::driver::{SimBuilder, BuildMode, BuildPlanV, RunStatus, apply_plan};
use crate::manifest::{generate_manifest, manifest_text};

verus! {

/// The toolchain identity a build is fingerprinted against: its commit
/// hash, when the toolchain reports one.
pub struct ToolchainInfo {
    pub commit_hash: Option<String>,
}

/// The mathematical value of a sysroot locator.
pub struct SysrootV {
    pub dir: Seq<Seq<char>>,
    pub target: Seq<char>,
}

/// A sysroot installation location: root directory plus target platform.
pub struct Sysroot {
    sysroot_dir: Vec<String>,
    target: String,
}

impl View for Sysroot {
    type V = SysrootV;

    closed spec fn view(&self) -> SysrootV {
        SysrootV { dir: self.sysroot_dir.deep_view(), target: self.target@ }
    }
}

/// The per-target directory under the installation root.
pub open spec fn target_dir_of(s: SysrootV) -> Seq<Seq<char>> {
    s.dir.push("lib"@).push("rustlib"@).push(s.target)
}

/// The installed library directory, the unit the protocol replaces.
pub open spec fn lib_dir_of(s: SysrootV) -> Seq<Seq<char>> {
    target_dir_of(s).push("lib"@)
}

/// The path of the persisted fingerprint file.
pub open spec fn hash_file_of(s: SysrootV) -> Seq<Seq<char>> {
    lib_dir_of(s).push(".cargo-careful-hash"@)
}

/// The root of the scratch area where build workspaces are created.
pub open spec fn scratch_root() -> Seq<Seq<char>> {
    Seq::empty().push("tmp"@)
}

/// What reading the persisted fingerprint yields: the parsed value of
/// the fingerprint file, or nothing on any missing, unreadable or
/// corrupt state.
pub open spec fn read_hash_spec(m: Map<Seq<Seq<char>>, NodeV>, s: SysrootV) -> Option<u64> {
    if m.dom().contains(hash_file_of(s)) {
        match m[hash_file_of(s)] {
            NodeV::File(c) => parse_dec(c),
            NodeV::Dir => None,
        }
    } else {
        None
    }
}

/// Why a build-and-install operation failed.
#[derive(Clone, Copy, Debug, PartialEq, Eq, Structural)]
pub enum BuildError {
    /// The scratch workspace directory could not be created.
    WorkspaceDir,
    /// The caller's lock file was missing or unreadable.
    Lockfile,
    /// The external build driver could not be launched.
    BuildLaunch,
    /// The external build driver exited unsuccessfully.
    BuildFailed,
    /// The staging directory could not be created.
    StagingDir,
    /// The driver's output directory held something besides plain files.
    StagingViolation,
    /// The stale installed directory could not be removed.
    CleanTarget,
    /// An ancestor of the installation directory is a file.
    TargetDir,
    /// The final install rename failed; the installed state is
    /// indeterminate.
    InstallRename,
}

/// Everything observable about one run of the protocol.
pub struct ProtocolOutcome {
    /// The error, or nothing on success.
    pub err: Option<BuildError>,
    /// The filesystem map afterwards.
    pub map: Map<Seq<Seq<char>>, NodeV>,
    /// The scratch counter afterwards.
    pub counter: u64,
    /// Whether the external build driver was invoked.
    pub invoked: bool,
}

/// `m` with directories ensured at every prefix of `p`; existing
/// bindings are kept.
pub open spec fn mkdirp(m: Map<Seq<Seq<char>>, NodeV>, p: Seq<Seq<char>>) -> Map<
    Seq<Seq<char>>,
    NodeV,
> {
    Map::new(
        |k: Seq<Seq<char>>|
            m.dom().contains(k) || (1 <= k.len() <= p.len() && k == p.subrange(0, k.len() as int)),
        |k: Seq<Seq<char>>|
            if m.dom().contains(k) {
                m[k]
            } else {
                NodeV::Dir
            },
    )
}

/// Some proper or improper prefix of `p` is bound to a file.
pub open spec fn has_file_ancestor(m: Map<Seq<Seq<char>>, NodeV>, p: Seq<Seq<char>>) -> bool {
    exists|i: int|
        1 <= i <= p.len() && m.dom().contains(p.subrange(0, i)) && m[p.subrange(0, i)] is File
}

/// Some direct child of `out` is a directory.
pub open spec fn has_dir_child(m: Map<Seq<Seq<char>>, NodeV>, out: Seq<Seq<char>>) -> bool {
    exists|n: Seq<char>| m.dom().contains(out.push(n)) && m[out.push(n)] is Dir
}

/// `m` with every direct child of `out` copied to the same name below
/// `stg`.
pub open spec fn stage_children(
    m: Map<Seq<Seq<char>>, NodeV>,
    out: Seq<Seq<char>>,
    stg: Seq<Seq<char>>,
) -> Map<Seq<Seq<char>>, NodeV> {
    Map::new(
        |k: Seq<Seq<char>>|
            m.dom().contains(k) || (k.len() == stg.len() + 1 && starts_with(k, stg)
                && m.dom().contains(out.push(k.last()))),
        |k: Seq<Seq<char>>|
            if k.len() == stg.len() + 1 && starts_with(k, stg) && m.dom().contains(
                out.push(k.last()),
            ) {
                m[out.push(k.last())]
            } else {
                m[k]
            },
    )
}

/// The protocol as a function: what one call to `build_from_source`
/// does to the filesystem, given the starting state, the sysroot, the
/// build inputs and the driver's scripted behaviour.
pub open spec fn build_spec(
    v: FsV,
    sys: SysrootV,
    src: Seq<Seq<char>>,
    commit: Option<Seq<char>>,
    plan: BuildPlanV,
) -> ProtocolOutcome {
    let fp = fingerprint_of(src, commit);
    if read_hash_spec(v.map, sys) == Some(fp) {
        ProtocolOutcome { err: None, map: v.map, counter: v.counter, invoked: false }
    } else {
        let w = scratch_root().push(temp_name("cargo-careful"@, v.counter));
        let c1 = next_counter(v.counter);
        if !nothing_under(v.map, w) {
            ProtocolOutcome {
                err: Some(BuildError::WorkspaceDir),
                map: v.map,
                counter: c1,
                invoked: false,
            }
        } else {
            let m1 = v.map.insert(w, NodeV::Dir);
            let lockp = src.drop_last().push("Cargo.lock"@);
            if !(m1.dom().contains(lockp) && m1[lockp] is File) {
                ProtocolOutcome {
                    err: Some(BuildError::Lockfile),
                    map: remove_prefixed(m1, w),
                    counter: c1,
                    invoked: false,
                }
            } else {
                let lockc = match m1[lockp] {
                    NodeV::File(c) => c,
                    NodeV::Dir => Seq::empty(),
                };
                let m2 = m1.insert(w.push("Cargo.lock"@), NodeV::File(lockc)).insert(
                    w.push("Cargo.toml"@),
                    NodeV::File(manifest_text(src)),
                ).insert(w.push("lib.rs"@), NodeV::File(Seq::empty()));
                match plan {
                    BuildPlanV::LaunchFailure => ProtocolOutcome {
                        err: Some(BuildError::BuildLaunch),
                        map: remove_prefixed(m2, w),
                        counter: c1,
                        invoked: true,
                    },
                    BuildPlanV::ExitFailure => ProtocolOutcome {
                        err: Some(BuildError::BuildFailed),
                        map: remove_prefixed(m2, w),
                        counter: c1,
                        invoked: true,
                    },
                    BuildPlanV::Artifacts(es) => {
                        let out = w.push("target"@).push(sys.target).push("release"@).push(
                            "deps"@,
                        );
                        let m3 = apply_plan(m2.insert(out, NodeV::Dir), out, es);
                        let stg = sys.dir.push(temp_name("cargo-careful"@, c1));
                        let c2 = next_counter(c1);
                        if !nothing_under(m3, stg) {
                            ProtocolOutcome {
                                err: Some(BuildError::StagingDir),
                                map: remove_prefixed(m3, w),
                                counter: c2,
                                invoked: true,
                            }
                        } else {
                            let m4 = m3.insert(stg, NodeV::Dir);
                            if has_dir_child(m4, out) {
                                ProtocolOutcome {
                                    err: Some(BuildError::StagingViolation),
                                    map: remove_prefixed(remove_prefixed(m4, stg), w),
                                    counter: c2,
                                    invoked: true,
                                }
                            } else {
                                let m5 = stage_children(m4, out, stg);
                                let m6 = m5.insert(
                                    stg.push(".cargo-careful-hash"@),
                                    NodeV::File(dec_chars(fp)),
                                );
                                let tld = lib_dir_of(sys);
                                if m6.dom().contains(tld) && v.fail_remove {
                                    ProtocolOutcome {
                                        err: Some(BuildError::CleanTarget),
                                        map: remove_prefixed(remove_prefixed(m6, stg), w),
                                        counter: c2,
                                        invoked: true,
                                    }
                                } else {
                                    let m7 = if m6.dom().contains(tld) {
                                        remove_prefixed(m6, tld)
                                    } else {
                                        m6
                                    };
                                    let par = target_dir_of(sys);
                                    if has_file_ancestor(m7, par) {
                                        ProtocolOutcome {
                                            err: Some(BuildError::TargetDir),
                                            map: remove_prefixed(remove_prefixed(m7, stg), w),
                                            counter: c2,
                                            invoked: true,
                                        }
                                    } else {
                                        let m8 = mkdirp(m7, par);
                                        if v.fail_rename {
                                            ProtocolOutcome {
                                                err: Some(BuildError::InstallRename),
                                                map: remove_prefixed(
                                                    remove_prefixed(m8, stg),
                                                    w,
                                                ),
                                                counter: c2,
                                                invoked: true,
                                            }
                                        } else {
                                            let m9 = rename_map(m8, stg, tld);
                                            ProtocolOutcome {
                                                err: None,
                                                map: remove_prefixed(m9, w),
                                                counter: c2,
                                                invoked: true,
                                            }
                                        }
                                    }
                                }
                            }
                        }
                    },
                }
            }
        }
    }
}

impl Sysroot {
    /// A locator for the sysroot of `target` installed under `sysroot_dir`.
    pub fn new(sysroot_dir: &Vec<String>, target: &str) -> (r: Sysroot)
        ensures
            r@.dir == sysroot_dir.deep_view(),
            r@.target == target@,
    {
        Sysroot { sysroot_dir: path_clone(sysroot_dir), target: target.to_owned() }
    }

    /// The per-target directory under the installation root.
    pub fn target_dir(&self) -> (r: Vec<String>)
        ensures
            r.deep_view() == target_dir_of(self@),
    {
        let a = path_push(&self.sysroot_dir, "lib");
        let b = path_push(&a, "rustlib");
        path_push(&b, self.target.as_str())
    }

    /// The installed library directory.
    pub fn lib_dir(&self) -> (r: Vec<String>)
        ensures
            r.deep_view() == lib_dir_of(self@),
    {
        let t = self.target_dir();
        path_push(&t, "lib")
    }

    /// The fingerprint of the given build inputs: a pure function of
    /// the source directory path and the toolchain commit identifier.
    pub fn sysroot_compute_hash(&self, src_dir: &Vec<String>, rustc_version: &ToolchainInfo) -> (r:
        u64)
        ensures
            r == fingerprint_of(src_dir.deep_view(), rustc_version.commit_hash.deep_view()),
    {
        compute_fingerprint(src_dir, &rustc_version.commit_hash)
    }

    /// Read the persisted fingerprint of the installed sysroot; yields
    /// nothing on any missing, unreadable or corrupt state, so that the
    /// caller assumes a rebuild is needed.
    pub fn sysroot_read_hash(&self, fs: &MemFs) -> (r: Option<u64>)
        ensures
            r == read_hash_spec(fs@.map, self@),
    {
        let lib = self.lib_dir();
        let hp = path_push(&lib, ".cargo-careful-hash");
        match fs.read_file(&hp) {
            Some(c) => parse_dec_str(c.as_str()),
            None => None,
        }
    }
}


/// A direct child path lies below its parent.
proof fn lemma_push_starts_with(base: Seq<Seq<char>>, x: Seq<char>)
    ensures
        starts_with(base.push(x), base),
{
    assert(base.push(x).subrange(0, base.len() as int) =~= base);
}

/// A path one longer than `base` and below it is `base` plus its last
/// component.
proof fn lemma_child_form(k: Seq<Seq<char>>, base: Seq<Seq<char>>)
    requires
        starts_with(k, base),
        k.len() == base.len() + 1,
    ensures
        k == base.push(k.last()),
{
    assert(k =~= base.push(k.last()));
}

/// Directories ensured at the prefixes of `p` up to length `i`.
spec fn mkdirp_upto(m: Map<Seq<Seq<char>>, NodeV>, p: Seq<Seq<char>>, i: int) -> Map<
    Seq<Seq<char>>,
    NodeV,
>
    decreases i,
{
    if i <= 0 {
        m
    } else {
        let q = p.subrange(0, i);
        let prev = mkdirp_upto(m, p, i - 1);
        if m.dom().contains(q) {
            prev
        } else {
            prev.insert(q, NodeV::Dir)
        }
    }
}

/// What `mkdirp_upto` contains and binds.
proof fn lemma_mkdirp_upto(m: Map<Seq<Seq<char>>, NodeV>, p: Seq<Seq<char>>, i: int)
    requires
        0 <= i <= p.len(),
    ensures
        forall|k: Seq<Seq<char>>|
            #[trigger] mkdirp_upto(m, p, i).dom().contains(k) <==> (m.dom().contains(k) || (1
                <= k.len() <= i && k == p.subrange(0, k.len() as int))),
        forall|k: Seq<Seq<char>>|
            mkdirp_upto(m, p, i).dom().contains(k) && m.dom().contains(k)
                ==> #[trigger] mkdirp_upto(m, p, i)[k] == m[k],
        forall|k: Seq<Seq<char>>|
            mkdirp_upto(m, p, i).dom().contains(k) && !m.dom().contains(k)
                ==> #[trigger] mkdirp_upto(m, p, i)[k] == NodeV::Dir,
    decreases i,
{
    if i > 0 {
        lemma_mkdirp_upto(m, p, i - 1);
        assert forall|k: Seq<Seq<char>>|
            #[trigger] mkdirp_upto(m, p, i).dom().contains(k) implies (m.dom().contains(k) || (1
                <= k.len() <= i && k == p.subrange(0, k.len() as int))) by {
            if k == p.subrange(0, i) {
                assert(k.len() == i);
            }
        }
        assert forall|k: Seq<Seq<char>>|
            (m.dom().contains(k) || (1 <= k.len() <= i && k == p.subrange(0, k.len() as int)))
                implies #[trigger] mkdirp_upto(m, p, i).dom().contains(k) by {
            if !m.dom().contains(k) && 1 <= k.len() <= i && k == p.subrange(0, k.len() as int) {
                if k.len() == i {
                    assert(k == p.subrange(0, i));
                }
            }
        }
    }
}

/// Ensure directories exist at every prefix of `p`, keeping whatever
/// bindings are already there.
fn ensure_dirs(fs: &mut MemFs, p: &Vec<String>)
    ensures
        final(fs)@.map == mkdirp(old(fs)@.map, p.deep_view()),
        same_admin(final(fs)@, old(fs)@),
{
    let ghost m0 = old(fs)@.map;
    let mut pref: Vec<String> = Vec::new();
    let n = p.len();
    let mut i: usize = 0;
    while i < n
        invariant
            0 <= i <= n,
            n == p.len(),
            pref.len() == i,
            pref.deep_view() == p.deep_view().subrange(0, i as int),
            fs@.map == mkdirp_upto(m0, p.deep_view(), i as int),
            same_admin(fs@, old(fs)@),
        decreases n - i,
    {
        let ghost prev_dv = pref.deep_view();
        pref.push(p[i].clone());
        proof {
            lemma_path_len(&pref);
            assert forall|j: int| 0 <= j < i + 1 implies pref.deep_view()[j] == p.deep_view()[j] by {
                lemma_path_index(&pref, j);
                if j < i {
                    assert(prev_dv[j] == p.deep_view().subrange(0, i as int)[j]);
                    assert(pref@[j] == pref@.subrange(0, i as int)[j]);
                } else {
                    lemma_path_index(p, j);
                }
            }
            assert(pref.deep_view() =~= p.deep_view().subrange(0, i + 1));
            lemma_mkdirp_upto(m0, p.deep_view(), i as int);
        }
        if !fs.contains_path(&pref) {
            fs.mkdir(&pref);
        }
        i = i + 1;
    }
    proof {
        assert(p.deep_view().subrange(0, n as int) =~= p.deep_view());
        lemma_mkdirp_upto(m0, p.deep_view(), n as int);
        assert(fs@.map =~= mkdirp(m0, p.deep_view()));
    }
}

/// Is some prefix of `p` bound to a plain file?
fn find_file_ancestor(fs: &MemFs, p: &Vec<String>) -> (r: bool)
    ensures
        r == has_file_ancestor(fs@.map, p.deep_view()),
{
    let mut pref: Vec<String> = Vec::new();
    let n = p.len();
    let mut i: usize = 0;
    while i < n
        invariant
            0 <= i <= n,
            n == p.len(),
            pref.len() == i,
            pref.deep_view() == p.deep_view().subrange(0, i as int),
            forall|j: int|
                1 <= j <= i ==> !(fs@.map.dom().contains(#[trigger] p.deep_view().subrange(0, j))
                    && fs@.map[p.deep_view().subrange(0, j)] is File),
        decreases n - i,
    {
        let ghost prev_dv = pref.deep_view();
        pref.push(p[i].clone());
        proof {
            lemma_path_len(&pref);
            assert forall|j: int| 0 <= j < i + 1 implies pref.deep_view()[j] == p.deep_view()[j] by {
                lemma_path_index(&pref, j);
                if j < i {
                    assert(prev_dv[j] == p.deep_view().subrange(0, i as int)[j]);
                    assert(pref@[j] == pref@.subrange(0, i as int)[j]);
                } else {
                    lemma_path_index(p, j);
                }
            }
            assert(pref.deep_view() =~= p.deep_view().subrange(0, i + 1));
        }
        let is_file = match fs.node_at(&pref) {
            Some(node) => match node {
                crate::fsmodel::Node::File(_) => true,
                crate::fsmodel::Node::Dir => false,
            },
            None => false,
        };
        if is_file {
            proof {
                assert(fs@.map.dom().contains(p.deep_view().subrange(0, i + 1)) && fs@.map[
                    p.deep_view().subrange(0, i + 1)
                ] is File);
            }
            return true;
        }
        i = i + 1;
    }
    proof {
        if has_file_ancestor(fs@.map, p.deep_view()) {
            let j = choose|j: int|
                1 <= j <= p.deep_view().len() && fs@.map.dom().contains(
                    p.deep_view().subrange(0, j),
                ) && fs@.map[p.deep_view().subrange(0, j)] is File;
            lemma_path_len(p);
            assert(!(fs@.map.dom().contains(p.deep_view().subrange(0, j)) && fs@.map[
                p.deep_view().subrange(0, j)
            ] is File));
        }
    }
    false
}

/// The staged map after the first `i` listed children are copied.
spec fn stage_upto(
    m: Map<Seq<Seq<char>>, NodeV>,
    out: Seq<Seq<char>>,
    stg: Seq<Seq<char>>,
    names: Seq<Seq<char>>,
    i: int,
) -> Map<Seq<Seq<char>>, NodeV>
    decreases i,
{
    if i <= 0 {
        m
    } else {
        stage_upto(m, out, stg, names, i - 1).insert(
            stg.push(names[i - 1]),
            m[out.push(names[i - 1])],
        )
    }
}

/// What `stage_upto` contains and binds.
proof fn lemma_stage_upto(
    m: Map<Seq<Seq<char>>, NodeV>,
    out: Seq<Seq<char>>,
    stg: Seq<Seq<char>>,
    names: Seq<Seq<char>>,
    i: int,
)
    requires
        0 <= i <= names.len(),
    ensures
        forall|k: Seq<Seq<char>>|
            #[trigger] stage_upto(m, out, stg, names, i).dom().contains(k) <==> (m.dom().contains(
                k,
            ) || exists|j: int| 0 <= j < i && k == stg.push(names[j])),
        forall|k: Seq<Seq<char>>|
            stage_upto(m, out, stg, names, i).dom().contains(k) && !(exists|j: int|
                0 <= j < i && k == stg.push(names[j])) ==> #[trigger] stage_upto(
                m,
                out,
                stg,
                names,
                i,
            )[k] == m[k],
        forall|j: int|
            0 <= j < i ==> #[trigger] stage_upto(m, out, stg, names, i)[stg.push(names[j])] == m[
                out.push(names[j])
            ],
    decreases i,
{
    if i > 0 {
        lemma_stage_upto(m, out, stg, names, i - 1);
        let key = stg.push(names[i - 1]);
        assert forall|k: Seq<Seq<char>>|
            #[trigger] stage_upto(m, out, stg, names, i).dom().contains(k) implies (
        m.dom().contains(k) || exists|j: int| 0 <= j < i && k == stg.push(names[j])) by {
            if k == key {
                assert(0 <= i - 1 < i && k == stg.push(names[i - 1]));
            } else {
                assert(stage_upto(m, out, stg, names, i - 1).dom().contains(k));
                if !m.dom().contains(k) {
                    let j = choose|j: int| 0 <= j < i - 1 && k == stg.push(names[j]);
                    assert(0 <= j < i && k == stg.push(names[j]));
                }
            }
        }
        assert forall|k: Seq<Seq<char>>|
            (m.dom().contains(k) || exists|j: int| 0 <= j < i && k == stg.push(names[j]))
                implies #[trigger] stage_upto(m, out, stg, names, i).dom().contains(k) by {
            if m.dom().contains(k) {
                assert(stage_upto(m, out, stg, names, i - 1).dom().contains(k));
            } else {
                let j = choose|j: int| 0 <= j < i && k == stg.push(names[j]);
                if j < i - 1 {
                    assert(stage_upto(m, out, stg, names, i - 1).dom().contains(k));
                }
            }
        }
        assert forall|k: Seq<Seq<char>>|
            stage_upto(m, out, stg, names, i).dom().contains(k) && !(exists|j: int|
                0 <= j < i && k == stg.push(names[j])) implies #[trigger] stage_upto(
                m,
                out,
                stg,
                names,
                i,
            )[k] == m[k] by {
            assert(!(0 <= i - 1 < i && k == stg.push(names[i - 1])));
            assert(k != key);
            assert(!(exists|j: int| 0 <= j < i - 1 && k == stg.push(names[j])));
            assert(stage_upto(m, out, stg, names, i - 1).dom().contains(k));
            assert(stage_upto(m, out, stg, names, i - 1)[k] == m[k]);
        }
        assert forall|j: int|
            0 <= j < i implies #[trigger] stage_upto(m, out, stg, names, i)[stg.push(names[j])]
            == m[out.push(names[j])] by {
            if j < i - 1 {
                if stg.push(names[j]) == key {
                    assert(stg.push(names[j]).last() == names[j]);
                    assert(key.last() == names[i - 1]);
                    assert(names[j] == names[i - 1]);
                } else {
                    assert(stage_upto(m, out, stg, names, i - 1)[stg.push(names[j])] == m[
                        out.push(names[j])
                    ]);
                }
            }
        }
    }
}

/// Copy every direct child of `out` (each must be a plain file) to the
/// same name below `stg`.  On a directory child the copy stops with an
/// error, leaving everything outside the staging subtree untouched.
fn stage_files(fs: &mut MemFs, out: &Vec<String>, stg: &Vec<String>) -> (r: Result<(), ()>)
    requires
        !starts_with(out.deep_view(), stg.deep_view()),
        !starts_with(stg.deep_view(), out.deep_view()),
    ensures
        same_admin(final(fs)@, old(fs)@),
        match r {
            Ok(_) => !has_dir_child(old(fs)@.map, out.deep_view()) && final(fs)@.map
                == stage_children(old(fs)@.map, out.deep_view(), stg.deep_view()),
            Err(_) => has_dir_child(old(fs)@.map, out.deep_view()) && (forall|k: Seq<Seq<char>>|
                !starts_with(k, stg.deep_view()) ==> (final(fs)@.map.dom().contains(k) == old(fs)@.map.dom().contains(k) && (old(fs)@.map.dom().contains(k) ==> final(fs)@.map[k] == old(fs)@.map[k]))),
        },
{
    let ghost m0 = old(fs)@.map;
    let ghost outd = out.deep_view();
    let ghost stgd = stg.deep_view();
    let names = fs.read_dir(out);
    let ghost nd = names.deep_view();
    let n = names.len();
    proof {
        lemma_path_len(&names);
        assert forall|idx: int| 0 <= idx < n as int implies m0.dom().contains(
            #[trigger] outd.push(nd[idx]),
        ) by {
            lemma_path_index(&names, idx);
        }
        assert forall|k: Seq<Seq<char>>|
            m0.dom().contains(k) && k.len() == outd.len() + 1 && starts_with(k, outd) implies (
        exists|idx: int| 0 <= idx < n as int && nd[idx] == k.last()) by {
            let idx = choose|idx: int| 0 <= idx < names@.len() && names@[idx]@ == k.last();
            lemma_path_index(&names, idx);
            assert(0 <= idx < n as int && nd[idx] == k.last());
        }
    }
    let mut i: usize = 0;
    while i < n
        invariant
            0 <= i <= n,
            n == names@.len(),
            nd == names.deep_view(),
            outd == out.deep_view(),
            stgd == stg.deep_view(),
            m0 == old(fs)@.map,
            !starts_with(outd, stgd),
            !starts_with(stgd, outd),
            forall|idx: int| 0 <= idx < n ==> m0.dom().contains(#[trigger] outd.push(nd[idx])),
            forall|k: Seq<Seq<char>>|
                m0.dom().contains(k) && k.len() == outd.len() + 1 && starts_with(k, outd)
                    ==> exists|idx: int| 0 <= idx < n && nd[idx] == k.last(),
            fs@.map == stage_upto(m0, outd, stgd, nd, i as int),
            forall|j: int| 0 <= j < i ==> m0[#[trigger] outd.push(nd[j])] is File,
            same_admin(fs@, old(fs)@),
        decreases n - i,
    {
        proof {
            lemma_path_index(&names, i as int);
        }
        let src = path_push(out, names[i].as_str());
        proof {
            lemma_stage_upto(m0, outd, stgd, nd, i as int);
            assert(!starts_with(src.deep_view(), stgd)) by {
                if starts_with(src.deep_view(), stgd) {
                    lemma_push_starts_with(outd, nd[i as int]);
                    if stgd.len() <= outd.len() {
                        crate::fsmodel::lemma_prefix_comparable(src.deep_view(), stgd, outd);
                    } else {
                        crate::fsmodel::lemma_prefix_comparable(src.deep_view(), outd, stgd);
                    }
                }
            }
            assert forall|j: int| 0 <= j < i as int implies src.deep_view() != stgd.push(
                nd[j],
            ) by {
                lemma_push_starts_with(stgd, nd[j]);
            }
        }
        match fs.read_file(&src) {
            Some(content) => {
                let dst = path_push(stg, names[i].as_str());
                fs.set_file(&dst, content);
                proof {
                    assert(fs@.map == stage_upto(m0, outd, stgd, nd, i + 1));
                }
            },
            None => {
                proof {
                    assert(m0[outd.push(nd[i as int])] is Dir);
                    assert(has_dir_child(m0, outd));
                    lemma_stage_upto(m0, outd, stgd, nd, i as int);
                    assert forall|k: Seq<Seq<char>>| !starts_with(k, stgd) implies (
                    fs@.map.dom().contains(k) == m0.dom().contains(k) && (m0.dom().contains(k)
                        ==> fs@.map[k] == m0[k])) by {
                        assert forall|j: int| 0 <= j < i as int implies k != stgd.push(
                            nd[j],
                        ) by {
                            lemma_push_starts_with(stgd, nd[j]);
                        }
                    }
                }
                return Err(());
            },
        }
        i = i + 1;
    }
    proof {
        lemma_stage_upto(m0, outd, stgd, nd, n as int);
        assert(!has_dir_child(m0, outd)) by {
            if has_dir_child(m0, outd) {
                let nm = choose|nm: Seq<char>|
                    m0.dom().contains(outd.push(nm)) && m0[outd.push(nm)] is Dir;
                let k = outd.push(nm);
                lemma_push_starts_with(outd, nm);
                assert(k.len() == outd.len() + 1 && starts_with(k, outd));
                let idx = choose|idx: int| 0 <= idx < n && nd[idx] == k.last();
                assert(outd.push(nd[idx]) == k);
            }
        }
        let su = stage_upto(m0, outd, stgd, nd, n as int);
        let sc = stage_children(m0, outd, stgd);
        assert forall|k: Seq<Seq<char>>| #[trigger] su.dom().contains(k) implies sc.dom().contains(
            k,
        ) by {
            if !m0.dom().contains(k) {
                let j = choose|j: int| 0 <= j < n as int && k == stgd.push(nd[j]);
                lemma_push_starts_with(stgd, nd[j]);
                assert(k.last() == nd[j]);
                assert(m0.dom().contains(outd.push(k.last())));
            }
        }
        assert forall|k: Seq<Seq<char>>| #[trigger] sc.dom().contains(k) implies su.dom().contains(
            k,
        ) by {
            if !m0.dom().contains(k) {
                lemma_child_form(k, stgd);
                let kk = outd.push(k.last());
                assert(kk.len() == outd.len() + 1);
                lemma_push_starts_with(outd, k.last());
                assert(kk.last() == k.last());
                let idx = choose|idx: int| 0 <= idx < n as int && nd[idx] == kk.last();
                assert(k == stgd.push(nd[idx]));
                assert(exists|j: int| 0 <= j < n as int && k == stgd.push(nd[j]));
            }
        }
        assert forall|k: Seq<Seq<char>>| #[trigger] su.dom().contains(k) implies su[k] == sc[k] by {
            if exists|j: int| 0 <= j < n as int && k == stgd.push(nd[j]) {
                let j = choose|j: int| 0 <= j < n as int && k == stgd.push(nd[j]);
                lemma_push_starts_with(stgd, nd[j]);
                assert(k.last() == nd[j]);
                assert(m0.dom().contains(outd.push(k.last())));
                assert(su[stgd.push(nd[j])] == m0[outd.push(nd[j])]);
                assert(k.len() == stgd.len() + 1 && starts_with(k, stgd));
            } else {
                assert(su[k] == m0[k]);
                if k.len() == stgd.len() + 1 && starts_with(k, stgd) && m0.dom().contains(
                    outd.push(k.last()),
                ) {
                    lemma_child_form(k, stgd);
                    let kk = outd.push(k.last());
                    lemma_push_starts_with(outd, k.last());
                    assert(kk.last() == k.last());
                    let idx = choose|idx: int| 0 <= idx < n as int && nd[idx] == kk.last();
                    assert(k == stgd.push(nd[idx]));
                }
            }
        }
        assert(su =~= sc);
        assert(fs@.map =~= stage_children(m0, outd, stgd));
    }
    Ok(())
}


/// The root of the scratch area as a path value.
fn scratch_root_path() -> (r: Vec<String>)
    ensures
        r.deep_view() == scratch_root(),
{
    let mut r: Vec<String> = Vec::new();
    r.push("tmp".to_owned());
    proof {
        lemma_path_len(&r);
        lemma_path_index(&r, 0);
        assert(r.deep_view() =~= scratch_root());
    }
    r
}

impl Sysroot {
    /// Ensure the sysroot is built and installed: decide from the
    /// persisted fingerprint whether anything needs doing; if so, build
    /// in a fresh scratch workspace via the injected driver, stage the
    /// artifacts and the new fingerprint next to the installation, and
    /// promote the staging directory with one rename.  The whole effect
    /// equals `build_spec` of the starting state.
    ///
    /// The source directory must not be the filesystem root (the lock
    /// file is found in its parent), and the installation root must not
    /// lie inside the scratch area or at the filesystem root.
    #[verifier::rlimit(80)]
    pub fn build_from_source(
        &self,
        fs: &mut MemFs,
        src_dir: &Vec<String>,
        mode: BuildMode,
        rustc_version: &ToolchainInfo,
        builder: &mut SimBuilder,
    ) -> (r: Result<(), BuildError>)
        requires
            src_dir@.len() >= 1,
            !starts_with(self@.dir, scratch_root()),
            !starts_with(scratch_root(), self@.dir),
        ensures
            ({
                let o = build_spec(
                    old(fs)@,
                    self@,
                    src_dir.deep_view(),
                    rustc_version.commit_hash.deep_view(),
                    old(builder).plan@,
                );
                &&& match r {
                    Ok(_) => o.err is None,
                    Err(e) => o.err == Some(e),
                }
                &&& final(fs)@.map == o.map
                &&& final(fs)@.counter == o.counter
                &&& final(fs)@.fail_remove == old(fs)@.fail_remove
                &&& final(fs)@.fail_rename == old(fs)@.fail_rename
                &&& final(builder).plan == old(builder).plan
                &&& final(builder).runs == if o.invoked {
                    next_counter(old(builder).runs)
                } else {
                    old(builder).runs
                }
                &&& (o.invoked ==> final(builder).last_mode == Some(mode))
                &&& (!o.invoked ==> final(builder).last_mode == old(builder).last_mode)
            }),
    {
        let ghost v = old(fs)@;
        let ghost srcd = src_dir.deep_view();
        let ghost sysv = self@;

        // Fingerprint check: a matching persisted fingerprint means the
        // installed artifacts are up to date, and the call is a no-op.
        let cur = self.sysroot_compute_hash(src_dir, rustc_version);
        let cached = match self.sysroot_read_hash(fs) {
            Some(h) => h == cur,
            None => false,
        };
        if cached {
            return Ok(());
        }

        // Build workspace: fresh scratch directory holding the caller's
        // lock file, the synthesized manifest, and an empty entry point.
        let tmp_root = scratch_root_path();
        let w_path = match fs.create_temp_dir(&tmp_root, "cargo-careful") {
            Some(p) => p,
            None => {
                return Err(BuildError::WorkspaceDir);
            },
        };
        let ghost wd = w_path.deep_view();
        let ghost m1 = fs@.map;
        let src_parent = path_parent(src_dir);
        let lockp = path_push(&src_parent, "Cargo.lock");
        let lock_content = match fs.read_file(&lockp) {
            Some(c) => c,
            None => {
                fs.drop_subtree(&w_path);
                return Err(BuildError::Lockfile);
            },
        };
        let w_lock = path_push(&w_path, "Cargo.lock");
        fs.set_file(&w_lock, lock_content);
        let w_manifest = path_push(&w_path, "Cargo.toml");
        fs.set_file(&w_manifest, generate_manifest(src_dir));
        let w_lib = path_push(&w_path, "lib.rs");
        fs.set_file(&w_lib, String::new());
        let ghost m2 = fs@.map;

        // External build: only the exit status is inspected.
        let t1 = path_push(&w_path, "target");
        let t2 = path_push(&t1, self.target.as_str());
        let t3 = path_push(&t2, "release");
        let out = path_push(&t3, "deps");
        match builder.run(fs, mode, &out) {
            RunStatus::NotLaunched => {
                fs.drop_subtree(&w_path);
                return Err(BuildError::BuildLaunch);
            },
            RunStatus::Failed => {
                fs.drop_subtree(&w_path);
                return Err(BuildError::BuildFailed);
            },
            RunStatus::Succeeded => {},
        }
        let ghost m3 = fs@.map;

        // Staging: collect the artifacts beside the final location, so
        // the promotion below is one same-parent rename.
        let stg_path = match fs.create_temp_dir(&self.sysroot_dir, "cargo-careful") {
            Some(p) => p,
            None => {
                fs.drop_subtree(&w_path);
                return Err(BuildError::StagingDir);
            },
        };
        let ghost stgd = stg_path.deep_view();
        let ghost m4 = fs@.map;
        proof {
            crate::driver::lemma_apply_plan_contains(
                m2.insert(out.deep_view(), NodeV::Dir),
                out.deep_view(),
                (match old(builder).plan@ {
                    BuildPlanV::Artifacts(es) => es,
                    _ => Seq::empty(),
                }),
                out.deep_view(),
            );
            // The staging directory is fresh, so nothing of the build
            // output lies below it; and it cannot itself lie below the
            // output directory, which sits in the scratch area while
            // the staging directory sits under the installation root.
            assert(!starts_with(out.deep_view(), stgd));
            assert(!starts_with(stgd, out.deep_view())) by {
                if starts_with(stgd, out.deep_view()) {
                    crate::fsmodel::lemma_push_starts_with_pub(wd, "target"@);
                    crate::fsmodel::lemma_push_starts_with_pub(
                        wd.push("target"@),
                        self@.target,
                    );
                    crate::fsmodel::lemma_push_starts_with_pub(
                        wd.push("target"@).push(self@.target),
                        "release"@,
                    );
                    crate::fsmodel::lemma_push_starts_with_pub(
                        wd.push("target"@).push(self@.target).push("release"@),
                        "deps"@,
                    );
                    crate::paths::lemma_starts_with_trans(
                        out.deep_view(),
                        wd.push("target"@).push(self@.target).push("release"@),
                        wd.push("target"@).push(self@.target),
                    );
                    crate::paths::lemma_starts_with_trans(
                        out.deep_view(),
                        wd.push("target"@).push(self@.target),
                        wd.push("target"@),
                    );
                    crate::paths::lemma_starts_with_trans(out.deep_view(), wd.push("target"@), wd);
                    crate::fsmodel::lemma_push_starts_with_pub(
                        scratch_root(),
                        temp_name("cargo-careful"@, v.counter),
                    );
                    crate::paths::lemma_starts_with_trans(stgd, out.deep_view(), wd);
                    crate::paths::lemma_starts_with_trans(stgd, wd, scratch_root());
                    crate::fsmodel::lemma_push_starts_with_pub(
                        sysv.dir,
                        temp_name("cargo-careful"@, next_counter(v.counter)),
                    );
                    if sysv.dir.len() <= scratch_root().len() {
                        crate::fsmodel::lemma_prefix_comparable(stgd, sysv.dir, scratch_root());
                    } else {
                        crate::fsmodel::lemma_prefix_comparable(stgd, scratch_root(), sysv.dir);
                    }
                }
            }
        }
        match stage_files(fs, &out, &stg_path) {
            Ok(_) => {},
            Err(_) => {
                fs.drop_subtree(&stg_path);
                proof {
                    assert(fs@.map =~= remove_prefixed(m4, stgd));
                }
                fs.drop_subtree(&w_path);
                return Err(BuildError::StagingViolation);
            },
        }
        let hf = path_push(&stg_path, ".cargo-careful-hash");
        fs.set_file(&hf, encode_dec(cur));
        let ghost m6 = fs@.map;

        // Atomic install: clear the stale installation, make sure its
        // parent exists, and rename the staging directory into place.
        let tld = self.lib_dir();
        if fs.contains_path(&tld) {
            match fs.remove_subtree_checked(&tld) {
                Ok(_) => {},
                Err(_) => {
                    fs.drop_subtree(&stg_path);
                    fs.drop_subtree(&w_path);
                    return Err(BuildError::CleanTarget);
                },
            }
        }
        let ghost m7 = fs@.map;
        let par = self.target_dir();
        if find_file_ancestor(fs, &par) {
            fs.drop_subtree(&stg_path);
            fs.drop_subtree(&w_path);
            return Err(BuildError::TargetDir);
        }
        ensure_dirs(fs, &par);
        proof {
            assert(!starts_with(stgd, tld.deep_view()) && !starts_with(tld.deep_view(), stgd)) by {
                reveal_strlit("cargo-careful");
                reveal_strlit("-");
                reveal_strlit("lib");
                crate::digits::lemma_dec_chars_digits(next_counter(v.counter));
                let nm = temp_name("cargo-careful"@, next_counter(v.counter));
                assert(nm.len() >= 14);
                assert(stgd == sysv.dir.push(nm));
                if starts_with(tld.deep_view(), stgd) {
                    assert(tld.deep_view()[sysv.dir.len() as int] == "lib"@);
                    assert(tld.deep_view().subrange(0, stgd.len() as int)[sysv.dir.len() as int]
                        == stgd[sysv.dir.len() as int]);
                    assert(nm == "lib"@);
                }
            }
        }
        match fs.rename_subtree(&stg_path, &tld) {
            Ok(_) => {},
            Err(_) => {
                fs.drop_subtree(&stg_path);
                fs.drop_subtree(&w_path);
                return Err(BuildError::InstallRename);
            },
        }
        fs.drop_subtree(&w_path);
        Ok(())
    }
}


/// The report for each failure, as the operation's caller surfaces it.
pub open spec fn describe_spec(e: BuildError) -> Seq<char> {
    match e {
        BuildError::WorkspaceDir => "failed to create tempdir"@,
        BuildError::Lockfile => "failed to copy lockfile"@,
        BuildError::BuildLaunch => "failed to execute cargo for sysroot build"@,
        BuildError::BuildFailed => "sysroot build failed"@,
        BuildError::StagingDir => "failed to create staging dir"@,
        BuildError::StagingViolation => "cargo out dir must not contain directories"@,
        BuildError::CleanTarget => "failed to clean sysroot target dir"@,
        BuildError::TargetDir => "failed to create target directory"@,
        BuildError::InstallRename => "failed installing sysroot"@,
    }
}

impl BuildError {
    /// The message reported for this failure.
    pub fn describe(&self) -> (r: String)
        ensures
            r@ == describe_spec(*self),
    {
        match self {
            BuildError::WorkspaceDir => "failed to create tempdir".to_owned(),
            BuildError::Lockfile => "failed to copy lockfile".to_owned(),
            BuildError::BuildLaunch => "failed to execute cargo for sysroot build".to_owned(),
            BuildError::BuildFailed => "sysroot build failed".to_owned(),
            BuildError::StagingDir => "failed to create staging dir".to_owned(),
            BuildError::StagingViolation => "cargo out dir must not contain directories".to_owned(),
            BuildError::CleanTarget => "failed to clean sysroot target dir".to_owned(),
            BuildError::TargetDir => "failed to create target directory".to_owned(),
            BuildError::InstallRename => "failed installing sysroot".to_owned(),
        }
    }
}

} // verus!
