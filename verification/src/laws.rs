//! Laws of the cache-and-install protocol.
//!
//! Each proof function here states a property of `build_spec`, the
//! function that `build_from_source` is proved to realise, so each
//! property holds of every call of the operation.

use vstd::prelude::*;
use crate::digits::lemma_dec_round_trip;
use crate::fingerprint::fingerprint_of;
use crate::fsmodel::{
    FsV,
    NodeV,
    next_counter,
    temp_name,
    nothing_under,
    remove_prefixed,
    rename_map,
    lemma_remove_prefixed_insert_in,
    lemma_prefix_comparable,
};
use crate::paths::{starts_with, lemma_starts_with_self};
use crate::driver::{BuildPlanV, apply_plan, lemma_apply_plan_contains};
use crate::sysroot::{
    SysrootV,
    BuildError,
    build_spec,
    read_hash_spec,
    target_dir_of,
    lib_dir_of,
    hash_file_of,
    scratch_root,
    mkdirp,
    has_dir_child,
    stage_children,
};

verus! {

/// The installation root is a persistent location apart from the
/// scratch area: neither contains the other.
pub open spec fn roots_apart(sys: SysrootV) -> bool {
    !starts_with(sys.dir, scratch_root()) && !starts_with(scratch_root(), sys.dir)
}

/// Prefixes compose: what lies below `b` lies below anything `b` lies below.
proof fn lemma_prefix_trans(k: Seq<Seq<char>>, b: Seq<Seq<char>>, a: Seq<Seq<char>>)
    requires
        starts_with(k, b),
        starts_with(b, a),
    ensures
        starts_with(k, a),
{
    assert forall|i: int| 0 <= i < a.len() implies k.subrange(0, a.len() as int)[i] == a[i] by {
        assert(k.subrange(0, b.len() as int)[i] == k[i]);
        assert(b.subrange(0, a.len() as int)[i] == b[i]);
    }
    assert(k.subrange(0, a.len() as int) =~= a);
}

/// Removing a subtree nothing lies in changes nothing.
proof fn lemma_remove_unrelated(m: Map<Seq<Seq<char>>, NodeV>, p: Seq<Seq<char>>)
    requires
        nothing_under(m, p),
    ensures
        remove_prefixed(m, p) == m,
{
    assert(remove_prefixed(m, p) =~= m);
}

/// Removing the workspace subtree undoes a whole plan applied below it.
proof fn lemma_remove_apply_plan(
    m: Map<Seq<Seq<char>>, NodeV>,
    out: Seq<Seq<char>>,
    es: Seq<(Seq<char>, NodeV)>,
    w: Seq<Seq<char>>,
)
    requires
        starts_with(out, w),
    ensures
        remove_prefixed(apply_plan(m, out, es), w) == remove_prefixed(m, w),
    decreases es.len(),
{
    if es.len() > 0 {
        lemma_remove_apply_plan(m, out, es.drop_last(), w);
        let k = out.push(es.last().0);
        crate::fsmodel::lemma_push_starts_with_pub(out, es.last().0);
        lemma_prefix_trans(k, out, w);
        lemma_remove_prefixed_insert_in(apply_plan(m, out, es.drop_last()), w, k, es.last().1);
    }
}

/// Removing the staging subtree undoes the staging copies.
proof fn lemma_remove_stage_children(
    m: Map<Seq<Seq<char>>, NodeV>,
    out: Seq<Seq<char>>,
    stg: Seq<Seq<char>>,
)
    ensures
        remove_prefixed(stage_children(m, out, stg), stg) == remove_prefixed(m, stg),
{
    assert(remove_prefixed(stage_children(m, out, stg), stg) =~= remove_prefixed(m, stg));
}

/// The cleanup of the two scratch subtrees restores the starting map on
/// every path that fails before the install phase.
///
/// This is the protocol's central safety law: an operation that fails
/// while the workspace is built, while the driver runs, or while the
/// artifacts are staged or the stale installation is cleared leaves the
/// filesystem exactly as it found it — in particular, a previously
/// installed sysroot is byte-for-byte unchanged.
pub proof fn lemma_pre_install_failure_no_side_effects(
    v: FsV,
    sys: SysrootV,
    src: Seq<Seq<char>>,
    commit: Option<Seq<char>>,
    plan: BuildPlanV,
)
    requires
        roots_apart(sys),
        build_spec(v, sys, src, commit, plan).err is Some,
        build_spec(v, sys, src, commit, plan).err != Some(BuildError::TargetDir),
        build_spec(v, sys, src, commit, plan).err != Some(BuildError::InstallRename),
    ensures
        build_spec(v, sys, src, commit, plan).map == v.map,
{
    let o = build_spec(v, sys, src, commit, plan);
    let fp = fingerprint_of(src, commit);
    let w = scratch_root().push(temp_name("cargo-careful"@, v.counter));
    if nothing_under(v.map, w) {
        let m1 = v.map.insert(w, NodeV::Dir);
        lemma_starts_with_self(w);
        lemma_remove_prefixed_insert_in(v.map, w, w, NodeV::Dir);
        lemma_remove_unrelated(v.map, w);
        let lockp = src.drop_last().push("Cargo.lock"@);
        if m1.dom().contains(lockp) && m1[lockp] is File {
            let lockc = match m1[lockp] {
                NodeV::File(c) => c,
                NodeV::Dir => Seq::empty(),
            };
            let ka = w.push("Cargo.lock"@);
            let kb = w.push("Cargo.toml"@);
            let kc = w.push("lib.rs"@);
            let ma = m1.insert(ka, NodeV::File(lockc));
            let mb = ma.insert(kb, NodeV::File(crate::manifest::manifest_text(src)));
            let m2 = mb.insert(kc, NodeV::File(Seq::empty()));
            crate::fsmodel::lemma_push_starts_with_pub(w, "Cargo.lock"@);
            crate::fsmodel::lemma_push_starts_with_pub(w, "Cargo.toml"@);
            crate::fsmodel::lemma_push_starts_with_pub(w, "lib.rs"@);
            lemma_remove_prefixed_insert_in(m1, w, ka, NodeV::File(lockc));
            lemma_remove_prefixed_insert_in(
                ma,
                w,
                kb,
                NodeV::File(crate::manifest::manifest_text(src)),
            );
            lemma_remove_prefixed_insert_in(mb, w, kc, NodeV::File(Seq::empty()));
            assert(remove_prefixed(m2, w) == v.map);
            match plan {
                BuildPlanV::LaunchFailure => {},
                BuildPlanV::ExitFailure => {},
                BuildPlanV::Artifacts(es) => {
                    let out = w.push("target"@).push(sys.target).push("release"@).push("deps"@);
                    crate::fsmodel::lemma_push_starts_with_pub(w, "target"@);
                    lemma_starts_with_self(w);
                    crate::fsmodel::lemma_push_starts_with_pub(w.push("target"@), sys.target);
                    lemma_prefix_trans(w.push("target"@).push(sys.target), w.push("target"@), w);
                    crate::fsmodel::lemma_push_starts_with_pub(
                        w.push("target"@).push(sys.target),
                        "release"@,
                    );
                    lemma_prefix_trans(
                        w.push("target"@).push(sys.target).push("release"@),
                        w.push("target"@).push(sys.target),
                        w,
                    );
                    crate::fsmodel::lemma_push_starts_with_pub(
                        w.push("target"@).push(sys.target).push("release"@),
                        "deps"@,
                    );
                    lemma_prefix_trans(
                        out,
                        w.push("target"@).push(sys.target).push("release"@),
                        w,
                    );
                    let mo = m2.insert(out, NodeV::Dir);
                    lemma_remove_prefixed_insert_in(m2, w, out, NodeV::Dir);
                    let m3 = apply_plan(mo, out, es);
                    lemma_remove_apply_plan(mo, out, es, w);
                    assert(remove_prefixed(m3, w) == v.map);
                    let stg = sys.dir.push(temp_name("cargo-careful"@, next_counter(v.counter)));
                    if nothing_under(m3, stg) {
                        let m4 = m3.insert(stg, NodeV::Dir);
                        lemma_starts_with_self(stg);
                        lemma_remove_prefixed_insert_in(m3, stg, stg, NodeV::Dir);
                        lemma_remove_unrelated(m3, stg);
                        if has_dir_child(m4, out) {
                            assert(remove_prefixed(m4, stg) == m3);
                            assert(o.map == v.map);
                        } else {
                            let m5 = stage_children(m4, out, stg);
                            let hk = stg.push(".cargo-careful-hash"@);
                            let m6 = m5.insert(hk, NodeV::File(crate::digits::dec_chars(fp)));
                            crate::fsmodel::lemma_push_starts_with_pub(
                                stg,
                                ".cargo-careful-hash"@,
                            );
                            lemma_remove_prefixed_insert_in(
                                m5,
                                stg,
                                hk,
                                NodeV::File(crate::digits::dec_chars(fp)),
                            );
                            lemma_remove_stage_children(m4, out, stg);
                            assert(remove_prefixed(m6, stg) == remove_prefixed(m4, stg));
                            assert(remove_prefixed(m6, stg) == m3);
                            let tld = lib_dir_of(sys);
                            if m6.dom().contains(tld) && v.fail_remove {
                                assert(o.err == Some(BuildError::CleanTarget));
                                assert(o.map == remove_prefixed(remove_prefixed(m6, stg), w));
                                assert(o.map == v.map);
                            }
                        }
                    }
                }
            }
        }
    }
}

/// Round trip: after a successful operation, the persisted fingerprint
/// reads back as exactly the fingerprint of the build inputs.
pub proof fn lemma_round_trip(
    v: FsV,
    sys: SysrootV,
    src: Seq<Seq<char>>,
    commit: Option<Seq<char>>,
    plan: BuildPlanV,
)
    requires
        roots_apart(sys),
        build_spec(v, sys, src, commit, plan).err is None,
    ensures
        read_hash_spec(build_spec(v, sys, src, commit, plan).map, sys) == Some(
            fingerprint_of(src, commit),
        ),
{
    let o = build_spec(v, sys, src, commit, plan);
    let fp = fingerprint_of(src, commit);
    if read_hash_spec(v.map, sys) == Some(fp) {
    } else {
        let w = scratch_root().push(temp_name("cargo-careful"@, v.counter));
        let c1 = next_counter(v.counter);
        let stg = sys.dir.push(temp_name("cargo-careful"@, c1));
        let tld = lib_dir_of(sys);
        let hp = hash_file_of(sys);
        let hk = stg.push(".cargo-careful-hash"@);
        // Reconstruct the maps along the success path.
        let m1 = v.map.insert(w, NodeV::Dir);
        let lockp = src.drop_last().push("Cargo.lock"@);
        let lockc = match m1[lockp] {
            NodeV::File(c) => c,
            NodeV::Dir => Seq::empty(),
        };
        let m2 = m1.insert(w.push("Cargo.lock"@), NodeV::File(lockc)).insert(
            w.push("Cargo.toml"@),
            NodeV::File(crate::manifest::manifest_text(src)),
        ).insert(w.push("lib.rs"@), NodeV::File(Seq::empty()));
        let es = match plan {
            BuildPlanV::Artifacts(e) => e,
            _ => Seq::empty(),
        };
        let out = w.push("target"@).push(sys.target).push("release"@).push("deps"@);
        let m3 = apply_plan(m2.insert(out, NodeV::Dir), out, es);
        let m4 = m3.insert(stg, NodeV::Dir);
        let m5 = stage_children(m4, out, stg);
        let m6 = m5.insert(hk, NodeV::File(crate::digits::dec_chars(fp)));
        let m7 = if m6.dom().contains(tld) {
            remove_prefixed(m6, tld)
        } else {
            m6
        };
        let par = target_dir_of(sys);
        let m8 = mkdirp(m7, par);
        let m9 = rename_map(m8, stg, tld);
        assert(o.map == remove_prefixed(m9, w));
        // The fingerprint file is below the installed directory, which
        // lies below the installation root, apart from the scratch area.
        crate::paths::lemma_starts_with_self(sys.dir);
        crate::fsmodel::lemma_push_starts_with_pub(sys.dir, "lib"@);
        crate::fsmodel::lemma_push_starts_with_pub(sys.dir.push("lib"@), "rustlib"@);
        lemma_prefix_trans(sys.dir.push("lib"@).push("rustlib"@), sys.dir.push("lib"@), sys.dir);
        crate::fsmodel::lemma_push_starts_with_pub(
            sys.dir.push("lib"@).push("rustlib"@),
            sys.target,
        );
        lemma_prefix_trans(par, sys.dir.push("lib"@).push("rustlib"@), sys.dir);
        crate::fsmodel::lemma_push_starts_with_pub(par, "lib"@);
        lemma_prefix_trans(tld, par, sys.dir);
        crate::fsmodel::lemma_push_starts_with_pub(tld, ".cargo-careful-hash"@);
        lemma_prefix_trans(hp, tld, sys.dir);
        assert(!starts_with(hp, w)) by {
            if starts_with(hp, w) {
                crate::fsmodel::lemma_push_starts_with_pub(scratch_root(), temp_name(
                    "cargo-careful"@,
                    v.counter,
                ));
                lemma_prefix_trans(hp, w, scratch_root());
                if sys.dir.len() <= scratch_root().len() {
                    lemma_prefix_comparable(hp, sys.dir, scratch_root());
                } else {
                    lemma_prefix_comparable(hp, scratch_root(), sys.dir);
                }
            }
        }
        // The renamed map binds the fingerprint file to the staged hash file.
        assert(starts_with(hp, tld)) by {
            crate::fsmodel::lemma_push_starts_with_pub(tld, ".cargo-careful-hash"@);
        }
        assert(hp.skip(tld.len() as int) =~= Seq::<Seq<char>>::empty().push(
            ".cargo-careful-hash"@,
        ));
        assert(stg + hp.skip(tld.len() as int) =~= hk);
        // The staged hash file survives into the renamed map.
        assert(m6.dom().contains(hk) && m6[hk] == NodeV::File(crate::digits::dec_chars(fp)));
        assert(!starts_with(hk, tld)) by {
            if starts_with(hk, tld) {
                assert(tld.len() <= hk.len());
            }
        }
        assert(m7.dom().contains(hk) && m7[hk] == NodeV::File(crate::digits::dec_chars(fp)));
        assert(m8.dom().contains(hk) && m8[hk] == NodeV::File(crate::digits::dec_chars(fp)));
        assert(m9.dom().contains(hp) && m9[hp] == NodeV::File(crate::digits::dec_chars(fp)));
        assert(o.map.dom().contains(hp) && o.map[hp] == NodeV::File(
            crate::digits::dec_chars(fp),
        ));
        lemma_dec_round_trip(fp);
    }
}

/// Idempotence: a second call on the filesystem a successful call left
/// behind, with the same source directory and toolchain identity, is a
/// no-op — it succeeds, changes nothing, and does not invoke the build
/// driver, whatever the driver would have done and whatever faults are
/// armed.
pub proof fn lemma_idempotent(
    v: FsV,
    v2: FsV,
    sys: SysrootV,
    src: Seq<Seq<char>>,
    commit: Option<Seq<char>>,
    plan: BuildPlanV,
    plan2: BuildPlanV,
)
    requires
        roots_apart(sys),
        build_spec(v, sys, src, commit, plan).err is None,
        v2.map == build_spec(v, sys, src, commit, plan).map,
    ensures
        build_spec(v2, sys, src, commit, plan2).err is None,
        build_spec(v2, sys, src, commit, plan2).map == v2.map,
        !build_spec(v2, sys, src, commit, plan2).invoked,
        build_spec(v2, sys, src, commit, plan2).counter == v2.counter,
{
    lemma_round_trip(v, sys, src, commit, plan);
}

/// Cache invalidation: after a successful build, inputs whose
/// fingerprint differs (a changed toolchain identity, or a changed
/// source directory path) do not take the cached no-op path — the
/// operation invokes the driver, or fails before reaching it.
pub proof fn lemma_cache_invalidation(
    v: FsV,
    v2: FsV,
    sys: SysrootV,
    src: Seq<Seq<char>>,
    commit: Option<Seq<char>>,
    plan: BuildPlanV,
    src2: Seq<Seq<char>>,
    commit2: Option<Seq<char>>,
    plan2: BuildPlanV,
)
    requires
        roots_apart(sys),
        build_spec(v, sys, src, commit, plan).err is None,
        v2.map == build_spec(v, sys, src, commit, plan).map,
        fingerprint_of(src2, commit2) != fingerprint_of(src, commit),
    ensures
        read_hash_spec(v2.map, sys) != Some(fingerprint_of(src2, commit2)),
        build_spec(v2, sys, src2, commit2, plan2).invoked || build_spec(
            v2,
            sys,
            src2,
            commit2,
            plan2,
        ).err is Some,
{
    lemma_round_trip(v, sys, src, commit, plan);
}


/// Applying a plan touches nothing outside the output directory.
proof fn lemma_apply_plan_other(
    m: Map<Seq<Seq<char>>, NodeV>,
    out: Seq<Seq<char>>,
    es: Seq<(Seq<char>, NodeV)>,
    k: Seq<Seq<char>>,
)
    requires
        !starts_with(k, out),
    ensures
        apply_plan(m, out, es).dom().contains(k) == m.dom().contains(k),
        m.dom().contains(k) ==> apply_plan(m, out, es)[k] == m[k],
    decreases es.len(),
{
    if es.len() > 0 {
        lemma_apply_plan_other(m, out, es.drop_last(), k);
        crate::fsmodel::lemma_push_starts_with_pub(out, es.last().0);
    }
}

/// The one unsafe window, stated exactly: when the final install rename
/// fails, the filesystem can have lost the previously installed library
/// directory and gained directories on the installation path — but
/// every path outside the installed directory and off the installation
/// path's ancestor chain is exactly as it was.  (After the stale
/// installation is removed, a rename failure leaves the target absent:
/// the indeterminate state the design accepts.)
pub proof fn lemma_rename_failure_preserves_rest(
    v: FsV,
    sys: SysrootV,
    src: Seq<Seq<char>>,
    commit: Option<Seq<char>>,
    plan: BuildPlanV,
    k: Seq<Seq<char>>,
)
    requires
        roots_apart(sys),
        build_spec(v, sys, src, commit, plan).err == Some(BuildError::InstallRename),
        !starts_with(k, lib_dir_of(sys)),
        !(1 <= k.len() <= target_dir_of(sys).len() && k == target_dir_of(sys).subrange(
            0,
            k.len() as int,
        )),
    ensures
        build_spec(v, sys, src, commit, plan).map.dom().contains(k) == v.map.dom().contains(k),
        v.map.dom().contains(k) ==> build_spec(v, sys, src, commit, plan).map[k] == v.map[k],
{
    let o = build_spec(v, sys, src, commit, plan);
    let fp = fingerprint_of(src, commit);
    let w = scratch_root().push(temp_name("cargo-careful"@, v.counter));
    let c1 = next_counter(v.counter);
    let stg = sys.dir.push(temp_name("cargo-careful"@, c1));
    let tld = lib_dir_of(sys);
    let par = target_dir_of(sys);
    let hk = stg.push(".cargo-careful-hash"@);
    let m1 = v.map.insert(w, NodeV::Dir);
    let lockp = src.drop_last().push("Cargo.lock"@);
    let lockc = match m1[lockp] {
        NodeV::File(c) => c,
        NodeV::Dir => Seq::empty(),
    };
    let m2 = m1.insert(w.push("Cargo.lock"@), NodeV::File(lockc)).insert(
        w.push("Cargo.toml"@),
        NodeV::File(crate::manifest::manifest_text(src)),
    ).insert(w.push("lib.rs"@), NodeV::File(Seq::empty()));
    let es = match plan {
        BuildPlanV::Artifacts(e) => e,
        _ => Seq::empty(),
    };
    let out = w.push("target"@).push(sys.target).push("release"@).push("deps"@);
    let mo = m2.insert(out, NodeV::Dir);
    let m3 = apply_plan(mo, out, es);
    let m4 = m3.insert(stg, NodeV::Dir);
    let m5 = stage_children(m4, out, stg);
    let m6 = m5.insert(hk, NodeV::File(crate::digits::dec_chars(fp)));
    let m7 = if m6.dom().contains(tld) {
        remove_prefixed(m6, tld)
    } else {
        m6
    };
    let m8 = mkdirp(m7, par);
    assert(o.map == remove_prefixed(remove_prefixed(m8, stg), w));
    // `out` and the workspace files lie below the workspace.
    crate::fsmodel::lemma_push_starts_with_pub(w, "target"@);
    crate::fsmodel::lemma_push_starts_with_pub(w.push("target"@), sys.target);
    lemma_prefix_trans(w.push("target"@).push(sys.target), w.push("target"@), w);
    crate::fsmodel::lemma_push_starts_with_pub(
        w.push("target"@).push(sys.target),
        "release"@,
    );
    lemma_prefix_trans(
        w.push("target"@).push(sys.target).push("release"@),
        w.push("target"@).push(sys.target),
        w,
    );
    crate::fsmodel::lemma_push_starts_with_pub(
        w.push("target"@).push(sys.target).push("release"@),
        "deps"@,
    );
    lemma_prefix_trans(out, w.push("target"@).push(sys.target).push("release"@), w);
    crate::fsmodel::lemma_push_starts_with_pub(w, "Cargo.lock"@);
    crate::fsmodel::lemma_push_starts_with_pub(w, "Cargo.toml"@);
    crate::fsmodel::lemma_push_starts_with_pub(w, "lib.rs"@);
    crate::fsmodel::lemma_push_starts_with_pub(stg, ".cargo-careful-hash"@);
    lemma_starts_with_self(w);
    lemma_starts_with_self(stg);
    if starts_with(k, w) {
        assert(!v.map.dom().contains(k));
        assert(!o.map.dom().contains(k));
    } else if starts_with(k, stg) {
        if v.map.dom().contains(k) {
            lemma_apply_plan_contains(mo, out, es, k);
            assert(m3.dom().contains(k));
            assert(false);
        }
        assert(!o.map.dom().contains(k));
    } else {
        assert(!starts_with(k, out)) by {
            if starts_with(k, out) {
                lemma_prefix_trans(k, out, w);
            }
        }
        assert(!starts_with(k, tld)) by {
            if starts_with(k, tld) {
            }
        }
        assert(k != w && k != stg && k != out && k != hk);
        assert(k != w.push("Cargo.lock"@) && k != w.push("Cargo.toml"@) && k != w.push(
            "lib.rs"@,
        )) by {
            lemma_prefix_trans(w.push("Cargo.lock"@), w, w);
        }
        lemma_apply_plan_other(mo, out, es, k);
        assert(m3.dom().contains(k) == v.map.dom().contains(k));
        assert(v.map.dom().contains(k) ==> m3[k] == v.map[k]);
        assert(m5.dom().contains(k) == m4.dom().contains(k) && (m4.dom().contains(k) ==> m5[k]
            == m4[k])) by {
            if k.len() == stg.len() + 1 && starts_with(k, stg) {
                assert(false);
            }
        }
        assert(m7.dom().contains(k) == m6.dom().contains(k) && (m6.dom().contains(k) ==> m7[k]
            == m6[k]));
        assert(m8.dom().contains(k) == m7.dom().contains(k) && (m7.dom().contains(k) ==> m8[k]
            == m7[k]));
        assert(o.map.dom().contains(k) == m8.dom().contains(k) && (m8.dom().contains(k)
            ==> o.map[k] == m8[k]));
    }
}


/// An artifact entry that no later entry of the same name shadows
/// determines the output directory's binding for that name.
proof fn lemma_apply_plan_last(
    m: Map<Seq<Seq<char>>, NodeV>,
    out: Seq<Seq<char>>,
    es: Seq<(Seq<char>, NodeV)>,
    j: int,
)
    requires
        0 <= j < es.len(),
        forall|j2: int| j < j2 < es.len() ==> es[j2].0 != es[j].0,
    ensures
        apply_plan(m, out, es).dom().contains(out.push(es[j].0)),
        apply_plan(m, out, es)[out.push(es[j].0)] == es[j].1,
    decreases es.len(),
{
    if j == es.len() - 1 {
    } else {
        assert(es.drop_last()[j] == es[j]);
        lemma_apply_plan_last(m, out, es.drop_last(), j);
        assert(out.push(es.last().0) != out.push(es[j].0)) by {
            if out.push(es.last().0) == out.push(es[j].0) {
                assert(out.push(es.last().0).last() == es.last().0);
                assert(out.push(es[j].0).last() == es[j].0);
            }
        }
    }
}

/// Staging integrity: when the driver's output holds a directory entry
/// (one no later artifact of the same name shadows), an operation that
/// reaches the staging step stops with the staging violation — and, by
/// the no-side-effects law above, before touching the installation.
pub proof fn lemma_dir_artifact_is_a_staging_violation(
    v: FsV,
    sys: SysrootV,
    src: Seq<Seq<char>>,
    commit: Option<Seq<char>>,
    es: Seq<(Seq<char>, NodeV)>,
    j: int,
)
    requires
        roots_apart(sys),
        0 <= j < es.len(),
        es[j].1 is Dir,
        forall|j2: int| j < j2 < es.len() ==> es[j2].0 != es[j].0,
        build_spec(v, sys, src, commit, BuildPlanV::Artifacts(es)).err != Some(
            BuildError::WorkspaceDir,
        ),
        build_spec(v, sys, src, commit, BuildPlanV::Artifacts(es)).err != Some(
            BuildError::Lockfile,
        ),
        build_spec(v, sys, src, commit, BuildPlanV::Artifacts(es)).err != Some(
            BuildError::StagingDir,
        ),
        build_spec(v, sys, src, commit, BuildPlanV::Artifacts(es)).invoked,
    ensures
        build_spec(v, sys, src, commit, BuildPlanV::Artifacts(es)).err == Some(
            BuildError::StagingViolation,
        ),
        build_spec(v, sys, src, commit, BuildPlanV::Artifacts(es)).map == v.map,
{
    let plan = BuildPlanV::Artifacts(es);
    let o = build_spec(v, sys, src, commit, plan);
    let w = scratch_root().push(temp_name("cargo-careful"@, v.counter));
    let c1 = next_counter(v.counter);
    let stg = sys.dir.push(temp_name("cargo-careful"@, c1));
    let m1 = v.map.insert(w, NodeV::Dir);
    let lockp = src.drop_last().push("Cargo.lock"@);
    let lockc = match m1[lockp] {
        NodeV::File(c) => c,
        NodeV::Dir => Seq::empty(),
    };
    let m2 = m1.insert(w.push("Cargo.lock"@), NodeV::File(lockc)).insert(
        w.push("Cargo.toml"@),
        NodeV::File(crate::manifest::manifest_text(src)),
    ).insert(w.push("lib.rs"@), NodeV::File(Seq::empty()));
    let out = w.push("target"@).push(sys.target).push("release"@).push("deps"@);
    let m3 = apply_plan(m2.insert(out, NodeV::Dir), out, es);
    let m4 = m3.insert(stg, NodeV::Dir);
    lemma_apply_plan_last(m2.insert(out, NodeV::Dir), out, es, j);
    let child = out.push(es[j].0);
    assert(child != stg) by {
        if child == stg {
            crate::fsmodel::lemma_push_starts_with_pub(out, es[j].0);
            crate::fsmodel::lemma_push_starts_with_pub(w, "target"@);
            crate::fsmodel::lemma_push_starts_with_pub(w.push("target"@), sys.target);
            lemma_prefix_trans(w.push("target"@).push(sys.target), w.push("target"@), w);
            crate::fsmodel::lemma_push_starts_with_pub(
                w.push("target"@).push(sys.target),
                "release"@,
            );
            lemma_prefix_trans(
                w.push("target"@).push(sys.target).push("release"@),
                w.push("target"@).push(sys.target),
                w,
            );
            crate::fsmodel::lemma_push_starts_with_pub(
                w.push("target"@).push(sys.target).push("release"@),
                "deps"@,
            );
            lemma_prefix_trans(out, w.push("target"@).push(sys.target).push("release"@), w);
            lemma_prefix_trans(child, out, w);
            crate::fsmodel::lemma_push_starts_with_pub(
                scratch_root(),
                temp_name("cargo-careful"@, v.counter),
            );
            lemma_prefix_trans(child, w, scratch_root());
            crate::fsmodel::lemma_push_starts_with_pub(sys.dir, temp_name("cargo-careful"@, c1));
            if sys.dir.len() <= scratch_root().len() {
                lemma_prefix_comparable(child, sys.dir, scratch_root());
            } else {
                lemma_prefix_comparable(child, scratch_root(), sys.dir);
            }
        }
    }
    assert(m4.dom().contains(child) && m4[child] is Dir);
    assert(has_dir_child(m4, out)) by {
        assert(m4.dom().contains(out.push(es[j].0)) && m4[out.push(es[j].0)] is Dir);
    }
    lemma_pre_install_failure_no_side_effects(v, sys, src, commit, plan);
}


/// End to end: a successful operation installs each artifact that no
/// later artifact of the same name shadows (and that does not collide
/// with the reserved fingerprint file name) into the installed library
/// directory under its own name, with its contents.
pub proof fn lemma_success_installs_artifacts(
    v: FsV,
    sys: SysrootV,
    src: Seq<Seq<char>>,
    commit: Option<Seq<char>>,
    es: Seq<(Seq<char>, NodeV)>,
    j: int,
)
    requires
        roots_apart(sys),
        build_spec(v, sys, src, commit, BuildPlanV::Artifacts(es)).err is None,
        build_spec(v, sys, src, commit, BuildPlanV::Artifacts(es)).invoked,
        0 <= j < es.len(),
        forall|j2: int| j < j2 < es.len() ==> es[j2].0 != es[j].0,
        es[j].0 != ".cargo-careful-hash"@,
    ensures
        build_spec(v, sys, src, commit, BuildPlanV::Artifacts(es)).map.dom().contains(
            lib_dir_of(sys).push(es[j].0),
        ),
        build_spec(v, sys, src, commit, BuildPlanV::Artifacts(es)).map[lib_dir_of(sys).push(
            es[j].0,
        )] == es[j].1,
{
    let plan = BuildPlanV::Artifacts(es);
    let o = build_spec(v, sys, src, commit, plan);
    let fp = fingerprint_of(src, commit);
    let w = scratch_root().push(temp_name("cargo-careful"@, v.counter));
    let c1 = next_counter(v.counter);
    let stg = sys.dir.push(temp_name("cargo-careful"@, c1));
    let tld = lib_dir_of(sys);
    let par = target_dir_of(sys);
    let name = es[j].0;
    let hk = stg.push(".cargo-careful-hash"@);
    let m1 = v.map.insert(w, NodeV::Dir);
    let lockp = src.drop_last().push("Cargo.lock"@);
    let lockc = match m1[lockp] {
        NodeV::File(c) => c,
        NodeV::Dir => Seq::empty(),
    };
    let m2 = m1.insert(w.push("Cargo.lock"@), NodeV::File(lockc)).insert(
        w.push("Cargo.toml"@),
        NodeV::File(crate::manifest::manifest_text(src)),
    ).insert(w.push("lib.rs"@), NodeV::File(Seq::empty()));
    let out = w.push("target"@).push(sys.target).push("release"@).push("deps"@);
    let m3 = apply_plan(m2.insert(out, NodeV::Dir), out, es);
    let m4 = m3.insert(stg, NodeV::Dir);
    let m5 = stage_children(m4, out, stg);
    let m6 = m5.insert(hk, NodeV::File(crate::digits::dec_chars(fp)));
    let m7 = if m6.dom().contains(tld) {
        remove_prefixed(m6, tld)
    } else {
        m6
    };
    let m8 = mkdirp(m7, par);
    let m9 = rename_map(m8, stg, tld);
    assert(o.map == remove_prefixed(m9, w));
    let child = out.push(name);
    let sk = stg.push(name);
    let tk = tld.push(name);
    // The output directory binds the name to this artifact.
    lemma_apply_plan_last(m2.insert(out, NodeV::Dir), out, es, j);
    // The output directory lies in the scratch area, apart from the
    // staging directory and the installation.
    crate::fsmodel::lemma_push_starts_with_pub(out, name);
    crate::fsmodel::lemma_push_starts_with_pub(w, "target"@);
    crate::fsmodel::lemma_push_starts_with_pub(w.push("target"@), sys.target);
    lemma_prefix_trans(w.push("target"@).push(sys.target), w.push("target"@), w);
    crate::fsmodel::lemma_push_starts_with_pub(w.push("target"@).push(sys.target), "release"@);
    lemma_prefix_trans(
        w.push("target"@).push(sys.target).push("release"@),
        w.push("target"@).push(sys.target),
        w,
    );
    crate::fsmodel::lemma_push_starts_with_pub(
        w.push("target"@).push(sys.target).push("release"@),
        "deps"@,
    );
    lemma_prefix_trans(out, w.push("target"@).push(sys.target).push("release"@), w);
    lemma_prefix_trans(child, out, w);
    crate::fsmodel::lemma_push_starts_with_pub(
        scratch_root(),
        temp_name("cargo-careful"@, v.counter),
    );
    crate::fsmodel::lemma_push_starts_with_pub(sys.dir, temp_name("cargo-careful"@, c1));
    assert(child != stg) by {
        if child == stg {
            lemma_prefix_trans(child, w, scratch_root());
            if sys.dir.len() <= scratch_root().len() {
                lemma_prefix_comparable(child, sys.dir, scratch_root());
            } else {
                lemma_prefix_comparable(child, scratch_root(), sys.dir);
            }
        }
    }
    assert(m4.dom().contains(child) && m4[child] == es[j].1);
    // Staging copies it below the staging directory.
    crate::fsmodel::lemma_push_starts_with_pub(stg, name);
    assert(sk.len() == stg.len() + 1 && starts_with(sk, stg));
    assert(sk.last() == name);
    assert(out.push(sk.last()) == child);
    assert(m5.dom().contains(sk) && m5[sk] == es[j].1);
    // The fingerprint file does not shadow it.
    assert(sk != hk) by {
        if sk == hk {
            assert(sk.last() == name && hk.last() == ".cargo-careful-hash"@);
        }
    }
    assert(m6.dom().contains(sk) && m6[sk] == es[j].1);
    // Clearing the stale installation does not reach the staging area.
    assert(!starts_with(sk, tld)) by {
        if starts_with(sk, tld) {
            assert(tld.len() <= sk.len());
        }
    }
    assert(m7.dom().contains(sk) && m7[sk] == es[j].1);
    assert(m8.dom().contains(sk) && m8[sk] == es[j].1);
    // The rename carries it to the installed directory.
    crate::fsmodel::lemma_push_starts_with_pub(tld, name);
    assert(tk.skip(tld.len() as int) =~= Seq::<Seq<char>>::empty().push(name));
    assert(stg + tk.skip(tld.len() as int) =~= sk);
    assert(m9.dom().contains(tk) && m9[tk] == es[j].1);
    // And the workspace cleanup does not touch the installation.
    crate::paths::lemma_starts_with_self(sys.dir);
    crate::fsmodel::lemma_push_starts_with_pub(sys.dir, "lib"@);
    crate::fsmodel::lemma_push_starts_with_pub(sys.dir.push("lib"@), "rustlib"@);
    lemma_prefix_trans(sys.dir.push("lib"@).push("rustlib"@), sys.dir.push("lib"@), sys.dir);
    crate::fsmodel::lemma_push_starts_with_pub(
        sys.dir.push("lib"@).push("rustlib"@),
        sys.target,
    );
    lemma_prefix_trans(par, sys.dir.push("lib"@).push("rustlib"@), sys.dir);
    crate::fsmodel::lemma_push_starts_with_pub(par, "lib"@);
    lemma_prefix_trans(tld, par, sys.dir);
    crate::fsmodel::lemma_push_starts_with_pub(tld, name);
    lemma_prefix_trans(tk, tld, sys.dir);
    assert(!starts_with(tk, w)) by {
        if starts_with(tk, w) {
            lemma_prefix_trans(tk, w, scratch_root());
            if sys.dir.len() <= scratch_root().len() {
                lemma_prefix_comparable(tk, sys.dir, scratch_root());
            } else {
                lemma_prefix_comparable(tk, scratch_root(), sys.dir);
            }
        }
    }
    assert(o.map.dom().contains(tk) && o.map[tk] == es[j].1);
}

} // verus!
