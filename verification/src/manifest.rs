//! Generation of the workspace's build manifest.
//!
//! The build workspace contains a synthesized manifest that pins fixed
//! identifying metadata and declares the support-library sources as
//! path dependencies: one primary dependency plus a fixed set of
//! workspace-shim dependencies, each at a fixed subdirectory of the
//! source tree.  The text is a pure function of the source directory
//! path, so the manifest is reproducible.

use vstd::prelude::*;
use crate::paths::{lemma_path_index, lemma_path_len};

verus! {

/// A path rendered as text: components joined by a slash.
pub open spec fn path_text(p: Seq<Seq<char>>) -> Seq<char>
    decreases p.len(),
{
    if p.len() == 0 {
        Seq::empty()
    } else if p.len() == 1 {
        p.last()
    } else {
        path_text(p.drop_last()) + "/"@ + p.last()
    }
}

/// The manifest text generated for a source directory.
pub open spec fn manifest_text(src: Seq<Seq<char>>) -> Seq<char> {
    "[package]\nauthors = [\"The Rust Project Developers\"]\nname = \"sysroot\"\nversion = \"0.0.0\"\n\n[lib]\npath = \"lib.rs\"\n\n[dependencies.std]\nfeatures = [\"panic_unwind\", \"backtrace\"]\npath = \""@
        + path_text(src.push("std"@))
        + "\"\n[dependencies.test]\npath = \""@
        + path_text(src.push("test"@))
        + "\"\n\n[patch.crates-io.rustc-std-workspace-core]\npath = \""@
        + path_text(src.push("rustc-std-workspace-core"@))
        + "\"\n[patch.crates-io.rustc-std-workspace-alloc]\npath = \""@
        + path_text(src.push("rustc-std-workspace-alloc"@))
        + "\"\n[patch.crates-io.rustc-std-workspace-std]\npath = \""@
        + path_text(src.push("rustc-std-workspace-std"@))
        + "\"\n"@
}

/// Render a path as text, components joined by a slash.
pub fn render_path(p: &Vec<String>) -> (r: String)
    ensures
        r@ == path_text(p.deep_view()),
{
    let mut r = String::new();
    let n = p.len();
    let mut i: usize = 0;
    while i < n
        invariant
            0 <= i <= n,
            n == p.len(),
            r@ == path_text(p.deep_view().subrange(0, i as int)),
        decreases n - i,
    {
        proof {
            let dv = p.deep_view();
            let t = dv.subrange(0, i + 1);
            assert(t.drop_last() =~= dv.subrange(0, i as int));
            assert(t.last() == dv[i as int]);
            lemma_path_index(p, i as int);
        }
        if i > 0 {
            r.append("/");
        } else {
            proof {
                assert(path_text(p.deep_view().subrange(0, 1)) == p.deep_view()[0]);
            }
        }
        r.append(p[i].as_str());
        proof {
            let dv = p.deep_view();
            if i == 0 {
                assert(r@ =~= path_text(dv.subrange(0, 1)));
            } else {
                assert(r@ =~= path_text(dv.subrange(0, i + 1)));
            }
        }
        i = i + 1;
    }
    proof {
        assert(p.deep_view().subrange(0, n as int) =~= p.deep_view());
        if n == 0 {
            assert(r@ =~= path_text(p.deep_view()));
        }
    }
    r
}

/// Render the path one component below `p`.
fn render_sub_path(p: &Vec<String>, comp: &str) -> (r: String)
    ensures
        r@ == path_text(p.deep_view().push(comp@)),
{
    let joined = crate::paths::path_push(p, comp);
    render_path(&joined)
}

/// Generate the manifest for the build workspace.
pub fn generate_manifest(src_dir: &Vec<String>) -> (r: String)
    ensures
        r@ == manifest_text(src_dir.deep_view()),
{
    let mut r =
        "[package]\nauthors = [\"The Rust Project Developers\"]\nname = \"sysroot\"\nversion = \"0.0.0\"\n\n[lib]\npath = \"lib.rs\"\n\n[dependencies.std]\nfeatures = [\"panic_unwind\", \"backtrace\"]\npath = \"".to_owned();
    let p_std = render_sub_path(src_dir, "std");
    r.append(p_std.as_str());
    r.append("\"\n[dependencies.test]\npath = \"");
    let p_test = render_sub_path(src_dir, "test");
    r.append(p_test.as_str());
    r.append("\"\n\n[patch.crates-io.rustc-std-workspace-core]\npath = \"");
    let p_core = render_sub_path(src_dir, "rustc-std-workspace-core");
    r.append(p_core.as_str());
    r.append("\"\n[patch.crates-io.rustc-std-workspace-alloc]\npath = \"");
    let p_alloc = render_sub_path(src_dir, "rustc-std-workspace-alloc");
    r.append(p_alloc.as_str());
    r.append("\"\n[patch.crates-io.rustc-std-workspace-std]\npath = \"");
    let p_wstd = render_sub_path(src_dir, "rustc-std-workspace-std");
    r.append(p_wstd.as_str());
    r.append("\"\n");
    proof {
        assert(r@ =~= manifest_text(src_dir.deep_view()));
    }
    r
}

} // verus!
