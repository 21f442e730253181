//! The injectable external build driver.
//!
//! The protocol treats the compiler toolchain as an opaque collaborator:
//! it is pointed at a workspace and an output directory, runs, and either
//! fails to launch, exits unsuccessfully, or fills the output directory
//! with artifacts.  `SimBuilder` scripts that behaviour over the
//! filesystem model, and counts how often it is invoked, so callers can
//! observe that a cached installation skips the build entirely.

use vstd::prelude::*;
use crate::fsmodel::{MemFs, Node, NodeV, next_counter};
use crate::paths::path_push;

verus! {

/// What the driver is asked to do: a full build, or a check that
/// validates without keeping artifacts.
#[derive(Clone, Copy, Debug, PartialEq, Eq, Structural)]
pub enum BuildMode {
    Build,
    Check,
}

/// One artifact the scripted driver leaves in its output directory.
pub struct OutEntry {
    pub name: String,
    pub node: Node,
}

impl View for OutEntry {
    type V = (Seq<char>, NodeV);

    open spec fn view(&self) -> (Seq<char>, NodeV) {
        (self.name@, self.node@)
    }
}

impl DeepView for OutEntry {
    type V = (Seq<char>, NodeV);

    open spec fn deep_view(&self) -> (Seq<char>, NodeV) {
        self@
    }
}

/// The scripted behaviour of one driver invocation.
pub enum BuildPlan {
    /// The driver process cannot even be launched.
    LaunchFailure,
    /// The driver runs and exits with a failure status.
    ExitFailure,
    /// The driver succeeds and writes these entries into its output
    /// directory (later entries shadow earlier ones of the same name).
    Artifacts(Vec<OutEntry>),
}

/// The mathematical value of a build plan.
pub enum BuildPlanV {
    LaunchFailure,
    ExitFailure,
    Artifacts(Seq<(Seq<char>, NodeV)>),
}

impl View for BuildPlan {
    type V = BuildPlanV;

    open spec fn view(&self) -> BuildPlanV {
        match self {
            BuildPlan::LaunchFailure => BuildPlanV::LaunchFailure,
            BuildPlan::ExitFailure => BuildPlanV::ExitFailure,
            BuildPlan::Artifacts(es) => BuildPlanV::Artifacts(es.deep_view()),
        }
    }
}

/// How one driver invocation ended.
#[derive(Clone, Copy, Debug, PartialEq, Eq, Structural)]
pub enum RunStatus {
    NotLaunched,
    Failed,
    Succeeded,
}

/// The artifact entries written below `out`, in script order.
pub open spec fn apply_plan(
    m: Map<Seq<Seq<char>>, NodeV>,
    out: Seq<Seq<char>>,
    es: Seq<(Seq<char>, NodeV)>,
) -> Map<Seq<Seq<char>>, NodeV>
    decreases es.len(),
{
    if es.len() == 0 {
        m
    } else {
        apply_plan(m, out, es.drop_last()).insert(out.push(es.last().0), es.last().1)
    }
}

/// The deep view of an artifact vector indexes to the entries' views.
pub proof fn lemma_plan_index(v: &Vec<OutEntry>, i: int)
    requires
        0 <= i < v@.len(),
    ensures
        v.deep_view().len() == v@.len(),
        v.deep_view()[i] == (v@[i].name@, v@[i].node@),
{
}

/// A scripted stand-in for the external build driver.
pub struct SimBuilder {
    /// How many times the driver was invoked.
    pub runs: u64,
    /// The mode of the most recent invocation.
    pub last_mode: Option<BuildMode>,
    /// What every invocation does.
    pub plan: BuildPlan,
}

impl SimBuilder {
    /// A driver that behaves as scripted and has not yet run.
    pub fn new(plan: BuildPlan) -> (r: SimBuilder)
        ensures
            r.runs == 0,
            r.last_mode is None,
            r.plan == plan,
    {
        SimBuilder { runs: 0, last_mode: None, plan }
    }

    /// Invoke the driver against `out_dir` in `fs`.  On success the
    /// output directory exists and holds exactly the scripted entries;
    /// on either failure the filesystem is untouched.
    pub fn run(&mut self, fs: &mut MemFs, mode: BuildMode, out_dir: &Vec<String>) -> (r: RunStatus)
        ensures
            final(self).runs == next_counter(old(self).runs),
            final(self).last_mode == Some(mode),
            final(self).plan == old(self).plan,
            final(fs)@.counter == old(fs)@.counter,
            final(fs)@.fail_remove == old(fs)@.fail_remove,
            final(fs)@.fail_rename == old(fs)@.fail_rename,
            match old(self).plan@ {
                BuildPlanV::LaunchFailure => r == RunStatus::NotLaunched && final(fs)@.map == old(
                    fs,
                )@.map,
                BuildPlanV::ExitFailure => r == RunStatus::Failed && final(fs)@.map == old(
                    fs,
                )@.map,
                BuildPlanV::Artifacts(es) => r == RunStatus::Succeeded && final(fs)@.map
                    == apply_plan(
                    old(fs)@.map.insert(out_dir.deep_view(), NodeV::Dir),
                    out_dir.deep_view(),
                    es,
                ),
            },
    {
        if self.runs < u64::MAX {
            self.runs = self.runs + 1;
        }
        self.last_mode = Some(mode);
        match &self.plan {
            BuildPlan::LaunchFailure => RunStatus::NotLaunched,
            BuildPlan::ExitFailure => RunStatus::Failed,
            BuildPlan::Artifacts(es) => {
                fs.mkdir(out_dir);
                let n = es.len();
                let mut i: usize = 0;
                while i < n
                    invariant
                        0 <= i <= n,
                        n == es.len(),
                        fs@.map == apply_plan(
                            old(fs)@.map.insert(out_dir.deep_view(), NodeV::Dir),
                            out_dir.deep_view(),
                            es.deep_view().subrange(0, i as int),
                        ),
                        fs@.counter == old(fs)@.counter,
                        fs@.fail_remove == old(fs)@.fail_remove,
                        fs@.fail_rename == old(fs)@.fail_rename,
                    decreases n - i,
                {
                    proof {
                        let dv = es.deep_view();
                        let t = dv.subrange(0, i + 1);
                        assert(t.drop_last() =~= dv.subrange(0, i as int));
                        assert(t.last() == dv[i as int]);
                        lemma_plan_index(es, i as int);
                    }
                    let e = &es[i];
                    let p = path_push(out_dir, e.name.as_str());
                    match &e.node {
                        Node::File(c) => {
                            fs.set_file(&p, c.clone());
                        },
                        Node::Dir => {
                            fs.mkdir(&p);
                        },
                    }
                    i = i + 1;
                }
                proof {
                    assert(es.deep_view().subrange(0, n as int) =~= es.deep_view());
                }
                RunStatus::Succeeded
            },
        }
    }
}


/// Applying a plan never drops existing bindings.
pub proof fn lemma_apply_plan_contains(
    m: Map<Seq<Seq<char>>, NodeV>,
    out: Seq<Seq<char>>,
    es: Seq<(Seq<char>, NodeV)>,
    k: Seq<Seq<char>>,
)
    requires
        m.dom().contains(k),
    ensures
        apply_plan(m, out, es).dom().contains(k),
    decreases es.len(),
{
    if es.len() > 0 {
        lemma_apply_plan_contains(m, out, es.drop_last(), k);
    }
}

} // verus!
