//! The build pipeline: staged, lockfile-driven incremental builds.
//!
//! A build walks the declared stages in order. For every dependency of a
//! stage that is not skipped, the fresh resolver answer is compared against
//! the old lockfile entry: an equivalent answer reuses the artifact on disk
//! and carries the old entry over verbatim; anything else is fetched anew
//! and recorded fresh. Dependencies no longer declared are dropped. Only a
//! build whose fetches all succeed may replace the persisted lockfile.

use vstd::prelude::*;

use crate::lockfile::{find_in, unique_keys, Lockfile, LockfileEntry};
use crate::model::{ResolvedRef, SourceDescriptor};
use crate::resolver::ResolveError;
use crate::text::str_eq;

verus! {

/// One named stage of the declared configuration, with the dependencies it
/// materializes, in declaration order.
#[derive(Debug)]
pub struct StageConfig {
    pub name: String,
    pub deps: Vec<SourceDescriptor>,
}

/// The declared server model the pipeline reads: an ordered list of named
/// stages. The pipeline never mutates it.
#[derive(Debug)]
pub struct ServerConfig {
    pub stages: Vec<StageConfig>,
}

/// One dependency of one stage, in pipeline order.
#[derive(Debug)]
pub struct DeclaredDep {
    pub stage: String,
    pub descriptor: SourceDescriptor,
}

/// Whether a stage name occurs in the skip list.
pub open spec fn skip_contains(skip: Seq<String>, name: Seq<char>) -> bool {
    exists|i: int| 0 <= i < skip.len() && (#[trigger] skip[i])@ == name
}

/// The dependencies one stage contributes to the run.
pub open spec fn stage_decls(sc: StageConfig) -> Seq<DeclaredDep> {
    sc.deps@.map_values(|d: SourceDescriptor| DeclaredDep { stage: sc.name, descriptor: d })
}

/// All dependencies the run will consider, in stage order then declaration
/// order, with skipped stages left out entirely.
pub open spec fn declared(stages: Seq<StageConfig>, skip: Seq<String>) -> Seq<DeclaredDep>
    decreases stages.len(),
{
    if stages.len() == 0 {
        Seq::empty()
    } else {
        (if skip_contains(skip, stages[0].name@) {
            Seq::empty()
        } else {
            stage_decls(stages[0])
        }) + declared(stages.drop_first(), skip)
    }
}

/// Appending one stage appends its contribution.
proof fn lemma_declared_snoc(stages: Seq<StageConfig>, skip: Seq<String>, sc: StageConfig)
    ensures
        declared(stages.push(sc), skip) == declared(stages, skip) + (if skip_contains(
            skip,
            sc.name@,
        ) {
            Seq::<DeclaredDep>::empty()
        } else {
            stage_decls(sc)
        }),
    decreases stages.len(),
{
    let tail = if skip_contains(skip, sc.name@) {
        Seq::<DeclaredDep>::empty()
    } else {
        stage_decls(sc)
    };
    if stages.len() == 0 {
        assert(stages.push(sc)[0] == sc);
        assert(stages.push(sc).drop_first() =~= Seq::<StageConfig>::empty());
        assert(declared(Seq::<StageConfig>::empty(), skip) == Seq::<DeclaredDep>::empty());
        assert(declared(stages.push(sc), skip) == tail + Seq::<DeclaredDep>::empty());
        assert(tail + Seq::<DeclaredDep>::empty() =~= declared(stages, skip) + tail);
    } else {
        let sd0 = if skip_contains(skip, stages[0].name@) {
            Seq::<DeclaredDep>::empty()
        } else {
            stage_decls(stages[0])
        };
        assert(stages.push(sc)[0] == stages[0]);
        assert(stages.push(sc).drop_first() =~= stages.drop_first().push(sc));
        assert(declared(stages.push(sc), skip) == sd0 + declared(
            stages.drop_first().push(sc),
            skip,
        ));
        lemma_declared_snoc(stages.drop_first(), skip, sc);
        assert(declared(stages, skip) == sd0 + declared(stages.drop_first(), skip));
        assert(sd0 + (declared(stages.drop_first(), skip) + tail) =~= (sd0 + declared(
            stages.drop_first(),
            skip,
        )) + tail);
    }
}

/// Decides membership in the skip list.
pub fn skip_has(skip: &Vec<String>, name: &str) -> (r: bool)
    ensures
        r == skip_contains(skip@, name@),
{
    let n = skip.len();
    let mut i: usize = 0;
    while i < n
        invariant
            n == skip@.len(),
            i <= n,
            forall|j: int| 0 <= j < i ==> (#[trigger] skip@[j])@ != name@,
        decreases n - i,
    {
        if str_eq(skip[i].as_str(), name) {
            return true;
        }
        i += 1;
    }
    false
}

/// Flattens the declared configuration into the run's dependency list,
/// leaving out every stage named in the skip list.
pub fn declared_list(config: &ServerConfig, skip: &Vec<String>) -> (v: Vec<DeclaredDep>)
    ensures
        v@ == declared(config.stages@, skip@),
{
    let mut v: Vec<DeclaredDep> = Vec::new();
    let n = config.stages.len();
    let mut i: usize = 0;
    proof {
        assert(config.stages@.take(0) =~= Seq::<StageConfig>::empty());
    }
    while i < n
        invariant
            n == config.stages@.len(),
            i <= n,
            v@ == declared(config.stages@.take(i as int), skip@),
        decreases n - i,
    {
        let sc = &config.stages[i];
        let ghost pre = v@;
        if !skip_has(skip, sc.name.as_str()) {
            let m = sc.deps.len();
            let mut j: usize = 0;
            while j < m
                invariant
                    m == sc.deps@.len(),
                    j <= m,
                    v@ == pre + stage_decls(*sc).take(j as int),
                decreases m - j,
            {
                v.push(DeclaredDep { stage: sc.name.clone(), descriptor: sc.deps[j].clone() });
                proof {
                    assert(stage_decls(*sc)[j as int] == DeclaredDep {
                        stage: sc.name,
                        descriptor: sc.deps@[j as int],
                    });
                    assert(v@ =~= pre + stage_decls(*sc).take(j + 1));
                }
                j += 1;
            }
            proof {
                assert(stage_decls(*sc).take(m as int) =~= stage_decls(*sc));
            }
        }
        proof {
            lemma_declared_snoc(config.stages@.take(i as int), skip@, config.stages@[i as int]);
            assert(config.stages@.take(i as int).push(config.stages@[i as int])
                =~= config.stages@.take(i + 1));
        }
        i += 1;
    }
    proof {
        assert(config.stages@.take(n as int) =~= config.stages@);
    }
    v
}

/// The resolver's answer for one declared descriptor: either the concrete
/// reference the source reports today, or why resolution failed.
#[derive(Debug)]
pub struct ResolutionItem {
    pub descriptor: SourceDescriptor,
    pub outcome: Result<ResolvedRef, ResolveError>,
}

/// `item` answers descriptors equal to `d` in every declared field.
pub open spec fn answers(item: ResolutionItem, d: SourceDescriptor) -> bool {
    &&& item.descriptor.kind == d.kind
    &&& item.descriptor.identifier@ == d.identifier@
    &&& item.descriptor.version_selector@ == d.version_selector@
}

/// The first answer recorded for `d`, if any.
pub open spec fn res_find(items: Seq<ResolutionItem>, d: SourceDescriptor) -> Option<ResolutionItem>
    decreases items.len(),
{
    if items.len() == 0 {
        None
    } else if answers(items[0], d) {
        Some(items[0])
    } else {
        res_find(items.drop_first(), d)
    }
}

/// The resolver answers gathered for one run, one per declared descriptor.
/// Resolution happens before any reuse decision; this table is what it
/// returned.
#[derive(Debug)]
pub struct Resolutions {
    pub items: Vec<ResolutionItem>,
}

impl Resolutions {
    /// An empty table.
    pub fn new() -> (r: Resolutions)
        ensures
            r.items@ =~= Seq::<ResolutionItem>::empty(),
    {
        Resolutions { items: Vec::new() }
    }

    /// Records one answer after the ones already gathered.
    pub fn push(&mut self, item: ResolutionItem)
        ensures
            final(self).items@ == old(self).items@.push(item),
    {
        self.items.push(item);
    }

    /// The answer recorded for `d`, if any.
    pub fn get(&self, d: &SourceDescriptor) -> (r: Option<&ResolutionItem>)
        ensures
            match r {
                Some(item) => res_find(self.items@, *d) == Some(*item),
                None => res_find(self.items@, *d) is None,
            },
    {
        let n = self.items.len();
        let mut i: usize = 0;
        proof {
            assert(self.items@.skip(0) =~= self.items@);
        }
        while i < n
            invariant
                n == self.items@.len(),
                i <= n,
                res_find(self.items@, *d) == res_find(self.items@.skip(i as int), *d),
            decreases n - i,
        {
            let item = &self.items[i];
            proof {
                assert(self.items@.skip(i as int)[0] == self.items@[i as int]);
                assert(self.items@.skip(i as int).drop_first() =~= self.items@.skip(i + 1));
            }
            if item.descriptor.kind == d.kind && str_eq(
                item.descriptor.identifier.as_str(),
                d.identifier.as_str(),
            ) && str_eq(item.descriptor.version_selector.as_str(), d.version_selector.as_str()) {
                return Some(item);
            }
            i += 1;
        }
        proof {
            assert(self.items@.skip(n as int) =~= Seq::<ResolutionItem>::empty());
        }
        None
    }
}

/// What a stage does for one dependency once its fresh resolution is known.
#[derive(Clone, Copy, PartialEq, Eq, Structural, Debug)]
pub enum DepAction {
    /// The artifact on disk is kept; the old entry carries over verbatim.
    Reuse,
    /// The artifact is fetched (anew) and a fresh entry is recorded.
    Fetch,
}

/// One dependency of the plan: the action to take and the lockfile entry the
/// new lockfile will hold for it.
#[derive(Debug)]
pub struct PlannedDep {
    pub action: DepAction,
    pub entry: LockfileEntry,
}

/// Why a run aborted before its fetch phase.
#[derive(Debug)]
pub enum BuildError {
    /// Resolution failed for one declared dependency; the stage that hit it
    /// fails, and the pipeline aborts without touching the old lockfile.
    Resolve { stage: String, descriptor: SourceDescriptor, error: ResolveError },
}

impl BuildError {
    /// What the abort reads as: the stage that failed and why.
    pub open spec fn message_spec(self) -> Seq<char> {
        match self {
            BuildError::Resolve { stage, descriptor, error } => "stage "@ + stage@ + ": "@
                + error.message_spec(),
        }
    }

    /// Renders the abort reason for reporting.
    pub fn message(&self) -> (r: String)
        ensures
            r@ == self.message_spec(),
    {
        match self {
            BuildError::Resolve { stage, descriptor: _, error } => {
                let mut s = String::from_str("stage ");
                s.append(stage.as_str());
                s.append(": ");
                let m = error.message();
                s.append(m.as_str());
                s
            },
        }
    }
}

/// The reuse decision for one dependency (the heart of the pipeline):
/// an old entry is carried over verbatim exactly when force is off, the
/// dependency already holds a slot, and the fresh resolution is equivalent
/// to what that slot recorded; in every other case the dependency is fetched
/// and recorded fresh.
pub open spec fn plan_dep(
    dd: DeclaredDep,
    old: Seq<LockfileEntry>,
    force: bool,
    fresh: ResolvedRef,
) -> PlannedDep {
    let prior = find_in(old, dd.stage@, dd.descriptor);
    if !force && prior is Some && prior->Some_0.resolved.equivalent(fresh) {
        PlannedDep { action: DepAction::Reuse, entry: prior->Some_0 }
    } else {
        PlannedDep {
            action: DepAction::Fetch,
            entry: LockfileEntry { stage: dd.stage, descriptor: dd.descriptor, resolved: fresh },
        }
    }
}

/// The whole run's plan, dependency by dependency in pipeline order, failing
/// fast at the first dependency whose resolution failed. A descriptor the
/// table holds no answer for is reported as a source that was never found.
pub open spec fn plan_deps(
    decl: Seq<DeclaredDep>,
    old: Seq<LockfileEntry>,
    force: bool,
    res: Seq<ResolutionItem>,
) -> Result<Seq<PlannedDep>, BuildError>
    decreases decl.len(),
{
    if decl.len() == 0 {
        Ok(Seq::empty())
    } else {
        let dd = decl[0];
        match res_find(res, dd.descriptor) {
            None => Err(
                BuildError::Resolve {
                    stage: dd.stage,
                    descriptor: dd.descriptor,
                    error: ResolveError::SourceNotFound { identifier: dd.descriptor.identifier },
                },
            ),
            Some(item) => match item.outcome {
                Err(e) => Err(
                    BuildError::Resolve { stage: dd.stage, descriptor: dd.descriptor, error: e },
                ),
                Ok(fresh) => match plan_deps(decl.drop_first(), old, force, res) {
                    Ok(rest) => Ok(seq![plan_dep(dd, old, force, fresh)] + rest),
                    Err(e) => Err(e),
                },
            },
        }
    }
}

/// The entries the new lockfile will hold, in plan order.
pub open spec fn entries_of(deps: Seq<PlannedDep>) -> Seq<LockfileEntry> {
    deps.map_values(|pd: PlannedDep| pd.entry)
}

/// The plan of one run.
#[derive(Debug)]
pub struct BuildPlan {
    pub deps: Vec<PlannedDep>,
}

/// Computes the run's plan: walks the declared dependencies of the stages
/// that are not skipped, in order, deciding reuse against the old lockfile
/// and the fresh resolver answers, and failing fast on the first dependency
/// whose resolution failed.
pub fn build_plan(
    config: &ServerConfig,
    old: &Lockfile,
    force: bool,
    skip: &Vec<String>,
    res: &Resolutions,
) -> (r: Result<BuildPlan, BuildError>)
    ensures
        match r {
            Ok(p) => plan_deps(declared(config.stages@, skip@), old.entries@, force, res.items@)
                == Ok::<Seq<PlannedDep>, BuildError>(p.deps@),
            Err(e) => plan_deps(declared(config.stages@, skip@), old.entries@, force, res.items@)
                == Err::<Seq<PlannedDep>, BuildError>(e),
        },
{
    let decl = declared_list(config, skip);
    let ghost dseq = declared(config.stages@, skip@);
    let n = decl.len();
    let mut acc: Vec<PlannedDep> = Vec::new();
    let mut i: usize = 0;
    proof {
        assert(dseq.skip(0) =~= dseq);
    }
    while i < n
        invariant
            n == decl@.len(),
            decl@ == dseq,
            dseq == declared(config.stages@, skip@),
            i <= n,
            acc@.len() == i,
            plan_deps(dseq, old.entries@, force, res.items@) == match plan_deps(
                dseq.skip(i as int),
                old.entries@,
                force,
                res.items@,
            ) {
                Ok(rest) => Ok::<Seq<PlannedDep>, BuildError>(acc@ + rest),
                Err(e) => Err::<Seq<PlannedDep>, BuildError>(e),
            },
        decreases n - i,
    {
        let dd = &decl[i];
        proof {
            assert(dseq.skip(i as int)[0] == dseq[i as int]);
            assert(dseq.skip(i as int).drop_first() =~= dseq.skip(i + 1));
        }
        match res.get(&dd.descriptor) {
            None => {
                return Err(
                    BuildError::Resolve {
                        stage: dd.stage.clone(),
                        descriptor: dd.descriptor.clone(),
                        error: ResolveError::SourceNotFound {
                            identifier: dd.descriptor.identifier.clone(),
                        },
                    },
                );
            },
            Some(item) => {
                match &item.outcome {
                    Err(e) => {
                        return Err(
                            BuildError::Resolve {
                                stage: dd.stage.clone(),
                                descriptor: dd.descriptor.clone(),
                                error: e.clone(),
                            },
                        );
                    },
                    Ok(fresh) => {
                        let pd = if force {
                            PlannedDep {
                                action: DepAction::Fetch,
                                entry: LockfileEntry {
                                    stage: dd.stage.clone(),
                                    descriptor: dd.descriptor.clone(),
                                    resolved: fresh.clone(),
                                },
                            }
                        } else {
                            match old.get(dd.stage.as_str(), &dd.descriptor) {
                                Some(pe) => {
                                    if pe.resolved.is_equivalent(fresh) {
                                        PlannedDep { action: DepAction::Reuse, entry: pe.clone() }
                                    } else {
                                        PlannedDep {
                                            action: DepAction::Fetch,
                                            entry: LockfileEntry {
                                                stage: dd.stage.clone(),
                                                descriptor: dd.descriptor.clone(),
                                                resolved: fresh.clone(),
                                            },
                                        }
                                    }
                                },
                                None => PlannedDep {
                                    action: DepAction::Fetch,
                                    entry: LockfileEntry {
                                        stage: dd.stage.clone(),
                                        descriptor: dd.descriptor.clone(),
                                        resolved: fresh.clone(),
                                    },
                                },
                            }
                        };
                        proof {
                            assert(pd == plan_dep(dseq[i as int], old.entries@, force, *fresh));
                        }
                        let ghost accpre = acc@;
                        acc.push(pd);
                        proof {
                            if plan_deps(dseq.skip(i + 1), old.entries@, force, res.items@) is Ok {
                                let rest = plan_deps(
                                    dseq.skip(i + 1),
                                    old.entries@,
                                    force,
                                    res.items@,
                                )->Ok_0;
                                assert(accpre + (seq![pd] + rest) =~= acc@ + rest);
                            }
                        }
                    },
                }
            },
        }
        i += 1;
    }
    proof {
        assert(dseq.skip(n as int) =~= Seq::<DeclaredDep>::empty());
        assert(acc@ + Seq::<PlannedDep>::empty() =~= acc@);
    }
    Ok(BuildPlan { deps: acc })
}

/// Per-run state of one build: the declared model, the old lockfile read at
/// pipeline start, the run's overrides, and the output directory artifacts
/// are materialized under. Owned by exactly one run.
#[derive(Debug)]
pub struct BuildContext {
    pub config: ServerConfig,
    pub old_lockfile: Lockfile,
    pub force: bool,
    pub skip_stages: Vec<String>,
    pub output_dir: String,
}

impl BuildContext {
    /// Plans this run against the gathered resolver answers, as
    /// `build_plan` describes.
    pub fn plan(&self, res: &Resolutions) -> (r: Result<BuildPlan, BuildError>)
        ensures
            match r {
                Ok(p) => plan_deps(
                    declared(self.config.stages@, self.skip_stages@),
                    self.old_lockfile.entries@,
                    self.force,
                    res.items@,
                ) == Ok::<Seq<PlannedDep>, BuildError>(p.deps@),
                Err(e) => plan_deps(
                    declared(self.config.stages@, self.skip_stages@),
                    self.old_lockfile.entries@,
                    self.force,
                    res.items@,
                ) == Err::<Seq<PlannedDep>, BuildError>(e),
            },
    {
        build_plan(&self.config, &self.old_lockfile, self.force, &self.skip_stages, res)
    }
}

/// Copies the plan's entries into the new lockfile, in plan order.
pub fn lockfile_of_plan(plan: &BuildPlan) -> (r: Lockfile)
    ensures
        r.entries@ == entries_of(plan.deps@),
{
    let mut entries: Vec<LockfileEntry> = Vec::new();
    let n = plan.deps.len();
    let mut i: usize = 0;
    while i < n
        invariant
            n == plan.deps@.len(),
            i <= n,
            entries@ == entries_of(plan.deps@).take(i as int),
        decreases n - i,
    {
        entries.push(plan.deps[i].entry.clone());
        proof {
            assert(entries@ =~= entries_of(plan.deps@).take(i + 1));
        }
        i += 1;
    }
    proof {
        assert(entries_of(plan.deps@).take(n as int) =~= entries_of(plan.deps@));
    }
    Lockfile { entries }
}

/// Seals a run after its fetch phase. Only a run whose fetches all
/// succeeded replaces the persisted lockfile with the new one; a run whose
/// fetch phase failed anywhere leaves the old lockfile as the record of
/// truth, down to every entry.
pub fn finalize_build(old: &Lockfile, plan: &BuildPlan, failed: bool) -> (r: Lockfile)
    ensures
        !failed ==> r.entries@ == entries_of(plan.deps@),
        failed ==> r.entries@ == old.entries@,
{
    if failed {
        let mut entries: Vec<LockfileEntry> = Vec::new();
        let n = old.entries.len();
        let mut i: usize = 0;
        while i < n
            invariant
                n == old.entries@.len(),
                i <= n,
                entries@ == old.entries@.take(i as int),
            decreases n - i,
        {
            entries.push(old.entries[i].clone());
            proof {
                assert(entries@ =~= old.entries@.take(i + 1));
            }
            i += 1;
        }
        proof {
            assert(old.entries@.take(n as int) =~= old.entries@);
        }
        Lockfile { entries }
    } else {
        lockfile_of_plan(plan)
    }
}

} // verus!
