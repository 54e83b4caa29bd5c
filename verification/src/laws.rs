//! The guarantees of the pipeline, stated and proved over its plan model:
//! idempotent re-builds, the force override, skip handling, drift detection
//! and removed-dependency cleanup.

use vstd::prelude::*;

use crate::lockfile::{
    find_in, lemma_find_in_at, lemma_find_in_none, lemma_find_in_some, unique_keys, LockfileEntry,
};
use crate::model::{ResolvedRef, SourceDescriptor};
use crate::pipeline::{
    declared, entries_of, plan_dep, plan_deps, res_find, skip_contains, stage_decls, BuildError,
    DeclaredDep, DepAction, PlannedDep, ResolutionItem, StageConfig,
};

verus! {

/// The table holds a successful answer for `d`.
pub open spec fn resolves_ok(res: Seq<ResolutionItem>, d: SourceDescriptor) -> bool {
    res_find(res, d) is Some && res_find(res, d)->Some_0.outcome is Ok
}

/// The fresh reference the table answers for `d`.
pub open spec fn fresh_of(res: Seq<ResolutionItem>, d: SourceDescriptor) -> ResolvedRef {
    res_find(res, d)->Some_0.outcome->Ok_0
}

/// Two declared dependencies would occupy the same lockfile slot.
pub open spec fn decl_same_key(a: DeclaredDep, b: DeclaredDep) -> bool {
    &&& a.stage@ == b.stage@
    &&& a.descriptor.kind == b.descriptor.kind
    &&& a.descriptor.identifier@ == b.descriptor.identifier@
}

/// No two declared dependencies of the run collide on a slot.
pub open spec fn decl_keys_unique(decl: Seq<DeclaredDep>) -> bool {
    forall|i: int, j: int|
        0 <= i < j < decl.len() ==> !decl_same_key(#[trigger] decl[i], #[trigger] decl[j])
}

/// The same plan with every dependency turned into a reuse of its entry.
pub open spec fn reused(p: Seq<PlannedDep>) -> Seq<PlannedDep> {
    p.map_values(|pd: PlannedDep| PlannedDep { action: DepAction::Reuse, entry: pd.entry })
}

/// A successful plan decides every declared dependency by the reuse rule,
/// dependency by dependency, from a successful resolver answer.
pub proof fn lemma_plan_elements(
    decl: Seq<DeclaredDep>,
    old: Seq<LockfileEntry>,
    force: bool,
    res: Seq<ResolutionItem>,
    p: Seq<PlannedDep>,
)
    requires
        plan_deps(decl, old, force, res) == Ok::<Seq<PlannedDep>, BuildError>(p),
    ensures
        p.len() == decl.len(),
        forall|i: int| 0 <= i < decl.len() ==> resolves_ok(res, (#[trigger] decl[i]).descriptor),
        forall|i: int|
            0 <= i < decl.len() ==> (#[trigger] p[i]) == plan_dep(
                decl[i],
                old,
                force,
                fresh_of(res, decl[i].descriptor),
            ),
    decreases decl.len(),
{
    if decl.len() > 0 {
        let rest = plan_deps(decl.drop_first(), old, force, res);
        let head = plan_dep(decl[0], old, force, fresh_of(res, decl[0].descriptor));
        assert(p == seq![head] + rest->Ok_0);
        lemma_plan_elements(decl.drop_first(), old, force, res, rest->Ok_0);
        assert forall|i: int|
            0 <= i < decl.len() implies resolves_ok(res, (#[trigger] decl[i]).descriptor) by {
            if i > 0 {
                assert(decl.drop_first()[i - 1] == decl[i]);
            }
        }
        assert forall|i: int|
            0 <= i < decl.len() implies (#[trigger] p[i]) == plan_dep(
            decl[i],
            old,
            force,
            fresh_of(res, decl[i].descriptor),
        ) by {
            if i > 0 {
                assert(decl.drop_first()[i - 1] == decl[i]);
                assert(rest->Ok_0[i - 1] == p[i]);
            }
        }
    }
}

/// Every entry of a successful plan sits under the key of the dependency it
/// was planned for.
pub proof fn lemma_plan_keys(
    decl: Seq<DeclaredDep>,
    old: Seq<LockfileEntry>,
    force: bool,
    res: Seq<ResolutionItem>,
    p: Seq<PlannedDep>,
)
    requires
        plan_deps(decl, old, force, res) == Ok::<Seq<PlannedDep>, BuildError>(p),
    ensures
        p.len() == decl.len(),
        forall|i: int|
            0 <= i < decl.len() ==> (#[trigger] p[i]).entry.keyed_by(
                decl[i].stage@,
                decl[i].descriptor,
            ),
{
    lemma_plan_elements(decl, old, force, res, p);
    assert forall|i: int|
        0 <= i < decl.len() implies (#[trigger] p[i]).entry.keyed_by(
        decl[i].stage@,
        decl[i].descriptor,
    ) by {
        let dd = decl[i];
        let prior = find_in(old, dd.stage@, dd.descriptor);
        if !force && prior is Some && prior->Some_0.resolved.equivalent(
            fresh_of(res, dd.descriptor),
        ) {
            lemma_find_in_some(old, dd.stage@, dd.descriptor);
        }
    }
}

/// The lockfile invariant: a successful plan's new lockfile holds exactly
/// one entry per declared dependency — entry `i` sits under the key of
/// declared dependency `i`, and no key holds two slots.
pub proof fn lemma_new_lockfile_exact(
    decl: Seq<DeclaredDep>,
    old: Seq<LockfileEntry>,
    force: bool,
    res: Seq<ResolutionItem>,
    p: Seq<PlannedDep>,
)
    requires
        decl_keys_unique(decl),
        plan_deps(decl, old, force, res) == Ok::<Seq<PlannedDep>, BuildError>(p),
    ensures
        entries_of(p).len() == decl.len(),
        forall|i: int|
            0 <= i < decl.len() ==> (#[trigger] entries_of(p)[i]).keyed_by(
                decl[i].stage@,
                decl[i].descriptor,
            ),
        unique_keys(entries_of(p)),
{
    lemma_plan_keys(decl, old, force, res, p);
    let e = entries_of(p);
    assert forall|i: int|
        0 <= i < decl.len() implies (#[trigger] e[i]).keyed_by(
        decl[i].stage@,
        decl[i].descriptor,
    ) by {
        assert(e[i] == p[i].entry);
    }
    assert forall|i: int, j: int| 0 <= i < j < e.len() implies !(#[trigger] e[i]).same_key(
        #[trigger] e[j],
    ) by {
        if e[i].same_key(e[j]) {
            assert(decl_same_key(decl[i], decl[j]));
        }
    }
}

/// Idempotence: planning again against the lockfile a successful plan
/// produced, with force off and unchanged resolver answers, fetches nothing
/// — every dependency is reused — and reproduces that lockfile entry for
/// entry.
pub proof fn lemma_idempotent(
    decl: Seq<DeclaredDep>,
    old: Seq<LockfileEntry>,
    res: Seq<ResolutionItem>,
    p: Seq<PlannedDep>,
)
    requires
        decl_keys_unique(decl),
        plan_deps(decl, old, false, res) == Ok::<Seq<PlannedDep>, BuildError>(p),
    ensures
        plan_deps(decl, entries_of(p), false, res) == Ok::<Seq<PlannedDep>, BuildError>(
            reused(p),
        ),
        forall|i: int| 0 <= i < reused(p).len() ==> (#[trigger] reused(p)[i]).action
            == DepAction::Reuse,
        entries_of(reused(p)) == entries_of(p),
{
    lemma_plan_elements(decl, old, false, res, p);
    lemma_plan_keys(decl, old, false, res, p);
    let e = entries_of(p);
    assert(e.len() == decl.len());
    assert forall|i: int, j: int| 0 <= i < j < e.len() implies !(#[trigger] e[i]).same_key(
        #[trigger] e[j],
    ) by {
        assert(e[i] == p[i].entry);
        assert(e[j] == p[j].entry);
        if e[i].same_key(e[j]) {
            assert(decl_same_key(decl[i], decl[j]));
        }
    }
    assert forall|i: int|
        0 <= i < decl.len() implies find_in(e, (#[trigger] decl[i]).stage@, decl[i].descriptor)
        == Some(p[i].entry) by {
        assert(e[i] == p[i].entry);
        lemma_find_in_at(e, decl[i].stage@, decl[i].descriptor, i);
    }
    lemma_idem_aux(decl, p, e, old, res);
    assert(entries_of(reused(p)) =~= entries_of(p));
}

/// The inductive heart of `lemma_idempotent`.
proof fn lemma_idem_aux(
    decl: Seq<DeclaredDep>,
    p: Seq<PlannedDep>,
    e: Seq<LockfileEntry>,
    old: Seq<LockfileEntry>,
    res: Seq<ResolutionItem>,
)
    requires
        p.len() == decl.len(),
        forall|i: int| 0 <= i < decl.len() ==> resolves_ok(res, (#[trigger] decl[i]).descriptor),
        forall|i: int|
            0 <= i < decl.len() ==> (#[trigger] p[i]) == plan_dep(
                decl[i],
                old,
                false,
                fresh_of(res, decl[i].descriptor),
            ),
        forall|i: int|
            0 <= i < decl.len() ==> find_in(e, (#[trigger] decl[i]).stage@, decl[i].descriptor)
                == Some(p[i].entry),
    ensures
        plan_deps(decl, e, false, res) == Ok::<Seq<PlannedDep>, BuildError>(reused(p)),
    decreases decl.len(),
{
    if decl.len() == 0 {
        assert(reused(p) =~= Seq::<PlannedDep>::empty());
    } else {
        let dd = decl[0];
        let fresh = fresh_of(res, dd.descriptor);
        assert(p[0] == plan_dep(dd, old, false, fresh));
        let prior_old = find_in(old, dd.stage@, dd.descriptor);
        if prior_old is Some && prior_old->Some_0.resolved.equivalent(fresh) {
            assert(p[0].entry == prior_old->Some_0);
        } else {
            assert(p[0].entry.resolved == fresh);
        }
        assert(p[0].entry.resolved.equivalent(fresh));
        assert(find_in(e, dd.stage@, dd.descriptor) == Some(p[0].entry));
        let head2 = plan_dep(dd, e, false, fresh);
        assert(head2 == PlannedDep { action: DepAction::Reuse, entry: p[0].entry });
        assert forall|i: int|
            0 <= i < decl.drop_first().len() implies resolves_ok(
            res,
            (#[trigger] decl.drop_first()[i]).descriptor,
        ) && p.drop_first()[i] == plan_dep(
            decl.drop_first()[i],
            old,
            false,
            fresh_of(res, decl.drop_first()[i].descriptor),
        ) && find_in(e, decl.drop_first()[i].stage@, decl.drop_first()[i].descriptor) == Some(
            p.drop_first()[i].entry,
        ) by {
            assert(decl.drop_first()[i] == decl[i + 1]);
            assert(p.drop_first()[i] == p[i + 1]);
        }
        lemma_idem_aux(decl.drop_first(), p.drop_first(), e, old, res);
        assert(plan_deps(decl, e, false, res) == Ok::<Seq<PlannedDep>, BuildError>(
            seq![head2] + reused(p.drop_first()),
        ));
        assert(seq![head2] + reused(p.drop_first()) =~= reused(p));
    }
}

/// Force override: with force on, every declared dependency is fetched
/// anew, even where the old lockfile already matches, and the fresh
/// resolver answer is what its new entry records.
pub proof fn lemma_force_refetches(
    decl: Seq<DeclaredDep>,
    old: Seq<LockfileEntry>,
    res: Seq<ResolutionItem>,
    p: Seq<PlannedDep>,
)
    requires
        plan_deps(decl, old, true, res) == Ok::<Seq<PlannedDep>, BuildError>(p),
    ensures
        p.len() == decl.len(),
        forall|i: int| 0 <= i < p.len() ==> (#[trigger] p[i]).action == DepAction::Fetch,
        forall|i: int|
            0 <= i < p.len() ==> (#[trigger] p[i]).entry.resolved == fresh_of(
                res,
                decl[i].descriptor,
            ),
{
    lemma_plan_elements(decl, old, true, res, p);
}

/// Drift detection: where the old lockfile pinned one version and the
/// resolver now answers a different one for the same declared dependency,
/// the dependency is fetched anew and the new entry records the fresh
/// version, never the pinned one.
pub proof fn lemma_drift_refetches(
    decl: Seq<DeclaredDep>,
    old: Seq<LockfileEntry>,
    res: Seq<ResolutionItem>,
    p: Seq<PlannedDep>,
    i: int,
)
    requires
        plan_deps(decl, old, false, res) == Ok::<Seq<PlannedDep>, BuildError>(p),
        0 <= i < decl.len(),
        find_in(old, decl[i].stage@, decl[i].descriptor) is Some,
        find_in(old, decl[i].stage@, decl[i].descriptor)->Some_0.resolved.version_id@ != fresh_of(
            res,
            decl[i].descriptor,
        ).version_id@,
    ensures
        p[i].action == DepAction::Fetch,
        p[i].entry.resolved == fresh_of(res, decl[i].descriptor),
{
    lemma_plan_elements(decl, old, false, res, p);
}

/// Removed-dependency cleanup: a slot whose key no currently-declared
/// dependency carries — in particular one only present in the old lockfile —
/// holds no entry in a successful plan's new lockfile.
pub proof fn lemma_removed_dropped(
    decl: Seq<DeclaredDep>,
    old: Seq<LockfileEntry>,
    force: bool,
    res: Seq<ResolutionItem>,
    p: Seq<PlannedDep>,
    stage: Seq<char>,
    d: SourceDescriptor,
)
    requires
        plan_deps(decl, old, force, res) == Ok::<Seq<PlannedDep>, BuildError>(p),
        forall|i: int|
            0 <= i < decl.len() ==> !((#[trigger] decl[i]).stage@ == stage && decl[i].descriptor.kind
                == d.kind && decl[i].descriptor.identifier@ == d.identifier@),
    ensures
        find_in(entries_of(p), stage, d) is None,
{
    lemma_plan_keys(decl, old, force, res, p);
    let e = entries_of(p);
    assert forall|k: int| 0 <= k < e.len() implies !(#[trigger] e[k]).keyed_by(stage, d) by {
        assert(e[k] == p[k].entry);
        assert(p[k].entry.keyed_by(decl[k].stage@, decl[k].descriptor));
    }
    lemma_find_in_none(e, stage, d);
}

/// No dependency of a skipped stage is declared to the run.
pub proof fn lemma_skip_excluded(stages: Seq<StageConfig>, skip: Seq<String>, name: Seq<char>)
    requires
        skip_contains(skip, name),
    ensures
        forall|i: int|
            0 <= i < declared(stages, skip).len() ==> (#[trigger] declared(
                stages,
                skip,
            )[i]).stage@ != name,
    decreases stages.len(),
{
    if stages.len() > 0 {
        lemma_skip_excluded(stages.drop_first(), skip, name);
        let head = if skip_contains(skip, stages[0].name@) {
            Seq::<DeclaredDep>::empty()
        } else {
            stage_decls(stages[0])
        };
        assert forall|i: int|
            0 <= i < declared(stages, skip).len() implies (#[trigger] declared(
            stages,
            skip,
        )[i]).stage@ != name by {
            if i < head.len() {
                assert(declared(stages, skip)[i] == head[i]);
                assert(head[i].stage == stages[0].name);
                assert(!skip_contains(skip, stages[0].name@));
            } else {
                assert(declared(stages, skip)[i] == declared(stages.drop_first(), skip)[i
                    - head.len()]);
            }
        }
    }
}

/// Skip correctness: a stage named in the skip list contributes nothing to
/// the run — none of its dependencies is declared, and no entry of the new
/// lockfile carries its name.
pub proof fn lemma_skip_no_entries(
    stages: Seq<StageConfig>,
    skip: Seq<String>,
    name: Seq<char>,
    old: Seq<LockfileEntry>,
    force: bool,
    res: Seq<ResolutionItem>,
    p: Seq<PlannedDep>,
)
    requires
        skip_contains(skip, name),
        plan_deps(declared(stages, skip), old, force, res) == Ok::<Seq<PlannedDep>, BuildError>(p),
    ensures
        forall|k: int| 0 <= k < entries_of(p).len() ==> (#[trigger] entries_of(p)[k]).stage@
            != name,
{
    let decl = declared(stages, skip);
    lemma_plan_keys(decl, old, force, res, p);
    lemma_skip_excluded(stages, skip, name);
    let e = entries_of(p);
    assert forall|k: int| 0 <= k < e.len() implies (#[trigger] e[k]).stage@ != name by {
        assert(e[k] == p[k].entry);
        assert(p[k].entry.keyed_by(decl[k].stage@, decl[k].descriptor));
    }
}

} // verus!
