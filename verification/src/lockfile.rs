//! The lockfile: the durable record of exactly what the last successful
//! build materialized.

use vstd::prelude::*;

use crate::model::{ResolvedRef, SourceDescriptor};
use crate::text::str_eq;

verus! {

/// One materialized dependency: the declaring descriptor together with the
/// resolved reference that was actually written to disk. Entries are created
/// during a successful stage execution and never mutated afterwards.
#[derive(Debug)]
pub struct LockfileEntry {
    pub stage: String,
    pub descriptor: SourceDescriptor,
    pub resolved: ResolvedRef,
}

impl LockfileEntry {
    /// The entry records the dependency that `d` declares in stage `stage`.
    /// The key is the stage name plus the dependency identity (kind and
    /// identifier); the version selector and the resolved artifact are not
    /// part of the key.
    pub open spec fn keyed_by(self, stage: Seq<char>, d: SourceDescriptor) -> bool {
        &&& self.stage@ == stage
        &&& self.descriptor.kind == d.kind
        &&& self.descriptor.identifier@ == d.identifier@
    }

    /// Two entries occupy the same lockfile slot.
    pub open spec fn same_key(self, other: LockfileEntry) -> bool {
        self.keyed_by(other.stage@, other.descriptor)
    }
}

impl Clone for LockfileEntry {
    fn clone(&self) -> (r: Self)
        ensures
            r == *self,
    {
        LockfileEntry {
            stage: self.stage.clone(),
            descriptor: self.descriptor.clone(),
            resolved: self.resolved.clone(),
        }
    }
}

/// The first entry of `entries` holding the dependency `d` of stage `stage`,
/// if any.
pub open spec fn find_in(
    entries: Seq<LockfileEntry>,
    stage: Seq<char>,
    d: SourceDescriptor,
) -> Option<LockfileEntry>
    decreases entries.len(),
{
    if entries.len() == 0 {
        None
    } else if entries[0].keyed_by(stage, d) {
        Some(entries[0])
    } else {
        find_in(entries.drop_first(), stage, d)
    }
}

/// No two entries of `entries` occupy the same slot.
pub open spec fn unique_keys(entries: Seq<LockfileEntry>) -> bool {
    forall|i: int, j: int|
        0 <= i < j < entries.len() ==> !(#[trigger] entries[i]).same_key(#[trigger] entries[j])
}

/// Ordered record of one build: at most one entry per declared dependency.
/// Two instances live during a build: the old lockfile (read-only input) and
/// the new one (write-only output, initially empty).
#[derive(Debug)]
pub struct Lockfile {
    pub entries: Vec<LockfileEntry>,
}

impl Lockfile {
    /// The entry recorded for dependency `d` of stage `stage`, if any.
    pub open spec fn lookup(self, stage: Seq<char>, d: SourceDescriptor) -> Option<LockfileEntry> {
        find_in(self.entries@, stage, d)
    }

    /// Well-formed: no dependency occupies two slots.
    pub open spec fn wf(self) -> bool {
        unique_keys(self.entries@)
    }

    /// An empty lockfile, the starting point of every build's output.
    pub fn new() -> (r: Lockfile)
        ensures
            r.entries@ =~= Seq::<LockfileEntry>::empty(),
            r.wf(),
    {
        Lockfile { entries: Vec::new() }
    }

    /// Read-only lookup of the entry recorded for `d` in stage `stage`.
    pub fn get(&self, stage: &str, d: &SourceDescriptor) -> (r: Option<&LockfileEntry>)
        ensures
            match r {
                Some(e) => self.lookup(stage@, *d) == Some(*e),
                None => self.lookup(stage@, *d) is None,
            },
    {
        let n = self.entries.len();
        let mut i: usize = 0;
        proof {
            assert(self.entries@.skip(0) =~= self.entries@);
        }
        while i < n
            invariant
                n == self.entries.len(),
                i <= n,
                find_in(self.entries@, stage@, *d) == find_in(
                    self.entries@.skip(i as int),
                    stage@,
                    *d,
                ),
            decreases n - i,
        {
            let e = &self.entries[i];
            proof {
                assert(self.entries@.skip(i as int)[0] == self.entries@[i as int]);
                assert(self.entries@.skip(i as int).drop_first() =~= self.entries@.skip(i + 1));
            }
            if str_eq(e.stage.as_str(), stage) && e.descriptor.kind == d.kind && str_eq(
                e.descriptor.identifier.as_str(),
                d.identifier.as_str(),
            ) {
                return Some(e);
            }
            i += 1;
        }
        proof {
            assert(self.entries@.skip(n as int) =~= Seq::<LockfileEntry>::empty());
        }
        None
    }

    /// Appends an entry for a dependency that holds no slot yet; the order
    /// of earlier entries is kept.
    pub fn put(&mut self, e: LockfileEntry)
        requires
            forall|k: int|
                0 <= k < old(self).entries@.len() ==> !(#[trigger] old(
                    self,
                ).entries@[k]).same_key(e),
        ensures
            final(self).entries@ == old(self).entries@.push(e),
            old(self).wf() ==> final(self).wf(),
    {
        self.entries.push(e);
        proof {
            let es = final(self).entries@;
            if old(self).wf() {
                assert forall|i: int, j: int| 0 <= i < j < es.len() implies !(#[trigger] es[i]).same_key(
                    #[trigger] es[j],
                ) by {
                    if j < es.len() - 1 {
                        assert(es[i] == old(self).entries@[i]);
                        assert(es[j] == old(self).entries@[j]);
                    } else {
                        assert(es[i] == old(self).entries@[i]);
                        assert(es[j] == e);
                    }
                }
            }
        }
    }

    /// How many dependencies the record holds.
    pub fn len(&self) -> (n: usize)
        ensures
            n == self.entries@.len(),
    {
        self.entries.len()
    }
}

/// A found entry lies in the sequence under its key.
pub proof fn lemma_find_in_some(entries: Seq<LockfileEntry>, stage: Seq<char>, d: SourceDescriptor)
    requires
        find_in(entries, stage, d) is Some,
    ensures
        exists|k: int|
            0 <= k < entries.len() && entries[k] == find_in(entries, stage, d)->Some_0
                && (#[trigger] entries[k]).keyed_by(stage, d),
    decreases entries.len(),
{
    if entries.len() > 0 && !entries[0].keyed_by(stage, d) {
        lemma_find_in_some(entries.drop_first(), stage, d);
        let k = choose|k: int|
            0 <= k < entries.drop_first().len() && entries.drop_first()[k] == find_in(
                entries.drop_first(),
                stage,
                d,
            )->Some_0 && (#[trigger] entries.drop_first()[k]).keyed_by(stage, d);
        assert(entries[k + 1] == entries.drop_first()[k]);
    }
}

/// The lookup misses exactly when no entry carries the key.
pub proof fn lemma_find_in_none(entries: Seq<LockfileEntry>, stage: Seq<char>, d: SourceDescriptor)
    ensures
        (find_in(entries, stage, d) is None) <==> (forall|k: int|
            0 <= k < entries.len() ==> !(#[trigger] entries[k]).keyed_by(stage, d)),
    decreases entries.len(),
{
    if entries.len() > 0 {
        lemma_find_in_none(entries.drop_first(), stage, d);
        if !entries[0].keyed_by(stage, d) {
            assert forall|k: int|
                0 <= k < entries.len() && !(k == 0) implies (entries.drop_first()[k - 1]
                == entries[k]) by {}
        }
    }
}

/// With unique keys, the lookup returns the one entry that carries the key.
pub proof fn lemma_find_in_at(
    entries: Seq<LockfileEntry>,
    stage: Seq<char>,
    d: SourceDescriptor,
    k: int,
)
    requires
        unique_keys(entries),
        0 <= k < entries.len(),
        entries[k].keyed_by(stage, d),
    ensures
        find_in(entries, stage, d) == Some(entries[k]),
    decreases entries.len(),
{
    if k == 0 {
    } else {
        assert(!entries[0].same_key(entries[k]));
        assert(!entries[0].keyed_by(stage, d));
        let rest = entries.drop_first();
        assert forall|i: int, j: int| 0 <= i < j < rest.len() implies !(#[trigger] rest[i]).same_key(
            #[trigger] rest[j],
        ) by {
            assert(rest[i] == entries[i + 1]);
            assert(rest[j] == entries[j + 1]);
        }
        assert(rest[k - 1] == entries[k]);
        lemma_find_in_at(rest, stage, d, k - 1);
    }
}

} // verus!
