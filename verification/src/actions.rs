//! Editing actions on the declared server model: adding addons and
//! datapacks. Interactive choices (what to import an addon as, whether to
//! keep an existing match, which world to target) are taken as parameters,
//! so the actions themselves stay non-interactive and fully specified.

use vstd::prelude::*;

use crate::launcher::ServerLauncher;
use crate::model::{SoftwareType, SourceDescriptor};
use crate::text::str_eq;

verus! {

/// What an addon is imported as.
#[derive(Clone, Copy, PartialEq, Eq, Structural, Debug)]
pub enum AddonType {
    Plugin,
    Mod,
}

/// Why an editing action was refused.
#[derive(Clone, Copy, PartialEq, Eq, Structural, Debug)]
pub enum ActionError {
    /// The named world entry does not exist.
    WorldNotFound,
}

/// One world of the server, holding its declared datapacks.
#[derive(Debug)]
pub struct World {
    pub datapacks: Vec<SourceDescriptor>,
}

/// A named world entry of the declared server model.
#[derive(Debug)]
pub struct WorldEntry {
    pub name: String,
    pub world: World,
}

/// The declared server model the editing actions work on.
#[derive(Debug)]
pub struct Server {
    pub jar: SourceDescriptor,
    pub plugins: Vec<SourceDescriptor>,
    pub mods: Vec<SourceDescriptor>,
    pub worlds: Vec<WorldEntry>,
    pub launcher: ServerLauncher,
}

/// The application state around one server.
#[derive(Debug)]
pub struct App {
    pub server: Server,
}

impl Server {
    /// Well-formed: no world name holds two entries — the guarantee a
    /// keyed world map gives, and what makes the named world unique.
    pub open spec fn wf(self) -> bool {
        forall|i: int, j: int|
            0 <= i < j < self.worlds@.len() ==> (#[trigger] self.worlds@[i]).name@
                != (#[trigger] self.worlds@[j]).name@
    }
}

/// Whether `list` already declares the dependency `d` identifies.
pub open spec fn has_match(list: Seq<SourceDescriptor>, d: SourceDescriptor) -> bool {
    exists|i: int| 0 <= i < list.len() && d.same_source(#[trigger] list[i])
}

/// The index of the first world named `name`, if any.
pub open spec fn world_find(worlds: Seq<WorldEntry>, name: Seq<char>) -> Option<int>
    decreases worlds.len(),
{
    if worlds.len() == 0 {
        None
    } else if worlds[0].name@ == name {
        Some(0)
    } else {
        match world_find(worlds.drop_first(), name) {
            Some(i) => Some(i + 1),
            None => None,
        }
    }
}

/// A missed lookup means no entry carries the name.
pub proof fn lemma_world_find_none(worlds: Seq<WorldEntry>, name: Seq<char>)
    requires
        world_find(worlds, name) is None,
    ensures
        forall|k: int| 0 <= k < worlds.len() ==> (#[trigger] worlds[k]).name@ != name,
    decreases worlds.len(),
{
    if worlds.len() > 0 {
        lemma_world_find_none(worlds.drop_first(), name);
        assert forall|k: int| 0 <= k < worlds.len() implies (#[trigger] worlds[k]).name@
            != name by {
            if k > 0 {
                assert(worlds.drop_first()[k - 1] == worlds[k]);
            }
        }
    }
}

/// A found world index is in range, carries the name, and is the first.
pub proof fn lemma_world_find_some(worlds: Seq<WorldEntry>, name: Seq<char>)
    requires
        world_find(worlds, name) is Some,
    ensures
        0 <= world_find(worlds, name)->Some_0 < worlds.len(),
        worlds[world_find(worlds, name)->Some_0].name@ == name,
    decreases worlds.len(),
{
    if worlds.len() > 0 && worlds[0].name@ != name {
        lemma_world_find_some(worlds.drop_first(), name);
        let i = world_find(worlds.drop_first(), name)->Some_0;
        assert(worlds.drop_first()[i] == worlds[i + 1]);
    }
}

/// The list an addon of the given type goes into.
pub open spec fn addon_list(s: Server, t: AddonType) -> Seq<SourceDescriptor> {
    match t {
        AddonType::Plugin => s.plugins@,
        AddonType::Mod => s.mods@,
    }
}

/// What adding an addon does: when the dependency is already declared and
/// the caller chose to keep the existing entry, nothing changes; otherwise
/// the addon is appended to the list of its type and nothing else moves.
pub open spec fn add_addon_post(
    pre: App,
    post: App,
    t: AddonType,
    addon: SourceDescriptor,
    keep_existing: bool,
    added: bool,
) -> bool {
    let dup = has_match(addon_list(pre.server, t), addon);
    &&& added == !(dup && keep_existing)
    &&& !added ==> post == pre
    &&& added ==> {
        &&& addon_list(post.server, t) == addon_list(pre.server, t).push(addon)
        &&& match t {
            AddonType::Plugin => post.server.mods == pre.server.mods,
            AddonType::Mod => post.server.plugins == pre.server.plugins,
        }
        &&& post.server.jar == pre.server.jar
        &&& post.server.worlds == pre.server.worlds
        &&& post.server.launcher == pre.server.launcher
    }
}

/// The type an addon is imported as when none is stated: decided by the
/// declared server jar's software family, falling back to the caller's
/// choice when the family is unknown.
pub open spec fn inferred_addon_type(jar: SourceDescriptor, fallback: AddonType) -> AddonType {
    match jar.software_type() {
        SoftwareType::Modded => AddonType::Mod,
        SoftwareType::Normal => AddonType::Plugin,
        SoftwareType::Proxy => AddonType::Plugin,
        SoftwareType::Unknown => fallback,
    }
}

/// Decides `has_match` over a declared list.
fn list_has_match(list: &Vec<SourceDescriptor>, d: &SourceDescriptor) -> (r: bool)
    ensures
        r == has_match(list@, *d),
{
    let n = list.len();
    let mut i: usize = 0;
    while i < n
        invariant
            n == list@.len(),
            i <= n,
            forall|j: int| 0 <= j < i ==> !d.same_source(#[trigger] list@[j]),
        decreases n - i,
    {
        if d.is_same_as(&list[i]) {
            return true;
        }
        i += 1;
    }
    false
}

/// The index of the first world named `name`, decided over the vector.
fn find_world(worlds: &Vec<WorldEntry>, name: &str) -> (r: Option<usize>)
    ensures
        match r {
            Some(i) => world_find(worlds@, name@) == Some(i as int),
            None => world_find(worlds@, name@) is None,
        },
{
    let n = worlds.len();
    let mut i: usize = 0;
    proof {
        assert(worlds@.skip(0) =~= worlds@);
    }
    while i < n
        invariant
            n == worlds@.len(),
            i <= n,
            world_find(worlds@, name@) == match world_find(worlds@.skip(i as int), name@) {
                Some(k) => Some(k + i),
                None => None::<int>,
            },
        decreases n - i,
    {
        proof {
            assert(worlds@.skip(i as int)[0] == worlds@[i as int]);
            assert(worlds@.skip(i as int).drop_first() =~= worlds@.skip(i + 1));
        }
        if str_eq(worlds[i].name.as_str(), name) {
            return Some(i);
        }
        i += 1;
    }
    proof {
        assert(worlds@.skip(n as int) =~= Seq::<WorldEntry>::empty());
    }
    None
}

/// Copies a list of descriptors, value for value.
fn clone_descriptors(v: &Vec<SourceDescriptor>) -> (r: Vec<SourceDescriptor>)
    ensures
        r@ == v@,
{
    let mut r: Vec<SourceDescriptor> = Vec::new();
    let n = v.len();
    let mut i: usize = 0;
    while i < n
        invariant
            n == v@.len(),
            i <= n,
            r@ == v@.take(i as int),
        decreases n - i,
    {
        r.push(v[i].clone());
        proof {
            assert(r@ =~= v@.take(i + 1));
        }
        i += 1;
    }
    proof {
        assert(v@.take(n as int) =~= v@);
    }
    r
}

/// What adding a datapack to the world at index `i` does: that world's
/// datapack list grows by the descriptor, everything else stays.
pub open spec fn datapack_added(pre: App, post: App, i: int, dp: SourceDescriptor) -> bool {
    &&& post.server.worlds@.len() == pre.server.worlds@.len()
    &&& forall|j: int|
        0 <= j < pre.server.worlds@.len() && j != i ==> #[trigger] post.server.worlds@[j]
            == pre.server.worlds@[j]
    &&& post.server.worlds@[i].name == pre.server.worlds@[i].name
    &&& post.server.worlds@[i].world.datapacks@ == pre.server.worlds@[i].world.datapacks@.push(dp)
    &&& post.server.jar == pre.server.jar
    &&& post.server.plugins == pre.server.plugins
    &&& post.server.mods == pre.server.mods
    &&& post.server.launcher == pre.server.launcher
}

impl App {
    /// Adds an addon under the stated type. `keep_existing` is the caller's
    /// answer to "a matching entry is already declared — keep it?"; it only
    /// matters when a match exists.
    pub fn add_addon(
        &mut self,
        addon_type: AddonType,
        addon: &SourceDescriptor,
        keep_existing: bool,
    ) -> (added: bool)
        ensures
            add_addon_post(*old(self), *final(self), addon_type, *addon, keep_existing, added),
    {
        let dup = match addon_type {
            AddonType::Plugin => list_has_match(&self.server.plugins, addon),
            AddonType::Mod => list_has_match(&self.server.mods, addon),
        };
        if dup && keep_existing {
            return false;
        }
        match addon_type {
            AddonType::Plugin => self.server.plugins.push(addon.clone()),
            AddonType::Mod => self.server.mods.push(addon.clone()),
        }
        true
    }

    /// Adds an addon under the type the declared server jar implies,
    /// falling back to `fallback` where the jar's family is unknown.
    pub fn add_addon_inferred(
        &mut self,
        addon: &SourceDescriptor,
        fallback: AddonType,
        keep_existing: bool,
    ) -> (added: bool)
        ensures
            add_addon_post(
                *old(self),
                *final(self),
                inferred_addon_type(old(self).server.jar, fallback),
                *addon,
                keep_existing,
                added,
            ),
    {
        let addon_type = match self.server.jar.get_software_type() {
            SoftwareType::Modded => AddonType::Mod,
            SoftwareType::Normal => AddonType::Plugin,
            SoftwareType::Proxy => AddonType::Plugin,
            SoftwareType::Unknown => fallback,
        };
        self.add_addon(addon_type, addon, keep_existing)
    }

    /// Adds a datapack to the named world; the world must already exist.
    pub fn add_datapack_to(&mut self, world: &str, dp: &SourceDescriptor) -> (r: Result<
        (),
        ActionError,
    >)
        requires
            old(self).server.wf(),
        ensures
            final(self).server.wf(),
            r is Ok <==> world_find(old(self).server.worlds@, world@) is Some,
            r is Err ==> *final(self) == *old(self) && r == Err::<(), ActionError>(
                ActionError::WorldNotFound,
            ),
            r is Ok ==> datapack_added(
                *old(self),
                *final(self),
                world_find(old(self).server.worlds@, world@)->Some_0,
                *dp,
            ),
    {
        let ghost pre = *self;
        match find_world(&self.server.worlds, world) {
            None => Err(ActionError::WorldNotFound),
            Some(i) => {
                proof {
                    lemma_world_find_some(self.server.worlds@, world@);
                }
                let name = self.server.worlds[i].name.clone();
                let mut dps = clone_descriptors(&self.server.worlds[i].world.datapacks);
                dps.push(dp.clone());
                self.server.worlds.set(i, WorldEntry { name, world: World { datapacks: dps } });
                proof {
                    assert forall|k: int|
                        0 <= k < self.server.worlds@.len() implies (
                    #[trigger] self.server.worlds@[k]).name@ == pre.server.worlds@[k].name@ by {
                        if k != i as int {
                            assert(self.server.worlds@[k] == pre.server.worlds@[k]);
                        }
                    }
                }
                Ok(())
            },
        }
    }

    /// Adds a datapack to the chosen world, creating an empty world entry
    /// of that name first when none exists. `world_name` is the caller's
    /// choice of target world.
    pub fn add_datapack(&mut self, dp: &SourceDescriptor, world_name: &str)
        requires
            old(self).server.wf(),
        ensures
            final(self).server.wf(),
            match world_find(old(self).server.worlds@, world_name@) {
                Some(i) => datapack_added(*old(self), *final(self), i, *dp),
                None => {
                    &&& final(self).server.worlds@.len() == old(self).server.worlds@.len() + 1
                    &&& forall|j: int|
                        0 <= j < old(self).server.worlds@.len()
                            ==> #[trigger] final(self).server.worlds@[j]
                            == old(self).server.worlds@[j]
                    &&& final(self).server.worlds@.last().name@ == world_name@
                    &&& final(self).server.worlds@.last().world.datapacks@ =~= seq![*dp]
                    &&& final(self).server.jar == old(self).server.jar
                    &&& final(self).server.plugins == old(self).server.plugins
                    &&& final(self).server.mods == old(self).server.mods
                    &&& final(self).server.launcher == old(self).server.launcher
                },
            },
    {
        let ghost pre = self.server.worlds@;
        let present = match find_world(&self.server.worlds, world_name) {
            Some(_) => true,
            None => false,
        };
        if !present {
            self.server.worlds.push(
                WorldEntry { name: world_name.to_owned(), world: World { datapacks: Vec::new() } },
            );
            proof {
                lemma_world_find_push_new(pre, self.server.worlds@.last(), world_name@);
                assert(world_find(self.server.worlds@, world_name@) == Some(pre.len() as int));
                lemma_world_find_none(pre, world_name@);
                assert forall|a: int, b: int|
                    0 <= a < b < self.server.worlds@.len() implies (
                #[trigger] self.server.worlds@[a]).name@ != (
                #[trigger] self.server.worlds@[b]).name@ by {
                    assert(self.server.worlds@[a] == pre[a]);
                    if b < pre.len() {
                        assert(self.server.worlds@[b] == pre[b]);
                    } else {
                        assert(self.server.worlds@[b].name@ == world_name@);
                    }
                }
            }
        }
        let ghost mid = self.server.worlds@;
        let r = self.add_datapack_to(world_name, dp);
        proof {
            assert(r is Ok);
            if world_find(pre, world_name@) is None {
                assert(world_find(mid, world_name@) == Some(pre.len() as int));
                assert(self.server.worlds@.last().world.datapacks@ =~= seq![*dp]);
            }
        }
    }
}

/// Appending a world under a name nothing held before makes that name find
/// the appended entry.
proof fn lemma_world_find_push_new(worlds: Seq<WorldEntry>, e: WorldEntry, name: Seq<char>)
    requires
        world_find(worlds, name) is None,
        e.name@ == name,
    ensures
        world_find(worlds.push(e), name) == Some(worlds.len() as int),
    decreases worlds.len(),
{
    if worlds.len() == 0 {
        assert(worlds.push(e)[0] == e);
    } else {
        assert(worlds.push(e)[0] == worlds[0]);
        assert(worlds.push(e).drop_first() =~= worlds.drop_first().push(e));
        lemma_world_find_push_new(worlds.drop_first(), e, name);
    }
}

} // verus!
