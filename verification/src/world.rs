//! The store of live entities and of the tags attached to them.

use vstd::prelude::*;
use crate::aggro::Aggro;
use crate::animation::Animation;
use crate::beams::InteractLightBeam;
use crate::camera::MainCamera;
use crate::entity::Entity;
use crate::level::{
    AggroRange, Damage, DamageCollider, DestructiveLightBeam, Element251, Gold, Health, Herbs,
    Inventory, Item, LightSpeed, Organism, ResourceNameplate, ShieldArtifact, Water,
    WeaponArtifact, YellowOrganism,
};
use crate::movement::Speed;
use crate::physics::{ActiveEvents, Collider, Sensor, Velocity};
use crate::ship::Ship;
use crate::ui::InventoryButton;

verus! {

/// Whether an entity is drawn.
#[derive(Clone, Copy, Debug, PartialEq, Eq, Structural)]
pub enum Visibility {
    /// As its parent.
    Inherited,
    Hidden,
    Visible,
}

/// Everything that can be attached to one entity. A tag that is `None` is
/// not attached.
#[derive(Debug)]
pub struct Tags {
    pub parent: Option<Entity>,
    pub visibility: Visibility,
    pub ship: Option<Ship>,
    pub item: Option<Item>,
    pub nameplate: Option<ResourceNameplate>,
    pub beam: Option<InteractLightBeam>,
    pub destructive_beam: Option<DestructiveLightBeam>,
    pub light_speed: Option<LightSpeed>,
    pub collider: Option<Collider>,
    pub sensor: Option<Sensor>,
    pub active_events: Option<ActiveEvents>,
    pub aggro_range: Option<AggroRange>,
    pub aggro: Option<Aggro>,
    pub damage_collider: Option<DamageCollider>,
    pub damage: Option<Damage>,
    pub health: Option<Health>,
    pub inventory: Option<Inventory>,
    pub speed: Option<Speed>,
    pub velocity: Option<Velocity>,
    pub animation: Option<Animation>,
    pub herbs: Option<Herbs>,
    pub organism: Option<Organism>,
    pub yellow_organism: Option<YellowOrganism>,
    pub gold: Option<Gold>,
    pub element251: Option<Element251>,
    pub water: Option<Water>,
    pub weapon_artifact: Option<WeaponArtifact>,
    pub shield_artifact: Option<ShieldArtifact>,
    pub inventory_button: Option<InventoryButton>,
    pub main_camera: Option<MainCamera>,
}

/// The tags of an entity to which nothing is attached.
pub open spec fn bare_tags() -> Tags {
    Tags {
        parent: None,
        visibility: Visibility::Inherited,
        ship: None,
        item: None,
        nameplate: None,
        beam: None,
        destructive_beam: None,
        light_speed: None,
        collider: None,
        sensor: None,
        active_events: None,
        aggro_range: None,
        aggro: None,
        damage_collider: None,
        damage: None,
        health: None,
        inventory: None,
        speed: None,
        velocity: None,
        animation: None,
        herbs: None,
        organism: None,
        yellow_organism: None,
        gold: None,
        element251: None,
        water: None,
        weapon_artifact: None,
        shield_artifact: None,
        inventory_button: None,
        main_camera: None,
    }
}

impl Tags {
    /// The tags of an entity to which nothing is attached yet.
    pub fn new() -> (tags: Tags)
        ensures
            tags == bare_tags(),
    {
        Tags {
            parent: None,
            visibility: Visibility::Inherited,
            ship: None,
            item: None,
            nameplate: None,
            beam: None,
            destructive_beam: None,
            light_speed: None,
            collider: None,
            sensor: None,
            active_events: None,
            aggro_range: None,
            aggro: None,
            damage_collider: None,
            damage: None,
            health: None,
            inventory: None,
            speed: None,
            velocity: None,
            animation: None,
            herbs: None,
            organism: None,
            yellow_organism: None,
            gold: None,
            element251: None,
            water: None,
            weapon_artifact: None,
            shield_artifact: None,
            inventory_button: None,
            main_camera: None,
        }
    }
}

/// The map that pairs each entity of `entities` with the tags at the same
/// position of `tags`.
pub(crate) open spec fn assemble(entities: Seq<Entity>, tags: Seq<Tags>) -> Map<Entity, Tags> {
    Map::new(|e: Entity| entities.contains(e), |e: Entity| tags[entities.index_of(e)])
}

/// In a list without repetition, the entity at position `i` is paired with
/// the tags at position `i`.
pub(crate) proof fn lemma_assemble_at(entities: Seq<Entity>, tags: Seq<Tags>, i: int)
    requires
        entities.no_duplicates(),
        entities.len() == tags.len(),
        0 <= i < entities.len(),
    ensures
        assemble(entities, tags).contains_key(entities[i]),
        assemble(entities, tags)[entities[i]] == tags[i],
        entities.index_of(entities[i]) == i,
{
    assert(entities.contains(entities[i]));
}

/// Replacing the tags at position `i` replaces what the entity at `i` is
/// paired with, and nothing else.
pub(crate) proof fn lemma_assemble_update(entities: Seq<Entity>, tags: Seq<Tags>, i: int, t: Tags)
    requires
        entities.no_duplicates(),
        entities.len() == tags.len(),
        0 <= i < entities.len(),
    ensures
        assemble(entities, tags.update(i, t)) == assemble(entities, tags).insert(entities[i], t),
{
    let before = assemble(entities, tags);
    let after = assemble(entities, tags.update(i, t));
    assert(entities.contains(entities[i]));
    assert forall|e: Entity| after.contains_key(e) implies #[trigger] after[e] == before.insert(
        entities[i],
        t,
    )[e] by {
        let k = entities.index_of(e);
        assert(entities[k] == e);
    }
    assert(after =~= before.insert(entities[i], t));
}

/// Appending a new entity with its tags adds that pair.
pub(crate) proof fn lemma_assemble_push(entities: Seq<Entity>, tags: Seq<Tags>, e: Entity, t: Tags)
    requires
        entities.no_duplicates(),
        entities.len() == tags.len(),
        !entities.contains(e),
    ensures
        entities.push(e).no_duplicates(),
        assemble(entities.push(e), tags.push(t)) == assemble(entities, tags).insert(e, t),
{
    let before = assemble(entities, tags);
    let grown = entities.push(e);
    let after = assemble(grown, tags.push(t));
    assert(grown[entities.len() as int] == e);
    assert forall|x: Entity| grown.contains(x) <==> (entities.contains(x) || x == e) by {
        if grown.contains(x) {
            let k = grown.index_of(x);
            if k < entities.len() {
                assert(entities[k] == x);
            }
        }
        if entities.contains(x) {
            let k = entities.index_of(x);
            assert(grown[k] == x);
        }
    }
    assert forall|x: Entity| after.contains_key(x) implies #[trigger] after[x] == before.insert(
        e,
        t,
    )[x] by {
        let k = grown.index_of(x);
        assert(grown[k] == x);
        if x != e {
            let j = entities.index_of(x);
            assert(entities[j] == x);
            assert(grown[j] == x);
        }
    }
    assert(after =~= before.insert(e, t));
}

/// Taking out position `i` takes out the entity at `i`, and nothing else.
pub(crate) proof fn lemma_assemble_remove(entities: Seq<Entity>, tags: Seq<Tags>, i: int)
    requires
        entities.no_duplicates(),
        entities.len() == tags.len(),
        0 <= i < entities.len(),
    ensures
        entities.remove(i).no_duplicates(),
        assemble(entities.remove(i), tags.remove(i)) == assemble(entities, tags).remove(
            entities[i],
        ),
{
    let before = assemble(entities, tags);
    let shrunk = entities.remove(i);
    let after = assemble(shrunk, tags.remove(i));
    assert(entities.contains(entities[i]));
    assert forall|x: Entity| shrunk.contains(x) <==> (entities.contains(x) && x != entities[i]) by {
        if shrunk.contains(x) {
            let k = shrunk.index_of(x);
            if k < i {
                assert(entities[k] == x);
            } else {
                assert(entities[k + 1] == x);
            }
        }
        if entities.contains(x) && x != entities[i] {
            let k = entities.index_of(x);
            if k < i {
                assert(shrunk[k] == x);
            } else {
                assert(shrunk[k - 1] == x);
            }
        }
    }
    assert forall|x: Entity| after.contains_key(x) implies #[trigger] after[x] == before.remove(
        entities[i],
    )[x] by {
        let k = shrunk.index_of(x);
        assert(shrunk[k] == x);
        let j = entities.index_of(x);
        assert(entities[j] == x);
        if k < i {
            assert(entities[k] == x);
        } else {
            assert(entities[k + 1] == x);
        }
    }
    assert(after =~= before.remove(entities[i]));
}

/// Changing the tags position by position changes what each entity is paired
/// with in the same way.
pub(crate) proof fn lemma_assemble_pointwise(
    entities: Seq<Entity>,
    before: Seq<Tags>,
    after: Seq<Tags>,
    e: Entity,
)
    requires
        entities.no_duplicates(),
        entities.len() == before.len(),
        entities.len() == after.len(),
        assemble(entities, before).contains_key(e),
    ensures
        assemble(entities, after).contains_key(e),
        0 <= entities.index_of(e) < entities.len(),
        entities[entities.index_of(e)] == e,
        assemble(entities, before)[e] == before[entities.index_of(e)],
        assemble(entities, after)[e] == after[entities.index_of(e)],
{
}

/// Whether `e` is a live ship.
pub open spec fn is_ship(m: Map<Entity, Tags>, e: Entity) -> bool {
    m.contains_key(e) && m[e].ship is Some
}

/// Whether `e` is a live item.
pub open spec fn is_item(m: Map<Entity, Tags>, e: Entity) -> bool {
    m.contains_key(e) && m[e].item is Some
}

/// Whether `e` is a live interaction beam.
pub open spec fn is_beam(m: Map<Entity, Tags>, e: Entity) -> bool {
    m.contains_key(e) && m[e].beam is Some
}

/// What is left of the pairs when every position marked in `doomed` from
/// `from` on is taken out.
pub(crate) open spec fn spared(
    entities: Seq<Entity>,
    tags: Seq<Tags>,
    doomed: Seq<bool>,
    from: int,
) -> Map<Entity, Tags> {
    Map::new(
        |e: Entity|
            entities.contains(e) && !(from <= entities.index_of(e) && doomed[entities.index_of(
                e,
            )]),
        |e: Entity| tags[entities.index_of(e)],
    )
}

/// Whether `e` is alive and is one of `roots` or hangs below one by at most
/// `depth` links from child to parent.
pub open spec fn within(m: Map<Entity, Tags>, e: Entity, roots: Set<Entity>, depth: nat) -> bool
    decreases depth,
{
    m.contains_key(e) && (roots.contains(e) || (depth > 0 && match m[e].parent {
        Some(p) => within(m, p, roots, (depth - 1) as nat),
        None => false,
    }))
}

/// Whether `e` is alive and is one of `roots` or hangs below one.
pub open spec fn descends(m: Map<Entity, Tags>, e: Entity, roots: Set<Entity>) -> bool {
    exists|depth: nat| within(m, e, roots, depth)
}

/// The world without the entities of `roots` and all that hangs below them.
pub open spec fn without_families(m: Map<Entity, Tags>, roots: Set<Entity>) -> Map<Entity, Tags> {
    Map::new(|e: Entity| m.contains_key(e) && !descends(m, e, roots), |e: Entity| m[e])
}

/// The world without `root` and all that hangs below it.
pub open spec fn without_family(m: Map<Entity, Tags>, root: Entity) -> Map<Entity, Tags> {
    without_families(m, set![root])
}

/// The items of a world.
pub open spec fn items(m: Map<Entity, Tags>) -> Set<Entity> {
    Set::new(|e: Entity| is_item(m, e))
}

/// How many positions are not marked.
pub(crate) open spec fn unmarked(marks: Seq<bool>) -> nat
    decreases marks.len(),
{
    if marks.len() == 0 {
        0
    } else {
        unmarked(marks.drop_last()) + if marks.last() {
            0nat
        } else {
            1nat
        }
    }
}

/// Marking a position that was not marked leaves one fewer unmarked.
pub(crate) proof fn lemma_mark(marks: Seq<bool>, i: int)
    requires
        0 <= i < marks.len(),
        !marks[i],
    ensures
        unmarked(marks.update(i, true)) + 1 == unmarked(marks),
    decreases marks.len(),
{
    let marked = marks.update(i, true);
    if i == marks.len() - 1 {
        assert(marked.drop_last() =~= marks.drop_last());
    } else {
        lemma_mark(marks.drop_last(), i);
        assert(marked.drop_last() =~= marks.drop_last().update(i, true));
    }
}

/// Whether no unmarked position has a marked parent.
pub(crate) open spec fn closed_marks(entities: Seq<Entity>, tags: Seq<Tags>, marks: Seq<bool>) -> bool {
    forall|k: int, j: int|
        0 <= k < entities.len() && 0 <= j < entities.len() && !marks[k] && #[trigger] marks[j]
            ==> (#[trigger] tags[k]).parent != Some(entities[j])
}

/// Where every root is marked and no unmarked position has a marked parent,
/// everything that hangs below a root is marked.
pub(crate) proof fn lemma_closed_marks_all(
    entities: Seq<Entity>,
    tags: Seq<Tags>,
    marks: Seq<bool>,
    roots: Set<Entity>,
    e: Entity,
    depth: nat,
)
    requires
        entities.no_duplicates(),
        entities.len() == tags.len(),
        entities.len() == marks.len(),
        forall|k: int| 0 <= k < entities.len() && roots.contains(#[trigger] entities[k]) ==> marks[k],
        closed_marks(entities, tags, marks),
        within(assemble(entities, tags), e, roots, depth),
    ensures
        entities.contains(e),
        marks[entities.index_of(e)],
    decreases depth,
{
    let m = assemble(entities, tags);
    let k = entities.index_of(e);
    assert(entities[k] == e);
    if !roots.contains(e) {
        lemma_assemble_at(entities, tags, k);
        let p = m[e].parent->0;
        lemma_closed_marks_all(entities, tags, marks, roots, p, (depth - 1) as nat);
        let j = entities.index_of(p);
        assert(entities[j] == p);
        assert(marks[j]);
        assert(tags[k].parent == Some(entities[j]));
    }
}

/// The entities of a game and what is attached to each. No entity is held
/// twice.
#[derive(Debug)]
pub struct World {
    pub(crate) entities: Vec<Entity>,
    pub(crate) tags: Vec<Tags>,
}

impl View for World {
    type V = Map<Entity, Tags>;

    open(crate) spec fn view(&self) -> Map<Entity, Tags> {
        assemble(self.entities@, self.tags@)
    }
}

impl World {
    #[verifier::type_invariant]
    pub open(crate) spec fn well_formed(&self) -> bool {
        self.entities@.no_duplicates() && self.entities@.len() == self.tags@.len()
    }

    /// The entities in the order in which they were first stored.
    pub open(crate) spec fn order(&self) -> Seq<Entity> {
        self.entities@
    }

    /// A world without entities.
    pub fn new() -> (world: World)
        ensures
            world@ == Map::<Entity, Tags>::empty(),
            world.order() == Seq::<Entity>::empty(),
    {
        let world = World { entities: Vec::new(), tags: Vec::new() };
        assert(world@ =~= Map::<Entity, Tags>::empty());
        world
    }

    /// Number of entities.
    pub fn len(&self) -> (n: usize)
        ensures
            n == self.order().len(),
    {
        self.entities.len()
    }

    /// The entities in the order in which they were first stored.
    pub fn entities(&self) -> (list: Vec<Entity>)
        ensures
            list@ == self.order(),
    {
        let mut list: Vec<Entity> = Vec::new();
        let mut i: usize = 0;
        while i < self.entities.len()
            invariant
                i <= self.entities.len(),
                list@ == self.entities@.take(i as int),
            decreases self.entities.len() - i,
        {
            list.push(self.entities[i]);
            assert(self.entities@.take(i + 1) =~= self.entities@.take(i as int).push(
                self.entities@[i as int],
            ));
            i += 1;
        }
        assert(self.entities@.take(i as int) =~= self.entities@);
        list
    }

    /// Position of `entity` in the store.
    pub(crate) fn index_of(&self, entity: Entity) -> (found: Option<usize>)
        ensures
            match found {
                Some(i) => {
                    &&& i < self.entities@.len()
                    &&& i < self.tags@.len()
                    &&& self.entities@[i as int] == entity
                    &&& self@.contains_key(entity)
                    &&& self@[entity] == self.tags@[i as int]
                },
                None => !self.entities@.contains(entity) && !self@.contains_key(entity),
            },
    {
        proof {
            use_type_invariant(self);
        }
        let mut i: usize = 0;
        while i < self.entities.len()
            invariant
                i <= self.entities.len(),
                self.entities@.no_duplicates(),
                self.entities@.len() == self.tags@.len(),
                forall|k: int| 0 <= k < i ==> self.entities@[k] != entity,
            decreases self.entities.len() - i,
        {
            if self.entities[i] == entity {
                proof {
                    lemma_assemble_at(self.entities@, self.tags@, i as int);
                }
                return Some(i);
            }
            i += 1;
        }
        None
    }

    /// Whether `entity` is a live ship.
    pub fn is_ship(&self, entity: Entity) -> (yes: bool)
        ensures
            yes == is_ship(self@, entity),
    {
        match self.index_of(entity) {
            Some(i) => self.tags[i].ship.is_some(),
            None => false,
        }
    }

    /// Whether `entity` is a live item.
    pub fn is_item(&self, entity: Entity) -> (yes: bool)
        ensures
            yes == is_item(self@, entity),
    {
        match self.index_of(entity) {
            Some(i) => self.tags[i].item.is_some(),
            None => false,
        }
    }

    /// Whether `entity` is a live interaction beam.
    pub fn is_beam(&self, entity: Entity) -> (yes: bool)
        ensures
            yes == is_beam(self@, entity),
    {
        match self.index_of(entity) {
            Some(i) => self.tags[i].beam.is_some(),
            None => false,
        }
    }

    /// Whether `entity` is alive.
    pub fn contains(&self, entity: Entity) -> (alive: bool)
        ensures
            alive == self@.contains_key(entity),
    {
        self.index_of(entity).is_some()
    }

    /// What is attached to `entity`, if it is alive.
    pub fn get(&self, entity: Entity) -> (tags: Option<&Tags>)
        ensures
            match tags {
                Some(t) => self@.contains_key(entity) && *t == self@[entity],
                None => !self@.contains_key(entity),
            },
    {
        match self.index_of(entity) {
            Some(i) => Some(&self.tags[i]),
            None => None,
        }
    }

    /// Stores `entity` with `tags`, in place of what it had if it was alive.
    pub fn insert(&mut self, entity: Entity, tags: Tags)
        ensures
            final(self)@ == old(self)@.insert(entity, tags),
            final(self).order() == if old(self)@.contains_key(entity) {
                old(self).order()
            } else {
                old(self).order().push(entity)
            },
    {
        proof {
            use_type_invariant(&*self);
        }
        match self.index_of(entity) {
            Some(i) => {
                proof {
                    lemma_assemble_update(self.entities@, self.tags@, i as int, tags);
                }
                self.tags[i] = tags;
            },
            None => {
                proof {
                    lemma_assemble_push(self.entities@, self.tags@, entity, tags);
                }
                let mut taken = World::new();
                std::mem::swap(self, &mut taken);
                let World { entities, tags: stored } = taken;
                let mut entities = entities;
                let mut stored = stored;
                entities.push(entity);
                stored.push(tags);
                *self = World { entities, tags: stored };
            },
        }
    }

    /// Takes out every entity whose position is marked in `doomed`.
    pub(crate) fn remove_marked(&mut self, doomed: &Vec<bool>)
        requires
            doomed@.len() == old(self).entities@.len(),
        ensures
            final(self)@ == spared(old(self).entities@, old(self).tags@, doomed@, 0),
    {
        proof {
            use_type_invariant(&*self);
        }
        let mut taken = World::new();
        std::mem::swap(self, &mut taken);
        let World { entities, tags: stored } = taken;
        let mut entities = entities;
        let mut stored = stored;
        let ghost all = entities@;
        let ghost all_tags = stored@;
        let mut i: usize = entities.len();
        proof {
            assert(assemble(entities@, stored@) =~= spared(all, all_tags, doomed@, i as int));
        }
        while i > 0
            invariant
                i <= all.len(),
                all.no_duplicates(),
                all.len() == all_tags.len(),
                all.len() == doomed@.len(),
                entities@.no_duplicates(),
                entities@.len() == stored@.len(),
                i <= entities@.len(),
                entities@.take(i as int) == all.take(i as int),
                assemble(entities@, stored@) == spared(all, all_tags, doomed@, i as int),
            decreases i,
        {
            i -= 1;
            let ghost before = entities@;
            let ghost before_tags = stored@;
            proof {
                assert(entities@[i as int] == entities@.take(i + 1)[i as int]);
                assert(all[i as int] == all.take(i + 1)[i as int]);
                lemma_assemble_at(all, all_tags, i as int);
                lemma_assemble_at(before, before_tags, i as int);
            }
            if doomed[i] {
                proof {
                    lemma_assemble_remove(before, before_tags, i as int);
                }
                entities.remove(i);
                stored.remove(i);
                proof {
                    assert(entities@.take(i as int) =~= before.take(i + 1).take(i as int));
                    assert(all.take(i as int) =~= all.take(i + 1).take(i as int));
                    assert(assemble(entities@, stored@) =~= spared(
                        all,
                        all_tags,
                        doomed@,
                        i as int,
                    ));
                }
            } else {
                proof {
                    assert(entities@.take(i as int) =~= before.take(i + 1).take(i as int));
                    assert(all.take(i as int) =~= all.take(i + 1).take(i as int));
                    assert(assemble(entities@, stored@) =~= spared(
                        all,
                        all_tags,
                        doomed@,
                        i as int,
                    ));
                }
            }
        }
        *self = World { entities, tags: stored };
    }

    /// Takes out every entity whose position is marked in `doomed`, and
    /// everything that hangs below one. The marked positions are those of the
    /// live entities of `roots`.
    fn despawn_families(&mut self, doomed: Vec<bool>, Ghost(roots): Ghost<Set<Entity>>)
        requires
            doomed@.len() == old(self).entities@.len(),
            forall|k: int|
                0 <= k < doomed@.len() ==> doomed@[k] == roots.contains(
                    #[trigger] old(self).entities@[k],
                ),
        ensures
            final(self)@ == without_families(old(self)@, roots),
    {
        proof {
            use_type_invariant(&*self);
        }
        let n = self.entities.len();
        let ghost m = self@;
        let mut doomed = doomed;
        proof {
            assert forall|k: int| 0 <= k < n && doomed@[k] implies descends(
                m,
                #[trigger] self.entities@[k],
                roots,
            ) by {
                lemma_assemble_at(self.entities@, self.tags@, k);
                assert(within(m, self.entities@[k], roots, 0));
            }
        }
        let mut changed = true;
        while changed
            invariant
                n == self.entities@.len(),
                n == self.tags@.len(),
                n == doomed@.len(),
                self.entities@.no_duplicates(),
                m == assemble(self.entities@, self.tags@),
                forall|k: int| 0 <= k < n && roots.contains(#[trigger] self.entities@[k]) ==> doomed@[k],
                forall|k: int|
                    0 <= k < n && doomed@[k] ==> descends(m, #[trigger] self.entities@[k], roots),
                !changed ==> closed_marks(self.entities@, self.tags@, doomed@),
            decreases
                    unmarked(doomed@) + if changed {
                        1nat
                    } else {
                        0nat
                    },
        {
            changed = false;
            let ghost at_start = doomed@;
            let mut i: usize = 0;
            while i < n
                invariant
                    i <= n,
                    n == self.entities@.len(),
                    n == self.tags@.len(),
                    n == doomed@.len(),
                    n == at_start.len(),
                    self.entities@.no_duplicates(),
                    m == assemble(self.entities@, self.tags@),
                    forall|k: int|
                        0 <= k < n && roots.contains(#[trigger] self.entities@[k]) ==> doomed@[k],
                    forall|k: int|
                        0 <= k < n && doomed@[k] ==> descends(m, #[trigger] self.entities@[k], roots),
                    changed ==> unmarked(doomed@) < unmarked(at_start),
                    !changed ==> doomed@ == at_start,
                    !changed ==> forall|k: int, j: int|
                        0 <= k < i && 0 <= j < n && !doomed@[k] && #[trigger] doomed@[j] ==> (
                        #[trigger] self.tags@[k]).parent != Some(self.entities@[j]),
                decreases n - i,
            {
                if !doomed[i] {
                    if let Some(parent) = self.tags[i].parent {
                        if let Some(j) = self.index_of(parent) {
                            if doomed[j] {
                                proof {
                                    lemma_mark(doomed@, i as int);
                                    lemma_assemble_at(self.entities@, self.tags@, i as int);
                                    let depth = choose|depth: nat| within(m, parent, roots, depth);
                                    assert(within(m, self.entities@[i as int], roots, depth + 1));
                                }
                                doomed[i] = true;
                                changed = true;
                            }
                        }
                    }
                }
                i += 1;
            }
        }
        self.remove_marked(&doomed);
        proof {
            let entities = old(self).entities@;
            let tags = old(self).tags@;
            assert forall|e: Entity| m.contains_key(e) implies (doomed@[entities.index_of(e)]
                <==> descends(m, e, roots)) by {
                let k = entities.index_of(e);
                assert(entities[k] == e);
                if descends(m, e, roots) {
                    let depth = choose|depth: nat| within(m, e, roots, depth);
                    lemma_closed_marks_all(entities, tags, doomed@, roots, e, depth);
                }
            }
            assert(self@ =~= without_families(m, roots));
        }
    }

    /// Removes `root` and everything that hangs below it.
    pub fn despawn_recursive(&mut self, root: Entity)
        ensures
            final(self)@ == without_family(old(self)@, root),
    {
        let n = self.entities.len();
        let mut doomed: Vec<bool> = Vec::new();
        let mut i: usize = 0;
        while i < n
            invariant
                i <= n,
                n == self.entities@.len(),
                doomed@.len() == i,
                forall|k: int| 0 <= k < i ==> doomed@[k] == (self.entities@[k] == root),
            decreases n - i,
        {
            doomed.push(self.entities[i] == root);
            i += 1;
        }
        let ghost roots: Set<Entity> = set![root];
        self.despawn_families(doomed, Ghost(roots));
    }

    /// Removes every item and everything that hangs below an item.
    pub fn despawn_items(&mut self)
        ensures
            final(self)@ == without_families(old(self)@, items(old(self)@)),
    {
        proof {
            use_type_invariant(&*self);
        }
        let n = self.entities.len();
        let mut doomed: Vec<bool> = Vec::new();
        let mut i: usize = 0;
        while i < n
            invariant
                i <= n,
                n == self.entities@.len(),
                n == self.tags@.len(),
                self.entities@.no_duplicates(),
                doomed@.len() == i,
                forall|k: int|
                    0 <= k < i ==> doomed@[k] == items(self@).contains(#[trigger] self.entities@[k]),
            decreases n - i,
        {
            proof {
                lemma_assemble_at(self.entities@, self.tags@, i as int);
            }
            doomed.push(self.tags[i].item.is_some());
            i += 1;
        }
        let ghost roots: Set<Entity> = items(self@);
        self.despawn_families(doomed, Ghost(roots));
    }

    /// Removes `entity` and hands back what was attached to it.
    pub fn despawn(&mut self, entity: Entity) -> (removed: Option<Tags>)
        ensures
            final(self)@ == old(self)@.remove(entity),
            match removed {
                Some(t) => old(self)@.contains_key(entity) && t == old(self)@[entity],
                None => !old(self)@.contains_key(entity),
            },
    {
        proof {
            use_type_invariant(&*self);
        }
        match self.index_of(entity) {
            Some(i) => {
                proof {
                    lemma_assemble_remove(self.entities@, self.tags@, i as int);
                }
                let mut taken = World::new();
                std::mem::swap(self, &mut taken);
                let World { entities, tags: stored } = taken;
                let mut entities = entities;
                let mut stored = stored;
                entities.remove(i);
                let removed = stored.remove(i);
                *self = World { entities, tags: stored };
                Some(removed)
            },
            None => {
                assert(self@ =~= old(self)@.remove(entity));
                None
            },
        }
    }
}

} // verus!
