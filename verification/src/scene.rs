//! The scene: the directory that creates actors, keeps one archetype for
//! each set of component types, sends every operation on an actor to the
//! archetype that holds it, and keeps the resources.

use crate::actor::{Actor, ActorFactory};
use crate::archetype::Archetype;
use crate::component::{types_in, values_well_sized, ComponentSource};
use crate::error::StoreError;
use crate::model::{owed_view, values_view, ArchetypeView};
use crate::scene_model::{SceneView, DEFAULT_ARCHETYPE_CAPACITY};
use crate::type_info::{has_duplicates, TypeInfo};
use std::collections::hash_map::Entry;
use std::collections::HashMap;
use vstd::prelude::*;
use vstd::std_specs::hash::group_hash_axioms;

verus! {

broadcast use group_hash_axioms;

/// A store of actors and their components, and of resources.
pub struct Scene {
    actor_factory: ActorFactory,
    archetypes: Vec<Archetype>,
    resources: HashMap<u64, Vec<u8>>,
}

impl Scene {
    /// The scene without its bytes.
    pub closed spec fn view(&self) -> SceneView {
        SceneView {
            created: self.actor_factory.count(),
            archetypes: Seq::new(self.archetypes@.len(), |i: int| self.archetypes@[i]@),
            resources: Map::new(
                |id: u64| self.resources@.contains_key(id),
                |id: u64| self.resources@[id]@,
            ),
        }
    }

    /// What every scene keeps true of itself.
    pub closed spec fn inv(&self) -> bool {
        &&& forall|i: int| 0 <= i < self.archetypes@.len() ==> (#[trigger] self.archetypes@[i]).inv()
        &&& self@.wf()
    }

    /// A scene that keeps its invariant is well formed.
    pub proof fn lemma_view_wf(&self)
        requires
            self.inv(),
        ensures
            self@.wf(),
    {
    }

    /// A scene with no actor, no archetype and no resource.
    #[must_use]
    pub fn new() -> (scene: Scene)
        ensures
            scene.inv(),
            scene@.created == 0,
            scene@.archetypes.len() == 0,
            scene@.resources == Map::<u64, Seq<u8>>::empty(),
    {
        let scene = Scene {
            actor_factory: ActorFactory::new(),
            archetypes: Vec::new(),
            resources: HashMap::new(),
        };
        proof {
            assert(scene@.resources =~= Map::<u64, Seq<u8>>::empty());
        }
        scene
    }

    /// The archetype that holds `actor`, if one does.
    #[must_use]
    fn get_archetype_of(&self, actor: Actor) -> (r: Option<usize>)
        requires
            self.inv(),
        ensures
            r is Some <==> self@.contains(actor),
            r matches Some(at) ==> {
                &&& at == self@.home(actor)
                &&& at < self.archetypes@.len()
                &&& self.archetypes@[at as int]@.contains(actor)
            },
    {
        let mut i: usize = 0;
        while i < self.archetypes.len()
            invariant
                self.inv(),
                i <= self.archetypes@.len(),
                self@.home(actor) == self@.home_from(actor, i as int),
            decreases self.archetypes@.len() - i,
        {
            if self.archetypes[i].has_actor(actor) {
                return Some(i);
            }
            i += 1;
        }
        None
    }

    /// The archetype whose columns are `types` in some order, if there is
    /// one.
    #[must_use]
    fn get_archetype_with_types(&self, types: &Vec<TypeInfo>) -> (r: Option<usize>)
        requires
            self.inv(),
        ensures
            r is Some <==> self@.route(types@) < self@.archetypes.len(),
            r matches Some(at) ==> {
                &&& at == self@.route(types@)
                &&& at < self.archetypes@.len()
                &&& self.archetypes@[at as int]@.has_types(types@)
            },
    {
        let mut i: usize = 0;
        while i < self.archetypes.len()
            invariant
                self.inv(),
                i <= self.archetypes@.len(),
                self@.route(types@) == self@.route_from(types@, i as int),
            decreases self.archetypes@.len() - i,
        {
            if self.archetypes[i].has_types(types) {
                return Some(i);
            }
            i += 1;
        }
        None
    }

    /// Creates an actor from the components that `src` gives and says which
    /// actor it is, as `create_actor_with` does from the components
    /// themselves: the actor is the next that was never issued, and it goes
    /// to the archetype whose columns are the types of its components, in
    /// whatever order they are given.
    ///
    /// The creation is refused, and nothing changes, on the components on
    /// which `create_actor_with` refuses it.
    pub fn create_actor<S: ComponentSource>(&mut self, src: S) -> (r: Result<Actor, StoreError>)
        requires
            old(self).inv(),
        ensures
            final(self).inv(),
            match r {
                Ok(actor) => {
                    &&& old(self)@.create_error(src.values()) is None
                    &&& actor == old(self)@.next_actor()
                    &&& final(self)@ == old(self)@.create(src.values())
                },
                Err(e) => {
                    &&& old(self)@.create_error(src.values()) == Some(e)
                    &&& final(self)@ == old(self)@
                },
            },
    {
        let values = src.types();
        self.create_actor_with(values)
    }

    /// Creates an actor from `values`, its components, and says which actor
    /// it is: the next that was never issued. The actor goes to the
    /// archetype whose columns are the types of its components, in whatever
    /// order they are given; where there is none yet, one is made with room
    /// for sixteen actors.
    ///
    /// The creation is refused, and nothing changes, where a type occurs
    /// twice among the components, where a value is not as long as its
    /// descriptor says or as the column of its type takes, where every
    /// identity has been issued, where a new archetype is called for and a
    /// descriptor cannot head a column, or where the block that is called
    /// for cannot be had.
    pub fn create_actor_with(&mut self, values: Vec<(TypeInfo, Vec<u8>)>) -> (r: Result<
        Actor,
        StoreError,
    >)
        requires
            old(self).inv(),
        ensures
            final(self).inv(),
            match r {
                Ok(actor) => {
                    &&& old(self)@.create_error(values_view(values@)) is None
                    &&& actor == old(self)@.next_actor()
                    &&& final(self)@ == old(self)@.create(values_view(values@))
                },
                Err(e) => {
                    &&& old(self)@.create_error(values_view(values@)) == Some(e)
                    &&& final(self)@ == old(self)@
                },
            },
    {
        let types = types_in(&values);
        if has_duplicates(&types) {
            return Err(StoreError::DuplicateComponentType);
        }
        if !values_well_sized(&values) {
            return Err(StoreError::BundleMismatch);
        }
        if self.actor_factory.created() == usize::MAX {
            return Err(StoreError::ActorsExhausted);
        }
        let actor = self.actor_factory.next();
        let ghost given = values_view(values@);
        match self.get_archetype_with_types(&types) {
            Some(at) => {
                proof {
                    Actor::lemma_with_id(self@.created + 1);
                    if self.archetypes@[at as int]@.contains(actor) {
                        assert(self@.archetypes[at as int].contains(actor));
                    }
                }
                let archetype = &mut self.archetypes[at];
                match archetype.create_actor(actor, &values) {
                    Ok(()) => {},
                    Err(e) => {
                        proof {
                            assert(self@.archetypes =~= old(self)@.archetypes);
                        }
                        return Err(e);
                    },
                }
                proof {
                    assert(self@.archetypes =~= old(self)@.archetypes.update(
                        at as int,
                        old(self)@.archetypes[at as int].create(actor, given),
                    ));
                }
            },
            None => {
                let mut archetype = match Archetype::new(DEFAULT_ARCHETYPE_CAPACITY, &types) {
                    Ok(archetype) => archetype,
                    Err(e) => {
                        return Err(e);
                    },
                };
                proof {
                    SceneView::lemma_empty(DEFAULT_ARCHETYPE_CAPACITY as nat, types@);
                    SceneView::lemma_empty_takes(DEFAULT_ARCHETYPE_CAPACITY as nat, given);
                    assert(archetype@ == ArchetypeView::empty(
                        DEFAULT_ARCHETYPE_CAPACITY as nat,
                        types@,
                    ));
                }
                match archetype.create_actor(actor, &values) {
                    Ok(()) => {},
                    Err(e) => {
                        return Err(e);
                    },
                }
                self.archetypes.push(archetype);
                proof {
                    assert(self@.archetypes =~= old(self)@.archetypes.push(
                        ArchetypeView::empty(DEFAULT_ARCHETYPE_CAPACITY as nat, types@).create(
                            actor,
                            given,
                        ),
                    ));
                }
            },
        }
        let actor = self.actor_factory.create();
        proof {
            assert(self@.resources =~= old(self)@.resources);
            old(self)@.lemma_create_wf(given);
        }
        Ok(actor)
    }

    /// Destroys `actor` and hands back the values whose destructors are
    /// owed: one for each of its components whose type has a destructor. An
    /// actor that is not alive is left alone and nothing is owed.
    pub fn destroy_actor(&mut self, actor: Actor) -> (dropped: Vec<(TypeInfo, Vec<u8>)>)
        requires
            old(self).inv(),
        ensures
            final(self).inv(),
            final(self)@ == old(self)@.destroy(actor),
            values_view(dropped@) == old(self)@.dropped(actor),
    {
        match self.get_archetype_of(actor) {
            Some(at) => {
                let archetype = &mut self.archetypes[at];
                let dropped = archetype.destroy_actor(actor);
                proof {
                    assert(self@.archetypes =~= old(self)@.archetypes.update(
                        at as int,
                        old(self)@.archetypes[at as int].destroy(actor),
                    ));
                    assert(self@.resources =~= old(self)@.resources);
                    old(self)@.lemma_destroy_wf(actor);
                }
                dropped
            },
            None => Vec::new(),
        }
    }

    /// The value that `actor` has of type `ty`: none where the actor is not
    /// alive or has no component of that type.
    #[must_use]
    pub fn get_component(&self, actor: Actor, ty: TypeInfo) -> (r: Option<&[u8]>)
        requires
            self.inv(),
        ensures
            r is Some <==> self@.component(actor, ty) is Some,
            r matches Some(bytes) ==> self@.component(actor, ty) == Some(bytes@),
    {
        match self.get_archetype_of(actor) {
            Some(at) => self.archetypes[at].get_component(actor, ty),
            None => None,
        }
    }

    /// The value that `actor` has of type `ty`, for an actor that has one.
    #[must_use]
    pub fn component(&self, actor: Actor, ty: TypeInfo) -> (bytes: &[u8])
        requires
            self.inv(),
            self@.component(actor, ty) is Some,
        ensures
            self@.component(actor, ty) == Some(bytes@),
    {
        self.get_component(actor, ty).unwrap()
    }

    /// The value that `actor` has of type `ty`, to be changed in place: none
    /// where the actor is not alive or has no component of that type. The
    /// scene is then as it was but for that one value, which is what the
    /// bytes handed out are left as.
    #[must_use]
    pub fn get_component_mut(&mut self, actor: Actor, ty: TypeInfo) -> (r: Option<&mut [u8]>)
        requires
            old(self).inv(),
        ensures
            r is Some <==> old(self)@.component(actor, ty) is Some,
            r is None ==> final(self).inv() && final(self)@ == old(self)@,
            r matches Some(bytes) ==> {
                &&& old(self)@.component(actor, ty) == Some(bytes@)
                &&& final(bytes)@.len() == bytes@.len() ==> {
                    &&& final(self)@ == old(self)@.with_component(actor, ty, final(bytes)@)
                    &&& final(self).inv()
                }
            },
    {
        let at = match self.get_archetype_of(actor) {
            Some(at) => at,
            None => {
                return None;
            },
        };
        if !self.archetypes[at].has_type(ty) {
            return None;
        }
        proof {
            let before = *self;
            assert forall|after: Scene, value: Seq<u8>|
                #![trigger after.view(), before@.with_component(actor, ty, value)]
                after.actor_factory == before.actor_factory && after.resources == before.resources
                    && after.archetypes@ == before.archetypes@.update(
                    at as int,
                    after.archetypes@[at as int],
                ) && after.archetypes@[at as int].inv() && after.archetypes@[at as int]@
                    == before.archetypes@[at as int]@.with_component(actor, ty, value)
                    && value.len() == before@.component(actor, ty).unwrap().len() implies after.inv() by {
                assert(after@.archetypes =~= before@.with_component(actor, ty, value).archetypes);
                assert(after@.resources =~= before@.resources);
                before@.lemma_with_component_wf(actor, ty, value);
            }
        }
        let archetype = &mut self.archetypes[at];
        archetype.get_component_mut(actor, ty)
    }

    /// The value that `actor` has of type `ty`, to be changed in place, for
    /// an actor that has one.
    #[must_use]
    pub fn component_mut(&mut self, actor: Actor, ty: TypeInfo) -> (bytes: &mut [u8])
        requires
            old(self).inv(),
            old(self)@.component(actor, ty) is Some,
        ensures
            old(self)@.component(actor, ty) == Some(bytes@),
            final(bytes)@.len() == bytes@.len() ==> {
                &&& final(self)@ == old(self)@.with_component(actor, ty, final(bytes)@)
                &&& final(self).inv()
            },
    {
        self.get_component_mut(actor, ty).unwrap()
    }

    /// The value of the resource `id`, if there is one.
    #[must_use]
    pub fn get_resource(&self, id: u64) -> (r: Option<&Vec<u8>>)
        requires
            self.inv(),
        ensures
            r is Some <==> self@.resources.contains_key(id),
            r matches Some(value) ==> self@.resources[id] == value@,
    {
        self.resources.get(&id)
    }

    /// The value of the resource `id`, to be changed in place, if there is
    /// one.
    #[must_use]
    pub fn get_resource_mut(&mut self, id: u64) -> (r: Option<&mut Vec<u8>>)
        requires
            old(self).inv(),
        ensures
            r is Some <==> old(self)@.resources.contains_key(id),
            r is None ==> final(self).inv() && final(self)@ == old(self)@,
            r matches Some(value) ==> {
                &&& value@ == old(self)@.resources[id]
                &&& final(self).inv()
                &&& final(self)@ == old(self)@.with_resource(id, final(value)@)
            },
    {
        if !self.resources.contains_key(&id) {
            return None;
        }
        match self.resources.entry(id) {
            Entry::Occupied(entry) => Some(entry.into_mut()),
            Entry::Vacant(_) => None,
        }
    }

    /// Sets the resource `id` to `res` and hands back the value it had, if
    /// it had one.
    pub fn insert_resource(&mut self, id: u64, res: Vec<u8>) -> (previous: Option<Vec<u8>>)
        requires
            old(self).inv(),
        ensures
            final(self).inv(),
            final(self)@ == old(self)@.with_resource(id, res@),
            previous is Some <==> old(self)@.resources.contains_key(id),
            previous matches Some(value) ==> value@ == old(self)@.resources[id],
    {
        let ghost given = res@;
        let previous = self.resources.insert(id, res);
        proof {
            assert(self@.resources =~= old(self)@.resources.insert(id, given));
            assert(self@.archetypes =~= old(self)@.archetypes);
        }
        previous
    }

    /// Takes the resource `id` out and hands back the value it had, if it
    /// had one.
    pub fn remove_resource(&mut self, id: u64) -> (previous: Option<Vec<u8>>)
        requires
            old(self).inv(),
        ensures
            final(self).inv(),
            final(self)@ == old(self)@.without_resource(id),
            previous is Some <==> old(self)@.resources.contains_key(id),
            previous matches Some(value) ==> value@ == old(self)@.resources[id],
    {
        let previous = self.resources.remove(&id);
        proof {
            assert(self@.resources =~= old(self)@.resources.remove(id));
            assert(self@.archetypes =~= old(self)@.archetypes);
        }
        previous
    }

    /// The value of the resource `id`, for a resource that is there.
    #[must_use]
    pub fn resource(&self, id: u64) -> (value: &Vec<u8>)
        requires
            self.inv(),
            self@.resources.contains_key(id),
        ensures
            self@.resources[id] == value@,
    {
        self.get_resource(id).unwrap()
    }

    /// The value of the resource `id`, to be changed in place, for a
    /// resource that is there.
    #[must_use]
    pub fn resource_mut(&mut self, id: u64) -> (value: &mut Vec<u8>)
        requires
            old(self).inv(),
            old(self)@.resources.contains_key(id),
        ensures
            value@ == old(self)@.resources[id],
            final(self).inv(),
            final(self)@ == old(self)@.with_resource(id, final(value)@),
    {
        self.get_resource_mut(id).unwrap()
    }

    /// Gives the scene up and hands back what is owed: for each actor that
    /// is alive, archetype by archetype and slot by slot, the values whose
    /// destructors are owed; and the resources, which the scene no longer
    /// keeps.
    pub fn teardown(self) -> (r: (Vec<(Actor, Vec<(TypeInfo, Vec<u8>)>)>, HashMap<u64, Vec<u8>>))
        requires
            self.inv(),
        ensures
            owed_view(r.0@) == self@.teardown(),
            forall|id: u64| r.1@.contains_key(id) == self@.resources.contains_key(id),
            forall|id: u64| r.1@.contains_key(id) ==> (#[trigger] r.1@[id])@ == self@.resources[id],
    {
        let ghost scene = self@;
        let Scene { actor_factory: _, archetypes, resources } = self;
        let mut owed: Vec<(Actor, Vec<(TypeInfo, Vec<u8>)>)> = Vec::new();
        proof {
            assert(owed_view(owed@) =~= scene.teardown_upto(0));
        }
        for archetype in it: archetypes
            invariant
                it.seq().len() == scene.archetypes.len(),
                forall|i: int| 0 <= i < it.seq().len() ==> (#[trigger] it.seq()[i]).inv(),
                forall|i: int| 0 <= i < it.seq().len() ==> (#[trigger] it.seq()[i])@ == scene.archetypes[i],
                owed_view(owed@) == scene.teardown_upto(it.index() as int),
        {
            let ghost before = owed@;
            let mut part = archetype.teardown();
            let ghost added = part@;
            owed.append(&mut part);
            proof {
                assert(owed_view(owed@) =~= owed_view(before) + owed_view(added));
            }
        }
        (owed, resources)
    }

    /// Whether `actor` is alive.
    #[must_use]
    pub fn contains(&self, actor: Actor) -> (alive: bool)
        requires
            self.inv(),
        ensures
            alive == self@.contains(actor),
    {
        self.get_archetype_of(actor).is_some()
    }

    /// The number of actors that are alive.
    pub fn len(&self) -> (n: usize)
        requires
            self.inv(),
        ensures
            n == self@.live().len(),
    {
        let mut n: usize = 0;
        let mut i: usize = 0;
        while i < self.archetypes.len()
            invariant
                self.inv(),
                i <= self.archetypes@.len(),
                n == self@.held_upto(i as int),
            decreases self.archetypes@.len() - i,
        {
            proof {
                self@.lemma_held_upto(i + 1);
            }
            n = n + self.archetypes[i].len();
            i += 1;
        }
        proof {
            self@.lemma_held_upto(i as int);
            self@.lemma_live_whole();
        }
        n
    }

    /// The number of archetypes.
    pub fn archetype_count(&self) -> (n: usize)
        requires
            self.inv(),
        ensures
            n == self@.archetypes.len(),
    {
        self.archetypes.len()
    }

    /// The number of slots of the archetype that holds `actor`, if the
    /// actor is alive.
    #[must_use]
    pub fn capacity_of(&self, actor: Actor) -> (r: Option<usize>)
        requires
            self.inv(),
        ensures
            r is Some <==> self@.contains(actor),
            r matches Some(n) ==> n == self@.archetypes[self@.home(actor)].capacity(),
    {
        match self.get_archetype_of(actor) {
            Some(at) => Some(self.archetypes[at].capacity()),
            None => None,
        }
    }

    /// The number of actors that were created so far.
    pub fn created(&self) -> (n: usize)
        requires
            self.inv(),
        ensures
            n == self@.created,
    {
        self.actor_factory.created()
    }
}

impl Default for Scene {
    fn default() -> (scene: Scene)
        ensures
            scene.inv(),
            scene@.created == 0,
            scene@.archetypes.len() == 0,
            scene@.resources == Map::<u64, Seq<u8>>::empty(),
    {
        Scene::new()
    }
}

} // verus!
