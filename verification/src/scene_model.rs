//! What a scene is, told without its bytes: the archetypes it has made so
//! far, how many actors it has created, and its resources.
//!
//! Every operation of a scene is a function on this value. The executable
//! scene is proved to follow it; what holds of the store for all inputs is
//! proved here.

use crate::actor::Actor;
use crate::error::StoreError;
use crate::model::{new_error, types_of, well_sized, ArchetypeView, Row, Values};
use crate::type_info::{among, distinct, ids_of, lemma_among, lemma_place_of, TypeInfo};
use vstd::prelude::*;

verus! {

/// The capacity that an archetype starts with.
pub const DEFAULT_ARCHETYPE_CAPACITY: usize = 16;

/// A scene without its bytes.
#[verifier::ext_equal]
pub struct SceneView {
    /// How many actors were created so far.
    pub created: nat,
    /// The archetypes, in the order in which they were made.
    pub archetypes: Seq<ArchetypeView>,
    /// The value of each resource, by the identity of its type.
    pub resources: Map<u64, Seq<u8>>,
}

impl ArchetypeView {
    /// An archetype with the columns `signature` and `capacity` free slots.
    pub open spec fn empty(capacity: nat, signature: Seq<TypeInfo>) -> ArchetypeView {
        ArchetypeView { signature, slots: Seq::new(capacity, |s: int| None::<Row>) }
    }
}

impl SceneView {
    /// The first archetype at or after `from` that holds `actor`, and the
    /// number of archetypes where none does.
    pub open spec fn home_from(self, actor: Actor, from: int) -> int
        decreases self.archetypes.len() - from,
    {
        if from >= self.archetypes.len() {
            self.archetypes.len() as int
        } else if self.archetypes[from].contains(actor) {
            from
        } else {
            self.home_from(actor, from + 1)
        }
    }

    /// The archetype that holds `actor`, and the number of archetypes where
    /// none does.
    pub open spec fn home(self, actor: Actor) -> int {
        self.home_from(actor, 0)
    }

    /// Whether `actor` is alive: whether some archetype holds it.
    pub open spec fn contains(self, actor: Actor) -> bool {
        self.home(actor) < self.archetypes.len()
    }

    /// The actors that are alive.
    pub open spec fn live(self) -> Set<Actor> {
        Set::new(|actor: Actor| self.contains(actor))
    }

    /// The value that `actor` has of type `ty`: none where the actor is not
    /// alive or has no component of that type.
    pub open spec fn component(self, actor: Actor, ty: TypeInfo) -> Option<Seq<u8>> {
        if self.contains(actor) {
            self.archetypes[self.home(actor)].component(actor, ty)
        } else {
            None
        }
    }

    /// The first archetype at or after `from` whose columns are `types` in
    /// some order, and the number of archetypes where there is none.
    pub open spec fn route_from(self, types: Seq<TypeInfo>, from: int) -> int
        decreases self.archetypes.len() - from,
    {
        if from >= self.archetypes.len() {
            self.archetypes.len() as int
        } else if self.archetypes[from].has_types(types) {
            from
        } else {
            self.route_from(types, from + 1)
        }
    }

    /// The archetype whose columns are `types` in some order, and the number
    /// of archetypes where there is none.
    pub open spec fn route(self, types: Seq<TypeInfo>) -> int {
        self.route_from(types, 0)
    }

    /// The actor that will be created next.
    pub open spec fn next_actor(self) -> Actor {
        Actor::with_id(self.created + 1)
    }

    /// What must hold of a scene at all times: every archetype is well
    /// formed, no two archetypes have the same columns in whatever order, no
    /// actor is in two archetypes, and every actor in an archetype is one
    /// that was created.
    pub open spec fn wf(self) -> bool {
        Self::sound(self.created, self.archetypes)
    }

    /// What must hold of the archetypes of a scene that has created
    /// `created` actors.
    pub open spec fn sound(created: nat, archetypes: Seq<ArchetypeView>) -> bool {
        &&& created <= usize::MAX
        &&& forall|i: int| 0 <= i < archetypes.len() ==> (#[trigger] archetypes[i]).wf()
        &&& forall|i: int, j: int|
            0 <= i < archetypes.len() && 0 <= j < archetypes.len() && i != j ==> !(
            #[trigger] archetypes[i]).has_types((#[trigger] archetypes[j]).signature)
        &&& forall|i: int, j: int, actor: Actor|
            #![trigger archetypes[i].contains(actor), archetypes[j].contains(actor)]
            0 <= i < j < archetypes.len() ==> !(archetypes[i].contains(actor)
                && archetypes[j].contains(actor))
        &&& forall|i: int, actor: Actor|
            0 <= i < archetypes.len() && #[trigger] archetypes[i].contains(actor) ==> 1
                <= actor.id() <= created
    }

    /// Why an actor with `values` cannot be created, if it cannot.
    pub open spec fn create_error(self, values: Values) -> Option<StoreError> {
        let types = types_of(values);
        let at = self.route(types);
        if !distinct(types) {
            Some(StoreError::DuplicateComponentType)
        } else if !well_sized(values) {
            Some(StoreError::BundleMismatch)
        } else if self.created >= usize::MAX {
            Some(StoreError::ActorsExhausted)
        } else if at < self.archetypes.len() {
            self.archetypes[at].create_error(values)
        } else {
            new_error(DEFAULT_ARCHETYPE_CAPACITY as nat, types)
        }
    }

    /// The scene after an actor was created with `values`: the actor is in
    /// the archetype whose columns are the types of the values, in whatever
    /// order; where there was none, a new one was made for it.
    pub open spec fn create(self, values: Values) -> SceneView {
        let types = types_of(values);
        let at = self.route(types);
        let actor = self.next_actor();
        SceneView {
            created: self.created + 1,
            archetypes: if at < self.archetypes.len() {
                self.archetypes.update(at, self.archetypes[at].create(actor, values))
            } else {
                self.archetypes.push(
                    ArchetypeView::empty(DEFAULT_ARCHETYPE_CAPACITY as nat, types).create(
                        actor,
                        values,
                    ),
                )
            },
            resources: self.resources,
        }
    }

    /// The scene after `actor` was destroyed.
    pub open spec fn destroy(self, actor: Actor) -> SceneView {
        let at = self.home(actor);
        if at < self.archetypes.len() {
            SceneView {
                created: self.created,
                archetypes: self.archetypes.update(at, self.archetypes[at].destroy(actor)),
                resources: self.resources,
            }
        } else {
            self
        }
    }

    /// The values whose destructors are owed when `actor` is destroyed.
    pub open spec fn dropped(self, actor: Actor) -> Values {
        let at = self.home(actor);
        if at < self.archetypes.len() {
            self.archetypes[at].dropped(actor)
        } else {
            Seq::empty()
        }
    }

    /// The scene with the value that `actor` has of type `ty` replaced.
    pub open spec fn with_component(self, actor: Actor, ty: TypeInfo, value: Seq<u8>) -> SceneView {
        let at = self.home(actor);
        SceneView {
            created: self.created,
            archetypes: self.archetypes.update(
                at,
                self.archetypes[at].with_component(actor, ty, value),
            ),
            resources: self.resources,
        }
    }

    /// The scene with the resource `id` set to `value`.
    pub open spec fn with_resource(self, id: u64, value: Seq<u8>) -> SceneView {
        SceneView {
            created: self.created,
            archetypes: self.archetypes,
            resources: self.resources.insert(id, value),
        }
    }

    /// The scene with the resource `id` taken out.
    pub open spec fn without_resource(self, id: u64) -> SceneView {
        SceneView {
            created: self.created,
            archetypes: self.archetypes,
            resources: self.resources.remove(id),
        }
    }

    /// The archetype found for an actor is the first that holds it.
    pub proof fn lemma_home_from(self, actor: Actor, from: int)
        requires
            0 <= from <= self.archetypes.len(),
        ensures
            from <= self.home_from(actor, from) <= self.archetypes.len(),
            self.home_from(actor, from) < self.archetypes.len() ==> self.archetypes[self.home_from(
                actor,
                from,
            )].contains(actor),
            forall|i: int|
                from <= i < self.home_from(actor, from) ==> !(#[trigger] self.archetypes[i]).contains(
                    actor,
                ),
        decreases self.archetypes.len() - from,
    {
        if from < self.archetypes.len() && !self.archetypes[from].contains(actor) {
            self.lemma_home_from(actor, from + 1);
        }
    }

    /// The archetype found for some types is the first whose columns they
    /// are.
    pub proof fn lemma_route_from(self, types: Seq<TypeInfo>, from: int)
        requires
            0 <= from <= self.archetypes.len(),
        ensures
            from <= self.route_from(types, from) <= self.archetypes.len(),
            self.route_from(types, from) < self.archetypes.len() ==> self.archetypes[self.route_from(
                types,
                from,
            )].has_types(types),
            forall|i: int|
                from <= i < self.route_from(types, from) ==> !(#[trigger] self.archetypes[i]).has_types(
                    types,
                ),
        decreases self.archetypes.len() - from,
    {
        if from < self.archetypes.len() && !self.archetypes[from].has_types(types) {
            self.lemma_route_from(types, from + 1);
        }
    }

    /// In a well-formed scene an actor is in the one archetype that holds
    /// it.
    pub proof fn lemma_home(self, at: int, actor: Actor)
        requires
            self.wf(),
            0 <= at < self.archetypes.len(),
            self.archetypes[at].contains(actor),
        ensures
            self.contains(actor),
            self.home(actor) == at,
    {
        self.lemma_home_from(actor, 0);
        let found = self.home(actor);
        if found < at {
            assert(self.archetypes[found].contains(actor) && self.archetypes[at].contains(actor));
        }
    }

    /// A new archetype for types that can have one is well formed, has its
    /// first slot free and holds no actor.
    pub proof fn lemma_empty(capacity: nat, types: Seq<TypeInfo>)
        requires
            new_error(capacity, types) is None,
        ensures
            ArchetypeView::empty(capacity, types).wf(),
            ArchetypeView::empty(capacity, types).first_free() == 0,
            ArchetypeView::empty(capacity, types).has_types(types),
            forall|actor: Actor| !(#[trigger] ArchetypeView::empty(capacity, types).contains(actor)),
    {
        let empty = ArchetypeView::empty(capacity, types);
        assert forall|j: int| 0 <= j < types.len() implies among(
            empty.signature,
            #[trigger] types[j],
        ) by {
            lemma_among(types, j);
        }
        assert forall|actor: Actor| !(#[trigger] empty.contains(actor)) by {
            if empty.contains(actor) {
                assert(empty.holds(empty.slot_of(actor), actor));
            }
        }
    }

    /// A new archetype for the types of some values takes the values if each
    /// is as long as its own descriptor says.
    pub proof fn lemma_empty_takes(capacity: nat, values: Values)
        requires
            distinct(types_of(values)),
            well_sized(values),
        ensures
            ArchetypeView::empty(capacity, types_of(values)).takes(values),
    {
        let types = types_of(values);
        let empty = ArchetypeView::empty(capacity, types);
        assert forall|j: int| 0 <= j < values.len() implies (#[trigger] values[j]).1.len()
            == empty.signature[empty.column_of(values[j].0)].size by {
            lemma_among(types, j);
            assert(types[j] == values[j].0);
        }
    }

    /// Where the new actor lands, and that the archetype it lands in takes
    /// it: the archetype that is there for its types, or a new one.
    pub proof fn lemma_create_lands(self, values: Values)
        requires
            self.wf(),
            self.create_error(values) is None,
        ensures
            ({
                let at = self.route(types_of(values));
                let target = if at < self.archetypes.len() {
                    self.archetypes[at]
                } else {
                    ArchetypeView::empty(DEFAULT_ARCHETYPE_CAPACITY as nat, types_of(values))
                };
                &&& 0 <= at <= self.archetypes.len()
                &&& target.wf()
                &&& target.has_types(types_of(values))
                &&& target.create_error(values) is None
                &&& !target.contains(self.next_actor())
                &&& self.create(values).archetypes.len() == if at < self.archetypes.len() {
                    self.archetypes.len()
                } else {
                    self.archetypes.len() + 1
                }
                &&& self.create(values).archetypes[at] == target.create(self.next_actor(), values)
                &&& forall|i: int|
                    0 <= i < self.archetypes.len() && i != at ==> (
                    #[trigger] self.create(values).archetypes[i]) == self.archetypes[i]
                &&& forall|i: int|
                    0 <= i < self.archetypes.len() ==> !(#[trigger] self.archetypes[i]).contains(
                        self.next_actor(),
                    )
            }),
    {
        let types = types_of(values);
        let at = self.route(types);
        self.lemma_route_from(types, 0);
        Actor::lemma_with_id(self.created + 1);
        if at >= self.archetypes.len() {
            Self::lemma_empty(DEFAULT_ARCHETYPE_CAPACITY as nat, types);
            Self::lemma_empty_takes(DEFAULT_ARCHETYPE_CAPACITY as nat, values);
        }
    }

    /// A creation that is not refused leaves the scene well formed.
    pub proof fn lemma_create_wf(self, values: Values)
        requires
            self.wf(),
            self.create_error(values) is None,
        ensures
            self.create(values).wf(),
    {
        let types = types_of(values);
        let at = self.route(types);
        let actor = self.next_actor();
        let after = self.create(values);
        let target = if at < self.archetypes.len() {
            self.archetypes[at]
        } else {
            ArchetypeView::empty(DEFAULT_ARCHETYPE_CAPACITY as nat, types)
        };
        self.lemma_create_lands(values);
        self.lemma_route_from(types, 0);
        Actor::lemma_with_id(self.created + 1);
        target.lemma_create_wf(actor, values);
        target.lemma_create_holds(actor, values);
        target.lemma_create_components(actor, values);
        assert forall|i: int| 0 <= i < after.archetypes.len() implies (
        #[trigger] after.archetypes[i]).wf() by {
            if i != at {
                assert(self.archetypes[i].wf());
            }
        }
        assert forall|i: int, j: int|
            0 <= i < after.archetypes.len() && 0 <= j < after.archetypes.len() && i != j implies !(
        #[trigger] after.archetypes[i]).has_types((#[trigger] after.archetypes[j]).signature) by {
            if at < self.archetypes.len() {
                assert(!self.archetypes[i].has_types(self.archetypes[j].signature));
            } else if i == at {
                if after.archetypes[i].has_types(after.archetypes[j].signature) {
                    assert(self.archetypes[j].wf());
                    crate::model::lemma_same_types(self.archetypes[j].signature, types);
                    assert(self.archetypes[j].has_types(types));
                }
            } else if j == at {
                assert(!self.archetypes[i].has_types(types));
            } else {
                assert(!self.archetypes[i].has_types(self.archetypes[j].signature));
            }
        }
        assert forall|i: int, other: Actor|
            0 <= i < after.archetypes.len() && #[trigger] after.archetypes[i].contains(
                other,
            ) implies 1 <= other.id() <= after.created && (other == actor ==> i == at) && (other
            != actor ==> i < self.archetypes.len() && self.archetypes[i].contains(other)) by {
            if i == at {
                if other != actor {
                    target.lemma_create_keeps_others(actor, values, other);
                }
            } else {
                assert(self.archetypes[i].contains(other));
            }
        }
        assert forall|i: int, j: int, other: Actor|
            #![trigger after.archetypes[i].contains(other), after.archetypes[j].contains(other)]
            0 <= i < j < after.archetypes.len() implies !(after.archetypes[i].contains(other)
            && after.archetypes[j].contains(other)) by {
            if after.archetypes[i].contains(other) && after.archetypes[j].contains(other) {
                assert(other != actor);
                assert(self.archetypes[i].contains(other) && self.archetypes[j].contains(other));
            }
        }
    }

    /// A destruction leaves the scene well formed.
    pub proof fn lemma_destroy_wf(self, actor: Actor)
        requires
            self.wf(),
        ensures
            self.destroy(actor).wf(),
    {
        let at = self.home(actor);
        let after = self.destroy(actor);
        self.lemma_home_from(actor, 0);
        if at < self.archetypes.len() {
            self.archetypes[at].lemma_destroy(actor);
            assert forall|i: int, other: Actor|
                0 <= i < after.archetypes.len() && #[trigger] after.archetypes[i].contains(
                    other,
                ) implies self.archetypes[i].contains(other) by {
                if i == at {
                    assert(after.archetypes[at].live().contains(other));
                    assert(self.archetypes[at].live().contains(other));
                }
            }
            assert forall|i: int| 0 <= i < after.archetypes.len() implies (
            #[trigger] after.archetypes[i]).wf() by {
                if i != at {
                    assert(self.archetypes[i].wf());
                }
            }
            assert forall|i: int, j: int|
                0 <= i < after.archetypes.len() && 0 <= j < after.archetypes.len() && i != j implies !(
            #[trigger] after.archetypes[i]).has_types((#[trigger] after.archetypes[j]).signature) by {
                assert(!self.archetypes[i].has_types(self.archetypes[j].signature));
            }
            assert forall|i: int, j: int, other: Actor|
                #![trigger after.archetypes[i].contains(other), after.archetypes[j].contains(other)]
                0 <= i < j < after.archetypes.len() implies !(after.archetypes[i].contains(other)
                && after.archetypes[j].contains(other)) by {
                if after.archetypes[i].contains(other) && after.archetypes[j].contains(other) {
                    assert(self.archetypes[i].contains(other) && self.archetypes[j].contains(other));
                }
            }
        }
    }

    /// Replacing one value of an actor by one of the same length leaves the
    /// scene well formed.
    pub proof fn lemma_with_component_wf(self, actor: Actor, ty: TypeInfo, value: Seq<u8>)
        requires
            self.wf(),
            self.component(actor, ty) is Some,
            value.len() == self.component(actor, ty).unwrap().len(),
        ensures
            self.with_component(actor, ty, value).wf(),
    {
        let at = self.home(actor);
        let after = self.with_component(actor, ty, value);
        self.lemma_home_from(actor, 0);
        assert(self.archetypes[at].wf());
        self.archetypes[at].lemma_with_component(actor, ty, value);
        assert forall|i: int| 0 <= i < after.archetypes.len() implies (
        #[trigger] after.archetypes[i]).wf() by {
            if i != at {
                assert(self.archetypes[i].wf());
            }
        }
        assert forall|i: int, j: int|
            0 <= i < after.archetypes.len() && 0 <= j < after.archetypes.len() && i != j implies !(
        #[trigger] after.archetypes[i]).has_types((#[trigger] after.archetypes[j]).signature) by {
            assert(!self.archetypes[i].has_types(self.archetypes[j].signature));
        }
        assert forall|i: int, other: Actor|
            0 <= i < after.archetypes.len() implies #[trigger] after.archetypes[i].contains(other)
            == self.archetypes[i].contains(other) by {}
        assert forall|i: int, j: int, other: Actor|
            #![trigger after.archetypes[i].contains(other), after.archetypes[j].contains(other)]
            0 <= i < j < after.archetypes.len() implies !(after.archetypes[i].contains(other)
            && after.archetypes[j].contains(other)) by {
            if after.archetypes[i].contains(other) && after.archetypes[j].contains(other) {
                assert(self.archetypes[i].contains(other) && self.archetypes[j].contains(other));
            }
        }
    }

    /// After a creation the new actor is alive, in the archetype it was sent
    /// to, and has each value it was created with and none of any other
    /// type.
    pub proof fn lemma_create_components(self, values: Values)
        requires
            self.wf(),
            self.create_error(values) is None,
        ensures
            !self.contains(self.next_actor()),
            self.create(values).contains(self.next_actor()),
            self.create(values).home(self.next_actor()) == self.route(types_of(values)),
            forall|j: int|
                0 <= j < values.len() ==> self.create(values).component(
                    self.next_actor(),
                    (#[trigger] values[j]).0,
                ) == Some(values[j].1),
            forall|ty: TypeInfo|
                !among(types_of(values), ty) ==> #[trigger] self.create(values).component(
                    self.next_actor(),
                    ty,
                ) is None,
    {
        let at = self.route(types_of(values));
        let actor = self.next_actor();
        let after = self.create(values);
        let target = if at < self.archetypes.len() {
            self.archetypes[at]
        } else {
            ArchetypeView::empty(DEFAULT_ARCHETYPE_CAPACITY as nat, types_of(values))
        };
        self.lemma_create_lands(values);
        self.lemma_create_wf(values);
        self.lemma_home_from(actor, 0);
        target.lemma_create_components(actor, values);
        after.lemma_home(at, actor);
    }

    /// A creation leaves every other actor in its archetype and with the
    /// values it had, whether or not a block had to grow.
    pub proof fn lemma_create_keeps_others(self, values: Values, other: Actor)
        requires
            self.wf(),
            self.create_error(values) is None,
            other != self.next_actor(),
        ensures
            self.create(values).contains(other) == self.contains(other),
            self.contains(other) ==> self.create(values).home(other) == self.home(other),
            forall|ty: TypeInfo| #[trigger]
                self.create(values).component(other, ty) == self.component(other, ty),
    {
        let at = self.route(types_of(values));
        let actor = self.next_actor();
        let after = self.create(values);
        let target = if at < self.archetypes.len() {
            self.archetypes[at]
        } else {
            ArchetypeView::empty(DEFAULT_ARCHETYPE_CAPACITY as nat, types_of(values))
        };
        self.lemma_create_lands(values);
        self.lemma_create_wf(values);
        self.lemma_home_from(other, 0);
        after.lemma_home_from(other, 0);
        target.lemma_create_keeps_others(actor, values, other);
        if self.contains(other) {
            let home = self.home(other);
            assert(after.archetypes[home].contains(other));
            after.lemma_home(home, other);
        }
        if after.contains(other) {
            let home = after.home(other);
            assert(after.archetypes[home].contains(other));
            if home == at {
                assert(target.contains(other));
            }
            assert(self.archetypes[home].contains(other));
            self.lemma_home(home, other);
        }
    }

    /// After a creation the actors alive are those that were and the new
    /// one, which was not.
    pub proof fn lemma_create_live(self, values: Values)
        requires
            self.wf(),
            self.create_error(values) is None,
        ensures
            !self.live().contains(self.next_actor()),
            self.create(values).live() == self.live().insert(self.next_actor()),
    {
        let after = self.create(values);
        self.lemma_create_components(values);
        assert forall|other: Actor| after.live().contains(other) == self.live().insert(
            self.next_actor(),
        ).contains(other) by {
            if other != self.next_actor() {
                self.lemma_create_keeps_others(values, other);
            }
        }
        assert(after.live() =~= self.live().insert(self.next_actor()));
    }

    /// A destruction takes the actor out of the scene and leaves every other
    /// actor in its archetype and with the values it had.
    pub proof fn lemma_destroy(self, actor: Actor)
        requires
            self.wf(),
        ensures
            !self.destroy(actor).contains(actor),
            self.destroy(actor).live() == self.live().remove(actor),
            self.destroy(actor).created == self.created,
            forall|other: Actor, ty: TypeInfo|
                other != actor ==> #[trigger] self.destroy(actor).component(other, ty)
                    == self.component(other, ty),
    {
        let at = self.home(actor);
        let after = self.destroy(actor);
        self.lemma_home_from(actor, 0);
        self.lemma_destroy_wf(actor);
        if at < self.archetypes.len() {
            self.archetypes[at].lemma_destroy(actor);
            assert forall|other: Actor| other != actor implies after.contains(other)
                == self.contains(other) && (self.contains(other) ==> after.home(other)
                == self.home(other)) && (forall|ty: TypeInfo| #[trigger]
                after.component(other, ty) == self.component(other, ty)) by {
                self.lemma_home_from(other, 0);
                after.lemma_home_from(other, 0);
                if self.contains(other) {
                    let home = self.home(other);
                    if home == at {
                        assert(self.archetypes[at].live().contains(other));
                        assert(after.archetypes[at].live().contains(other));
                    }
                    assert(after.archetypes[home].contains(other));
                    after.lemma_home(home, other);
                }
                if after.contains(other) {
                    let home = after.home(other);
                    if home == at {
                        assert(after.archetypes[at].live().contains(other));
                        assert(self.archetypes[at].live().contains(other));
                    }
                    assert(self.archetypes[home].contains(other));
                    self.lemma_home(home, other);
                }
            }
            assert(!after.contains(actor)) by {
                after.lemma_home_from(actor, 0);
                if after.contains(actor) {
                    let home = after.home(actor);
                    assert(after.archetypes[home].contains(actor));
                    if home != at {
                        assert(self.archetypes[home].contains(actor));
                        self.lemma_home(home, actor);
                    }
                }
            }
        }
        assert(after.live() =~= self.live().remove(actor));
    }

    /// Destroying an actor owes the destructor of each of its components
    /// that has one, once; destroying it again owes nothing and changes
    /// nothing, and so does destroying an actor that is not alive.
    pub proof fn lemma_destroy_once(self, actor: Actor)
        requires
            self.wf(),
        ensures
            distinct(types_of(self.dropped(actor))),
            forall|ty: TypeInfo|
                self.contains(actor) && self.archetypes[self.home(actor)].signature.contains(ty)
                    && ty.needs_drop ==> self.dropped(actor).contains(
                    (ty, #[trigger] self.component(actor, ty).unwrap()),
                ),
            forall|i: int|
                0 <= i < self.dropped(actor).len() ==> {
                    let (ty, value) = #[trigger] self.dropped(actor)[i];
                    ty.needs_drop && self.component(actor, ty) == Some(value)
                },
            !self.contains(actor) ==> self.destroy(actor) == self && self.dropped(actor).len() == 0,
            self.destroy(actor).dropped(actor).len() == 0,
            self.destroy(actor).destroy(actor) == self.destroy(actor),
    {
        let at = self.home(actor);
        self.lemma_home_from(actor, 0);
        self.lemma_destroy(actor);
        if at < self.archetypes.len() {
            self.archetypes[at].lemma_destroy_once(actor);
        } else {
            assert(ids_of(types_of(self.dropped(actor))) =~= Seq::<u64>::empty());
        }
    }

    /// The archetype that takes an actor has the types of its components
    /// for columns, in some order.
    pub proof fn lemma_create_signature(self, values: Values)
        requires
            self.wf(),
            self.create_error(values) is None,
        ensures
            ({
                let at = self.route(types_of(values));
                let home = self.create(values).archetypes[at];
                &&& 0 <= at < self.create(values).archetypes.len()
                &&& home.has_types(types_of(values))
                &&& distinct(home.signature)
                &&& ids_of(home.signature).to_set() == ids_of(types_of(values)).to_set()
            }),
    {
        let types = types_of(values);
        let at = self.route(types);
        let target = if at < self.archetypes.len() {
            self.archetypes[at]
        } else {
            ArchetypeView::empty(DEFAULT_ARCHETYPE_CAPACITY as nat, types)
        };
        self.lemma_create_lands(values);
        target.lemma_create_holds(self.next_actor(), values);
        crate::model::lemma_same_types(types, target.signature);
    }

    /// Two actors created one after the other are in the same archetype
    /// exactly when their components are of the same types, in whatever
    /// order they were given.
    pub proof fn lemma_same_types_same_home(self, first: Values, second: Values)
        requires
            self.wf(),
            self.create_error(first) is None,
            self.create(first).create_error(second) is None,
        ensures
            ({
                let middle = self.create(first);
                let after = middle.create(second);
                let a = self.next_actor();
                let b = middle.next_actor();
                &&& a != b
                &&& after.contains(a)
                &&& after.contains(b)
                &&& after.home(a) == after.home(b) <==> ids_of(types_of(first)).to_set() == ids_of(
                    types_of(second),
                ).to_set()
            }),
    {
        let middle = self.create(first);
        let after = middle.create(second);
        let a = self.next_actor();
        let b = middle.next_actor();
        let t1 = types_of(first);
        let t2 = types_of(second);
        let i1 = self.route(t1);
        let i2 = middle.route(t2);
        Actor::lemma_with_id(self.created + 1);
        Actor::lemma_with_id(middle.created + 1);
        self.lemma_create_wf(first);
        self.lemma_create_components(first);
        self.lemma_create_signature(first);
        middle.lemma_create_wf(second);
        middle.lemma_create_components(second);
        middle.lemma_create_signature(second);
        middle.lemma_create_keeps_others(second, a);
        middle.lemma_create_lands(second);
        middle.lemma_route_from(t2, 0);
        let sig1 = middle.archetypes[i1].signature;
        ids_of(t1).unique_seq_to_set();
        ids_of(t2).unique_seq_to_set();
        ids_of(sig1).unique_seq_to_set();
        if ids_of(t1).to_set() == ids_of(t2).to_set() {
            assert(middle.archetypes[i1].has_types(t2)) by {
                assert forall|j: int| 0 <= j < t2.len() implies among(sig1, #[trigger] t2[j]) by {
                    assert(ids_of(t2)[j] == t2[j].id);
                    assert(ids_of(t2).to_set().contains(t2[j].id));
                    assert(ids_of(sig1).to_set().contains(t2[j].id));
                }
            }
            if i2 != i1 {
                assert(i2 < i1);
                let sig2 = middle.archetypes[i2].signature;
                assert(middle.archetypes[i2].wf());
                crate::model::lemma_same_types(t2, sig2);
                assert(middle.archetypes[i2].has_types(sig1)) by {
                    ids_of(sig2).unique_seq_to_set();
                    assert forall|c: int| 0 <= c < sig1.len() implies among(
                        sig2,
                        #[trigger] sig1[c],
                    ) by {
                        assert(ids_of(sig1)[c] == sig1[c].id);
                        assert(ids_of(sig1).to_set().contains(sig1[c].id));
                        assert(ids_of(sig2).to_set().contains(sig1[c].id));
                    }
                }
            }
        }
        if after.home(a) == after.home(b) {
            assert(i1 == i2);
        }
    }
}

/// One thing done to a scene.
pub enum Step {
    /// An actor is created from these components; a creation that is
    /// refused changes nothing.
    Create(Values),
    /// This actor is destroyed.
    Destroy(Actor),
}

impl SceneView {
    /// The scene after one step.
    pub open spec fn step(self, step: Step) -> SceneView {
        match step {
            Step::Create(values) => if self.create_error(values) is None {
                self.create(values)
            } else {
                self
            },
            Step::Destroy(actor) => self.destroy(actor),
        }
    }

    /// By how many a step changes the number of actors alive: a creation
    /// that is not refused adds one, the destruction of an actor that is
    /// alive takes one away, and nothing else changes it.
    pub open spec fn gain(self, step: Step) -> int {
        match step {
            Step::Create(values) => if self.create_error(values) is None {
                1
            } else {
                0
            },
            Step::Destroy(actor) => if self.contains(actor) {
                -1
            } else {
                0
            },
        }
    }

    /// The scene after the steps, one after the other.
    pub open spec fn after(self, steps: Seq<Step>) -> SceneView
        decreases steps.len(),
    {
        if steps.len() == 0 {
            self
        } else {
            self.after(steps.drop_last()).step(steps.last())
        }
    }

    /// By how many the steps, one after the other, change the number of
    /// actors alive.
    pub open spec fn gained(self, steps: Seq<Step>) -> int
        decreases steps.len(),
    {
        if steps.len() == 0 {
            0
        } else {
            self.gained(steps.drop_last()) + self.after(steps.drop_last()).gain(steps.last())
        }
    }

    /// The actors in one of the first `n` archetypes.
    pub open spec fn live_upto(self, n: int) -> Set<Actor>
        decreases n,
    {
        if n <= 0 {
            Set::empty()
        } else {
            self.live_upto(n - 1).union(self.archetypes[n - 1].live())
        }
    }

    /// The actors in the first archetypes are finitely many, and they are
    /// those that one of these archetypes holds.
    pub proof fn lemma_live_upto(self, n: int)
        requires
            self.wf(),
            0 <= n <= self.archetypes.len(),
        ensures
            self.live_upto(n).finite(),
            forall|actor: Actor|
                self.live_upto(n).contains(actor) <==> exists|i: int|
                    0 <= i < n && #[trigger] self.archetypes[i].contains(actor),
        decreases n,
    {
        if n > 0 {
            self.lemma_live_upto(n - 1);
            assert(self.archetypes[n - 1].wf());
            self.archetypes[n - 1].lemma_teardown();
            assert forall|actor: Actor|
                self.live_upto(n).contains(actor) <==> exists|i: int|
                    0 <= i < n && #[trigger] self.archetypes[i].contains(actor) by {
                if self.live_upto(n).contains(actor) {
                    if self.live_upto(n - 1).contains(actor) {
                        let i = choose|i: int|
                            0 <= i < n - 1 && #[trigger] self.archetypes[i].contains(actor);
                        assert(self.archetypes[i].contains(actor));
                    } else {
                        assert(self.archetypes[n - 1].contains(actor));
                    }
                }
                if exists|i: int| 0 <= i < n && #[trigger] self.archetypes[i].contains(actor) {
                    let i = choose|i: int| 0 <= i < n && #[trigger] self.archetypes[i].contains(actor);
                    if i < n - 1 {
                        assert(self.live_upto(n - 1).contains(actor));
                    } else {
                        assert(self.archetypes[n - 1].live().contains(actor));
                    }
                }
            }
        }
    }

    /// The actors alive are finitely many.
    pub proof fn lemma_live_finite(self)
        requires
            self.wf(),
        ensures
            self.live().finite(),
    {
        self.lemma_live_upto(self.archetypes.len() as int);
        self.lemma_live_whole();
    }

    /// The actors alive are those in one of the archetypes.
    pub proof fn lemma_live_whole(self)
        requires
            self.wf(),
        ensures
            self.live() == self.live_upto(self.archetypes.len() as int),
    {
        self.lemma_live_upto(self.archetypes.len() as int);
        assert(self.live() =~= self.live_upto(self.archetypes.len() as int)) by {
            assert forall|actor: Actor| self.live().contains(actor) implies self.live_upto(
                self.archetypes.len() as int,
            ).contains(actor) by {
                self.lemma_home_from(actor, 0);
                assert(self.archetypes[self.home(actor)].contains(actor));
            }
            assert forall|actor: Actor|
                self.live_upto(self.archetypes.len() as int).contains(actor) implies self.live().contains(
                actor,
            ) by {
                let i = choose|i: int|
                    0 <= i < self.archetypes.len() && #[trigger] self.archetypes[i].contains(actor);
                self.lemma_home(i, actor);
            }
        }
    }

    /// One step leaves the scene well formed, changes the number of actors
    /// alive by what it gains, and never takes back an identity.
    pub proof fn lemma_step(self, step: Step)
        requires
            self.wf(),
        ensures
            self.step(step).wf(),
            self.live().finite(),
            self.step(step).live().finite(),
            self.step(step).live().len() == self.live().len() + self.gain(step),
            self.step(step).created == self.created + if step is Create && self.gain(step) == 1 {
                1nat
            } else {
                0nat
            },
    {
        self.lemma_live_finite();
        match step {
            Step::Create(values) => {
                if self.create_error(values) is None {
                    self.lemma_create_wf(values);
                    self.lemma_create_live(values);
                }
            },
            Step::Destroy(actor) => {
                self.lemma_destroy_wf(actor);
                self.lemma_destroy(actor);
            },
        }
        self.step(step).lemma_live_finite();
    }

    /// Whatever is created and destroyed, in whatever order, the scene stays
    /// well formed and the number of actors alive is what it was, plus the
    /// creations that were not refused, minus the destructions of actors
    /// that were alive.
    pub proof fn lemma_live_count(self, steps: Seq<Step>)
        requires
            self.wf(),
        ensures
            self.after(steps).wf(),
            self.live().finite(),
            self.after(steps).live().finite(),
            self.after(steps).live().len() == self.live().len() + self.gained(steps),
            self.after(steps).created >= self.created,
        decreases steps.len(),
    {
        self.lemma_live_finite();
        if steps.len() > 0 {
            self.lemma_live_count(steps.drop_last());
            self.after(steps.drop_last()).lemma_step(steps.last());
        }
    }

    /// No identity is issued twice: of two creations that were not refused,
    /// the later gives an actor with a larger number than the earlier.
    pub proof fn lemma_never_twice(self, steps: Seq<Step>, earlier: int, later: int)
        requires
            self.wf(),
            0 <= earlier < later < steps.len(),
            steps[earlier] is Create,
            steps[later] is Create,
            self.after(steps.take(earlier)).gain(steps[earlier]) == 1,
            self.after(steps.take(later)).gain(steps[later]) == 1,
        ensures
            self.after(steps.take(earlier)).next_actor().id() < self.after(
                steps.take(later),
            ).next_actor().id(),
            self.after(steps.take(earlier)).next_actor() != self.after(
                steps.take(later),
            ).next_actor(),
    {
        let before = self.after(steps.take(earlier));
        let between = steps.take(later).skip(earlier + 1);
        self.lemma_live_count(steps.take(earlier));
        before.lemma_step(steps[earlier]);
        let middle = before.step(steps[earlier]);
        middle.lemma_live_count(between);
        self.lemma_after_split(steps.take(later), earlier + 1);
        assert(steps.take(later).take(earlier + 1) =~= steps.take(earlier + 1));
        assert(steps.take(earlier + 1).drop_last() =~= steps.take(earlier));
        assert(steps.take(earlier + 1).last() == steps[earlier]);
        self.lemma_live_count(steps.take(later));
        Actor::lemma_with_id(before.created + 1);
        Actor::lemma_with_id(self.after(steps.take(later)).created + 1);
    }

    /// Doing all the steps is doing the first of them and then the rest.
    pub proof fn lemma_after_split(self, steps: Seq<Step>, n: int)
        requires
            0 <= n <= steps.len(),
        ensures
            self.after(steps) == self.after(steps.take(n)).after(steps.skip(n)),
        decreases steps.len(),
    {
        if n == steps.len() {
            assert(steps.take(n) =~= steps);
            assert(steps.skip(n).len() == 0);
        } else {
            self.lemma_after_split(steps.drop_last(), n);
            assert(steps.drop_last().take(n) =~= steps.take(n));
            assert(steps.drop_last().skip(n) =~= steps.skip(n).drop_last());
            assert(steps.skip(n).last() == steps.last());
        }
    }

    /// What the first `n` archetypes owe when they are given up, one
    /// archetype after the other.
    pub open spec fn teardown_upto(self, n: int) -> Seq<(Actor, Values)>
        decreases n,
    {
        if n <= 0 {
            Seq::empty()
        } else {
            self.teardown_upto(n - 1) + self.archetypes[n - 1].teardown()
        }
    }

    /// What is owed when the scene itself is given up.
    pub open spec fn teardown(self) -> Seq<(Actor, Values)> {
        self.teardown_upto(self.archetypes.len() as int)
    }

    /// What the first `n` archetypes owe: each actor they hold is there once,
    /// with what its destruction would owe, and no one else is.
    pub proof fn lemma_teardown_upto(self, n: int)
        requires
            self.wf(),
            0 <= n <= self.archetypes.len(),
        ensures
            ArchetypeView::actors_of(self.teardown_upto(n)).no_duplicates(),
            forall|i: int|
                0 <= i < self.teardown_upto(n).len() ==> {
                    let (actor, values) = #[trigger] self.teardown_upto(n)[i];
                    &&& self.contains(actor)
                    &&& self.home(actor) < n
                    &&& values == self.dropped(actor)
                },
            forall|k: int, actor: Actor|
                0 <= k < n && #[trigger] self.archetypes[k].contains(actor)
                    ==> ArchetypeView::actors_of(self.teardown_upto(n)).contains(actor),
        decreases n,
    {
        if n > 0 {
            self.lemma_teardown_upto(n - 1);
            let last = self.archetypes[n - 1];
            assert(last.wf());
            last.lemma_teardown();
            let before = self.teardown_upto(n - 1);
            let part = last.teardown();
            let now = self.teardown_upto(n);
            let names = ArchetypeView::actors_of(now);
            assert(now == before + part);
            assert forall|i: int| 0 <= i < now.len() implies {
                let (actor, values) = #[trigger] now[i];
                &&& self.contains(actor)
                &&& self.home(actor) < n
                &&& self.home(actor) == n - 1 <==> i >= before.len()
                &&& values == self.dropped(actor)
            } by {
                if i < before.len() {
                    assert(now[i] == before[i]);
                } else {
                    let j = i - before.len();
                    assert(now[i] == part[j]);
                    let actor = part[j].0;
                    assert(ArchetypeView::actors_of(part)[j] == actor);
                    assert(ArchetypeView::actors_of(part).to_set().contains(actor));
                    assert(last.live().contains(actor));
                    self.lemma_home(n - 1, actor);
                }
            }
            assert forall|i: int, j: int| 0 <= i < j < names.len() implies names[i] != names[j] by {
                assert(names[i] == now[i].0 && names[j] == now[j].0);
                if j < before.len() {
                    assert(ArchetypeView::actors_of(before)[i] != ArchetypeView::actors_of(
                        before,
                    )[j]);
                } else if i >= before.len() {
                    assert(ArchetypeView::actors_of(part)[i - before.len()]
                        != ArchetypeView::actors_of(part)[j - before.len()]);
                }
            }
            assert forall|k: int, actor: Actor|
                0 <= k < n && #[trigger] self.archetypes[k].contains(actor) implies names.contains(
                actor,
            ) by {
                if k < n - 1 {
                    let i = choose|i: int|
                        0 <= i < before.len() && ArchetypeView::actors_of(before)[i] == actor;
                    assert(names[i] == actor);
                } else {
                    assert(last.live().contains(actor));
                    assert(ArchetypeView::actors_of(part).to_set().contains(actor));
                    let j = choose|j: int|
                        0 <= j < part.len() && ArchetypeView::actors_of(part)[j] == actor;
                    assert(names[before.len() + j] == actor);
                }
            }
        }
    }

    /// What is owed when the scene is given up: each actor that is alive is
    /// there once, with what its destruction would owe, and no one else is.
    pub proof fn lemma_teardown(self)
        requires
            self.wf(),
        ensures
            ArchetypeView::actors_of(self.teardown()).no_duplicates(),
            ArchetypeView::actors_of(self.teardown()).to_set() == self.live(),
            self.teardown().len() == self.live().len(),
            forall|i: int|
                0 <= i < self.teardown().len() ==> (#[trigger] self.teardown()[i]).1 == self.dropped(
                    self.teardown()[i].0,
                ),
    {
        let owed = self.teardown();
        let names = ArchetypeView::actors_of(owed);
        self.lemma_teardown_upto(self.archetypes.len() as int);
        assert(names.to_set() =~= self.live()) by {
            assert forall|actor: Actor| names.to_set().contains(actor) implies self.live().contains(
                actor,
            ) by {
                let i = choose|i: int| 0 <= i < names.len() && names[i] == actor;
                assert(owed[i].0 == actor);
            }
            assert forall|actor: Actor| self.live().contains(actor) implies names.to_set().contains(
                actor,
            ) by {
                self.lemma_home_from(actor, 0);
                assert(self.archetypes[self.home(actor)].contains(actor));
            }
        }
        names.unique_seq_to_set();
    }

    /// The actors in the first `n` archetypes are as many as the archetypes
    /// hold, one with another, and no more than were created.
    pub open spec fn held_upto(self, n: int) -> nat
        decreases n,
    {
        if n <= 0 {
            0
        } else {
            self.held_upto(n - 1) + self.archetypes[n - 1].live().len()
        }
    }

    /// No actor is counted twice: the archetypes hold, one with another, as
    /// many actors as are in them, and no more than were created.
    pub proof fn lemma_held_upto(self, n: int)
        requires
            self.wf(),
            0 <= n <= self.archetypes.len(),
        ensures
            self.held_upto(n) == self.live_upto(n).len(),
            self.live_upto(n).len() <= self.created,
        decreases n,
    {
        self.lemma_live_upto(n);
        if n > 0 {
            self.lemma_held_upto(n - 1);
            self.lemma_live_upto(n - 1);
            let last = self.archetypes[n - 1];
            assert(last.wf());
            last.lemma_teardown();
            assert(self.live_upto(n - 1).disjoint(last.live())) by {
                assert forall|actor: Actor|
                    !(self.live_upto(n - 1).contains(actor) && last.live().contains(actor)) by {
                    if self.live_upto(n - 1).contains(actor) && last.live().contains(actor) {
                        let i = choose|i: int|
                            0 <= i < n - 1 && #[trigger] self.archetypes[i].contains(actor);
                        assert(self.archetypes[i].contains(actor) && self.archetypes[n - 1].contains(
                            actor,
                        ));
                    }
                }
            }
            vstd::set_lib::lemma_set_disjoint_lens(self.live_upto(n - 1), last.live());
        }
        let numbers = vstd::set_lib::set_int_range(1, self.created as int + 1);
        let name = |i: int| Actor::with_id(i as nat);
        vstd::set_lib::lemma_int_range(1, self.created as int + 1);
        vstd::set_lib::lemma_map_size_bound(numbers, numbers.map(name), name);
        assert(self.live_upto(n).subset_of(numbers.map(name))) by {
            assert forall|actor: Actor| self.live_upto(n).contains(actor) implies numbers.map(
                name,
            ).contains(actor) by {
                let i = choose|i: int| 0 <= i < n && #[trigger] self.archetypes[i].contains(actor);
                assert(self.archetypes[i].contains(actor));
                actor.lemma_identity();
                assert(numbers.contains(actor.id() as int));
                assert(name(actor.id() as int) == actor);
            }
        }
        vstd::set_lib::lemma_len_subset(self.live_upto(n), numbers.map(name));
    }

    /// A component is as long as the column of its type asks, in the
    /// archetype that holds the actor.
    pub proof fn lemma_component_len(self, actor: Actor, ty: TypeInfo)
        requires
            self.wf(),
            self.component(actor, ty) is Some,
        ensures
            ({
                let home = self.archetypes[self.home(actor)];
                &&& 0 <= home.column_of(ty) < home.signature.len()
                &&& home.signature[home.column_of(ty)].id == ty.id
                &&& self.component(actor, ty).unwrap().len() == home.signature[home.column_of(
                    ty,
                )].size
            }),
    {
        self.lemma_home_from(actor, 0);
        let home = self.archetypes[self.home(actor)];
        assert(home.wf());
        home.lemma_component_len(actor, ty);
    }

    /// Replacing one value of an actor gives that one component the new
    /// value and leaves every other component of every actor as it was.
    pub proof fn lemma_with_component(self, actor: Actor, ty: TypeInfo, value: Seq<u8>)
        requires
            self.wf(),
            self.component(actor, ty) is Some,
        ensures
            self.with_component(actor, ty, value).component(actor, ty) == Some(value),
            forall|other: Actor| #[trigger]
                self.with_component(actor, ty, value).contains(other) == self.contains(other),
            forall|other: Actor, t: TypeInfo|
                other != actor || t.id != ty.id ==> #[trigger] self.with_component(
                    actor,
                    ty,
                    value,
                ).component(other, t) == self.component(other, t),
    {
        let at = self.home(actor);
        let after = self.with_component(actor, ty, value);
        self.lemma_home_from(actor, 0);
        assert(self.archetypes[at].wf());
        self.archetypes[at].lemma_with_component(actor, ty, value);
        assert forall|other: Actor| after.home(other) == self.home(other) by {
            self.lemma_same_homes(after, other, 0);
        }
        assert forall|other: Actor, t: TypeInfo|
            other != actor || t.id != ty.id implies #[trigger] after.component(other, t)
            == self.component(other, t) by {
            self.lemma_home_from(other, 0);
            if self.contains(other) && self.home(other) != at {
                assert(after.archetypes[self.home(other)] == self.archetypes[self.home(other)]);
            }
        }
    }

    /// Two scenes whose archetypes hold the same actors find every actor in
    /// the same archetype.
    pub proof fn lemma_same_homes(self, other: SceneView, actor: Actor, from: int)
        requires
            self.archetypes.len() == other.archetypes.len(),
            0 <= from,
            forall|i: int|
                0 <= i < self.archetypes.len() ==> (#[trigger] self.archetypes[i]).contains(actor)
                    == other.archetypes[i].contains(actor),
        ensures
            self.home_from(actor, from) == other.home_from(actor, from),
        decreases self.archetypes.len() - from,
    {
        if from < self.archetypes.len() {
            assert(self.archetypes[from].contains(actor) == other.archetypes[from].contains(actor));
            if !self.archetypes[from].contains(actor) {
                self.lemma_same_homes(other, actor, from + 1);
            }
        }
    }
}

} // verus!
