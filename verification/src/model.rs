//! What an archetype is, told without its bytes: a signature and a row of
//! slots, each free or held by one actor with one value per column.
//!
//! Every operation of an archetype is a function on this value. The
//! executable archetype is proved to follow it; what holds of the store for
//! all inputs is proved here.

use crate::actor::Actor;
use crate::error::StoreError;
use crate::layout::{all_valid, fits};
use crate::type_info::{
    among, distinct, ids_of, lemma_among, lemma_place_of, place_of, TypeInfo,
};
use vstd::prelude::*;

verus! {

/// Component values as they are handed over: each with its descriptor.
pub type Values = Seq<(TypeInfo, Seq<u8>)>;

/// The descriptors of `values`, in their order.
pub open spec fn types_of(values: Values) -> Seq<TypeInfo> {
    Seq::new(values.len(), |j: int| values[j].0)
}

/// What `values` look like as plain sequences.
pub open spec fn values_view(values: Seq<(TypeInfo, Vec<u8>)>) -> Values {
    Seq::new(values.len(), |j: int| (values[j].0, values[j].1@))
}

/// What is owed at a teardown, as plain sequences.
pub open spec fn owed_view(owed: Seq<(Actor, Vec<(TypeInfo, Vec<u8>)>)>) -> Seq<(Actor, Values)> {
    Seq::new(owed.len(), |i: int| (owed[i].0, values_view(owed[i].1@)))
}

/// Whether each of `values` is as long as its descriptor says.
pub open spec fn well_sized(values: Values) -> bool {
    forall|j: int| 0 <= j < values.len() ==> (#[trigger] values[j]).1.len() == values[j].0.size
}

/// Of the first `n` columns of a row, those whose type has a destructor,
/// each with its value, in the order of the columns.
pub open spec fn drops(sig: Seq<TypeInfo>, row: Seq<Seq<u8>>, n: int) -> Values
    decreases n,
{
    if n <= 0 {
        Seq::empty()
    } else if sig[n - 1].needs_drop {
        drops(sig, row, n - 1).push((sig[n - 1], row[n - 1]))
    } else {
        drops(sig, row, n - 1)
    }
}

/// Of two lists of distinct types that are equally long, if every type of
/// the first is among the second then every type of the second is among the
/// first.
pub proof fn lemma_same_types(types: Seq<TypeInfo>, sig: Seq<TypeInfo>)
    requires
        distinct(types),
        distinct(sig),
        types.len() == sig.len(),
        forall|j: int| 0 <= j < types.len() ==> among(sig, #[trigger] types[j]),
    ensures
        forall|c: int| 0 <= c < sig.len() ==> among(types, #[trigger] sig[c]),
        ids_of(types).to_set() == ids_of(sig).to_set(),
{
    let a = ids_of(types);
    let b = ids_of(sig);
    a.unique_seq_to_set();
    b.unique_seq_to_set();
    assert(a.to_set().subset_of(b.to_set())) by {
        assert forall|id: u64| a.to_set().contains(id) implies b.to_set().contains(id) by {
            let j = choose|j: int| 0 <= j < a.len() && a[j] == id;
            assert(among(sig, types[j]));
        }
    }
    vstd::set_lib::lemma_subset_equality(a.to_set(), b.to_set());
    assert forall|c: int| 0 <= c < sig.len() implies among(types, #[trigger] sig[c]) by {
        assert(b[c] == sig[c].id);
        assert(b.to_set().contains(sig[c].id));
        assert(a.to_set().contains(sig[c].id));
    }
}

/// Why no archetype with room for `capacity` actors and the columns `sig`
/// can be made, if none can.
pub open spec fn new_error(capacity: nat, sig: Seq<TypeInfo>) -> Option<StoreError> {
    if capacity == 0 {
        Some(StoreError::ZeroCapacity)
    } else if !all_valid(sig) {
        Some(StoreError::InvalidType)
    } else if !distinct(sig) {
        Some(StoreError::DuplicateComponentType)
    } else if !fits(sig, capacity) {
        Some(StoreError::BlockTooLarge)
    } else {
        None
    }
}

/// An occupied slot: the actor that holds it and its value in each column.
#[verifier::ext_equal]
pub struct Row {
    pub actor: Actor,
    pub values: Seq<Seq<u8>>,
}

/// An archetype without its bytes.
#[verifier::ext_equal]
pub struct ArchetypeView {
    /// The component types, one per column.
    pub signature: Seq<TypeInfo>,
    /// The slots, in order: `None` where a slot is free.
    pub slots: Seq<Option<Row>>,
}

impl ArchetypeView {
    /// The number of slots.
    pub open spec fn capacity(self) -> nat {
        self.slots.len()
    }

    /// Whether `actor` holds slot `slot`.
    pub open spec fn holds(self, slot: int, actor: Actor) -> bool {
        &&& 0 <= slot < self.slots.len()
        &&& self.slots[slot] matches Some(row)
        &&& row.actor == actor
    }

    /// Whether `actor` holds a slot.
    pub open spec fn contains(self, actor: Actor) -> bool {
        exists|slot: int| self.holds(slot, actor)
    }

    /// The slot that `actor` holds.
    pub open spec fn slot_of(self, actor: Actor) -> int {
        choose|slot: int| self.holds(slot, actor)
    }

    /// The actors that hold a slot.
    pub open spec fn live(self) -> Set<Actor> {
        Set::new(|actor: Actor| self.contains(actor))
    }

    /// Whether a row has one value per column, each of its type's size.
    pub open spec fn row_fits(self, values: Seq<Seq<u8>>) -> bool {
        &&& values.len() == self.signature.len()
        &&& forall|c: int|
            0 <= c < values.len() ==> (#[trigger] values[c]).len() == self.signature[c].size
    }

    /// What must hold of an archetype at all times: it has room for an
    /// actor, no type heads two columns, its block can be laid out, every
    /// row fits the signature, and no actor holds two slots.
    pub open spec fn wf(self) -> bool {
        &&& self.slots.len() > 0
        &&& distinct(self.signature)
        &&& all_valid(self.signature)
        &&& fits(self.signature, self.capacity())
        &&& forall|s: int|
            0 <= s < self.slots.len() ==> ((#[trigger] self.slots[s]) matches Some(row)
                ==> self.row_fits(row.values))
        &&& forall|s: int, t: int|
            0 <= s < t < self.slots.len() ==> ((#[trigger] self.slots[s]) matches Some(a) ==> ((
            #[trigger] self.slots[t]) matches Some(b) ==> a.actor != b.actor))
    }

    /// The lowest free slot at or after `from`, and the capacity where none
    /// is free.
    pub open spec fn first_free_from(self, from: int) -> int
        decreases self.slots.len() - from,
    {
        if from >= self.slots.len() {
            self.slots.len() as int
        } else if self.slots[from] is None {
            from
        } else {
            self.first_free_from(from + 1)
        }
    }

    /// The lowest free slot, and the capacity where none is free.
    pub open spec fn first_free(self) -> int {
        self.first_free_from(0)
    }

    /// Whether the type `ty` heads a column: whether a column's descriptor
    /// has its identity.
    pub open spec fn has_type(self, ty: TypeInfo) -> bool {
        among(self.signature, ty)
    }

    /// The column that the type `ty` heads.
    pub open spec fn column_of(self, ty: TypeInfo) -> int {
        place_of(self.signature, ty)
    }

    /// Whether `types` are as many as the columns and each heads one.
    pub open spec fn has_types(self, types: Seq<TypeInfo>) -> bool {
        &&& types.len() == self.signature.len()
        &&& forall|j: int| 0 <= j < types.len() ==> among(self.signature, #[trigger] types[j])
    }

    /// Whether each of `values` is as long as the column of its type asks.
    pub open spec fn takes(self, values: Values) -> bool {
        forall|j: int|
            0 <= j < values.len() ==> (#[trigger] values[j]).1.len() == self.signature[self.column_of(
                values[j].0,
            )].size
    }

    /// The value that `actor` has of type `ty`: none where the actor holds
    /// no slot here or no column has that type.
    pub open spec fn component(self, actor: Actor, ty: TypeInfo) -> Option<Seq<u8>> {
        if self.contains(actor) && self.has_type(ty) {
            Some(self.slots[self.slot_of(actor)].unwrap().values[self.column_of(ty)])
        } else {
            None
        }
    }

    /// The row that `values` make: for each column, the value of its type.
    pub open spec fn row_of(self, values: Values) -> Seq<Seq<u8>> {
        Seq::new(
            self.signature.len(),
            |c: int| values[place_of(types_of(values), self.signature[c])].1,
        )
    }

    /// The slots with `actor` taken out of whichever it held.
    pub open spec fn without(slots: Seq<Option<Row>>, actor: Actor) -> Seq<Option<Row>> {
        Seq::new(
            slots.len(),
            |s: int|
                match slots[s] {
                    Some(row) => if row.actor == actor {
                        None
                    } else {
                        Some(row)
                    },
                    None => None,
                },
        )
    }

    /// Twice the slots: the old ones as they are, then as many free ones.
    pub open spec fn grown(self) -> ArchetypeView {
        ArchetypeView {
            signature: self.signature,
            slots: self.slots + Seq::new(self.slots.len(), |s: int| None::<Row>),
        }
    }

    /// Why an actor with `values` cannot be created here, if it cannot.
    pub open spec fn create_error(self, values: Values) -> Option<StoreError> {
        if !distinct(types_of(values)) {
            Some(StoreError::DuplicateComponentType)
        } else if !(self.has_types(types_of(values)) && self.takes(values)) {
            Some(StoreError::BundleMismatch)
        } else if self.first_free() == self.capacity() && !fits(
            self.signature,
            2 * self.capacity(),
        ) {
            Some(StoreError::BlockTooLarge)
        } else {
            None
        }
    }

    /// The archetype after `actor` was created with `values`.
    ///
    /// The actor, which held no slot here, takes the lowest free slot.
    /// Where none is free the capacity doubles first, and the actor takes
    /// the first new slot.
    pub open spec fn create(self, actor: Actor, values: Values) -> ArchetypeView {
        let slot = self.first_free();
        let room = if slot < self.capacity() {
            self
        } else {
            self.grown()
        };
        ArchetypeView {
            signature: self.signature,
            slots: room.slots.update(slot, Some(Row { actor, values: self.row_of(values) })),
        }
    }

    /// The archetype after `actor` was destroyed.
    pub open spec fn destroy(self, actor: Actor) -> ArchetypeView {
        ArchetypeView { signature: self.signature, slots: Self::without(self.slots, actor) }
    }

    /// The values whose destructors are owed when `actor` is destroyed.
    pub open spec fn dropped(self, actor: Actor) -> Values {
        if self.contains(actor) {
            drops(
                self.signature,
                self.slots[self.slot_of(actor)].unwrap().values,
                self.signature.len() as int,
            )
        } else {
            Seq::empty()
        }
    }

    /// For each of the first `n` slots that is held, its actor and the values
    /// whose destructors are owed, in the order of the slots.
    pub open spec fn teardown_upto(self, n: int) -> Seq<(Actor, Values)>
        decreases n,
    {
        if n <= 0 {
            Seq::empty()
        } else {
            match self.slots[n - 1] {
                Some(row) => self.teardown_upto(n - 1).push(
                    (row.actor, drops(self.signature, row.values, self.signature.len() as int)),
                ),
                None => self.teardown_upto(n - 1),
            }
        }
    }

    /// What is owed when the archetype itself is given up.
    pub open spec fn teardown(self) -> Seq<(Actor, Values)> {
        self.teardown_upto(self.slots.len() as int)
    }

    /// The archetype with the value that `actor` has of type `ty` replaced.
    pub open spec fn with_component(self, actor: Actor, ty: TypeInfo, value: Seq<u8>)
        -> ArchetypeView {
        let slot = self.slot_of(actor);
        let row = self.slots[slot].unwrap();
        ArchetypeView {
            signature: self.signature,
            slots: self.slots.update(
                slot,
                Some(
                    Row {
                        actor,
                        values: row.values.update(self.column_of(ty), value),
                    },
                ),
            ),
        }
    }
}

/// The values owed for a row are those of the columns whose type has a
/// destructor: each such column gives its value once, no other column gives
/// any, and they come in the order of the columns.
pub proof fn lemma_drops(sig: Seq<TypeInfo>, row: Seq<Seq<u8>>, n: int)
    requires
        0 <= n <= sig.len(),
        sig.len() == row.len(),
        distinct(sig),
    ensures
        drops(sig, row, n).len() <= n,
        forall|c: int|
            0 <= c < n && (#[trigger] sig[c]).needs_drop ==> drops(sig, row, n).contains(
                (sig[c], row[c]),
            ),
        forall|i: int|
            0 <= i < drops(sig, row, n).len() ==> {
                let (ty, value) = #[trigger] drops(sig, row, n)[i];
                &&& ty.needs_drop
                &&& among(sig, ty)
                &&& place_of(sig, ty) < n
                &&& ty == sig[place_of(sig, ty)]
                &&& value == row[place_of(sig, ty)]
            },
        distinct(types_of(drops(sig, row, n))),
    decreases n,
{
    if n > 0 {
        lemma_drops(sig, row, n - 1);
        let before = drops(sig, row, n - 1);
        let now = drops(sig, row, n);
        if sig[n - 1].needs_drop {
            let last = (sig[n - 1], row[n - 1]);
            assert(now == before.push(last));
            assert(now[before.len() as int] == last);
            lemma_among(sig, n - 1);
            assert forall|c: int| 0 <= c < n && (#[trigger] sig[c]).needs_drop implies now.contains(
                (sig[c], row[c]),
            ) by {
                if c < n - 1 {
                    let i = choose|i: int| 0 <= i < before.len() && before[i] == (sig[c], row[c]);
                    assert(now[i] == (sig[c], row[c]));
                }
            }
            assert forall|i: int| 0 <= i < now.len() implies {
                let (ty, value) = #[trigger] now[i];
                &&& ty.needs_drop
                &&& among(sig, ty)
                &&& place_of(sig, ty) < n
                &&& ty == sig[place_of(sig, ty)]
                &&& value == row[place_of(sig, ty)]
            } by {
                if i < before.len() {
                    assert(now[i] == before[i]);
                }
            }
            let ids = ids_of(types_of(now));
            assert forall|i: int, j: int| 0 <= i < j < ids.len() implies ids[i] != ids[j] by {
                assert(ids[i] == now[i].0.id && ids[j] == now[j].0.id);
                if j < before.len() {
                    assert(ids_of(types_of(before))[i] != ids_of(types_of(before))[j]);
                    assert(now[i] == before[i] && now[j] == before[j]);
                } else {
                    assert(now[i] == before[i]);
                    let c = place_of(sig, before[i].0);
                    assert(c < n - 1);
                    assert(ids_of(sig)[c] != ids_of(sig)[n - 1]);
                }
            }
        }
    }
}

impl ArchetypeView {
    /// The lowest free slot is free, and every slot below it is held.
    pub proof fn lemma_first_free_from(self, from: int)
        requires
            0 <= from <= self.slots.len(),
        ensures
            from <= self.first_free_from(from) <= self.slots.len(),
            self.first_free_from(from) < self.slots.len() ==> self.slots[self.first_free_from(
                from,
            )] is None,
            forall|s: int| from <= s < self.first_free_from(from) ==> (#[trigger] self.slots[s]) is Some,
        decreases self.slots.len() - from,
    {
        if from < self.slots.len() && self.slots[from] is Some {
            self.lemma_first_free_from(from + 1);
        }
    }

    /// The lowest free slot is free, and every slot below it is held.
    pub proof fn lemma_first_free(self)
        ensures
            0 <= self.first_free() <= self.capacity(),
            self.first_free() < self.capacity() ==> self.slots[self.first_free()] is None,
            forall|s: int| 0 <= s < self.first_free() ==> (#[trigger] self.slots[s]) is Some,
    {
        self.lemma_first_free_from(0);
    }

    /// An actor holds one slot at most, so the slot it holds is the one it
    /// is found in.
    pub proof fn lemma_slot_of(self, slot: int, actor: Actor)
        requires
            self.wf(),
            self.holds(slot, actor),
        ensures
            self.contains(actor),
            self.slot_of(actor) == slot,
    {
        let found = self.slot_of(actor);
        assert(self.holds(found, actor));
        if found < slot {
            assert(self.slots[found] is Some && self.slots[slot] is Some);
        } else if slot < found {
            assert(self.slots[slot] is Some && self.slots[found] is Some);
        }
    }

    /// In a signature of distinct types a type heads one column at most.
    pub proof fn lemma_column_of(self, col: int)
        requires
            distinct(self.signature),
            0 <= col < self.signature.len(),
        ensures
            self.has_type(self.signature[col]),
            self.column_of(self.signature[col]) == col,
    {
        lemma_among(self.signature, col);
    }

    /// A type that heads a column heads the one that `column_of` says, and
    /// that column's descriptor has its identity.
    pub proof fn lemma_has_type(self, ty: TypeInfo)
        requires
            self.has_type(ty),
        ensures
            0 <= self.column_of(ty) < self.signature.len(),
            self.signature[self.column_of(ty)].id == ty.id,
    {
        lemma_place_of(self.signature, ty);
    }

    /// Who holds which slot after a creation: the new actor holds the slot
    /// it was given, and every other slot is as it was.
    pub proof fn lemma_create_holds(self, actor: Actor, values: Values)
        requires
            self.wf(),
            self.create_error(values) is None,
        ensures
            self.create(actor, values).signature == self.signature,
            self.create(actor, values).capacity() == if self.first_free() < self.capacity() {
                self.capacity()
            } else {
                2 * self.capacity()
            },
            0 <= self.first_free() < self.create(actor, values).capacity(),
            self.create(actor, values).slots[self.first_free()] == Some(
                Row { actor, values: self.row_of(values) },
            ),
            forall|s: int|
                0 <= s < self.create(actor, values).capacity() && s != self.first_free() ==> (
                #[trigger] self.create(actor, values).slots[s]) == (if s < self.capacity() {
                    self.slots[s]
                } else {
                    None
                }),
    {
        self.lemma_first_free();
    }

    /// A creation that is not refused leaves the archetype well formed.
    pub proof fn lemma_create_wf(self, actor: Actor, values: Values)
        requires
            self.wf(),
            self.create_error(values) is None,
            !self.contains(actor),
        ensures
            self.create(actor, values).wf(),
            self.create(actor, values).row_fits(self.row_of(values)),
    {
        let after = self.create(actor, values);
        let slot = self.first_free();
        self.lemma_first_free();
        self.lemma_create_holds(actor, values);
        self.lemma_row_of(values);
        assert forall|s: int| 0 <= s < after.slots.len() implies ((
        #[trigger] after.slots[s]) matches Some(row) ==> after.row_fits(row.values)) by {
            if s != slot && s < self.capacity() {
                assert(self.slots[s] matches Some(row) ==> self.row_fits(row.values));
            }
        }
        assert forall|s: int, t: int| 0 <= s < t < after.slots.len() implies ((
        #[trigger] after.slots[s]) matches Some(a) ==> ((#[trigger] after.slots[t]) matches Some(b)
            ==> a.actor != b.actor)) by {
            if after.slots[s] is Some && after.slots[t] is Some {
                if s != slot && t != slot {
                    assert(self.slots[s] is Some && self.slots[t] is Some);
                } else if s == slot {
                    assert(!self.holds(t, actor));
                } else {
                    assert(!self.holds(s, actor));
                }
            }
        }
    }

    /// The row made of values that the archetype accepts holds, in each
    /// column, the one value of that column's type.
    pub proof fn lemma_row_of(self, values: Values)
        requires
            distinct(self.signature),
            distinct(types_of(values)),
            self.has_types(types_of(values)),
            self.takes(values),
        ensures
            self.row_fits(self.row_of(values)),
            forall|j: int|
                0 <= j < values.len() ==> {
                    &&& self.has_type((#[trigger] values[j]).0)
                    &&& self.row_of(values)[self.column_of(values[j].0)] == values[j].1
                },
    {
        let types = types_of(values);
        let row = self.row_of(values);
        lemma_same_types(types, self.signature);
        assert forall|c: int| 0 <= c < row.len() implies (#[trigger] row[c]).len()
            == self.signature[c].size by {
            let j = place_of(types, self.signature[c]);
            assert(among(types, self.signature[c]));
            lemma_place_of(types, self.signature[c]);
            assert(types[j] == values[j].0);
            assert(among(self.signature, types[j]));
            lemma_place_of(self.signature, values[j].0);
            assert(self.column_of(values[j].0) == c);
            assert(values[j].1.len() == self.signature[c].size);
        }
        assert forall|j: int| 0 <= j < values.len() implies {
            &&& self.has_type((#[trigger] values[j]).0)
            &&& row[self.column_of(values[j].0)] == values[j].1
        } by {
            assert(among(self.signature, types[j]));
            lemma_place_of(self.signature, values[j].0);
            let c = self.column_of(values[j].0);
            assert(among(types, self.signature[c]));
            lemma_place_of(types, self.signature[c]);
            let k = place_of(types, self.signature[c]);
            assert(types[j].id == self.signature[c].id);
            assert(k == j);
        }
    }

    /// After a creation the new actor has each value it was created with,
    /// and none of any other type.
    pub proof fn lemma_create_components(self, actor: Actor, values: Values)
        requires
            self.wf(),
            self.create_error(values) is None,
            !self.contains(actor),
        ensures
            self.create(actor, values).contains(actor),
            forall|j: int|
                0 <= j < values.len() ==> self.create(actor, values).component(
                    actor,
                    (#[trigger] values[j]).0,
                ) == Some(values[j].1),
            forall|ty: TypeInfo|
                !among(types_of(values), ty) ==> #[trigger] self.create(actor, values).component(
                    actor,
                    ty,
                ) is None,
    {
        let after = self.create(actor, values);
        let slot = self.first_free();
        self.lemma_create_holds(actor, values);
        self.lemma_create_wf(actor, values);
        self.lemma_row_of(values);
        assert(after.holds(slot, actor));
        after.lemma_slot_of(slot, actor);
        lemma_same_types(types_of(values), self.signature);
        assert forall|ty: TypeInfo| !among(types_of(values), ty) implies #[trigger] after.component(
            actor,
            ty,
        ) is None by {
            if among(self.signature, ty) {
                lemma_place_of(self.signature, ty);
                let c = place_of(self.signature, ty);
                assert(among(types_of(values), self.signature[c]));
                lemma_place_of(types_of(values), self.signature[c]);
                let j = place_of(types_of(values), self.signature[c]);
                assert(ids_of(types_of(values))[j] == ty.id);
            }
        }
    }

    /// A creation leaves every other actor where it was and with the values
    /// it had, whether or not the capacity had to double.
    pub proof fn lemma_create_keeps_others(self, actor: Actor, values: Values, other: Actor)
        requires
            self.wf(),
            self.create_error(values) is None,
            !self.contains(actor),
            other != actor,
        ensures
            self.create(actor, values).contains(other) == self.contains(other),
            self.contains(other) ==> self.create(actor, values).slot_of(other) == self.slot_of(
                other,
            ),
            forall|ty: TypeInfo| #[trigger]
                self.create(actor, values).component(other, ty) == self.component(other, ty),
    {
        let after = self.create(actor, values);
        let slot = self.first_free();
        self.lemma_first_free();
        self.lemma_create_holds(actor, values);
        self.lemma_create_wf(actor, values);
        if self.contains(other) {
            let s = self.slot_of(other);
            assert(self.holds(s, other));
            assert(after.holds(s, other));
            after.lemma_slot_of(s, other);
        }
        if after.contains(other) {
            let s = after.slot_of(other);
            assert(after.holds(s, other));
            assert(self.holds(s, other));
        }
    }

    /// A creation in an archetype with no free slot doubles the capacity and
    /// gives the new actor the first new slot; every actor that was there
    /// keeps its slot and, of every type, the value it had.
    pub proof fn lemma_create_grows(self, actor: Actor, values: Values)
        requires
            self.wf(),
            self.create_error(values) is None,
            !self.contains(actor),
            self.first_free() == self.capacity(),
        ensures
            self.create(actor, values).capacity() == 2 * self.capacity(),
            self.create(actor, values).contains(actor),
            self.create(actor, values).slot_of(actor) == self.capacity(),
            forall|other: Actor| #[trigger]
                self.contains(other) ==> {
                    &&& self.create(actor, values).contains(other)
                    &&& self.create(actor, values).slot_of(other) == self.slot_of(other)
                },
            forall|other: Actor, ty: TypeInfo|
                self.contains(other) ==> #[trigger] self.create(actor, values).component(other, ty)
                    == self.component(other, ty),
    {
        let after = self.create(actor, values);
        self.lemma_create_holds(actor, values);
        self.lemma_create_wf(actor, values);
        assert(after.holds(self.capacity() as int, actor));
        after.lemma_slot_of(self.capacity() as int, actor);
        assert forall|other: Actor| #[trigger] self.contains(other) implies {
            &&& after.contains(other)
            &&& after.slot_of(other) == self.slot_of(other)
            &&& forall|ty: TypeInfo| #[trigger]
                after.component(other, ty) == self.component(other, ty)
        } by {
            self.lemma_create_keeps_others(actor, values, other);
        }
    }

    /// Doubling the capacity leaves every actor where it was and with the
    /// values it had.
    pub proof fn lemma_grown_keeps(self, actor: Actor)
        requires
            self.wf(),
        ensures
            self.grown().capacity() == 2 * self.capacity(),
            self.grown().contains(actor) == self.contains(actor),
            self.contains(actor) ==> self.grown().slot_of(actor) == self.slot_of(actor),
            forall|ty: TypeInfo| #[trigger]
                self.grown().component(actor, ty) == self.component(actor, ty),
    {
        let after = self.grown();
        if self.contains(actor) {
            let s = self.slot_of(actor);
            assert(self.holds(s, actor));
            assert(after.holds(s, actor));
            let t = after.slot_of(actor);
            assert(after.holds(t, actor));
            assert(self.holds(t, actor));
            self.lemma_slot_of(t, actor);
        }
        if after.contains(actor) {
            let s = after.slot_of(actor);
            assert(after.holds(s, actor));
            assert(self.holds(s, actor));
        }
    }

    /// After a creation the actors here are those that were here and the
    /// new one.
    pub proof fn lemma_create_live(self, actor: Actor, values: Values)
        requires
            self.wf(),
            self.create_error(values) is None,
            !self.contains(actor),
        ensures
            self.create(actor, values).live() == self.live().insert(actor),
    {
        let after = self.create(actor, values);
        self.lemma_create_components(actor, values);
        assert forall|other: Actor| after.live().contains(other) == self.live().insert(
            actor,
        ).contains(other) by {
            if other != actor {
                self.lemma_create_keeps_others(actor, values, other);
            }
        }
        assert(after.live() =~= self.live().insert(actor));
    }

    /// A destruction takes the actor out and leaves every other actor where
    /// it was and with the values it had.
    pub proof fn lemma_destroy(self, actor: Actor)
        requires
            self.wf(),
        ensures
            self.destroy(actor).wf(),
            self.destroy(actor).signature == self.signature,
            self.destroy(actor).capacity() == self.capacity(),
            !self.destroy(actor).contains(actor),
            self.destroy(actor).live() == self.live().remove(actor),
            forall|other: Actor, ty: TypeInfo|
                other != actor ==> #[trigger] self.destroy(actor).component(other, ty)
                    == self.component(other, ty),
    {
        let after = self.destroy(actor);
        assert forall|s: int| 0 <= s < after.slots.len() implies ((
        #[trigger] after.slots[s]) matches Some(row) ==> after.row_fits(row.values)) by {
            assert(self.slots[s] matches Some(row) ==> self.row_fits(row.values));
        }
        assert forall|s: int, t: int| 0 <= s < t < after.slots.len() implies ((
        #[trigger] after.slots[s]) matches Some(a) ==> ((#[trigger] after.slots[t]) matches Some(b)
            ==> a.actor != b.actor)) by {
            if after.slots[s] is Some && after.slots[t] is Some {
                assert(self.slots[s] is Some && self.slots[t] is Some);
            }
        }
        assert forall|other: Actor| other != actor implies after.contains(other) == self.contains(
            other,
        ) && (self.contains(other) ==> after.slot_of(other) == self.slot_of(other)) by {
            if self.contains(other) {
                let s = self.slot_of(other);
                assert(self.holds(s, other));
                assert(after.holds(s, other));
                after.lemma_slot_of(s, other);
            }
            if after.contains(other) {
                let s = after.slot_of(other);
                assert(after.holds(s, other));
                assert(self.holds(s, other));
            }
        }
        assert(!after.contains(actor)) by {
            if after.contains(actor) {
                let s = after.slot_of(actor);
                assert(after.holds(s, actor));
            }
        }
        assert(after.live() =~= self.live().remove(actor));
    }

    /// Destroying an actor owes the destructor of each of its values that
    /// has one, once; destroying it again owes nothing and changes nothing,
    /// and so does destroying an actor that holds no slot here.
    pub proof fn lemma_destroy_once(self, actor: Actor)
        requires
            self.wf(),
        ensures
            distinct(types_of(self.dropped(actor))),
            forall|ty: TypeInfo|
                self.signature.contains(ty) && ty.needs_drop && self.contains(actor)
                    ==> self.dropped(actor).contains(
                    (ty, #[trigger] self.component(actor, ty).unwrap()),
                ),
            forall|i: int|
                0 <= i < self.dropped(actor).len() ==> {
                    let (ty, value) = #[trigger] self.dropped(actor)[i];
                    &&& ty.needs_drop
                    &&& self.signature.contains(ty)
                    &&& self.component(actor, ty) == Some(value)
                },
            !self.contains(actor) ==> self.destroy(actor) == self && self.dropped(actor).len() == 0,
            self.destroy(actor).dropped(actor).len() == 0,
            self.destroy(actor).destroy(actor) == self.destroy(actor),
    {
        self.lemma_destroy(actor);
        let after = self.destroy(actor);
        assert(after.destroy(actor).slots =~= after.slots);
        if self.contains(actor) {
            let s = self.slot_of(actor);
            assert(self.holds(s, actor));
            let row = self.slots[s].unwrap().values;
            assert(self.row_fits(row));
            lemma_drops(self.signature, row, self.signature.len() as int);
            assert forall|ty: TypeInfo|
                self.signature.contains(ty) && ty.needs_drop && self.contains(actor) implies self.dropped(
                actor,
            ).contains((ty, #[trigger] self.component(actor, ty).unwrap())) by {
                let c = self.signature.index_of(ty);
                assert(self.signature[c] == ty);
                self.lemma_column_of(c);
            }
            assert forall|i: int| 0 <= i < self.dropped(actor).len() implies {
                let (ty, value) = #[trigger] self.dropped(actor)[i];
                &&& ty.needs_drop
                &&& self.signature.contains(ty)
                &&& self.component(actor, ty) == Some(value)
            } by {
                let (ty, value) = self.dropped(actor)[i];
                assert(ty == self.signature[place_of(self.signature, ty)]);
            }
        } else {
            assert forall|s: int| 0 <= s < self.slots.len() implies Self::without(
                self.slots,
                actor,
            )[s] == self.slots[s] by {
                if let Some(row) = self.slots[s] {
                    if row.actor == actor {
                        assert(self.holds(s, actor));
                    }
                }
            }
            assert(self.destroy(actor).slots =~= self.slots);
            assert(ids_of(types_of(self.dropped(actor))) =~= Seq::<u64>::empty());
        }
    }

    /// The actors of what is owed, in their order.
    pub open spec fn actors_of(owed: Seq<(Actor, Values)>) -> Seq<Actor> {
        Seq::new(owed.len(), |i: int| owed[i].0)
    }

    /// What is owed for the first `n` slots: each actor that holds one of
    /// them is there with what its destruction would owe, and they come in
    /// the order of their slots.
    pub proof fn lemma_teardown_upto(self, n: int)
        requires
            self.wf(),
            0 <= n <= self.slots.len(),
        ensures
            forall|i: int|
                0 <= i < self.teardown_upto(n).len() ==> {
                    let (actor, values) = #[trigger] self.teardown_upto(n)[i];
                    &&& self.contains(actor)
                    &&& self.slot_of(actor) < n
                    &&& values == self.dropped(actor)
                },
            forall|i: int, j: int|
                0 <= i < j < self.teardown_upto(n).len() ==> self.slot_of(
                    (#[trigger] self.teardown_upto(n)[i]).0,
                ) < self.slot_of((#[trigger] self.teardown_upto(n)[j]).0),
            forall|s: int|
                0 <= s < n ==> ((#[trigger] self.slots[s]) matches Some(row) ==> Self::actors_of(
                    self.teardown_upto(n),
                ).contains(row.actor)),
        decreases n,
    {
        if n > 0 {
            self.lemma_teardown_upto(n - 1);
            let before = self.teardown_upto(n - 1);
            let now = self.teardown_upto(n);
            match self.slots[n - 1] {
                Some(row) => {
                    assert(self.holds(n - 1, row.actor));
                    self.lemma_slot_of(n - 1, row.actor);
                    let last = (row.actor, self.dropped(row.actor));
                    assert(now == before.push(last));
                    assert forall|i: int| 0 <= i < now.len() implies {
                        let (actor, values) = #[trigger] now[i];
                        &&& self.contains(actor)
                        &&& self.slot_of(actor) < n
                        &&& values == self.dropped(actor)
                    } by {
                        if i < before.len() {
                            assert(now[i] == before[i]);
                        }
                    }
                    assert forall|i: int, j: int| 0 <= i < j < now.len() implies self.slot_of(
                        (#[trigger] now[i]).0,
                    ) < self.slot_of((#[trigger] now[j]).0) by {
                        assert(now[i] == before[i]);
                        if j < before.len() {
                            assert(now[j] == before[j]);
                        }
                    }
                    assert forall|s: int| 0 <= s < n implies ((
                    #[trigger] self.slots[s]) matches Some(held) ==> Self::actors_of(now).contains(
                        held.actor,
                    )) by {
                        if let Some(held) = self.slots[s] {
                            if s < n - 1 {
                                let i = choose|i: int|
                                    0 <= i < before.len() && Self::actors_of(before)[i] == held.actor;
                                assert(Self::actors_of(now)[i] == held.actor);
                            } else {
                                assert(Self::actors_of(now)[before.len() as int] == held.actor);
                            }
                        }
                    }
                },
                None => {},
            }
        }
    }

    /// What is owed when the archetype is given up: each actor that holds a
    /// slot is there once, with what its destruction would owe, and no one
    /// else is.
    pub proof fn lemma_teardown(self)
        requires
            self.wf(),
        ensures
            Self::actors_of(self.teardown()).no_duplicates(),
            Self::actors_of(self.teardown()).to_set() == self.live(),
            self.teardown().len() == self.live().len(),
            self.live().finite(),
            forall|i: int|
                0 <= i < self.teardown().len() ==> (#[trigger] self.teardown()[i]).1 == self.dropped(
                    self.teardown()[i].0,
                ),
    {
        let owed = self.teardown();
        let actors = Self::actors_of(owed);
        self.lemma_teardown_upto(self.slots.len() as int);
        assert forall|i: int, j: int| 0 <= i < j < actors.len() implies actors[i] != actors[j] by {
            assert(self.slot_of(owed[i].0) < self.slot_of(owed[j].0));
        }
        assert(actors.to_set() =~= self.live()) by {
            assert forall|actor: Actor| actors.to_set().contains(actor) implies self.live().contains(
                actor,
            ) by {
                let i = choose|i: int| 0 <= i < actors.len() && actors[i] == actor;
                assert(owed[i].0 == actor);
            }
            assert forall|actor: Actor| self.live().contains(actor) implies actors.to_set().contains(
                actor,
            ) by {
                let s = self.slot_of(actor);
                assert(self.holds(s, actor));
                assert(self.slots[s] is Some);
            }
        }
        actors.unique_seq_to_set();
    }

    /// Creating an actor that holds no slot here makes the actors one more;
    /// destroying one that holds a slot makes them one fewer, and destroying
    /// one that holds none leaves them as many.
    pub proof fn lemma_live_count(self, actor: Actor, values: Values)
        requires
            self.wf(),
        ensures
            self.live().finite(),
            self.create_error(values) is None && !self.contains(actor) ==> self.create(
                actor,
                values,
            ).live().len() == self.live().len() + 1,
            self.contains(actor) ==> self.destroy(actor).live().len() == self.live().len() - 1,
            !self.contains(actor) ==> self.destroy(actor).live().len() == self.live().len(),
    {
        self.lemma_teardown();
        self.lemma_destroy(actor);
        self.lemma_destroy_once(actor);
        if self.create_error(values) is None && !self.contains(actor) {
            self.lemma_create_live(actor, values);
        }
    }

    /// Replacing one value of an actor leaves every actor where it was,
    /// gives that one component the new value, and leaves every other
    /// component of every actor as it was.
    pub proof fn lemma_with_component(self, actor: Actor, ty: TypeInfo, value: Seq<u8>)
        requires
            self.wf(),
            self.component(actor, ty) is Some,
        ensures
            self.with_component(actor, ty, value).signature == self.signature,
            self.with_component(actor, ty, value).capacity() == self.capacity(),
            forall|other: Actor| #[trigger]
                self.with_component(actor, ty, value).contains(other) == self.contains(other),
            self.with_component(actor, ty, value).component(actor, ty) == Some(value),
            forall|other: Actor, t: TypeInfo|
                other != actor || t.id != ty.id ==> #[trigger] self.with_component(
                    actor,
                    ty,
                    value,
                ).component(other, t) == self.component(other, t),
            value.len() == self.component(actor, ty).unwrap().len() ==> self.with_component(
                actor,
                ty,
                value,
            ).wf(),
    {
        let after = self.with_component(actor, ty, value);
        let slot = self.slot_of(actor);
        let col = self.column_of(ty);
        assert(self.holds(slot, actor));
        self.lemma_has_type(ty);
        assert(self.row_fits(self.slots[slot].unwrap().values));
        assert forall|other: Actor| #[trigger] after.contains(other) == self.contains(other) && (
        self.contains(other) ==> after.slot_of(other) == self.slot_of(other)) by {
            if self.contains(other) {
                let s = self.slot_of(other);
                assert(self.holds(s, other));
                assert(after.holds(s, other));
            }
            if after.contains(other) {
                let s = after.slot_of(other);
                assert(after.holds(s, other));
                assert(self.holds(s, other));
                self.lemma_slot_of(s, other);
            }
        }
        assert forall|other: Actor, t: TypeInfo|
            other != actor || t.id != ty.id implies #[trigger] after.component(other, t)
            == self.component(other, t) by {
            if self.contains(other) && self.has_type(t) {
                let s = self.slot_of(other);
                assert(self.holds(s, other));
                if other == actor {
                    self.lemma_has_type(t);
                }
            }
        }
        if value.len() == self.component(actor, ty).unwrap().len() {
            assert forall|s: int| 0 <= s < after.slots.len() implies ((
            #[trigger] after.slots[s]) matches Some(row) ==> after.row_fits(row.values)) by {
                assert(self.slots[s] matches Some(row) ==> self.row_fits(row.values));
            }
            assert forall|s: int, t: int| 0 <= s < t < after.slots.len() implies ((
            #[trigger] after.slots[s]) matches Some(a) ==> ((
            #[trigger] after.slots[t]) matches Some(b) ==> a.actor != b.actor)) by {
                if after.slots[s] is Some && after.slots[t] is Some {
                    assert(self.slots[s] is Some && self.slots[t] is Some);
                }
            }
        }
    }

    /// A component is as long as the column of its type asks, which is
    /// headed by a descriptor with the identity of that type.
    pub proof fn lemma_component_len(self, actor: Actor, ty: TypeInfo)
        requires
            self.wf(),
            self.component(actor, ty) is Some,
        ensures
            0 <= self.column_of(ty) < self.signature.len(),
            self.signature[self.column_of(ty)].id == ty.id,
            self.component(actor, ty).unwrap().len() == self.signature[self.column_of(ty)].size,
    {
        let slot = self.slot_of(actor);
        assert(self.holds(slot, actor));
        self.lemma_has_type(ty);
        assert(self.row_fits(self.slots[slot].unwrap().values));
    }
}

} // verus!
