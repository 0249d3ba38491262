//! The archetype: one block of bytes that holds, column by column, the
//! components of every actor with one exact set of component types.

use crate::actor::Actor;
use crate::block::{
    lemma_overlay_inside, lemma_overlay_outside, lemma_subrange_twice, overlay, write_bytes,
};
use crate::component::types_in;
use crate::error::StoreError;
use crate::layout::{
    all_valid, block_align, block_size, cell_offset, column_offset, extent, fits, laid_out,
    lemma_cell_in_column, lemma_cells_disjoint, lemma_column_span, lemma_columns_disjoint,
    lemma_padded, lemma_pow2_positive, max_block, pad, widest, BlockLayout, Entry,
};
use crate::model::{
    drops, lemma_same_types, new_error, owed_view, types_of, values_view, ArchetypeView, Row,
};
use crate::type_info::{
    all_types_valid, among, distinct, has_duplicates, ids_of, lemma_among, lemma_place_of,
    place_of, position, TypeInfo,
};
use std::collections::HashMap;
use vstd::prelude::*;
use vstd::slice::slice_to_vec;
use vstd::std_specs::hash::group_hash_axioms;

verus! {

broadcast use group_hash_axioms;

/// The bytes of an archetype, with the layout they were allocated for.
struct Memory {
    bytes: Vec<u8>,
    layout: BlockLayout,
}

impl Memory {
    /// A block of `layout.size` bytes.
    #[must_use]
    fn new(layout: BlockLayout) -> (memory: Memory)
        ensures
            memory.layout == layout,
            memory.bytes@.len() == layout.size,
    {
        Memory { bytes: vec![0u8; layout.size], layout }
    }
}

/// The storage of all actors that have one exact set of component types.
pub struct Archetype {
    /// Which slot each actor holds.
    actors: HashMap<usize, usize>,
    /// Which actor holds each slot.
    occupants: Vec<Option<usize>>,
    capacity: usize,
    entries: Vec<Entry>,
    memory: Memory,
}

impl Archetype {
    /// The component types, one per column.
    closed spec fn sig(&self) -> Seq<TypeInfo> {
        Seq::new(self.entries@.len(), |c: int| self.entries@[c].ty)
    }

    /// The bytes that slot `slot` has in column `col`.
    closed spec fn cell(&self, slot: int, col: int) -> Seq<u8> {
        let start = self.entries@[col].offset + slot * self.entries@[col].ty.size;
        self.memory.bytes@.subrange(start, start + self.entries@[col].ty.size)
    }

    /// The bytes that slot `slot` has in each column.
    closed spec fn row(&self, slot: int) -> Seq<Seq<u8>> {
        Seq::new(self.entries@.len(), |c: int| self.cell(slot, c))
    }

    /// Whether the two indexes, from actor to slot and from slot to actor,
    /// say the same.
    closed spec fn index_agrees(&self) -> bool {
        &&& forall|id: usize| #[trigger]
            self.actors@.contains_key(id) ==> {
                &&& self.actors@[id] < self.occupants@.len()
                &&& self.occupants@[self.actors@[id] as int] == Some(id)
            }
        &&& forall|s: int|
            0 <= s < self.occupants@.len() ==> ((#[trigger] self.occupants@[s]) matches Some(id)
                ==> self.actors@.contains_key(id) && self.actors@[id] == s)
    }

    /// What every archetype keeps true of itself.
    pub closed spec fn inv(&self) -> bool {
        &&& 0 < self.capacity <= max_block()
        &&& self.occupants@.len() == self.capacity
        &&& distinct(self.sig())
        &&& all_valid(self.sig())
        &&& laid_out(self.entries@, self.sig(), self.capacity as nat)
        &&& self.memory.layout.size == block_size(self.sig(), self.capacity as nat)
        &&& self.memory.layout.align == block_align(self.sig())
        &&& self.memory.bytes@.len() == self.memory.layout.size
        &&& self.memory.layout.size <= max_block()
        &&& self.index_agrees()
    }

    /// The archetype without its bytes.
    pub closed spec fn view(&self) -> ArchetypeView {
        ArchetypeView {
            signature: self.sig(),
            slots: Seq::new(
                self.occupants@.len(),
                |s: int|
                    match self.occupants@[s] {
                        Some(id) => Some(Row { actor: Actor(id), values: self.row(s) }),
                        None => None,
                    },
            ),
        }
    }

    /// An archetype that keeps its invariant is well formed.
    pub proof fn lemma_view_wf(&self)
        requires
            self.inv(),
        ensures
            self@.wf(),
    {
        let v = self@;
        assert forall|s: int| 0 <= s < v.slots.len() implies ((#[trigger] v.slots[s]) matches Some(
            row,
        ) ==> v.row_fits(row.values)) by {
            if let Some(row) = v.slots[s] {
                assert forall|c: int| 0 <= c < row.values.len() implies (#[trigger] row.values[c]).len()
                    == v.signature[c].size by {
                    self.lemma_cell_bounds(s, c);
                }
            }
        }
        assert forall|s: int, t: int| 0 <= s < t < v.slots.len() implies ((
        #[trigger] v.slots[s]) matches Some(a) ==> ((#[trigger] v.slots[t]) matches Some(b)
            ==> a.actor != b.actor)) by {
            if let Some(a) = self.occupants@[s] {
                if let Some(b) = self.occupants@[t] {
                    assert(self.actors@[a] == s);
                    assert(self.actors@[b] == t);
                }
            }
        }
    }

    /// Every cell of a slot below the capacity lies inside the block.
    proof fn lemma_cell_bounds(&self, slot: int, col: int)
        requires
            self.inv(),
            0 <= slot < self.capacity,
            0 <= col < self.entries@.len(),
        ensures
            self.entries@[col].offset + slot * self.entries@[col].ty.size == cell_offset(
                self.sig(),
                self.capacity as nat,
                col,
                slot,
            ),
            0 <= cell_offset(self.sig(), self.capacity as nat, col, slot),
            cell_offset(self.sig(), self.capacity as nat, col, slot) + self.entries@[col].ty.size
                <= self.memory.bytes@.len(),
            self.cell(slot, col).len() == self.entries@[col].ty.size,
    {
        lemma_cell_in_column(self.sig(), self.capacity as nat, col, slot);
    }

    /// How the columns of `types` lie in a block with room for `capacity`
    /// actors: the layout of the block, and where each column is. There is
    /// none when the block would be too large.
    fn layout_from_iter(capacity: usize, types: &Vec<TypeInfo>) -> (r: Option<
        (BlockLayout, Vec<Entry>),
    >)
        requires
            all_valid(types@),
        ensures
            r is Some <==> fits(types@, capacity as nat),
            r matches Some((layout, entries)) ==> {
                &&& layout.size == block_size(types@, capacity as nat)
                &&& layout.align == block_align(types@)
                &&& laid_out(entries@, types@, capacity as nat)
            },
    {
        let limit: usize = isize::MAX as usize;
        if capacity > limit {
            return None;
        }
        let mut entries: Vec<Entry> = Vec::new();
        let mut end: usize = 0;
        let mut align: usize = 1;
        let mut c: usize = 0;
        while c < types.len()
            invariant
                c <= types.len(),
                all_valid(types@),
                limit == max_block(),
                entries@.len() == c,
                end == extent(types@, capacity as nat, c as int),
                end <= limit,
                align == widest(types@, c as int),
                forall|k: int|
                    0 <= k < c ==> {
                        &&& (#[trigger] entries@[k]).ty == types@[k]
                        &&& entries@[k].size == types@[k].size * capacity
                        &&& entries@[k].offset == column_offset(types@, capacity as nat, k)
                    },
            decreases types.len() - c,
        {
            let ty = types[c];
            proof {
                assert(types@[c as int].valid());
                lemma_pow2_positive(ty.align as int);
                lemma_padded(end as nat, ty.align as nat);
                lemma_column_span(types@, capacity as nat, c as int);
                assert(ty.size * capacity >= 0) by (nonlinear_arith);
            }
            let array = match ty.size.checked_mul(capacity) {
                Some(array) => array,
                None => {
                    return None;
                },
            };
            let offset = match pad(end, ty.align) {
                Some(offset) => offset,
                None => {
                    return None;
                },
            };
            let next = match offset.checked_add(array) {
                Some(next) => next,
                None => {
                    return None;
                },
            };
            if next > limit {
                return None;
            }
            entries.push(Entry { ty, size: array, offset });
            end = next;
            if ty.align > align {
                align = ty.align;
            }
            c += 1;
        }
        Some((BlockLayout { size: end, align }, entries))
    }

    /// An archetype with room for `capacity` actors whose components are of
    /// `types`, one column for each, and no actor in it yet.
    pub fn new(capacity: usize, types: &Vec<TypeInfo>) -> (r: Result<Archetype, StoreError>)
        ensures
            match r {
                Ok(archetype) => {
                    &&& new_error(capacity as nat, types@) is None
                    &&& archetype.inv()
                    &&& archetype@.signature == types@
                    &&& archetype@.slots == Seq::new(capacity as nat, |s: int| None::<Row>)
                },
                Err(e) => new_error(capacity as nat, types@) == Some(e),
            },
    {
        if capacity == 0 {
            return Err(StoreError::ZeroCapacity);
        }
        if !all_types_valid(types) {
            return Err(StoreError::InvalidType);
        }
        if has_duplicates(types) {
            return Err(StoreError::DuplicateComponentType);
        }
        let (layout, entries) = match Archetype::layout_from_iter(capacity, types) {
            Some(laid) => laid,
            None => {
                return Err(StoreError::BlockTooLarge);
            },
        };
        let occupants: Vec<Option<usize>> = vec![None; capacity];
        let archetype = Archetype {
            actors: HashMap::new(),
            occupants,
            capacity,
            entries,
            memory: Memory::new(layout),
        };
        proof {
            assert(archetype.sig() =~= types@);
            assert(archetype@.slots =~= Seq::new(capacity as nat, |s: int| None::<Row>));
        }
        Ok(archetype)
    }

    /// Whether `actor` holds a slot here.
    #[must_use]
    pub fn has_actor(&self, actor: Actor) -> (found: bool)
        requires
            self.inv(),
        ensures
            found == self@.contains(actor),
    {
        self.slot_index(actor).is_some()
    }

    /// Whether the type `ty` heads a column: whether a column's descriptor has
    /// its identity.
    #[must_use]
    pub fn has_type(&self, ty: TypeInfo) -> (found: bool)
        requires
            self.inv(),
        ensures
            found == self@.has_type(ty),
            found == exists|c: int|
                0 <= c < self@.signature.len() && (#[trigger] self@.signature[c]).id == ty.id,
    {
        proof {
            if among(self@.signature, ty) {
                lemma_place_of(self@.signature, ty);
            }
            assert forall|c: int|
                0 <= c < self@.signature.len() && (#[trigger] self@.signature[c]).id
                    == ty.id implies among(self@.signature, ty) by {
                assert(ids_of(self@.signature)[c] == ty.id);
            }
        }
        self.get_entry(ty).is_some()
    }

    /// Whether `types` are as many as the columns and each heads one. Of
    /// types among which none occurs twice this says that they are, in some
    /// order, the types of the signature.
    #[must_use]
    pub fn has_types(&self, types: &Vec<TypeInfo>) -> (found: bool)
        requires
            self.inv(),
        ensures
            found == self@.has_types(types@),
    {
        if types.len() != self.entries.len() {
            return false;
        }
        let mut j: usize = 0;
        while j < types.len()
            invariant
                self.inv(),
                j <= types.len(),
                forall|k: int| 0 <= k < j ==> among(self@.signature, #[trigger] types@[k]),
            decreases types.len() - j,
        {
            if !self.has_type(types[j]) {
                return false;
            }
            j += 1;
        }
        true
    }

    /// The slot that `actor` holds, if it holds one.
    #[must_use]
    fn slot_index(&self, actor: Actor) -> (r: Option<usize>)
        requires
            self.inv(),
        ensures
            r is Some <==> self@.contains(actor),
            r matches Some(slot) ==> {
                &&& slot < self.capacity
                &&& self@.holds(slot as int, actor)
                &&& self@.slot_of(actor) == slot
                &&& self.actors@.contains_key(actor.0)
                &&& self.actors@[actor.0] == slot
            },
            r is None ==> !self.actors@.contains_key(actor.0),
    {
        match self.actors.get(&actor.0) {
            Some(slot) => {
                proof {
                    assert(self.occupants@[*slot as int] == Some(actor.0));
                    assert(self@.holds(*slot as int, actor));
                    self.lemma_holds_once(self@.slot_of(actor), *slot as int, actor);
                }
                Some(*slot)
            },
            None => {
                proof {
                    if self@.contains(actor) {
                        let s = self@.slot_of(actor);
                        assert(self.occupants@[s] == Some(actor.0));
                    }
                }
                None
            },
        }
    }

    /// An actor holds one slot at most.
    proof fn lemma_holds_once(&self, s: int, t: int, actor: Actor)
        requires
            self.inv(),
            self@.holds(s, actor),
            self@.holds(t, actor),
        ensures
            s == t,
    {
        assert(self.occupants@[s] == Some(actor.0));
        assert(self.occupants@[t] == Some(actor.0));
    }

    /// The column that the type `ty` heads, if it heads one.
    #[must_use]
    fn get_entry(&self, ty: TypeInfo) -> (r: Option<usize>)
        requires
            self.inv(),
        ensures
            r is Some <==> self@.has_type(ty),
            r matches Some(col) ==> {
                &&& col < self.entries@.len()
                &&& self@.signature[col as int].id == ty.id
                &&& self@.column_of(ty) == col
            },
    {
        let mut c: usize = 0;
        while c < self.entries.len()
            invariant
                self.inv(),
                c <= self.entries@.len(),
                forall|k: int| 0 <= k < c ==> (#[trigger] self.sig()[k]).id != ty.id,
            decreases self.entries@.len() - c,
        {
            if self.entries[c].ty.id == ty.id {
                proof {
                    assert(ids_of(self.sig())[c as int] == ty.id);
                    lemma_place_of(self.sig(), ty);
                }
                return Some(c);
            }
            c += 1;
        }
        proof {
            if among(self.sig(), ty) {
                lemma_place_of(self.sig(), ty);
            }
        }
        None
    }

    /// Whether each of `values`, whose types head columns, is as long as the
    /// column of its type asks.
    fn takes(&self, values: &Vec<(TypeInfo, Vec<u8>)>) -> (ok: bool)
        requires
            self.inv(),
            self@.has_types(types_of(values_view(values@))),
        ensures
            ok == self@.takes(values_view(values@)),
    {
        let ghost given = values_view(values@);
        let mut j: usize = 0;
        while j < values.len()
            invariant
                self.inv(),
                given == values_view(values@),
                self@.has_types(types_of(given)),
                j <= values.len(),
                forall|k: int|
                    0 <= k < j ==> (#[trigger] given[k]).1.len() == self@.signature[self@.column_of(
                        given[k].0,
                    )].size,
            decreases values.len() - j,
        {
            proof {
                assert(among(self@.signature, types_of(given)[j as int]));
            }
            let as_long = match self.get_entry(values[j].0) {
                Some(col) => values[j].1.len() == self.entries[col].ty.size,
                None => false,
            };
            if !as_long {
                proof {
                    let bad = given[j as int];
                    assert(bad.1.len() != self@.signature[self@.column_of(bad.0)].size);
                }
                return false;
            }
            j += 1;
        }
        true
    }

    /// Where in the block the value of slot `slot` in column `col` starts.
    #[must_use]
    fn component_offset(&self, col: usize, slot: usize) -> (start: usize)
        requires
            self.inv(),
            col < self.entries@.len(),
            slot < self.capacity,
        ensures
            start == cell_offset(self.sig(), self.capacity as nat, col as int, slot as int),
            start + self.entries@[col as int].ty.size <= self.memory.bytes@.len(),
            self.memory.bytes@.subrange(
                start as int,
                start + self.entries@[col as int].ty.size,
            ) == self.cell(slot as int, col as int),
    {
        let entry = &self.entries[col];
        proof {
            self.lemma_cell_bounds(slot as int, col as int);
            assert(slot * entry.ty.size >= 0) by (nonlinear_arith);
        }
        entry.offset + slot * entry.ty.size
    }

    /// The value that `actor` has of type `ty`, if it holds a slot here and
    /// a column has that type.
    #[must_use]
    pub fn get_component(&self, actor: Actor, ty: TypeInfo) -> (r: Option<&[u8]>)
        requires
            self.inv(),
        ensures
            r is Some <==> self@.component(actor, ty) is Some,
            r matches Some(bytes) ==> self@.component(actor, ty) == Some(bytes@),
    {
        let slot = match self.slot_index(actor) {
            Some(slot) => slot,
            None => {
                return None;
            },
        };
        let col = match self.get_entry(ty) {
            Some(col) => col,
            None => {
                return None;
            },
        };
        let start = self.component_offset(col, slot);
        let bytes = self.memory.bytes.as_slice();
        Some(&bytes[start..start + self.entries[col].ty.size])
    }

    /// Two archetypes with the same columns and the same bytes have the
    /// same rows.
    proof fn lemma_same_rows(&self, other: &Archetype)
        requires
            self.entries@ == other.entries@,
            self.memory.bytes@ == other.memory.bytes@,
        ensures
            self.sig() == other.sig(),
            forall|s: int| self.row(s) == other.row(s),
    {
        assert(self.sig() =~= other.sig());
        assert forall|s: int| self.row(s) == other.row(s) by {
            assert(self.row(s) =~= other.row(s));
        }
    }

    /// The values of slot `slot` whose destructors are owed, copied out of
    /// the block.
    fn take_drops(&self, slot: usize) -> (dropped: Vec<(TypeInfo, Vec<u8>)>)
        requires
            self.inv(),
            slot < self.capacity,
        ensures
            values_view(dropped@) == drops(self.sig(), self.row(slot as int), self.sig().len() as int),
    {
        let mut dropped: Vec<(TypeInfo, Vec<u8>)> = Vec::new();
        let mut c: usize = 0;
        proof {
            assert(values_view(dropped@) =~= drops(self.sig(), self.row(slot as int), 0));
        }
        while c < self.entries.len()
            invariant
                self.inv(),
                slot < self.capacity,
                c <= self.entries@.len(),
                values_view(dropped@) == drops(self.sig(), self.row(slot as int), c as int),
            decreases self.entries@.len() - c,
        {
            let ty = self.entries[c].ty;
            if ty.needs_drop {
                let start = self.component_offset(c, slot);
                let bytes = self.memory.bytes.as_slice();
                let value = slice_to_vec(&bytes[start..start + ty.size]);
                let ghost before = dropped@;
                dropped.push((ty, value));
                proof {
                    assert(values_view(dropped@) =~= values_view(before).push((ty, value@)));
                }
            }
            c += 1;
        }
        dropped
    }

    /// Takes `actor` out of its slot, which is free from then on, and hands
    /// back the values whose destructors are owed: one for each column whose
    /// type has a destructor. An actor that holds no slot here is left alone
    /// and nothing is owed.
    pub fn destroy_actor(&mut self, actor: Actor) -> (dropped: Vec<(TypeInfo, Vec<u8>)>)
        requires
            old(self).inv(),
        ensures
            final(self).inv(),
            final(self)@ == old(self)@.destroy(actor),
            values_view(dropped@) == old(self)@.dropped(actor),
    {
        let slot = match self.slot_index(actor) {
            Some(slot) => slot,
            None => {
                proof {
                    assert(self@.slots =~= ArchetypeView::without(self@.slots, actor)) by {
                        assert forall|s: int| 0 <= s < self@.slots.len() implies !self@.holds(
                            s,
                            actor,
                        ) by {}
                    }
                }
                return Vec::new();
            },
        };
        let dropped = self.take_drops(slot);
        self.actors.remove(&actor.0);
        self.occupants[slot] = None;
        proof {
            self.lemma_same_rows(old(self));
            assert(self@.slots =~= ArchetypeView::without(old(self)@.slots, actor)) by {
                assert forall|s: int| 0 <= s < self.occupants@.len() implies self@.slots[s]
                    == ArchetypeView::without(old(self)@.slots, actor)[s] by {
                    if s != slot {
                        if old(self)@.holds(s, actor) {
                            old(self).lemma_holds_once(s, slot as int, actor);
                        }
                    }
                }
            }
        }
        dropped
    }

    /// The component types, in the order of the columns. No two of them
    /// have the same identity.
    pub fn signature(&self) -> (types: Vec<TypeInfo>)
        requires
            self.inv(),
        ensures
            types@ == self@.signature,
            forall|a: int, b: int|
                0 <= a < b < types@.len() ==> (#[trigger] types@[a]).id != (#[trigger] types@[b]).id,
    {
        let mut types: Vec<TypeInfo> = Vec::new();
        let mut c: usize = 0;
        while c < self.entries.len()
            invariant
                c <= self.entries@.len(),
                types@.len() == c,
                forall|k: int| 0 <= k < c ==> types@[k] == self.entries@[k].ty,
            decreases self.entries@.len() - c,
        {
            types.push(self.entries[c].ty);
            c += 1;
        }
        proof {
            assert(types@ =~= self.sig());
            assert forall|a: int, b: int| 0 <= a < b < types@.len() implies (#[trigger] types@[a]).id
                != (#[trigger] types@[b]).id by {
                assert(ids_of(types@)[a] == types@[a].id);
                assert(ids_of(types@)[b] == types@[b].id);
            }
        }
        types
    }

    /// The lowest free slot, and the capacity where none is free.
    fn find_free(&self) -> (slot: usize)
        requires
            self.inv(),
        ensures
            slot == self@.first_free(),
            slot <= self.capacity,
            slot < self.capacity ==> self.occupants@[slot as int] is None,
    {
        let mut i: usize = 0;
        while i < self.occupants.len()
            invariant
                self.inv(),
                i <= self.occupants@.len(),
                self@.first_free() == self@.first_free_from(i as int),
            decreases self.occupants@.len() - i,
        {
            if self.occupants[i].is_none() {
                return i;
            }
            i += 1;
        }
        i
    }

    /// Whether the first `old_len` bytes of column `col` are in `to` what
    /// they are in `from`.
    closed spec fn column_copied(
        from: Seq<u8>,
        from_at: int,
        to: Seq<u8>,
        to_at: int,
        len: int,
    ) -> bool {
        to.subrange(to_at, to_at + len) == from.subrange(from_at, from_at + len)
    }

    /// A column that was carried over whole holds every cell it held.
    proof fn lemma_cell_carried(
        &self,
        new_entries: Seq<Entry>,
        new_bytes: Seq<u8>,
        slot: int,
        col: int,
    )
        requires
            self.inv(),
            fits(self.sig(), 2 * self.capacity as nat),
            laid_out(new_entries, self.sig(), 2 * self.capacity as nat),
            new_bytes.len() == block_size(self.sig(), 2 * self.capacity as nat),
            0 <= col < self.entries@.len(),
            0 <= slot < self.capacity,
            Self::column_copied(
                self.memory.bytes@,
                self.entries@[col].offset as int,
                new_bytes,
                new_entries[col].offset as int,
                self.entries@[col].size as int,
            ),
        ensures
            ({
                let size = self.entries@[col].ty.size;
                let start = new_entries[col].offset + slot * size;
                new_bytes.subrange(start, start + size) == self.cell(slot, col)
            }),
    {
        let sig = self.sig();
        let size = self.entries@[col].ty.size as int;
        let old_at = self.entries@[col].offset as int;
        let new_at = new_entries[col].offset as int;
        let len = self.entries@[col].size as int;
        lemma_cell_in_column(sig, self.capacity as nat, col, slot);
        lemma_column_span(sig, self.capacity as nat, col);
        lemma_column_span(sig, 2 * self.capacity as nat, col);
        assert(size * self.capacity <= size * (2 * self.capacity)) by (nonlinear_arith)
            requires
                size >= 0,
                self.capacity >= 0,
        ;
        assert(0 <= slot * size && slot * size + size <= len) by (nonlinear_arith)
            requires
                0 <= slot < self.capacity,
                0 <= size,
                len == size * self.capacity,
        ;
        lemma_subrange_twice(new_bytes, new_at, new_at + len, slot * size, slot * size + size);
        lemma_subrange_twice(
            self.memory.bytes@,
            old_at,
            old_at + len,
            slot * size,
            slot * size + size,
        );
    }

    /// Whether the first `upto` columns hold in `to`, where `entries` puts
    /// them, the bytes they hold in this archetype.
    closed spec fn carried(&self, entries: Seq<Entry>, to: Seq<u8>, upto: int) -> bool {
        forall|k: int|
            0 <= k < upto ==> Self::column_copied(
                self.memory.bytes@,
                (#[trigger] self.entries@[k]).offset as int,
                to,
                entries[k].offset as int,
                self.entries@[k].size as int,
            )
    }

    /// A column of this archetype fits where the layout for twice the
    /// capacity puts it, and ends before the next column starts there.
    proof fn lemma_column_fits(&self, entries: Seq<Entry>, col: int)
        requires
            self.inv(),
            fits(self.sig(), 2 * self.capacity as nat),
            laid_out(entries, self.sig(), 2 * self.capacity as nat),
            0 <= col < self.entries@.len(),
        ensures
            self.entries@[col].offset + self.entries@[col].size <= self.memory.bytes@.len(),
            entries[col].offset + self.entries@[col].size <= block_size(
                self.sig(),
                2 * self.capacity as nat,
            ),
            forall|k: int|
                0 <= k < col ==> (#[trigger] entries[k]).offset + self.entries@[k].size
                    <= entries[col].offset,
    {
        let sig = self.sig();
        let twice = 2 * self.capacity as nat;
        lemma_column_span(sig, self.capacity as nat, col);
        lemma_column_span(sig, twice, col);
        let size = sig[col].size as int;
        assert(size * self.capacity <= size * twice) by (nonlinear_arith)
            requires
                size >= 0,
                twice == 2 * self.capacity,
        ;
        assert forall|k: int| 0 <= k < col implies (#[trigger] entries[k]).offset
            + self.entries@[k].size <= entries[col].offset by {
            lemma_columns_disjoint(sig, twice, k, col);
            let width = sig[k].size as int;
            assert(width * self.capacity <= width * twice) by (nonlinear_arith)
                requires
                    width >= 0,
                    twice == 2 * self.capacity,
            ;
        }
    }

    /// Carrying one more column over leaves the columns before it as they
    /// were carried.
    proof fn lemma_carry(&self, entries: Seq<Entry>, before: Seq<u8>, after: Seq<u8>, col: int)
        requires
            self.inv(),
            fits(self.sig(), 2 * self.capacity as nat),
            laid_out(entries, self.sig(), 2 * self.capacity as nat),
            before.len() == block_size(self.sig(), 2 * self.capacity as nat),
            0 <= col < self.entries@.len(),
            self.carried(entries, before, col),
            after == overlay(
                before,
                entries[col].offset as int,
                self.memory.bytes@.subrange(
                    self.entries@[col].offset as int,
                    self.entries@[col].offset + self.entries@[col].size,
                ),
            ),
        ensures
            after.len() == before.len(),
            self.carried(entries, after, col + 1),
    {
        let column = self.memory.bytes@.subrange(
            self.entries@[col].offset as int,
            self.entries@[col].offset + self.entries@[col].size,
        );
        let at = entries[col].offset as int;
        self.lemma_column_fits(entries, col);
        lemma_overlay_inside(before, at, column);
        assert forall|k: int| 0 <= k < col + 1 implies Self::column_copied(
            self.memory.bytes@,
            (#[trigger] self.entries@[k]).offset as int,
            after,
            entries[k].offset as int,
            self.entries@[k].size as int,
        ) by {
            if k < col {
                assert(entries[k].offset + self.entries@[k].size <= at);
                lemma_overlay_outside(
                    before,
                    at,
                    column,
                    entries[k].offset as int,
                    entries[k].offset + self.entries@[k].size,
                );
            }
        }
    }

    /// A block laid out by `entries` for twice the capacity, with every
    /// column carried over to where it lies there.
    fn carry_columns(&self, entries: &Vec<Entry>, layout: BlockLayout) -> (memory: Memory)
        requires
            self.inv(),
            fits(self.sig(), 2 * self.capacity as nat),
            laid_out(entries@, self.sig(), 2 * self.capacity as nat),
            layout.size == block_size(self.sig(), 2 * self.capacity as nat),
        ensures
            memory.layout == layout,
            memory.bytes@.len() == layout.size,
            self.carried(entries@, memory.bytes@, self.entries@.len() as int),
    {
        let mut memory = Memory::new(layout);
        let mut c: usize = 0;
        while c < self.entries.len()
            invariant
                self.inv(),
                fits(self.sig(), 2 * self.capacity as nat),
                laid_out(entries@, self.sig(), 2 * self.capacity as nat),
                layout.size == block_size(self.sig(), 2 * self.capacity as nat),
                memory.layout == layout,
                memory.bytes@.len() == layout.size,
                c <= self.entries@.len(),
                self.carried(entries@, memory.bytes@, c as int),
            decreases self.entries@.len() - c,
        {
            let from = self.entries[c];
            let to = entries[c];
            proof {
                self.lemma_column_fits(entries@, c as int);
            }
            let bytes = self.memory.bytes.as_slice();
            let column = &bytes[from.offset..from.offset + from.size];
            let ghost before = memory.bytes@;
            write_bytes(&mut memory.bytes, to.offset, column);
            proof {
                self.lemma_carry(entries@, before, memory.bytes@, c as int);
            }
            c += 1;
        }
        memory
    }

    /// An archetype with twice the slots, the same columns laid out for
    /// them and every column carried over is this archetype grown.
    proof fn lemma_grown(&self, after: &Archetype)
        requires
            self.inv(),
            fits(self.sig(), 2 * self.capacity as nat),
            after.capacity == 2 * self.capacity,
            after.actors == self.actors,
            after.occupants@ == self.occupants@ + Seq::new(
                self.capacity as nat,
                |s: int| None::<usize>,
            ),
            laid_out(after.entries@, self.sig(), 2 * self.capacity as nat),
            after.memory.layout.size == block_size(self.sig(), 2 * self.capacity as nat),
            after.memory.layout.align == block_align(self.sig()),
            after.memory.bytes@.len() == after.memory.layout.size,
            self.carried(after.entries@, after.memory.bytes@, self.entries@.len() as int),
        ensures
            after.inv(),
            after@ == self@.grown(),
    {
        assert(after.sig() =~= self.sig());
        assert forall|s: int| 0 <= s < self.capacity implies after.row(s) == self.row(s) by {
            assert forall|col: int| 0 <= col < self.entries@.len() implies after.cell(s, col)
                == self.cell(s, col) by {
                assert(Self::column_copied(
                    self.memory.bytes@,
                    self.entries@[col].offset as int,
                    after.memory.bytes@,
                    after.entries@[col].offset as int,
                    self.entries@[col].size as int,
                ));
                self.lemma_cell_carried(after.entries@, after.memory.bytes@, s, col);
            }
            assert(after.row(s) =~= self.row(s));
        }
        assert(after@.slots =~= self@.grown().slots);
        assert forall|id: usize| #[trigger] after.actors@.contains_key(id) implies {
            &&& after.actors@[id] < after.occupants@.len()
            &&& after.occupants@[after.actors@[id] as int] == Some(id)
        } by {
            assert(self.actors@.contains_key(id));
        }
        assert forall|s: int| 0 <= s < after.occupants@.len() implies ((
        #[trigger] after.occupants@[s]) matches Some(id) ==> after.actors@.contains_key(id)
            && after.actors@[id] == s) by {
            if s < self.capacity {
                assert(after.occupants@[s] == self.occupants@[s]);
            }
        }
    }

    /// Doubles the capacity, if a block of that size can be had: lays the
    /// columns out anew, carries every column over to where it now lies, and
    /// leaves every slot with what it held.
    fn grow(&mut self) -> (done: bool)
        requires
            old(self).inv(),
        ensures
            final(self).inv(),
            done == fits(old(self)@.signature, 2 * old(self)@.capacity()),
            done ==> final(self)@ == old(self)@.grown(),
            done ==> final(self).capacity == 2 * old(self).capacity,
            !done ==> final(self)@ == old(self)@,
            final(self).actors@ == old(self).actors@,
    {
        let new_capacity = self.capacity * 2;
        let types = self.signature();
        let (new_layout, new_entries) = match Archetype::layout_from_iter(new_capacity, &types) {
            Some(laid) => laid,
            None => {
                return false;
            },
        };
        let new_memory = self.carry_columns(&new_entries, new_layout);
        let ghost old_capacity = self.capacity as int;
        self.occupants.resize(new_capacity, None);
        proof {
            assert(self.occupants@ =~= old(self).occupants@ + Seq::new(
                old_capacity as nat,
                |s: int| None::<usize>,
            )) by {
                assert forall|s: int| 0 <= s < old_capacity implies self.occupants@[s] == old(
                    self,
                ).occupants@[s] by {
                    assert(self.occupants@.subrange(0, old_capacity)[s] == old(self).occupants@[s]);
                }
            }
        }
        self.capacity = new_capacity;
        self.entries = new_entries;
        self.memory = new_memory;
        proof {
            old(self).lemma_grown(self);
        }
        true
    }

    /// Gives `actor` a slot and says which: the lowest free one, or, where
    /// none is free, the first of a second half that doubling the capacity
    /// adds. There is no slot, and nothing changes, where none is free and
    /// twice the block cannot be had.
    #[must_use]
    fn register_actor(&mut self, actor: Actor) -> (r: Option<usize>)
        requires
            old(self).inv(),
            !old(self)@.contains(actor),
        ensures
            final(self).inv(),
            r is None <==> old(self)@.first_free() == old(self)@.capacity() && !fits(
                old(self)@.signature,
                2 * old(self)@.capacity(),
            ),
            r is None ==> final(self)@ == old(self)@,
            r matches Some(slot) ==> {
                let room = if old(self)@.first_free() < old(self)@.capacity() {
                    old(self)@
                } else {
                    old(self)@.grown()
                };
                &&& slot == old(self)@.first_free()
                &&& slot < final(self).capacity
                &&& room.slots.len() == final(self).capacity
                &&& final(self)@.signature == old(self)@.signature
                &&& final(self)@.slots == room.slots.update(
                    slot as int,
                    Some(Row { actor, values: final(self).row(slot as int) }),
                )
            },
    {
        proof {
            if self.actors@.contains_key(actor.0) {
                assert(self@.holds(self.actors@[actor.0] as int, actor));
            }
        }
        let slot = self.find_free();
        if slot == self.capacity {
            if !self.grow() {
                return None;
            }
            proof {
                assert(self@.slots[slot as int] is None);
                assert(self.occupants@[slot as int] is None);
            }
        }
        self.place(actor, slot);
        Some(slot)
    }

    /// Records that `actor`, which held no slot, holds the free slot `slot`.
    /// No byte changes.
    fn place(&mut self, actor: Actor, slot: usize)
        requires
            old(self).inv(),
            slot < old(self).capacity,
            old(self).occupants@[slot as int] is None,
            !old(self).actors@.contains_key(actor.0),
        ensures
            final(self).inv(),
            final(self).capacity == old(self).capacity,
            final(self)@.signature == old(self)@.signature,
            final(self)@.slots == old(self)@.slots.update(
                slot as int,
                Some(Row { actor, values: final(self).row(slot as int) }),
            ),
    {
        self.actors.insert(actor.0, slot);
        self.occupants[slot] = Some(actor.0);
        proof {
            assert forall|id: usize| #[trigger] self.actors@.contains_key(id) implies {
                &&& self.actors@[id] < self.occupants@.len()
                &&& self.occupants@[self.actors@[id] as int] == Some(id)
            } by {
                if id != actor.0 {
                    assert(old(self).actors@.contains_key(id));
                    let s = old(self).actors@[id] as int;
                    assert(old(self).occupants@[s] == Some(id));
                    assert(s != slot);
                }
            }
            assert forall|s: int| 0 <= s < self.occupants@.len() implies ((
            #[trigger] self.occupants@[s]) matches Some(id) ==> self.actors@.contains_key(id)
                && self.actors@[id] == s) by {
                if s != slot {
                    if let Some(id) = self.occupants@[s] {
                        assert(old(self).occupants@[s] == Some(id));
                        assert(old(self).actors@[id] == s);
                    }
                }
            }
            self.lemma_same_rows(old(self));
            let given = Some(Row { actor, values: self.row(slot as int) });
            assert forall|s: int| 0 <= s < self.occupants@.len() implies self@.slots[s]
                == old(self)@.slots.update(slot as int, given)[s] by {}
            assert(self@.slots =~= old(self)@.slots.update(slot as int, given));
        }
    }

    /// Writing one cell changes that cell and no other.
    proof fn lemma_write_cell(&self, after: &Archetype, slot: int, col: int, value: Seq<u8>)
        requires
            self.inv(),
            after.entries@ == self.entries@,
            0 <= slot < self.capacity,
            0 <= col < self.entries@.len(),
            value.len() == self.entries@[col].ty.size,
            after.memory.bytes@ == overlay(
                self.memory.bytes@,
                cell_offset(self.sig(), self.capacity as nat, col, slot),
                value,
            ),
        ensures
            after.sig() == self.sig(),
            after.memory.bytes@.len() == self.memory.bytes@.len(),
            after.cell(slot, col) == value,
            forall|s: int, c: int|
                0 <= s < self.capacity && 0 <= c < self.entries@.len() && (s != slot || c != col)
                    ==> #[trigger] after.cell(s, c) == self.cell(s, c),
    {
        let sig = self.sig();
        let cap = self.capacity as nat;
        let at = cell_offset(sig, cap, col, slot);
        assert(after.sig() =~= sig);
        self.lemma_cell_bounds(slot, col);
        lemma_cell_in_column(sig, cap, col, slot);
        lemma_overlay_inside(self.memory.bytes@, at, value);
        assert forall|s: int, c: int|
            0 <= s < self.capacity && 0 <= c < self.entries@.len() && (s != slot || c != col)
            implies #[trigger] after.cell(s, c) == self.cell(s, c) by {
            self.lemma_cell_bounds(s, c);
            lemma_cell_in_column(sig, cap, c, s);
            let from = cell_offset(sig, cap, c, s);
            if c < col {
                lemma_columns_disjoint(sig, cap, c, col);
            } else if col < c {
                lemma_columns_disjoint(sig, cap, col, c);
            } else if s < slot {
                lemma_cells_disjoint(sig, cap, c, s, slot);
            } else {
                lemma_cells_disjoint(sig, cap, c, slot, s);
            }
            lemma_overlay_outside(self.memory.bytes@, at, value, from, from + sig[c].size);
        }
    }

    /// Creates `actor`, which holds no slot here yet, with `values`, one for
    /// each column: the actor takes the lowest free slot, or the first new
    /// one after the capacity has doubled, and each value is copied into its
    /// column at that slot.
    /// Every other actor keeps its slot and its values, whether or not the
    /// block had to grow.
    ///
    /// The creation is refused, and nothing changes, where a type occurs
    /// twice among the values, where the values are not exactly one of the
    /// right length for each column, or where no slot is free and twice the
    /// block cannot be had.
    pub fn create_actor(&mut self, actor: Actor, values: &Vec<(TypeInfo, Vec<u8>)>) -> (r: Result<
        (),
        StoreError,
    >)
        requires
            old(self).inv(),
            !old(self)@.contains(actor),
        ensures
            final(self).inv(),
            match r {
                Ok(()) => {
                    &&& old(self)@.create_error(values_view(values@)) is None
                    &&& final(self)@ == old(self)@.create(actor, values_view(values@))
                },
                Err(e) => {
                    &&& old(self)@.create_error(values_view(values@)) == Some(e)
                    &&& final(self)@ == old(self)@
                },
            },
    {
        let ghost given = values_view(values@);
        let types = types_in(values);
        if has_duplicates(&types) {
            return Err(StoreError::DuplicateComponentType);
        }
        if !self.has_types(&types) || !self.takes(values) {
            return Err(StoreError::BundleMismatch);
        }
        let slot = match self.register_actor(actor) {
            Some(slot) => slot,
            None => {
                return Err(StoreError::BlockTooLarge);
            },
        };
        let ghost room = if old(self)@.first_free() < old(self)@.capacity() {
            old(self)@
        } else {
            old(self)@.grown()
        };
        let ghost others = room.slots;
        let ghost row = old(self)@.row_of(given);
        proof {
            lemma_same_types(types@, self@.signature);
        }
        let mut c: usize = 0;
        while c < self.entries.len()
            invariant
                self.inv(),
                slot < self.capacity,
                given == values_view(values@),
                types@ == types_of(given),
                distinct(types@),
                old(self)@.takes(given),
                old(self)@.has_types(types@),
                self@.signature == old(self)@.signature,
                forall|k: int| 0 <= k < self.sig().len() ==> among(types@, #[trigger] self.sig()[k]),
                row == old(self)@.row_of(given),
                others.len() == self.capacity,
                self@.slots == others.update(
                    slot as int,
                    Some(Row { actor, values: self.row(slot as int) }),
                ),
                c <= self.entries@.len(),
                forall|k: int| 0 <= k < c ==> self.cell(slot as int, k) == #[trigger] row[k],
            decreases self.entries@.len() - c,
        {
            let ty = self.entries[c].ty;
            assert(self.sig()[c as int] == ty);
            let j = match position(&types, ty) {
                Some(j) => j,
                None => {
                    return Err(StoreError::BundleMismatch);
                },
            };
            let start = self.component_offset(c, slot);
            let ghost before = *self;
            proof {
                lemma_place_of(types@, ty);
                assert(types@[j as int] == given[j as int].0);
                assert(among(self.sig(), types@[j as int]));
                lemma_place_of(self.sig(), given[j as int].0);
                assert(given[j as int].1.len() == ty.size);
            }
            write_bytes(&mut self.memory.bytes, start, values[j].1.as_slice());
            proof {
                before.lemma_write_cell(self, slot as int, c as int, values@[j as int].1@);
                assert(place_of(types_of(given), ty) == j);
                let held = Some(Row { actor, values: self.row(slot as int) });
                assert forall|s: int| 0 <= s < self.occupants@.len() implies self@.slots[s]
                    == others.update(slot as int, held)[s] by {
                    let was = Some(Row { actor, values: before.row(slot as int) });
                    assert(before@.slots[s] == others.update(slot as int, was)[s]);
                    if s != slot {
                        assert(self.row(s) =~= before.row(s));
                    } else {
                        assert(self.occupants@[s] == Some(actor.0));
                    }
                }
                assert(self@.slots =~= others.update(slot as int, held));
            }
            c += 1;
        }
        proof {
            assert(self.row(slot as int) =~= row);
        }
        Ok(())
    }

    /// Gives the archetype up and hands back what is owed: for each actor
    /// that still holds a slot, in the order of the slots, the values whose
    /// destructors are owed, one for each column whose type has a
    /// destructor. Free slots owe nothing.
    pub fn teardown(self) -> (owed: Vec<(Actor, Vec<(TypeInfo, Vec<u8>)>)>)
        requires
            self.inv(),
        ensures
            owed_view(owed@) == self@.teardown(),
    {
        let mut owed: Vec<(Actor, Vec<(TypeInfo, Vec<u8>)>)> = Vec::new();
        let mut s: usize = 0;
        proof {
            assert(owed_view(owed@) =~= self@.teardown_upto(0));
        }
        while s < self.occupants.len()
            invariant
                self.inv(),
                s <= self.occupants@.len(),
                owed_view(owed@) == self@.teardown_upto(s as int),
            decreases self.occupants@.len() - s,
        {
            if let Some(id) = self.occupants[s] {
                let dropped = self.take_drops(s);
                let ghost before = owed@;
                owed.push((Actor(id), dropped));
                proof {
                    assert(owed_view(owed@) =~= owed_view(before).push(
                        (Actor(id), values_view(dropped@)),
                    ));
                }
            }
            s += 1;
        }
        owed
    }

    /// The number of actors that hold a slot.
    pub fn len(&self) -> (n: usize)
        requires
            self.inv(),
        ensures
            n == self@.live().len(),
    {
        proof {
            self.lemma_live();
        }
        self.actors.len()
    }

    /// The actors that hold a slot are those of the index.
    proof fn lemma_live(&self)
        requires
            self.inv(),
        ensures
            self@.live() == self.actors@.dom().map(|id: usize| Actor(id)),
            self@.live().finite(),
            self@.live().len() == self.actors@.dom().len(),
    {
        let ids = self.actors@.dom();
        let wrap = |id: usize| Actor(id);
        assert(self@.live() =~= ids.map(wrap)) by {
            assert forall|actor: Actor| self@.live().contains(actor) implies ids.map(wrap).contains(
                actor,
            ) by {
                let s = self@.slot_of(actor);
                assert(self.occupants@[s] == Some(actor.0));
                assert(ids.contains(actor.0));
                assert(wrap(actor.0) == actor);
            }
            assert forall|actor: Actor| ids.map(wrap).contains(actor) implies self@.live().contains(
                actor,
            ) by {
                let id = choose|id: usize| ids.contains(id) && wrap(id) == actor;
                assert(self@.holds(self.actors@[id] as int, actor));
            }
        }
        assert(vstd::relations::injective(wrap));
        vstd::set_lib::lemma_map_size(ids, ids.map(wrap), wrap);
        ids.lemma_map_finite(wrap);
    }

    /// An archetype that differs from this one in the bytes of one cell
    /// alone keeps the invariant, and differs in the value of that cell
    /// alone.
    proof fn lemma_cell_replaced(
        &self,
        after: &Archetype,
        actor: Actor,
        ty: TypeInfo,
        slot: int,
        col: int,
        value: Seq<u8>,
    )
        requires
            self.inv(),
            self@.holds(slot, actor),
            0 <= col < self.entries@.len(),
            self.sig()[col].id == ty.id,
            after.actors == self.actors,
            after.occupants == self.occupants,
            after.capacity == self.capacity,
            after.entries == self.entries,
            after.memory.layout == self.memory.layout,
            value.len() == self.sig()[col].size,
            after.memory.bytes@ == overlay(
                self.memory.bytes@,
                cell_offset(self.sig(), self.capacity as nat, col, slot),
                value,
            ),
        ensures
            after.inv(),
            after@ == self@.with_component(actor, ty, value),
    {
        self.lemma_write_cell(after, slot, col, value);
        self.lemma_view_wf();
        self@.lemma_slot_of(slot, actor);
        self@.lemma_column_of(col);
        assert(ids_of(self.sig())[col] == ty.id);
        lemma_place_of(self.sig(), ty);
        let row = self@.slots[slot].unwrap();
        let held = Some(Row { actor, values: row.values.update(col, value) });
        assert(after.row(slot) =~= row.values.update(col, value));
        assert forall|s: int| 0 <= s < self.occupants@.len() implies after@.slots[s]
            == self@.slots.update(slot, held)[s] by {
            if s != slot {
                assert(after.row(s) =~= self.row(s));
            }
        }
        assert(after@.slots =~= self@.slots.update(slot, held));
    }

    /// The value that `actor` has of type `ty`, to be changed in place, if
    /// the actor holds a slot here and a column has that type. The archetype
    /// is then as it was but for that one value, which is what the bytes
    /// handed out are left as.
    #[must_use]
    pub fn get_component_mut(&mut self, actor: Actor, ty: TypeInfo) -> (r: Option<&mut [u8]>)
        requires
            old(self).inv(),
        ensures
            r is Some <==> old(self)@.component(actor, ty) is Some,
            r is None ==> final(self).inv() && final(self)@ == old(self)@,
            r matches Some(bytes) ==> {
                &&& old(self)@.component(actor, ty) == Some(bytes@)
                &&& final(bytes)@.len() == bytes@.len() ==> {
                    &&& final(self)@ == old(self)@.with_component(actor, ty, final(bytes)@)
                    &&& final(self).inv()
                }
            },
    {
        let slot = match self.slot_index(actor) {
            Some(slot) => slot,
            None => {
                return None;
            },
        };
        let col = match self.get_entry(ty) {
            Some(col) => col,
            None => {
                return None;
            },
        };
        let start = self.component_offset(col, slot);
        let size = self.entries[col].ty.size;
        let len = self.memory.bytes.len();
        proof {
            let before = *self;
            let head = before.memory.bytes@.subrange(0, start as int);
            let tail = before.memory.bytes@.subrange(start as int, len as int).subrange(
                size as int,
                len - start,
            );
            assert forall|after: Archetype, value: Seq<u8>|
                #![trigger after.view(), before@.with_component(actor, ty, value)]
                after.actors == before.actors && after.occupants == before.occupants
                    && after.capacity == before.capacity && after.entries == before.entries
                    && after.memory.layout == before.memory.layout && value.len() == size
                    && after.memory.bytes@ == head + (value + tail) implies after.inv() && after@
                == before@.with_component(actor, ty, value) by {
                assert(after.memory.bytes@ =~= overlay(before.memory.bytes@, start as int, value));
                before.lemma_cell_replaced(&after, actor, ty, slot as int, col as int, value);
            }
        }
        let bytes = self.memory.bytes.as_mut_slice();
        let (_, rest) = bytes.split_at_mut(start);
        let (cell, _) = rest.split_at_mut(size);
        Some(cell)
    }

    /// Where the column that the type `ty` heads lies in the block, and the
    /// descriptor that heads it, if the type heads one.
    #[must_use]
    pub fn entry(&self, ty: TypeInfo) -> (r: Option<Entry>)
        requires
            self.inv(),
        ensures
            r is Some <==> self@.has_type(ty),
            r matches Some(entry) ==> {
                &&& entry.ty.id == ty.id
                &&& entry.ty == self@.signature[self@.column_of(ty)]
                &&& entry.size == entry.ty.size * self@.capacity()
                &&& entry.offset == column_offset(
                    self@.signature,
                    self@.capacity(),
                    self@.column_of(ty),
                )
            },
    {
        match self.get_entry(ty) {
            Some(col) => Some(self.entries[col]),
            None => None,
        }
    }

    /// The slot that `actor` holds, if it holds one.
    #[must_use]
    pub fn slot_of(&self, actor: Actor) -> (r: Option<usize>)
        requires
            self.inv(),
        ensures
            r is Some <==> self@.contains(actor),
            r matches Some(slot) ==> slot == self@.slot_of(actor),
    {
        self.slot_index(actor)
    }

    /// The number of slots.
    pub fn capacity(&self) -> (n: usize)
        requires
            self.inv(),
        ensures
            n == self@.capacity(),
    {
        self.capacity
    }

    /// The layout of the block.
    pub fn layout(&self) -> (layout: BlockLayout)
        requires
            self.inv(),
        ensures
            layout.size == block_size(self@.signature, self@.capacity()),
            layout.align == block_align(self@.signature),
    {
        self.memory.layout
    }
}

} // verus!
