use crate::layout::all_valid;
use vstd::arithmetic::power2::is_pow2;
use vstd::layout::{align_of, layout_for_type_is_valid, size_of};
use vstd::prelude::*;

verus! {

/// What the store knows of a component type: which type it is, how its values
/// lie in memory, and whether a value must be cleaned up when it is discarded.
///
/// Two descriptors stand for the same type exactly when their identities are
/// equal. That is how the store tells types apart: a column is found by the
/// identity of its type, and two descriptors with one identity are one type
/// given twice, whatever the rest of them says. `==` on descriptors asks
/// the same: whether the identities are equal.
#[derive(Clone, Copy, Debug, Eq)]
pub struct TypeInfo {
    /// The identity of the type.
    pub id: u64,
    /// The number of bytes one value occupies.
    pub size: usize,
    /// The alignment one value requires.
    pub align: usize,
    /// Whether discarding a value calls for its destructor.
    pub needs_drop: bool,
}

impl PartialEq for TypeInfo {
    /// Whether the two descriptors stand for the same type.
    fn eq(&self, other: &TypeInfo) -> (same: bool) {
        self.id == other.id
    }
}

impl vstd::std_specs::cmp::PartialEqSpecImpl for TypeInfo {
    open spec fn obeys_eq_spec() -> bool {
        true
    }

    open spec fn eq_spec(&self, other: &TypeInfo) -> bool {
        self.id == other.id
    }
}

impl TypeInfo {
    /// A descriptor can head a column when its alignment is a power of two
    /// and its size a multiple of that alignment, so that values packed back
    /// to back from an aligned start are all aligned.
    pub open spec fn valid(&self) -> bool {
        &&& is_pow2(self.align as int)
        &&& self.size % self.align == 0
    }

    /// Puts a descriptor together from its parts.
    #[must_use]
    pub fn new(id: u64, size: usize, align: usize, needs_drop: bool) -> (info: TypeInfo)
        ensures
            info == (TypeInfo { id, size, align, needs_drop }),
    {
        TypeInfo { id, size, align, needs_drop }
    }

    /// The descriptor of the type `T`, with the size and the alignment that
    /// its values have in memory. It can head a column.
    #[must_use]
    pub fn of<T>(id: u64, needs_drop: bool) -> (info: TypeInfo)
        ensures
            info.id == id,
            info.size == size_of::<T>(),
            info.align == align_of::<T>(),
            info.needs_drop == needs_drop,
            info.valid(),
    {
        layout_for_type_is_valid::<T>();
        TypeInfo {
            id,
            size: core::mem::size_of::<T>(),
            align: core::mem::align_of::<T>(),
            needs_drop,
        }
    }

    /// Whether this descriptor can head a column.
    pub fn is_valid(&self) -> (ok: bool)
        ensures
            ok == self.valid(),
    {
        is_power_of_two(self.align) && self.size % self.align == 0
    }
}

/// Whether `n` is a power of two.
pub fn is_power_of_two(n: usize) -> (yes: bool)
    ensures
        yes == is_pow2(n as int),
        yes ==> n > 0,
{
    if n == 0 {
        proof {
            reveal(is_pow2);
        }
        return false;
    }
    let mut m: usize = n;
    while m % 2 == 0
        invariant
            m > 0,
            is_pow2(m as int) == is_pow2(n as int),
        decreases m,
    {
        proof {
            reveal(is_pow2);
        }
        m = m / 2;
    }
    proof {
        reveal(is_pow2);
    }
    m == 1
}

/// The identities of `types`, in their order.
pub open spec fn ids_of(types: Seq<TypeInfo>) -> Seq<u64> {
    Seq::new(types.len(), |i: int| types[i].id)
}

/// Whether no type occurs twice in `types`: whether no two of them have the
/// same identity.
pub open spec fn distinct(types: Seq<TypeInfo>) -> bool {
    ids_of(types).no_duplicates()
}

/// Where the type `ty` stands in `types`: the place of its identity.
pub open spec fn place_of(types: Seq<TypeInfo>, ty: TypeInfo) -> int {
    ids_of(types).index_of(ty.id)
}

/// Whether the type `ty` is one of `types`: whether one of them has its
/// identity.
pub open spec fn among(types: Seq<TypeInfo>, ty: TypeInfo) -> bool {
    ids_of(types).contains(ty.id)
}

/// A type that is among `types` stands at its place there; among distinct
/// types it stands nowhere else.
pub proof fn lemma_place_of(types: Seq<TypeInfo>, ty: TypeInfo)
    requires
        among(types, ty),
    ensures
        0 <= place_of(types, ty) < types.len(),
        types[place_of(types, ty)].id == ty.id,
        distinct(types) ==> forall|c: int|
            0 <= c < types.len() && (#[trigger] types[c]).id == ty.id ==> c == place_of(types, ty),
{
    let at = place_of(types, ty);
    assert(ids_of(types)[at] == ty.id);
    if distinct(types) {
        assert forall|c: int| 0 <= c < types.len() && (#[trigger] types[c]).id == ty.id implies c
            == at by {
            assert(ids_of(types)[c] == ids_of(types)[at]);
        }
    }
}

/// The type that stands at a place of `types` is among them.
pub proof fn lemma_among(types: Seq<TypeInfo>, c: int)
    requires
        0 <= c < types.len(),
    ensures
        among(types, types[c]),
        distinct(types) ==> place_of(types, types[c]) == c,
{
    assert(ids_of(types)[c] == types[c].id);
    lemma_place_of(types, types[c]);
}

/// Whether some type occurs twice in `types`: whether two of them have the
/// same identity.
pub fn has_duplicates(types: &Vec<TypeInfo>) -> (found: bool)
    ensures
        found == !distinct(types@),
{
    let mut i: usize = 0;
    while i < types.len()
        invariant
            i <= types.len(),
            forall|a: int, b: int|
                0 <= a < b < types.len() && b < i ==> ids_of(types@)[a] != ids_of(types@)[b],
        decreases types.len() - i,
    {
        let mut j: usize = 0;
        while j < i
            invariant
                j <= i < types.len(),
                forall|a: int| 0 <= a < j ==> ids_of(types@)[a] != ids_of(types@)[i as int],
            decreases i - j,
        {
            if types[j].id == types[i].id {
                proof {
                    assert(ids_of(types@)[j as int] == ids_of(types@)[i as int]);
                }
                return true;
            }
            j += 1;
        }
        i += 1;
    }
    false
}

/// Whether every descriptor in `types` can head a column.
pub fn all_types_valid(types: &Vec<TypeInfo>) -> (ok: bool)
    ensures
        ok == all_valid(types@),
{
    let mut i: usize = 0;
    while i < types.len()
        invariant
            i <= types.len(),
            forall|c: int| 0 <= c < i ==> (#[trigger] types@[c]).valid(),
        decreases types.len() - i,
    {
        if !types[i].is_valid() {
            return false;
        }
        i += 1;
    }
    true
}

/// Where the type `ty` stands first in `types`, if it is among them.
pub fn position(types: &Vec<TypeInfo>, ty: TypeInfo) -> (r: Option<usize>)
    ensures
        r is Some <==> among(types@, ty),
        r matches Some(j) ==> {
            &&& j < types@.len()
            &&& types@[j as int].id == ty.id
            &&& forall|k: int| 0 <= k < j ==> types@[k].id != ty.id
        },
{
    let mut j: usize = 0;
    while j < types.len()
        invariant
            j <= types.len(),
            forall|k: int| 0 <= k < j ==> (#[trigger] types@[k]).id != ty.id,
        decreases types.len() - j,
    {
        if types[j].id == ty.id {
            proof {
                assert(ids_of(types@)[j as int] == ty.id);
            }
            return Some(j);
        }
        j += 1;
    }
    proof {
        if among(types@, ty) {
            let k = place_of(types@, ty);
            assert(ids_of(types@)[k] == types@[k].id);
        }
    }
    None
}

} // verus!
