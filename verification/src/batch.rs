//! A batch: component values that can be asked for one type at a time.

use crate::component::types_in;
use crate::error::StoreError;
use crate::model::{types_of, values_view};
use crate::type_info::{
    among, distinct, has_duplicates, ids_of, lemma_place_of, TypeInfo,
};
use vstd::prelude::*;
use vstd::slice::slice_to_vec;

verus! {

/// The first place at or after `from` where the type `ty` stands in `types`,
/// and the length of `types` where it stands nowhere.
pub open spec fn first_from(types: Seq<TypeInfo>, ty: TypeInfo, from: int) -> int
    decreases types.len() - from,
{
    if from >= types.len() {
        types.len() as int
    } else if types[from].id == ty.id {
        from
    } else {
        first_from(types, ty, from + 1)
    }
}

/// Where a type is found is the first place where it stands, and it is found
/// exactly when it stands somewhere.
pub proof fn lemma_first_from(types: Seq<TypeInfo>, ty: TypeInfo, from: int)
    requires
        0 <= from <= types.len(),
    ensures
        from <= first_from(types, ty, from) <= types.len(),
        first_from(types, ty, from) < types.len() ==> types[first_from(types, ty, from)].id
            == ty.id,
        forall|j: int| from <= j < first_from(types, ty, from) ==> (#[trigger] types[j]).id != ty.id,
        from == 0 ==> (first_from(types, ty, from) < types.len() <==> among(types, ty)),
    decreases types.len() - from,
{
    if from < types.len() && types[from].id != ty.id {
        lemma_first_from(types, ty, from + 1);
    }
    if from == 0 {
        let found = first_from(types, ty, 0);
        if found < types.len() {
            assert(ids_of(types)[found] == ty.id);
        }
        if among(types, ty) {
            lemma_place_of(types, ty);
        }
    }
}

/// Component values that can be asked for one type at a time.
pub trait Batch {
    /// The bytes of the first component of type `ty`, if there is one.
    fn data(&self, ty: TypeInfo) -> Option<Vec<u8>>;

    /// The descriptors of the components, unless one occurs twice.
    fn types(&self) -> Result<Vec<TypeInfo>, StoreError>;
}

impl Batch for Vec<(TypeInfo, Vec<u8>)> {
    /// The bytes of the first of these values whose type is `ty`.
    fn data(&self, ty: TypeInfo) -> (r: Option<Vec<u8>>)
        ensures
            r is Some <==> among(types_of(values_view(self@)), ty),
            r matches Some(bytes) ==> bytes@ == self@[first_from(
                types_of(values_view(self@)),
                ty,
                0,
            )].1@,
    {
        let ghost types = types_of(values_view(self@));
        proof {
            lemma_first_from(types, ty, 0);
        }
        let mut j: usize = 0;
        while j < self.len()
            invariant
                j <= self@.len(),
                types == types_of(values_view(self@)),
                first_from(types, ty, 0) == first_from(types, ty, j as int),
                first_from(types, ty, 0) < types.len() <==> among(types, ty),
            decreases self@.len() - j,
        {
            if self[j].0.id == ty.id {
                return Some(slice_to_vec(self[j].1.as_slice()));
            }
            j += 1;
        }
        None
    }

    /// The descriptors of these values, in their order.
    fn types(&self) -> (r: Result<Vec<TypeInfo>, StoreError>)
        ensures
            match r {
                Ok(types) => types@ == types_of(values_view(self@)) && distinct(types@),
                Err(e) => e == StoreError::DuplicateComponentType && !distinct(
                    types_of(values_view(self@)),
                ),
            },
    {
        let types = types_in(self);
        if has_duplicates(&types) {
            Err(StoreError::DuplicateComponentType)
        } else {
            Ok(types)
        }
    }
}

} // verus!
