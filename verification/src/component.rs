//! What an actor is made from: component values, each with the descriptor of
//! its type.

use crate::model::{types_of, values_view, well_sized, Values};
use crate::type_info::TypeInfo;
use vstd::prelude::*;
use vstd::slice::slice_to_vec;

verus! {

/// A type whose values can be components of an actor.
pub trait Component: Send + Sync + 'static {

}

/// Something an actor can be created from: it gives, for each component,
/// the descriptor of its type and the bytes of its value.
pub trait ComponentSource {
    /// The components that this source gives.
    spec fn values(&self) -> Values;

    /// The components: each with its descriptor and its bytes.
    fn types(&self) -> (values: Vec<(TypeInfo, Vec<u8>)>)
        ensures
            values_view(values@) == self.values(),
    ;
}

impl ComponentSource for Vec<(TypeInfo, Vec<u8>)> {
    /// The components themselves.
    open spec fn values(&self) -> Values {
        values_view(self@)
    }

    /// The components themselves.
    fn types(&self) -> (values: Vec<(TypeInfo, Vec<u8>)>) {
        let mut values: Vec<(TypeInfo, Vec<u8>)> = Vec::new();
        let mut j: usize = 0;
        while j < self.len()
            invariant
                j <= self@.len(),
                values@.len() == j,
                forall|k: int|
                    0 <= k < j ==> (#[trigger] values@[k]).0 == self@[k].0 && values@[k].1@
                        == self@[k].1@,
            decreases self@.len() - j,
        {
            values.push((self[j].0, slice_to_vec(self[j].1.as_slice())));
            j += 1;
        }
        proof {
            assert(values_view(values@) =~= values_view(self@));
        }
        values
    }
}

/// The descriptors of `values`, in their order.
pub fn types_in(values: &Vec<(TypeInfo, Vec<u8>)>) -> (types: Vec<TypeInfo>)
    ensures
        types@ == types_of(values_view(values@)),
{
    let mut types: Vec<TypeInfo> = Vec::new();
    let mut j: usize = 0;
    while j < values.len()
        invariant
            j <= values.len(),
            types@.len() == j,
            forall|k: int| 0 <= k < j ==> types@[k] == values@[k].0,
        decreases values.len() - j,
    {
        types.push(values[j].0);
        j += 1;
    }
    proof {
        assert(types@ =~= types_of(values_view(values@)));
    }
    types
}

/// Whether each of `values` is as long as its descriptor says.
pub fn values_well_sized(values: &Vec<(TypeInfo, Vec<u8>)>) -> (ok: bool)
    ensures
        ok == well_sized(values_view(values@)),
{
    let mut j: usize = 0;
    while j < values.len()
        invariant
            j <= values.len(),
            forall|k: int|
                0 <= k < j ==> (#[trigger] values_view(values@)[k]).1.len() == values_view(
                    values@,
                )[k].0.size,
        decreases values.len() - j,
    {
        if values[j].1.len() != values[j].0.size {
            proof {
                let bad = values_view(values@)[j as int];
                assert(bad.1.len() != bad.0.size);
            }
            return false;
        }
        j += 1;
    }
    true
}

} // verus!
