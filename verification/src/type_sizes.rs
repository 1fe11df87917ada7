//! The sizes of the types of a program, in memory cells: the map that
//! `cairo_lang_sierra_type_size` computes.

use vstd::prelude::*;
use cairo_lang_sierra::ids::ConcreteTypeId;
use cairo_lang_sierra_type_size::TypeSizeMap;
use cairo_lang_utils::unordered_hash_map::UnorderedHashMap;
use crate::ids::TypeId;

verus! {

/// `ConcreteTypeId` of `cairo_lang_sierra`: the key of the map.
#[verifier::external_type_specification]
#[verifier::external_body]
pub struct ExConcreteTypeId(ConcreteTypeId);

/// `UnorderedHashMap` of `cairo_lang_utils`.
#[verifier::external_type_specification]
#[verifier::external_body]
#[verifier::reject_recursive_types(Key)]
#[verifier::reject_recursive_types(Value)]
#[verifier::reject_recursive_types(BH)]
pub struct ExUnorderedHashMap<Key, Value, BH>(UnorderedHashMap<Key, Value, BH>);

/// What a map of type sizes holds: for the number of each type in it, the
/// size of that type.
pub uninterp spec fn type_size_entries(m: TypeSizeMap) -> Map<u64, i16>;

/// The size that `m` holds for `ty`, if any.
pub open spec fn spec_type_size(m: TypeSizeMap, ty: TypeId) -> Option<i16> {
    if type_size_entries(m).contains_key(ty.0) {
        Some(type_size_entries(m)[ty.0])
    } else {
        None
    }
}

/// `UnorderedHashMap::get`, by the number of the type (two type identities
/// are equal where their numbers are): the size held for it, if any.
#[verifier::external_body]
pub(crate) fn type_size(m: &TypeSizeMap, ty: TypeId) -> (r: Option<i16>)
    ensures
        r == (if type_size_entries(*m).contains_key(ty.0) {
            Some(type_size_entries(*m)[ty.0])
        } else {
            None
        }),
{
    m.get(&ConcreteTypeId::new(ty.0)).copied()
}

/// The size of `ty` as a count of cells: `None` where the map holds none or
/// a negative one.
pub open spec fn spec_cell_count(m: TypeSizeMap, ty: TypeId) -> Option<usize> {
    match spec_type_size(m, ty) {
        Some(size) => if size >= 0 {
            Some(size as usize)
        } else {
            None
        },
        None => None,
    }
}

/// The size of `ty` as a count of cells.
pub fn cell_count(m: &TypeSizeMap, ty: TypeId) -> (r: Option<usize>)
    ensures
        r == spec_cell_count(*m, ty),
{
    match type_size(m, ty) {
        Some(size) => if size >= 0 {
            Some(size as usize)
        } else {
            None
        },
        None => None,
    }
}

} // verus!
