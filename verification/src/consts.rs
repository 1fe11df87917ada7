//! The constant segments: the values of the constants that the library
//! functions of a program put behind the code, by segment.

use vstd::prelude::*;
use num_bigint::BigInt;
use cairo_lang_sierra_type_size::TypeSizeMap;
use cairo_lang_utils::ordered_hash_map::OrderedHashMap;
use cairo_lang_utils::unordered_hash_map::UnorderedHashMap;
use crate::bigint::bigint_from_usize;
use crate::bigint::bigint_to_usize;
use crate::bigint::bigint_value;
use crate::bigint::bigint_values;
use crate::bigint::bigint_zero;
use crate::bigint::clone_bigints;
use crate::compiler::CompilationError;
use crate::compiler::new_missing_libfunc_error;
use crate::compiler::missing_libfunc_error;
use crate::ids::LibfuncId;
use crate::program::ConstAsBox;
use crate::ids::TypeId;
use crate::program::ConcreteType;
use crate::program::GenericArg;
use crate::program::ResolvedProgram;
use crate::program::TypeDeclaration;
use crate::program::find_type;
use crate::type_sizes::cell_count;
use crate::type_sizes::spec_cell_count;

verus! {

/// The value that selects the variant `variant_index` of an enum of
/// `num_variants` variants: the index itself for at most two variants; for
/// more, the distance `2 (num_variants - 1 - variant_index) + 1` to the
/// entry of the variant in the jump table of a match, counted from its end.
pub open spec fn spec_variant_selector(num_variants: usize, variant_index: usize) -> Option<usize> {
    if num_variants <= 2 {
        Some(variant_index)
    } else if variant_index <= num_variants - 1 && 2 * (num_variants - 1 - variant_index) + 1
        <= usize::MAX {
        Some((2 * (num_variants - 1 - variant_index) + 1) as usize)
    } else {
        None
    }
}

/// The value that selects the variant `variant_index` of an enum of
/// `num_variants` variants.
pub fn get_variant_selector(num_variants: usize, variant_index: usize) -> (r: Option<usize>)
    ensures
        r == spec_variant_selector(num_variants, variant_index),
{
    if num_variants <= 2 {
        Some(variant_index)
    } else if variant_index <= num_variants - 1 {
        let back: usize = num_variants - 1 - variant_index;
        match back.checked_mul(2) {
            None => None,
            Some(twice) => twice.checked_add(1),
        }
    } else {
        None
    }
}

/// Whether every item of the data of a constant is a type.
pub open spec fn all_types(args: Seq<GenericArg>) -> bool {
    forall|k: int| 0 <= k < args.len() ==> (#[trigger] args[k]) is Type
}

/// The words of a constant of an enum type.
pub open spec fn spec_enum_head(
    type_sizes: TypeSizeMap,
    inner_ty: TypeId,
    variants: Seq<TypeId>,
    variant_index: BigInt,
) -> Result<Seq<int>, CompilationError> {
    let index = bigint_value(variant_index);
    if !(0 <= index <= usize::MAX) || index >= variants.len() || variants.len() > usize::MAX {
        Err(CompilationError::ConstDataMismatch)
    } else {
        match spec_variant_selector(variants.len() as usize, index as usize) {
            None => Err(CompilationError::ConstDataMismatch),
            Some(selector) => match (
                spec_cell_count(type_sizes, inner_ty),
                spec_cell_count(type_sizes, variants[index]),
            ) {
                (Some(full), Some(variant)) => if full - variant - 1 < 0 {
                    Err(CompilationError::ConstDataMismatch)
                } else {
                    Ok(
                        seq![selector as int] + Seq::new(
                            (full - variant - 1) as nat,
                            |k: int| 0int,
                        ),
                    )
                },
                _ => Err(CompilationError::FailedBuildingTypeInformation),
            },
        }
    }
}

/// The words of the constant of the type `ty`, where constants may be
/// nested `depth` deep. The type, the type that it wraps and the types of
/// its parts are looked up among all declared types.
///
/// - A constant of a struct is the constants of its fields, in the order of
///   the fields; each item of its data must be a type.
/// - A constant of an enum is the selector of its variant, zeros up to the
///   size of the enum less that of the variant, and the constant of the
///   variant; its data must be the index of the variant and a type.
/// - Any other constant is the one value that is its data.
///
/// A type that is no constant type, or wraps a type that is not declared,
/// has no constant; nor has one that is nested deeper than `depth`.
pub open spec fn spec_extract_const_value(
    types: Seq<TypeDeclaration>,
    type_sizes: TypeSizeMap,
    ty: TypeId,
    depth: nat,
) -> Result<Seq<int>, CompilationError>
    decreases depth, 0int, 0int,
{
    if depth == 0 {
        Err(CompilationError::UnsupportedConstType)
    } else {
        match find_type(types, ty) {
            Some(ConcreteType::Const { inner_ty, inner_data }) => match find_type(types, inner_ty) {
                None => Err(CompilationError::UnsupportedConstType),
                Some(ConcreteType::Struct) => if all_types(inner_data@) {
                    spec_extract_fields(
                        types,
                        type_sizes,
                        inner_data@,
                        (depth - 1) as nat,
                        inner_data@.len() as int,
                    )
                } else {
                    Err(CompilationError::ConstDataMismatch)
                },
                Some(ConcreteType::Enum { variants }) => if inner_data@.len() == 2 {
                    match (inner_data@[0], inner_data@[1]) {
                        (GenericArg::Value(variant_index), GenericArg::Type(payload)) => match spec_enum_head(
                            type_sizes,
                            inner_ty,
                            variants@,
                            variant_index,
                        ) {
                            Err(e) => Err(e),
                            Ok(head) => match spec_extract_const_value(
                                types,
                                type_sizes,
                                payload,
                                (depth - 1) as nat,
                            ) {
                                Err(e) => Err(e),
                                Ok(tail) => Ok(head + tail),
                            },
                        },
                        _ => Err(CompilationError::ConstDataMismatch),
                    }
                } else {
                    Err(CompilationError::ConstDataMismatch)
                },
                Some(_) => if inner_data@.len() == 1 {
                    match inner_data@[0] {
                        GenericArg::Value(value) => Ok(seq![bigint_value(value)]),
                        _ => Err(CompilationError::ConstDataMismatch),
                    }
                } else {
                    Err(CompilationError::ConstDataMismatch)
                },
            },
            _ => Err(CompilationError::UnsupportedConstType),
        }
    }
}

/// The words of the constants of the first `n` of the types `args`, each
/// nested at most `depth` deep: the words of the first, then those of the
/// second, and so on; or the error of the first that has no constant.
pub open spec fn spec_extract_fields(
    types: Seq<TypeDeclaration>,
    type_sizes: TypeSizeMap,
    args: Seq<GenericArg>,
    depth: nat,
    n: int,
) -> Result<Seq<int>, CompilationError>
    decreases depth, 1int, n,
{
    if n <= 0 || n > args.len() {
        Ok(Seq::empty())
    } else {
        match spec_extract_fields(types, type_sizes, args, depth, n - 1) {
            Err(e) => Err(e),
            Ok(done) => match args[n - 1] {
                GenericArg::Type(field) => match spec_extract_const_value(
                    types,
                    type_sizes,
                    field,
                    depth,
                ) {
                    Err(e) => Err(e),
                    Ok(words) => Ok(done + words),
                },
                _ => Err(CompilationError::ConstDataMismatch),
            },
        }
    }
}

/// The words of the constant of the type `ty`. Constants may be nested as
/// deep as there are declared types. A constant type that is a part of
/// itself is nested deeper than any depth, and has no constant.
pub open spec fn spec_const_value(
    types: Seq<TypeDeclaration>,
    type_sizes: TypeSizeMap,
    ty: TypeId,
) -> Result<Seq<int>, CompilationError> {
    spec_extract_const_value(types, type_sizes, ty, types.len())
}

/// A field that has no constant makes every longer list of fields fail with
/// it.
pub proof fn lemma_extract_fields_err(
    types: Seq<TypeDeclaration>,
    type_sizes: TypeSizeMap,
    args: Seq<GenericArg>,
    depth: nat,
    k: int,
    n: int,
)
    requires
        0 <= k <= n <= args.len(),
        spec_extract_fields(types, type_sizes, args, depth, k) is Err,
    ensures
        spec_extract_fields(types, type_sizes, args, depth, n) == spec_extract_fields(
            types,
            type_sizes,
            args,
            depth,
            k,
        ),
    decreases n - k,
{
    if k < n {
        lemma_extract_fields_err(types, type_sizes, args, depth, k + 1, n);
    }
}

/// Whether every item of the data of a constant is a type.
fn check_all_types(args: &Vec<GenericArg>) -> (r: bool)
    ensures
        r == all_types(args@),
{
    let mut k: usize = 0;
    while k < args.len()
        invariant
            k <= args.len(),
            forall|j: int| 0 <= j < k ==> (#[trigger] args@[j]) is Type,
        decreases args.len() - k,
    {
        match &args[k] {
            GenericArg::Type(_) => {},
            _ => {
                return false;
            },
        }
        k += 1;
    }
    true
}

/// Appends the selector and the padding of a constant of an enum.
fn push_enum_head(
    type_sizes: &TypeSizeMap,
    inner_ty: TypeId,
    variants: &Vec<TypeId>,
    variant_index: &BigInt,
    values: &mut Vec<BigInt>,
) -> (r: Result<(), CompilationError>)
    ensures
        match spec_enum_head(*type_sizes, inner_ty, variants@, *variant_index) {
            Ok(head) => r is Ok && bigint_values(final(values)@) == bigint_values(old(values)@)
                + head,
            Err(e) => r == Err::<(), CompilationError>(e),
        },
{
    let index: usize = match bigint_to_usize(variant_index) {
        None => {
            return Err(CompilationError::ConstDataMismatch);
        },
        Some(index) => index,
    };
    if index >= variants.len() {
        return Err(CompilationError::ConstDataMismatch);
    }
    let selector: usize = match get_variant_selector(variants.len(), index) {
        None => {
            return Err(CompilationError::ConstDataMismatch);
        },
        Some(selector) => selector,
    };
    let full: usize = match cell_count(type_sizes, inner_ty) {
        None => {
            return Err(CompilationError::FailedBuildingTypeInformation);
        },
        Some(full) => full,
    };
    let variant: usize = match cell_count(type_sizes, variants[index]) {
        None => {
            return Err(CompilationError::FailedBuildingTypeInformation);
        },
        Some(variant) => variant,
    };
    if full < variant || full - variant < 1 {
        return Err(CompilationError::ConstDataMismatch);
    }
    let padding: usize = full - variant - 1;
    let ghost start = bigint_values(values@);
    values.push(bigint_from_usize(selector));
    assert(bigint_values(values@) =~= start + seq![selector as int]);
    let mut k: usize = 0;
    while k < padding
        invariant
            k <= padding,
            bigint_values(values@) == start + seq![selector as int] + Seq::new(
                k as nat,
                |j: int| 0int,
            ),
        decreases padding - k,
    {
        let ghost before = bigint_values(values@);
        values.push(bigint_zero());
        assert(bigint_values(values@) =~= before.push(0int));
        assert(bigint_values(values@) =~= start + seq![selector as int] + Seq::new(
            (k + 1) as nat,
            |j: int| 0int,
        ));
        k += 1;
    }
    assert(bigint_values(values@) =~= start + (seq![selector as int] + Seq::new(
        padding as nat,
        |j: int| 0int,
    )));
    Ok(())
}

/// Appends to `values` the words of the constant of the type `ty`, where
/// constants may be nested `depth` deep.
pub fn extract_const_value_into(
    program: &ResolvedProgram,
    type_sizes: &TypeSizeMap,
    ty: TypeId,
    depth: usize,
    values: &mut Vec<BigInt>,
) -> (r: Result<(), CompilationError>)
    ensures
        match spec_extract_const_value(
            program.type_declarations@,
            *type_sizes,
            ty,
            depth as nat,
        ) {
            Ok(words) => r is Ok && bigint_values(final(values)@) == bigint_values(old(values)@)
                + words,
            Err(e) => r == Err::<(), CompilationError>(e),
        },
    decreases depth,
{
    let ghost types = program.type_declarations@;
    let ghost start = bigint_values(values@);
    if depth == 0 {
        return Err(CompilationError::UnsupportedConstType);
    }
    let deeper: usize = depth - 1;
    let (inner_ty, inner_data) = match program.get_type(ty) {
        Some(ConcreteType::Const { inner_ty, inner_data }) => (*inner_ty, inner_data),
        _ => {
            return Err(CompilationError::UnsupportedConstType);
        },
    };
    let inner = match program.get_type(inner_ty) {
        None => {
            return Err(CompilationError::UnsupportedConstType);
        },
        Some(inner) => inner,
    };
    match inner {
        ConcreteType::Struct => {
            if !check_all_types(inner_data) {
                return Err(CompilationError::ConstDataMismatch);
            }
            let mut k: usize = 0;
            assert(bigint_values(values@) =~= start + Seq::<int>::empty());
            while k < inner_data.len()
                invariant
                    k <= inner_data.len(),
                    types == program.type_declarations@,
                    all_types(inner_data@),
                    start == bigint_values(old(values)@),
                    deeper < depth,
                    spec_extract_const_value(types, *type_sizes, ty, depth as nat)
                        == spec_extract_fields(
                        types,
                        *type_sizes,
                        inner_data@,
                        deeper as nat,
                        inner_data@.len() as int,
                    ),
                    spec_extract_fields(
                        types,
                        *type_sizes,
                        inner_data@,
                        deeper as nat,
                        k as int,
                    ) matches Ok(done) && bigint_values(values@) == start + done,
                decreases inner_data.len() - k,
            {
                let ghost done = spec_extract_fields(
                    types,
                    *type_sizes,
                    inner_data@,
                    deeper as nat,
                    k as int,
                )->Ok_0;
                match &inner_data[k] {
                    GenericArg::Type(field) => {
                        match extract_const_value_into(program, type_sizes, *field, deeper, values) {
                            Err(e) => {
                                proof {
                                    assert(spec_extract_fields(
                                        types,
                                        *type_sizes,
                                        inner_data@,
                                        deeper as nat,
                                        k + 1,
                                    ) == Err::<Seq<int>, CompilationError>(e));
                                    lemma_extract_fields_err(
                                        types,
                                        *type_sizes,
                                        inner_data@,
                                        deeper as nat,
                                        k + 1,
                                        inner_data@.len() as int,
                                    );
                                }
                                return Err(e);
                            },
                            Ok(()) => {
                                proof {
                                    let words = spec_extract_const_value(
                                        types,
                                        *type_sizes,
                                        *field,
                                        deeper as nat,
                                    )->Ok_0;
                                    assert(start + done + words =~= start + (done + words));
                                }
                            },
                        }
                    },
                    _ => {
                        assert(false);
                    },
                }
                k += 1;
            }
            Ok(())
        },
        ConcreteType::Enum { variants } => {
            if inner_data.len() != 2 {
                return Err(CompilationError::ConstDataMismatch);
            }
            match (&inner_data[0], &inner_data[1]) {
                (GenericArg::Value(variant_index), GenericArg::Type(payload)) => {
                    match push_enum_head(type_sizes, inner_ty, variants, variant_index, values) {
                        Err(e) => {
                            return Err(e);
                        },
                        Ok(()) => {},
                    }
                    let ghost head = spec_enum_head(
                        *type_sizes,
                        inner_ty,
                        variants@,
                        *variant_index,
                    )->Ok_0;
                    match extract_const_value_into(program, type_sizes, *payload, deeper, values) {
                        Err(e) => Err(e),
                        Ok(()) => {
                            proof {
                                let tail = spec_extract_const_value(
                                    types,
                                    *type_sizes,
                                    *payload,
                                    deeper as nat,
                                )->Ok_0;
                                assert(start + head + tail =~= start + (head + tail));
                            }
                            Ok(())
                        },
                    }
                },
                _ => Err(CompilationError::ConstDataMismatch),
            }
        },
        _ => {
            if inner_data.len() != 1 {
                return Err(CompilationError::ConstDataMismatch);
            }
            match &inner_data[0] {
                GenericArg::Value(value) => {
                    values.push(value.clone());
                    assert(bigint_values(values@) =~= start + seq![bigint_value(*value)]);
                    Ok(())
                },
                _ => Err(CompilationError::ConstDataMismatch),
            }
        },
    }
}

/// The words of the constant of the type `ty`.
pub fn extract_const_value(program: &ResolvedProgram, type_sizes: &TypeSizeMap, ty: TypeId) -> (r:
    Result<Vec<BigInt>, CompilationError>)
    ensures
        match spec_const_value(program.type_declarations@, *type_sizes, ty) {
            Ok(words) => r is Ok && bigint_values(r->Ok_0@) == words,
            Err(e) => r is Err && r->Err_0 == e,
        },
{
    let mut values: Vec<BigInt> = Vec::new();
    assert(bigint_values(values@) =~= Seq::<int>::empty());
    match extract_const_value_into(
        program,
        type_sizes,
        ty,
        program.type_declarations.len(),
        &mut values,
    ) {
        Err(e) => Err(e),
        Ok(()) => {
            assert(Seq::<int>::empty() + bigint_values(values@) =~= bigint_values(values@));
            Ok(values)
        },
    }
}

/// `OrderedHashMap` of `cairo_lang_utils`.
#[verifier::external_type_specification]
#[verifier::external_body]
#[verifier::reject_recursive_types(Key)]
#[verifier::reject_recursive_types(Value)]
#[verifier::reject_recursive_types(BH)]
pub struct ExOrderedHashMap<Key, Value, BH>(OrderedHashMap<Key, Value, BH>);

/// `Clone::clone` of `OrderedHashMap`, which the derived `Clone` of
/// `ConstsInfo` calls. Nothing is claimed of it.
pub assume_specification<Key: Clone, Value: Clone, BH: Clone>[ <OrderedHashMap<
    Key,
    Value,
    BH,
> as Clone>::clone ](m: &OrderedHashMap<Key, Value, BH>) -> (r: OrderedHashMap<Key, Value, BH>)
;

/// `Clone::clone` of `UnorderedHashMap`, which the derived `Clone` of
/// `ConstSegment` calls. Nothing is claimed of it for every kind of key and
/// value; see `clone_const_offsets`.
pub assume_specification<Key: Clone, Value: Clone, BH: Clone>[ <UnorderedHashMap<
    Key,
    Value,
    BH,
> as Clone>::clone ](m: &UnorderedHashMap<Key, Value, BH>) -> (r: UnorderedHashMap<Key, Value, BH>)
;

/// The data of one constant segment.
#[derive(Debug, PartialEq, Eq, Clone)]
pub struct ConstSegment {
    /// The values of the segment.
    pub values: Vec<BigInt>,
    /// For the number of each constant type in the segment, the index of
    /// the first value of its constant.
    pub const_offset: UnorderedHashMap<u64, usize>,
    /// The offset of the segment from the end of the code, in words.
    pub segment_offset: usize,
}

/// The constant segments of a program.
#[derive(Debug, PartialEq, Eq, Clone)]
pub struct ConstsInfo {
    /// The segments by their number, in the order of their first use.
    pub segments: OrderedHashMap<u32, ConstSegment>,
    /// The size of all segments in words, the word that ends each included.
    pub total_segments_size: usize,
}

/// What a map of offsets holds.
pub uninterp spec fn const_offsets_model(m: UnorderedHashMap<u64, usize>) -> Map<u64, usize>;

/// What a map of segments holds: the numbers of the segments with their
/// segments, in the order in which the numbers were first inserted.
pub uninterp spec fn segments_model(m: OrderedHashMap<u32, ConstSegment>) -> Seq<
    (u32, ConstSegment),
>;

/// The index of the first entry with the key `key`.
pub open spec fn key_position<V>(s: Seq<(u32, V)>, key: u32) -> Option<int>
    decreases s.len(),
{
    if s.len() == 0 {
        None
    } else if s[0].0 == key {
        Some(0)
    } else {
        match key_position(s.skip(1), key) {
            Some(i) => Some(i + 1),
            None => None,
        }
    }
}

/// `Default::default` of `UnorderedHashMap`: an empty map.
#[verifier::external_body]
fn new_const_offsets() -> (r: UnorderedHashMap<u64, usize>)
    ensures
        forall|k: u64| !const_offsets_model(r).contains_key(k),
{
    UnorderedHashMap::default()
}

/// `Clone::clone` of a map of offsets: a map that holds the same.
#[verifier::external_body]
fn clone_const_offsets(m: &UnorderedHashMap<u64, usize>) -> (r: UnorderedHashMap<u64, usize>)
    ensures
        const_offsets_model(r) == const_offsets_model(*m),
{
    m.clone()
}

/// `UnorderedHashMap::insert`: the map holds `value` for `key` afterwards,
/// and for every other key what it held.
#[verifier::external_body]
fn const_offsets_insert(m: &mut UnorderedHashMap<u64, usize>, key: u64, value: usize)
    ensures
        const_offsets_model(*final(m)) == const_offsets_model(*old(m)).insert(key, value),
{
    m.insert(key, value);
}

/// `UnorderedHashMap::get`: what the map holds for `key`, if anything.
#[verifier::external_body]
pub(crate) fn const_offsets_get(m: &UnorderedHashMap<u64, usize>, key: u64) -> (r: Option<usize>)
    ensures
        r == (if const_offsets_model(*m).contains_key(key) {
            Some(const_offsets_model(*m)[key])
        } else {
            None
        }),
{
    m.get(&key).copied()
}

/// `Default::default` of `OrderedHashMap`: an empty map.
#[verifier::external_body]
fn new_segments() -> (r: OrderedHashMap<u32, ConstSegment>)
    ensures
        segments_model(r).len() == 0,
{
    OrderedHashMap::default()
}

/// `OrderedHashMap::len`: the number of entries.
#[verifier::external_body]
pub(crate) fn segments_len(m: &OrderedHashMap<u32, ConstSegment>) -> (n: usize)
    ensures
        n == segments_model(*m).len(),
{
    m.len()
}

/// `OrderedHashMap::get`: the segment held for `key`, if any.
#[verifier::external_body]
pub(crate) fn segments_get(m: &OrderedHashMap<u32, ConstSegment>, key: u32) -> (r: Option<&ConstSegment>)
    ensures
        match key_position(segments_model(*m), key) {
            Some(i) => r == Some(&segments_model(*m)[i].1),
            None => r is None,
        },
{
    m.get(&key)
}

/// `OrderedHashMap::insert`: where the map holds an entry for `key`, the
/// entry keeps its place and holds `value` afterwards; where it holds none,
/// the new entry comes last.
#[verifier::external_body]
fn segments_insert(m: &mut OrderedHashMap<u32, ConstSegment>, key: u32, value: ConstSegment)
    ensures
        segments_model(*final(m)) == (match key_position(segments_model(*old(m)), key) {
            Some(i) => segments_model(*old(m)).update(i, (key, value)),
            None => segments_model(*old(m)).push((key, value)),
        }),
{
    m.insert(key, value);
}

/// `OrderedHashMap::keys`: the keys in the order of the entries.
#[verifier::external_body]
pub(crate) fn segments_keys(m: &OrderedHashMap<u32, ConstSegment>) -> (r: Vec<u32>)
    ensures
        r@ == segments_model(*m).map_values(|e: (u32, ConstSegment)| e.0),
{
    m.keys().copied().collect()
}

/// `OrderedHashMap::values`: the segments in the order of the entries.
#[verifier::external_body]
pub(crate) fn segments_values(m: &OrderedHashMap<u32, ConstSegment>) -> (r: Vec<&ConstSegment>)
    ensures
        r@.len() == segments_model(*m).len(),
        forall|i: int| 0 <= i < r@.len() ==> *(#[trigger] r@[i]) == segments_model(*m)[i].1,
{
    m.values().collect()
}

/// A `ConstSegment` as a mathematical value.
pub struct ConstSegmentView {
    pub values: Seq<int>,
    pub const_offset: Map<u64, usize>,
    pub segment_offset: usize,
}

impl View for ConstSegment {
    type V = ConstSegmentView;

    open spec fn view(&self) -> ConstSegmentView {
        ConstSegmentView {
            values: bigint_values(self.values@),
            const_offset: const_offsets_model(self.const_offset),
            segment_offset: self.segment_offset,
        }
    }
}

/// A `ConstsInfo` as a mathematical value.
pub struct ConstsInfoView {
    pub segments: Seq<(u32, ConstSegmentView)>,
    pub total_segments_size: usize,
}

/// The entries of a map of segments, as mathematical values.
pub open spec fn segment_views(s: Seq<(u32, ConstSegment)>) -> Seq<(u32, ConstSegmentView)> {
    s.map_values(|e: (u32, ConstSegment)| (e.0, e.1@))
}

impl View for ConstsInfo {
    type V = ConstsInfoView;

    open spec fn view(&self) -> ConstsInfoView {
        ConstsInfoView {
            segments: segment_views(segments_model(self.segments)),
            total_segments_size: self.total_segments_size,
        }
    }
}

/// The number of values of the segments.
pub open spec fn data_size(segments: Seq<(u32, ConstSegmentView)>) -> nat
    decreases segments.len(),
{
    if segments.len() == 0 {
        0
    } else {
        data_size(segments.drop_last()) + segments.last().1.values.len()
    }
}

/// The size in words of the first `k` segments, each with the word that
/// ends the segment before it.
pub open spec fn offset_before(segments: Seq<(u32, ConstSegmentView)>, k: int) -> nat
    decreases k,
{
    if k <= 0 || k > segments.len() {
        0
    } else {
        offset_before(segments, k - 1) + 1 + segments[k - 1].1.values.len()
    }
}

/// Whether the segments are numbered 0, 1, 2, .. in their order.
pub open spec fn keys_in_order(segments: Seq<(u32, ConstSegmentView)>) -> bool {
    forall|i: int| 0 <= i < segments.len() ==> (#[trigger] segments[i]).0 == i
}

/// The segments after the constant of the type `ty`, with the values `data`,
/// was added to the segment `segment_id`: the segment comes last where it is
/// new; the constant starts behind the values that the segment has.
pub open spec fn spec_add_const(
    segments: Seq<(u32, ConstSegmentView)>,
    segment_id: u32,
    ty: TypeId,
    data: Seq<int>,
) -> Seq<(u32, ConstSegmentView)> {
    match key_position(segments, segment_id) {
        Some(i) => segments.update(
            i,
            (
                segment_id,
                ConstSegmentView {
                    values: segments[i].1.values + data,
                    const_offset: segments[i].1.const_offset.insert(
                        ty.0,
                        segments[i].1.values.len() as usize,
                    ),
                    segment_offset: segments[i].1.segment_offset,
                },
            ),
        ),
        None => segments.push(
            (
                segment_id,
                ConstSegmentView {
                    values: data,
                    const_offset: Map::<u64, usize>::empty().insert(ty.0, 0usize),
                    segment_offset: 0,
                },
            ),
        ),
    }
}

/// What the library function `id` adds to the segments `segments`.
pub open spec fn spec_collect_step(
    program: ResolvedProgram,
    type_sizes: TypeSizeMap,
    max_size: usize,
    segments: Seq<(u32, ConstSegmentView)>,
    id: LibfuncId,
) -> Result<Seq<(u32, ConstSegmentView)>, CompilationError> {
    match program.spec_get_libfunc(id) {
        None => Err(CompilationError::ProgramRegistryError(Box::new(missing_libfunc_error(id.0)))),
        Some(libfunc) => match libfunc.const_as_box {
            None => Ok(segments),
            Some(as_box) => match spec_const_value(
                program.type_declarations@,
                type_sizes,
                as_box.const_type,
            ) {
                Err(e) => Err(e),
                Ok(data) => {
                    let next = spec_add_const(
                        segments,
                        as_box.segment_id,
                        as_box.const_type,
                        data,
                    );
                    if data_size(next) + next.len() > max_size {
                        Err(CompilationError::CodeSizeLimitExceeded)
                    } else {
                        Ok(next)
                    }
                },
            },
        },
    }
}

/// The segments that the first `k` of the library functions `ids` fill.
pub open spec fn spec_collect(
    program: ResolvedProgram,
    type_sizes: TypeSizeMap,
    max_size: usize,
    ids: Seq<LibfuncId>,
    k: int,
) -> Result<Seq<(u32, ConstSegmentView)>, CompilationError>
    decreases k,
{
    if k <= 0 || k > ids.len() {
        Ok(Seq::empty())
    } else {
        match spec_collect(program, type_sizes, max_size, ids, k - 1) {
            Err(e) => Err(e),
            Ok(segments) => spec_collect_step(program, type_sizes, max_size, segments, ids[k - 1]),
        }
    }
}

/// The segments `segments`, each with its offset from the end of the code.
pub open spec fn spec_layout(segments: Seq<(u32, ConstSegmentView)>) -> Seq<
    (u32, ConstSegmentView),
> {
    Seq::new(
        segments.len(),
        |i: int|
            (
                segments[i].0,
                ConstSegmentView {
                    values: segments[i].1.values,
                    const_offset: segments[i].1.const_offset,
                    segment_offset: offset_before(segments, i) as usize,
                },
            ),
    )
}

/// The constant segments of the library functions `ids` of `program`, in a
/// room of `max_size` words.
pub open spec fn spec_consts_info(
    program: ResolvedProgram,
    type_sizes: TypeSizeMap,
    ids: Seq<LibfuncId>,
    max_size: usize,
) -> Result<ConstsInfoView, CompilationError> {
    match spec_collect(program, type_sizes, max_size, ids, ids.len() as int) {
        Err(e) => Err(e),
        Ok(segments) => if !keys_in_order(segments) {
            Err(CompilationError::ConstSegmentsOutOfOrder)
        } else {
            Ok(
                ConstsInfoView {
                    segments: spec_layout(segments),
                    total_segments_size: offset_before(segments, segments.len() as int) as usize,
                },
            )
        },
    }
}

impl ConstsInfoView {
    /// Whether the segments are laid out one behind the other: they are
    /// numbered 0, 1, 2, .. in their order, the offset of each is the size
    /// of those before it, each counted with the word that ends the code
    /// or segment before it, and the total is the size of all.
    pub open spec fn well_formed(self) -> bool {
        &&& keys_in_order(self.segments)
        &&& forall|i: int|
            0 <= i < self.segments.len() ==> (#[trigger] self.segments[i]).1.segment_offset
                == offset_before(self.segments, i)
        &&& self.total_segments_size == offset_before(
            self.segments,
            self.segments.len() as int,
        )
    }
}

/// The position of a key is the index of an entry with that key, and a key
/// without position has no entry.
pub proof fn lemma_key_position<V>(s: Seq<(u32, V)>, key: u32)
    ensures
        match key_position(s, key) {
            Some(i) => 0 <= i < s.len() && s[i].0 == key,
            None => forall|j: int| 0 <= j < s.len() ==> (#[trigger] s[j]).0 != key,
        },
    decreases s.len(),
{
    if s.len() > 0 && s[0].0 != key {
        lemma_key_position(s.skip(1), key);
        if key_position(s.skip(1), key).is_none() {
            assert forall|j: int| 0 <= j < s.len() implies (#[trigger] s[j]).0 != key by {
                if j > 0 {
                    assert(s.skip(1)[j - 1] == s[j]);
                }
            }
        }
    }
}

/// The position of a key among the views of the entries is its position
/// among the entries.
pub proof fn lemma_key_position_views(s: Seq<(u32, ConstSegment)>, key: u32)
    ensures
        key_position(segment_views(s), key) == key_position(s, key),
    decreases s.len(),
{
    if s.len() > 0 && s[0].0 != key {
        lemma_key_position_views(s.skip(1), key);
        assert(segment_views(s).skip(1) =~= segment_views(s.skip(1)));
    }
}

/// In segments that are numbered in their order each number has its own
/// position.
pub proof fn lemma_key_position_in_order<V>(s: Seq<(u32, V)>, i: int)
    requires
        0 <= i < s.len(),
        forall|j: int| 0 <= j < s.len() ==> (#[trigger] s[j]).0 == j,
    ensures
        key_position(s, i as u32) == Some(i),
{
    lemma_key_position(s, i as u32);
    assert(s[i].0 == i);
    match key_position(s, i as u32) {
        Some(p) => {
            assert(s[p].0 == p);
        },
        None => {},
    }
}

/// A new value changes the number of values by the difference of the sizes.
pub proof fn lemma_data_size_update(
    s: Seq<(u32, ConstSegmentView)>,
    i: int,
    x: (u32, ConstSegmentView),
)
    requires
        0 <= i < s.len(),
    ensures
        data_size(s.update(i, x)) == data_size(s) - s[i].1.values.len() + x.1.values.len(),
        data_size(s) >= s[i].1.values.len(),
    decreases s.len(),
{
    if i == s.len() - 1 {
        assert(s.update(i, x).drop_last() =~= s.drop_last());
    } else {
        lemma_data_size_update(s.drop_last(), i, x);
        assert(s.update(i, x).drop_last() =~= s.drop_last().update(i, x));
    }
}

/// The size of the first `k` segments is the number of their values and one
/// word for each.
pub proof fn lemma_offset_before_total(s: Seq<(u32, ConstSegmentView)>, k: int)
    requires
        0 <= k <= s.len(),
    ensures
        offset_before(s, k) == data_size(s.take(k)) + k,
        offset_before(s, k) <= data_size(s) + s.len(),
    decreases s.len() - k,
{
    lemma_offset_before_prefix(s, k);
    if k < s.len() {
        lemma_offset_before_total(s, k + 1);
    } else {
        assert(s.take(k) =~= s);
    }
}

/// The size of the first `k` segments is the number of their values and one
/// word for each.
pub proof fn lemma_offset_before_prefix(s: Seq<(u32, ConstSegmentView)>, k: int)
    requires
        0 <= k <= s.len(),
    ensures
        offset_before(s, k) == data_size(s.take(k)) + k,
    decreases k,
{
    if k > 0 {
        lemma_offset_before_prefix(s, k - 1);
        assert(s.take(k).drop_last() =~= s.take(k - 1));
    }
}

/// The offsets depend on the numbers of values alone.
pub proof fn lemma_offset_before_same_sizes(
    a: Seq<(u32, ConstSegmentView)>,
    b: Seq<(u32, ConstSegmentView)>,
    k: int,
)
    requires
        a.len() == b.len(),
        forall|j: int| 0 <= j < a.len() ==> (#[trigger] a[j]).1.values.len() == b[j].1.values.len(),
    ensures
        offset_before(a, k) == offset_before(b, k),
    decreases k,
{
    if 0 < k <= a.len() {
        lemma_offset_before_same_sizes(a, b, k - 1);
    }
}

/// A failure at one of the first `k` library functions is the failure of
/// the whole.
pub proof fn lemma_collect_err(
    program: ResolvedProgram,
    type_sizes: TypeSizeMap,
    max_size: usize,
    ids: Seq<LibfuncId>,
    k: int,
)
    requires
        0 <= k <= ids.len(),
        spec_collect(program, type_sizes, max_size, ids, k) is Err,
    ensures
        spec_collect(program, type_sizes, max_size, ids, ids.len() as int) == spec_collect(
            program,
            type_sizes,
            max_size,
            ids,
            k,
        ),
    decreases ids.len() - k,
{
    if k < ids.len() {
        lemma_collect_err(program, type_sizes, max_size, ids, k + 1);
    }
}

/// The values of a concatenation are the values of its parts.
pub proof fn lemma_bigint_values_add(a: Seq<BigInt>, b: Seq<BigInt>)
    ensures
        bigint_values(a + b) == bigint_values(a) + bigint_values(b),
{
    assert(bigint_values(a + b) =~= bigint_values(a) + bigint_values(b));
}

impl Default for ConstSegment {
    /// A segment without values.
    fn default() -> (r: ConstSegment)
        ensures
            r@.values.len() == 0,
            r@.const_offset == Map::<u64, usize>::empty(),
            r@.segment_offset == 0,
    {
        let r = ConstSegment { values: Vec::new(), const_offset: new_const_offsets(), segment_offset: 0 };
        assert(r@.const_offset =~= Map::<u64, usize>::empty());
        r
    }
}

impl Default for ConstsInfo {
    /// No segments.
    fn default() -> (r: ConstsInfo)
        ensures
            r@.segments.len() == 0,
            r@.total_segments_size == 0,
    {
        ConstsInfo { segments: new_segments(), total_segments_size: 0 }
    }
}

/// Adds the constant of the type `as_box.const_type`, with the values
/// `data`, to its segment.
fn add_const(segments: &mut OrderedHashMap<u32, ConstSegment>, as_box: ConstAsBox, data: Vec<BigInt>)
    ensures
        segment_views(segments_model(*final(segments))) == spec_add_const(
            segment_views(segments_model(*old(segments))),
            as_box.segment_id,
            as_box.const_type,
            bigint_values(data@),
        ),
{
    let ghost model = segments_model(*segments);
    let ghost views = segment_views(model);
    proof {
        lemma_key_position_views(model, as_box.segment_id);
        lemma_key_position(model, as_box.segment_id);
    }
    let mut data = data;
    let ghost words = data@;
    let mut values: Vec<BigInt>;
    let mut const_offset: UnorderedHashMap<u64, usize>;
    let segment_offset: usize;
    match segments_get(segments, as_box.segment_id) {
        Some(segment) => {
            values = clone_bigints(&segment.values);
            const_offset = clone_const_offsets(&segment.const_offset);
            segment_offset = segment.segment_offset;
        },
        None => {
            values = Vec::new();
            const_offset = new_const_offsets();
            segment_offset = 0;
            assert(const_offsets_model(const_offset) =~= Map::<u64, usize>::empty());
            assert(bigint_values(values@) =~= Seq::<int>::empty());
        },
    }
    let ghost before_values = values@;
    const_offsets_insert(&mut const_offset, as_box.const_type.0, values.len());
    values.append(&mut data);
    proof {
        lemma_bigint_values_add(before_values, words);
        assert(Seq::<int>::empty() + bigint_values(words) =~= bigint_values(words));
    }
    let segment = ConstSegment { values, const_offset, segment_offset };
    segments_insert(segments, as_box.segment_id, segment);
    proof {
        let after = segments_model(*segments);
        match key_position(model, as_box.segment_id) {
            Some(i) => {
                assert(segment_views(after) =~= views.update(i, (as_box.segment_id, segment@)));
            },
            None => {
                assert(segment_views(after) =~= views.push((as_box.segment_id, segment@)));
            },
        }
    }
}

/// The segments that the library functions `libfunc_ids` fill.
fn collect_segments(
    program: &ResolvedProgram,
    type_sizes: &TypeSizeMap,
    libfunc_ids: &Vec<LibfuncId>,
    const_segments_max_size: usize,
) -> (r: Result<OrderedHashMap<u32, ConstSegment>, CompilationError>)
    ensures
        match spec_collect(
            *program,
            *type_sizes,
            const_segments_max_size,
            libfunc_ids@,
            libfunc_ids@.len() as int,
        ) {
            Ok(views) => r is Ok && segment_views(segments_model(r->Ok_0)) == views && data_size(
                views,
            ) + views.len() <= const_segments_max_size,
            Err(e) => r is Err && r->Err_0 == e,
        },
{
    let mut segments = new_segments();
    let mut segments_data_size: usize = 0;
    let mut k: usize = 0;
    assert(segment_views(segments_model(segments)) =~= Seq::<(u32, ConstSegmentView)>::empty());
    while k < libfunc_ids.len()
        invariant
            k <= libfunc_ids.len(),
            spec_collect(*program, *type_sizes, const_segments_max_size, libfunc_ids@, k as int)
                == Ok::<Seq<(u32, ConstSegmentView)>, CompilationError>(
                segment_views(segments_model(segments)),
            ),
            segments_data_size == data_size(segment_views(segments_model(segments))),
            segments_data_size + segments_model(segments).len() <= const_segments_max_size,
        decreases libfunc_ids.len() - k,
    {
        let id = libfunc_ids[k];
        let ghost views = segment_views(segments_model(segments));
        let libfunc = match program.get_libfunc(id) {
            None => {
                let error = new_missing_libfunc_error(id);
                proof {
                    lemma_collect_err(
                        *program,
                        *type_sizes,
                        const_segments_max_size,
                        libfunc_ids@,
                        k + 1,
                    );
                }
                return Err(CompilationError::ProgramRegistryError(error));
            },
            Some(libfunc) => libfunc,
        };
        match libfunc.const_as_box {
            None => {},
            Some(as_box) => {
                let data = match extract_const_value(program, type_sizes, as_box.const_type) {
                    Err(e) => {
                        proof {
                            lemma_collect_err(
                                *program,
                                *type_sizes,
                                const_segments_max_size,
                                libfunc_ids@,
                                k + 1,
                            );
                        }
                        return Err(e);
                    },
                    Ok(data) => data,
                };
                let data_len: usize = data.len();
                let ghost words = bigint_values(data@);
                add_const(&mut segments, as_box, data);
                let ghost next = segment_views(segments_model(segments));
                proof {
                    lemma_key_position(views, as_box.segment_id);
                    match key_position(views, as_box.segment_id) {
                        Some(i) => {
                            lemma_data_size_update(views, i, next[i]);
                        },
                        None => {
                            assert(next.drop_last() =~= views);
                        },
                    }
                    assert(data_size(next) == data_size(views) + words.len());
                }
                let fits: bool = match segments_data_size.checked_add(data_len) {
                    None => false,
                    Some(size) => match size.checked_add(segments_len(&segments)) {
                        None => false,
                        Some(total) => total <= const_segments_max_size,
                    },
                };
                if !fits {
                    proof {
                        lemma_collect_err(
                            *program,
                            *type_sizes,
                            const_segments_max_size,
                            libfunc_ids@,
                            k + 1,
                        );
                    }
                    return Err(CompilationError::CodeSizeLimitExceeded);
                }
                segments_data_size = segments_data_size + data_len;
            },
        }
        k += 1;
    }
    Ok(segments)
}

/// Whether the segments are numbered 0, 1, 2, .. in their order.
fn check_segment_order(segments: &OrderedHashMap<u32, ConstSegment>) -> (r: bool)
    ensures
        r == keys_in_order(segment_views(segments_model(*segments))),
{
    let ghost views = segment_views(segments_model(*segments));
    let keys = segments_keys(segments);
    let mut i: usize = 0;
    while i < keys.len()
        invariant
            i <= keys@.len(),
            keys@.len() == views.len(),
            views == segment_views(segments_model(*segments)),
            keys@ == segments_model(*segments).map_values(|e: (u32, ConstSegment)| e.0),
            forall|j: int| 0 <= j < i ==> (#[trigger] views[j]).0 == j,
        decreases keys@.len() - i,
    {
        assert(views[i as int].0 == keys@[i as int]);
        if keys[i] as usize != i {
            return false;
        }
        i += 1;
    }
    true
}

/// Gives each segment its offset from the end of the code, and returns the
/// size of all segments.
fn lay_out_segments(segments: &mut OrderedHashMap<u32, ConstSegment>) -> (total: usize)
    requires
        keys_in_order(segment_views(segments_model(*old(segments)))),
        data_size(segment_views(segments_model(*old(segments)))) + segments_model(
            *old(segments),
        ).len() <= usize::MAX,
    ensures
        segment_views(segments_model(*final(segments))) == spec_layout(
            segment_views(segments_model(*old(segments))),
        ),
        total == offset_before(
            segment_views(segments_model(*old(segments))),
            segments_model(*old(segments)).len() as int,
        ),
{
    let ghost collected = segment_views(segments_model(*segments));
    let n: usize = segments_len(segments);
    let mut total: usize = 0;
    let mut j: usize = 0;
    while j < n
        invariant
            j <= n,
            n == collected.len(),
            n == segments_model(*segments).len(),
            keys_in_order(collected),
            data_size(collected) + n <= usize::MAX,
            total == offset_before(collected, j as int),
            forall|p: int|
                0 <= p < n ==> {
                    let e = #[trigger] segment_views(segments_model(*segments))[p];
                    &&& e.0 == collected[p].0
                    &&& e.1.values == collected[p].1.values
                    &&& e.1.const_offset == collected[p].1.const_offset
                    &&& e.1.segment_offset == (if p < j {
                        offset_before(collected, p) as usize
                    } else {
                        collected[p].1.segment_offset
                    })
                },
        decreases n - j,
    {
        let ghost model = segments_model(*segments);
        let ghost views = segment_views(model);
        proof {
            assert forall|q: int| 0 <= q < model.len() implies (#[trigger] model[q]).0 == q by {
                assert(views[q].0 == collected[q].0);
            }
            lemma_key_position_in_order(model, j as int);
            lemma_offset_before_total(collected, j + 1);
        }
        let key: u32 = j as u32;
        match segments_get(segments, key) {
            None => {
                assert(false);
            },
            Some(segment) => {
                assert(views[j as int].1 == segment@);
                let values = clone_bigints(&segment.values);
                let size: usize = values.len();
                let placed = ConstSegment {
                    values,
                    const_offset: clone_const_offsets(&segment.const_offset),
                    segment_offset: total,
                };
                segments_insert(segments, key, placed);
                assert(segment_views(segments_model(*segments)) =~= views.update(
                    j as int,
                    (key, placed@),
                ));
                total = total + 1 + size;
            },
        }
        j += 1;
    }
    assert(segment_views(segments_model(*segments)) =~= spec_layout(collected));
    total
}

/// What is laid out is well formed.
pub proof fn lemma_layout_well_formed(collected: Seq<(u32, ConstSegmentView)>)
    requires
        keys_in_order(collected),
        data_size(collected) + collected.len() <= usize::MAX,
    ensures
        (ConstsInfoView {
            segments: spec_layout(collected),
            total_segments_size: offset_before(collected, collected.len() as int) as usize,
        }).well_formed(),
{
    let laid = spec_layout(collected);
    assert forall|p: int| 0 <= p <= collected.len() implies offset_before(laid, p)
        == offset_before(collected, p) && offset_before(collected, p) <= usize::MAX by {
        lemma_offset_before_same_sizes(laid, collected, p);
        lemma_offset_before_total(collected, p);
    }
    assert forall|i: int| 0 <= i < laid.len() implies (#[trigger] laid[i]).0 == i by {
        assert(collected[i].0 == i);
    }
}

impl ConstsInfo {
    /// The constant segments of the library functions `libfunc_ids` of
    /// `program`, in a room of `const_segments_max_size` words.
    pub fn new(
        program: &ResolvedProgram,
        type_sizes: &TypeSizeMap,
        libfunc_ids: &Vec<LibfuncId>,
        const_segments_max_size: usize,
    ) -> (r: Result<ConstsInfo, CompilationError>)
        ensures
            match spec_consts_info(*program, *type_sizes, libfunc_ids@, const_segments_max_size) {
                Ok(info) => r is Ok && r->Ok_0@ == info,
                Err(e) => r is Err && r->Err_0 == e,
            },
            r is Ok ==> r->Ok_0@.well_formed() && r->Ok_0@.total_segments_size
                <= const_segments_max_size,
    {
        let mut segments = match collect_segments(
            program,
            type_sizes,
            libfunc_ids,
            const_segments_max_size,
        ) {
            Err(e) => {
                return Err(e);
            },
            Ok(segments) => segments,
        };
        let ghost collected = segment_views(segments_model(segments));
        if !check_segment_order(&segments) {
            return Err(CompilationError::ConstSegmentsOutOfOrder);
        }
        let total = lay_out_segments(&mut segments);
        proof {
            lemma_layout_well_formed(collected);
            lemma_offset_before_total(collected, collected.len() as int);
        }
        Ok(ConstsInfo { segments, total_segments_size: total })
    }
}

} // verus!
