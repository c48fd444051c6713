//! The parts of `im` that the property checks use. Each item here is trusted.
//! The queries that the checks test (`len`, `get`, `==`, `range`) answer named
//! results that nothing here relates to the contents: the checks compare those
//! answers with references of their own. `ptr_eq` depends on addresses as
//! well, so it is not named. The building methods (`collect`, `pop_front`,
//! `remove`, `split_at`, `append`, `clone`, `set`) record, under a relation
//! name, which vectors they took and made, and state what their documentation
//! and source say they do to the elements that iteration yields.

use vstd::prelude::*;
use im::{OrdMap, Vector};

verus! {

#[verifier::external_type_specification]
#[verifier::external_body]
#[verifier::reject_recursive_types(A)]
pub struct ExVector<A>(Vector<A>);

#[verifier::external_type_specification]
#[verifier::external_body]
#[verifier::reject_recursive_types(K)]
#[verifier::reject_recursive_types(V)]
pub struct ExOrdMap<K, V>(OrdMap<K, V>);

/// The elements of a vector, front to back, as its iterator yields them.
pub uninterp spec fn vector_items(v: Vector<i32>) -> Seq<i32>;

/// What `Vector::len` answers on a vector.
pub uninterp spec fn vector_len_answer(v: Vector<i32>) -> usize;

/// What `Vector::get` answers on a vector and an index.
pub uninterp spec fn vector_get_answer(v: Vector<i32>, index: usize) -> Option<i32>;

/// `v` is a vector that `collect` built from the elements `xs`.
pub uninterp spec fn vector_collected(xs: Seq<i32>, v: Vector<i32>) -> bool;

/// `after` is what `pop_front` left of `before`.
pub uninterp spec fn vector_popped(before: Vector<i32>, after: Vector<i32>) -> bool;

/// `after` is what `remove(index)` left of `before`.
pub uninterp spec fn vector_removed(before: Vector<i32>, index: usize, after: Vector<i32>) -> bool;

/// `left` and `right` are what `split_at(index)` made of `v`.
pub uninterp spec fn vector_split(
    v: Vector<i32>,
    index: usize,
    left: Vector<i32>,
    right: Vector<i32>,
) -> bool;

/// `after` is what `append(other)` made of `before`.
pub uninterp spec fn vector_appended(before: Vector<i32>, other: Vector<i32>, after: Vector<i32>) -> bool;

/// `copy` is what `clone` made of `original`.
pub uninterp spec fn vector_cloned(original: Vector<i32>, copy: Vector<i32>) -> bool;

/// `after` is what `set(index, value)` made of `before`.
pub uninterp spec fn vector_set_from(
    before: Vector<i32>,
    index: usize,
    value: i32,
    after: Vector<i32>,
) -> bool;

/// What `PartialEq::eq` answers on two vectors.
pub uninterp spec fn vector_eq_answer(a: Vector<i32>, b: Vector<i32>) -> bool;

/// The keys of a map whose values carry no information.
pub uninterp spec fn ordmap_key_set(m: OrdMap<usize, ()>) -> Set<usize>;

/// The key/value entries of a map.
pub uninterp spec fn ordmap_entries(m: OrdMap<i32, i32>) -> Map<i32, i32>;

/// The keys, in the order yielded, of what `OrdMap::range(lo..hi)` answers.
pub uninterp spec fn ordmap_range_keys(m: OrdMap<usize, ()>, lo: usize, hi: usize) -> Seq<usize>;

/// The keys, in the order yielded, of what `OrdMap::range(..hi)` answers.
pub uninterp spec fn ordmap_prefix_keys(m: OrdMap<usize, ()>, hi: usize) -> Seq<usize>;

/// The keys, in the order yielded, of what `OrdMap::range(..hi)` answers.
pub uninterp spec fn ordmap_i32_prefix_keys(m: OrdMap<i32, i32>, hi: i32) -> Seq<i32>;

/// The keys named by a sequence of `(key, ())` pairs.
pub open spec fn unit_pair_keys(pairs: Seq<(usize, ())>) -> Set<usize> {
    Set::new(|k: usize| exists|i: int| 0 <= i < pairs.len() && pairs[i].0 == k)
}

/// The map that inserting the pairs one after the other, into an empty map, builds:
/// a later pair replaces an earlier one with the same key.
pub open spec fn entries_inserted(pairs: Seq<(i32, i32)>) -> Map<i32, i32>
    decreases pairs.len(),
{
    if pairs.len() == 0 {
        Map::empty()
    } else {
        entries_inserted(pairs.drop_last()).insert(pairs.last().0, pairs.last().1)
    }
}

// ---------------------------------------------------------------- Vector

/// `FromIterator::from_iter` of `im::Vector` (`collect`): it pushes each element
/// to the back in turn, so the vector holds the slice's elements in order, and
/// its length is the number of elements pushed.
#[verifier::external_body]
pub(crate) fn vector_from_slice(xs: &[i32]) -> (v: Vector<i32>)
    ensures
        vector_collected(xs@, v),
        vector_items(v) == xs@,
        vector_len_answer(v) == xs@.len(),
{
    xs.iter().cloned().collect()
}

/// `im::Vector::len`: its answer, under the name `vector_len_answer`; nothing
/// more is claimed of it.
#[verifier::external_body]
pub(crate) fn vector_len(v: &Vector<i32>) -> (n: usize)
    ensures
        n == vector_len_answer(*v),
{
    v.len()
}

/// `im::Vector::get`: its answer, under the name `vector_get_answer`; nothing
/// more is claimed of it.
#[verifier::external_body]
pub(crate) fn vector_get(v: &Vector<i32>, index: usize) -> (r: Option<i32>)
    ensures
        r == vector_get_answer(*v, index),
{
    v.get(index).cloned()
}

/// `im::Vector::iter`, collected: the elements front to back.
#[verifier::external_body]
pub(crate) fn vector_to_vec(v: &Vector<i32>) -> (r: Vec<i32>)
    ensures
        r@ == vector_items(*v),
{
    v.iter().cloned().collect()
}

/// `im::Vector::pop_front`: when `len` answers zero it returns `None` and leaves
/// the vector as it is; otherwise it removes the first element from the
/// vector's storage and returns it.
#[verifier::external_body]
pub(crate) fn vector_pop_front(v: &mut Vector<i32>) -> (r: Option<i32>)
    ensures
        vector_popped(*old(v), *final(v)),
        vector_len_answer(*old(v)) == 0 ==> r is None && *final(v) == *old(v),
        vector_len_answer(*old(v)) != 0 && vector_items(*old(v)).len() > 0 ==> r == Some(
            vector_items(*old(v))[0],
        ) && vector_items(*final(v)) == vector_items(*old(v)).drop_first(),
{
    v.pop_front()
}

/// `im::Vector::remove`: removes and returns the element at `index`, shifting
/// the later ones left. It asserts that `index` is below what `len` answers.
#[verifier::external_body]
pub(crate) fn vector_remove(v: &mut Vector<i32>, index: usize) -> (r: i32)
    requires
        index < vector_len_answer(*old(v)),
    ensures
        vector_removed(*old(v), index, *final(v)),
        index < vector_items(*old(v)).len() ==> r == vector_items(*old(v))[index as int]
            && vector_items(*final(v)) == vector_items(*old(v)).remove(index as int),
{
    v.remove(index)
}

/// `im::Vector::split_at`: the elements before `index` and those from `index`
/// on. It asserts that `index` is at most what `len` answers.
#[verifier::external_body]
pub(crate) fn vector_split_at(v: Vector<i32>, index: usize) -> (r: (Vector<i32>, Vector<i32>))
    requires
        index <= vector_len_answer(v),
    ensures
        vector_split(v, index, r.0, r.1),
        index <= vector_items(v).len() ==> vector_items(r.0) == vector_items(v).subrange(
            0,
            index as int,
        ) && vector_items(r.1) == vector_items(v).subrange(
            index as int,
            vector_items(v).len() as int,
        ),
{
    v.split_at(index)
}

/// `im::Vector::append`: the elements of `other` follow those of the vector.
#[verifier::external_body]
pub(crate) fn vector_append(v: &mut Vector<i32>, other: Vector<i32>)
    ensures
        vector_appended(*old(v), other, *final(v)),
        vector_items(*final(v)) == vector_items(*old(v)) + vector_items(other),
{
    v.append(other)
}

/// `Clone::clone` of `im::Vector`: a vector with the same storage, so the
/// same elements and the same length, sharing its heap chunks with the vector
/// it copies.
#[verifier::external_body]
pub(crate) fn vector_clone(v: &Vector<i32>) -> (r: Vector<i32>)
    ensures
        vector_cloned(*v, r),
        vector_items(r) == vector_items(*v),
        vector_len_answer(r) == vector_len_answer(*v),
{
    v.clone()
}

/// `im::Vector::set`: replaces the element at `index` and returns the one it
/// replaced. It panics unless `index` is below what `len` answers.
#[verifier::external_body]
pub(crate) fn vector_set(v: &mut Vector<i32>, index: usize, value: i32) -> (r: i32)
    requires
        index < vector_len_answer(*old(v)),
    ensures
        vector_set_from(*old(v), index, value, *final(v)),
        index < vector_items(*old(v)).len() ==> r == vector_items(*old(v))[index as int]
            && vector_items(*final(v)) == vector_items(*old(v)).update(index as int, value),
{
    v.set(index, value)
}

/// `im::Vector::ptr_eq`: whether the two vectors refer to the same content in
/// memory. Its answer also depends on where the two vectors are (it compares
/// their addresses first), so it is not named; what holds whatever the
/// addresses is that a `true` answer means the same elements.
#[verifier::external_body]
pub(crate) fn vector_ptr_eq(a: &Vector<i32>, b: &Vector<i32>) -> (r: bool)
    ensures
        r ==> vector_items(*a) == vector_items(*b),
{
    a.ptr_eq(b)
}

/// `PartialEq::eq` of `im::Vector`: its answer, under the name
/// `vector_eq_answer`; nothing more is claimed of it.
#[verifier::external_body]
pub(crate) fn vector_eq(a: &Vector<i32>, b: &Vector<i32>) -> (r: bool)
    ensures
        r == vector_eq_answer(*a, *b),
{
    a == b
}

// ---------------------------------------------------------------- OrdMap

/// `FromIterator::from_iter` of `im::OrdMap` (`collect`) on `(key, ())` pairs:
/// the map's keys are the pairs' keys.
#[verifier::external_body]
pub(crate) fn ordmap_from_unit_pairs(pairs: &[(usize, ())]) -> (m: OrdMap<usize, ()>)
    ensures
        ordmap_key_set(m) == unit_pair_keys(pairs@),
{
    pairs.iter().cloned().collect()
}

/// `FromIterator::from_iter` of `im::OrdMap` (`collect`): it inserts the pairs
/// in turn, a later one replacing an earlier one with the same key.
#[verifier::external_body]
pub(crate) fn ordmap_from_pairs(pairs: &[(i32, i32)]) -> (m: OrdMap<i32, i32>)
    ensures
        ordmap_entries(m) == entries_inserted(pairs@),
{
    pairs.iter().cloned().collect()
}

/// `im::OrdMap::range(lo..hi)`, keys collected in the order yielded: the
/// answer, under the name `ordmap_range_keys`; nothing more is claimed of it.
#[verifier::external_body]
pub(crate) fn ordmap_keys_between(m: &OrdMap<usize, ()>, lo: usize, hi: usize) -> (ks: Vec<usize>)
    ensures
        ks@ == ordmap_range_keys(*m, lo, hi),
{
    m.range(lo..hi).map(|(k, _)| *k).collect()
}

/// `im::OrdMap::range(..hi)`, keys collected in the order yielded: the
/// answer, under the name `ordmap_prefix_keys`; nothing more is claimed of it.
#[verifier::external_body]
pub(crate) fn ordmap_keys_below(m: &OrdMap<usize, ()>, hi: usize) -> (ks: Vec<usize>)
    ensures
        ks@ == ordmap_prefix_keys(*m, hi),
{
    m.range(..hi).map(|(k, _)| *k).collect()
}

/// `im::OrdMap::range(..hi)`, keys collected in the order yielded: the
/// answer, under the name `ordmap_i32_prefix_keys`; nothing more is claimed of it.
#[verifier::external_body]
pub(crate) fn ordmap_i32_keys_below(m: &OrdMap<i32, i32>, hi: i32) -> (ks: Vec<i32>)
    ensures
        ks@ == ordmap_i32_prefix_keys(*m, hi),
{
    m.range(..hi).map(|(k, _)| *k).collect()
}

} // verus!
