//! Sets of paths.
//!
//! The sets are hash sets of `rustc_hash`. What a set holds is spoken of as
//! a set of byte strings; the order in which a hash set is walked is left
//! open, and nothing here walks one.

use core::hash::BuildHasherDefault;
use rustc_hash::{FxHashSet, FxHasher};
use vstd::prelude::*;

verus! {

/// `rustc_hash::FxHasher`, the hasher of the set. Nothing is said of it.
#[verifier::external_type_specification]
#[verifier::external_body]
pub struct ExFxHasher(FxHasher);

/// `core::hash::BuildHasherDefault`, which makes the hashers of the set.
/// Nothing is said of it.
#[verifier::external_type_specification]
#[verifier::external_body]
#[verifier::reject_recursive_types(H)]
pub struct ExBuildHasherDefault<H>(BuildHasherDefault<H>);

/// The paths that a set holds, each as its bytes.
pub uninterp spec fn held(set: FxHashSet<Vec<u8>>) -> Set<Seq<u8>>;

/// An empty set.
///
/// This is `FxHashSet::default`, which makes a `HashSet` without elements.
#[verifier::external_body]
pub(crate) fn empty_set() -> (set: FxHashSet<Vec<u8>>)
    ensures
        held(set) == Set::<Seq<u8>>::empty(),
{
    FxHashSet::default()
}

/// Adds a path to a set and says whether it was new.
///
/// This is `HashSet::insert`: the set holds the value afterwards, and `true`
/// is returned exactly if it did not hold an equal value before. Two byte
/// vectors are equal if they hold the same bytes.
#[verifier::external_body]
pub(crate) fn insert(set: &mut FxHashSet<Vec<u8>>, path: Vec<u8>) -> (fresh: bool)
    ensures
        held(*final(set)) == held(*old(set)).insert(path@),
        fresh == !held(*old(set)).contains(path@),
{
    set.insert(path)
}

/// Whether a set holds a path.
///
/// This is `HashSet::contains`, which says whether the set holds a value
/// equal to the one given. Two byte strings are equal if they hold the same
/// bytes.
#[verifier::external_body]
pub(crate) fn contains(set: &FxHashSet<Vec<u8>>, path: &[u8]) -> (found: bool)
    ensures
        found == held(*set).contains(path@),
{
    set.contains(path)
}

/// Takes a path out of a set and says whether it was there.
///
/// This is `HashSet::remove`: the set does not hold the value afterwards,
/// holds every other value that it held, and `true` is returned exactly if
/// it held the value before.
#[verifier::external_body]
pub(crate) fn remove(set: &mut FxHashSet<Vec<u8>>, path: &[u8]) -> (found: bool)
    ensures
        held(*final(set)) == held(*old(set)).remove(path@),
        found == held(*old(set)).contains(path@),
{
    set.remove(path)
}

/// A set with the paths of another.
///
/// This is `Clone::clone` of `HashSet`, which makes a set that holds a copy
/// of every value of the first.
#[verifier::external_body]
pub(crate) fn copy(set: &FxHashSet<Vec<u8>>) -> (same: FxHashSet<Vec<u8>>)
    ensures
        held(same) == held(*set),
{
    set.clone()
}

} // verus!
