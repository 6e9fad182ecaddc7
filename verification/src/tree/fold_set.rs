use vstd::prelude::*;
use crate::tree::id::ID;
use rustc_hash::FxBuildHasher;
use std::collections::HashSet;

verus! {

/// The hasher builder of `rustc_hash`, used by its `FxHashSet`.
#[verifier::external_type_specification]
#[verifier::external_body]
pub struct ExFxBuildHasher(rustc_hash::FxBuildHasher);

/// A set of module ids, as `rustc_hash::FxHashSet` holds them.
pub type IdSet = HashSet<ID, FxBuildHasher>;

/// The texts of the ids that the set holds.
pub uninterp spec fn expanded_ids(s: HashSet<ID, FxBuildHasher>) -> Set<Seq<char>>;

/// Calls `FxHashSet::default`.
/// Claims: the new set holds no id.
#[verifier::external_body]
pub(crate) fn new_id_set() -> (r: HashSet<ID, FxBuildHasher>)
    ensures
        expanded_ids(r) == Set::<Seq<char>>::empty(),
{
    HashSet::default()
}

/// Calls `HashSet::contains`. `ID`'s `Eq` and `Hash` are derived from its text, and
/// `FxBuildHasher` hashes the same text the same way each time.
/// Claims: the result tells whether an id with the same text is in the set.
#[verifier::external_body]
pub(crate) fn contains_id(s: &HashSet<ID, FxBuildHasher>, id: &ID) -> (r: bool)
    ensures
        r == expanded_ids(*s).contains(id@),
{
    s.contains(id)
}

/// Calls `HashSet::insert`.
/// Claims: afterwards the set also holds the id's text, and nothing else changed.
#[verifier::external_body]
pub(crate) fn insert_id(s: &mut HashSet<ID, FxBuildHasher>, id: ID)
    ensures
        expanded_ids(*final(s)) == expanded_ids(*old(s)).insert(id@),
{
    s.insert(id);
}

/// Calls `HashSet::remove`.
/// Claims: afterwards the set no longer holds the id's text, and nothing else changed.
#[verifier::external_body]
pub(crate) fn remove_id(s: &mut HashSet<ID, FxBuildHasher>, id: &ID)
    ensures
        expanded_ids(*final(s)) == expanded_ids(*old(s)).remove(id@),
{
    s.remove(id);
}

/// Calls `HashSet::is_empty`.
/// Claims: the result tells whether the set holds no id.
#[verifier::external_body]
pub(crate) fn id_set_is_empty(s: &HashSet<ID, FxBuildHasher>) -> (r: bool)
    ensures
        r == (expanded_ids(*s) == Set::<Seq<char>>::empty()),
{
    s.is_empty()
}

} // verus!
