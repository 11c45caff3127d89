use std::collections::HashMap;

use smallvec::SmallVec;
use vstd::prelude::*;

use crate::value::LabelValue;

verus! {

/// Hash index from a row of label values to its position. Rows of up to
/// four values are stored inline as `smallvec::SmallVec` keys, and hashed
/// with `ahash::RandomState`.
#[verifier::external_body]
pub struct RowIndex {
    map: HashMap<SmallVec<[LabelValue; 4]>, usize, ahash::RandomState>,
}

/// The entries of a row index: each row held, with the position stored for it.
pub uninterp spec fn row_index_entries(index: RowIndex) -> Map<Seq<LabelValue>, usize>;

impl RowIndex {
    /// Relies on `HashMap::with_hasher` with `ahash::RandomState::new`: the
    /// map starts empty, whatever seeds the hasher drew.
    #[verifier::external_body]
    pub fn new() -> (r: RowIndex)
        ensures
            row_index_entries(r) =~= Map::empty(),
    {
        RowIndex { map: HashMap::with_hasher(ahash::RandomState::new()) }
    }

    /// Relies on `HashMap::get`, looking a `SmallVec` key up by the slice it
    /// borrows as (smallvec hashes and compares a `SmallVec` as its slice).
    #[verifier::external_body]
    pub fn get(&self, key: &[LabelValue]) -> (r: Option<usize>)
        ensures
            r == (if row_index_entries(*self).contains_key(key@) {
                Some(row_index_entries(*self)[key@])
            } else {
                None::<usize>
            }),
    {
        self.map.get(key).copied()
    }

    /// Relies on `HashMap::insert`, with the key copied into a `SmallVec` by
    /// `SmallVec::from_slice`: the entry for `key` is set to `position`.
    #[verifier::external_body]
    pub fn insert(&mut self, key: &[LabelValue], position: usize)
        ensures
            row_index_entries(*final(self)) == row_index_entries(*old(self)).insert(
                key@,
                position,
            ),
    {
        self.map.insert(SmallVec::from_slice(key), position);
    }

    /// Relies on `HashMap::clone`: the copy holds the same entries.
    #[verifier::external_body]
    pub fn duplicate(&self) -> (r: RowIndex)
        ensures
            row_index_entries(r) == row_index_entries(*self),
    {
        RowIndex { map: self.map.clone() }
    }
}

} // verus!
