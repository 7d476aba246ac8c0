//! Logical storage paths. Every stored sound lives at
//! `media/<user_id>/<community_id>/<file_name>`, with the community segment
//! omitted for a user's global sound. The path is kept structured — the
//! numeric identifiers and the file name — so that the storage model and the
//! registry can reason about it; rendering to the flat string form used by
//! the backends is in the `render` module.

use vstd::prelude::*;

verus! {

/// Mathematical form of a stored path: user, optional community, file name.
pub type PathKey = (u64, Option<u64>, Seq<char>);

/// The storage-backend-agnostic key of one stored sound.
#[derive(Debug)]
pub struct StoredPath {
    pub user_id: u64,
    pub community_id: Option<u64>,
    pub file_name: String,
}

impl View for StoredPath {
    type V = PathKey;

    open spec fn view(&self) -> PathKey {
        (self.user_id, self.community_id, self.file_name@)
    }
}

impl StoredPath {
    /// A usable path has a non-empty file name with no separator in it.
    pub open spec fn wf(self) -> bool {
        &&& self.file_name@.len() > 0
        &&& forall|i: int| 0 <= i < self.file_name@.len() ==> self.file_name@[i] != '/'
    }

    /// Whether two paths name the same stored blob.
    pub fn same_path(&self, other: &StoredPath) -> (r: bool)
        ensures
            r == (self@ == other@),
    {
        let scope_matches = match (self.community_id, other.community_id) {
            (Some(a), Some(b)) => a == b,
            (None, None) => true,
            _ => false,
        };
        self.user_id == other.user_id && scope_matches && self.file_name == other.file_name
    }
}

impl Clone for StoredPath {
    fn clone(&self) -> (r: Self)
        ensures
            r@ == self@,
            r.wf() == self.wf(),
    {
        StoredPath {
            user_id: self.user_id,
            community_id: self.community_id,
            file_name: self.file_name.clone(),
        }
    }
}

} // verus!
