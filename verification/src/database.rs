//! The immutable image set of one loaded SDK snapshot.

use crate::errors::LoadFault;
use crate::image::{matches_debug_id, matches_path, DebugId, ImageIndex};
use vstd::prelude::*;

verus! {

/// Both images carry the same debug identity.
pub open spec fn same_debug_id(a: ImageIndex, b: ImageIndex) -> bool {
    a.debug_id is Some && a.debug_id == b.debug_id
}

/// Both images carry the same (object path, architecture) key.
pub open spec fn same_path_key(a: ImageIndex, b: ImageIndex) -> bool {
    match (a.object_path, b.object_path) {
        (Some(p), Some(q)) => p@ == q@ && a.arch@ == b.arch@,
        _ => false,
    }
}

/// Each debug identity selects at most one image.
pub open spec fn debug_ids_unique(s: Seq<ImageIndex>) -> bool {
    forall|i: int, j: int|
        0 <= i < s.len() && 0 <= j < s.len() && i != j ==> !same_debug_id(
            #[trigger] s[i],
            #[trigger] s[j],
        )
}

/// Each (object path, architecture) pair selects at most one image.
pub open spec fn path_keys_unique(s: Seq<ImageIndex>) -> bool {
    forall|i: int, j: int|
        0 <= i < s.len() && 0 <= j < s.len() && i != j ==> !same_path_key(
            #[trigger] s[i],
            #[trigger] s[j],
        )
}

/// The image selected by debug identity `id`, if one is present.
pub open spec fn id_lookup(s: Seq<ImageIndex>, id: DebugId) -> Option<ImageIndex> {
    if exists|i: int| 0 <= i < s.len() && matches_debug_id(#[trigger] s[i], id) {
        Some(s[choose|i: int| 0 <= i < s.len() && matches_debug_id(#[trigger] s[i], id)])
    } else {
        None
    }
}

/// The image selected by (object path, architecture), if one is present.
pub open spec fn path_lookup(s: Seq<ImageIndex>, path: Seq<char>, arch: Seq<char>) -> Option<
    ImageIndex,
> {
    if exists|i: int| 0 <= i < s.len() && matches_path(#[trigger] s[i], path, arch) {
        Some(s[choose|i: int| 0 <= i < s.len() && matches_path(#[trigger] s[i], path, arch)])
    } else {
        None
    }
}

/// One SDK snapshot's images, immutable once assembled, with unique
/// identity keys. Reads never block and never fail: a missing image is a
/// `None`, not an error.
#[derive(Debug)]
pub struct Database {
    images: Vec<ImageIndex>,
}

impl View for Database {
    type V = Seq<ImageIndex>;

    closed spec fn view(&self) -> Seq<ImageIndex> {
        self.images@
    }
}

impl Database {
    #[verifier::type_invariant]
    spec fn inv(self) -> bool {
        debug_ids_unique(self@) && path_keys_unique(self@)
    }

    /// Assembles a database over `images`. Duplicate identity keys are
    /// flagged as a format fault, never silently merged: within one
    /// database the debug identity and the (object path, architecture)
    /// pair each select at most one image.
    pub fn from_images(images: Vec<ImageIndex>) -> (r: Result<Database, LoadFault>)
        ensures
            match r {
                Ok(db) => db@ == images@ && debug_ids_unique(images@) && path_keys_unique(
                    images@,
                ),
                Err(f) => f == LoadFault::Format && !(debug_ids_unique(images@)
                    && path_keys_unique(images@)),
            },
    {
        let n = images.len();
        let mut i: usize = 0;
        while i < n
            invariant
                n == images@.len(),
                i <= n,
                forall|a: int, b: int|
                    0 <= a < i && a < b < n ==> !same_debug_id(#[trigger] images@[a], #[trigger] images@[b])
                        && !same_path_key(images@[a], images@[b]),
            decreases n - i,
        {
            let mut j: usize = i + 1;
            while j < n
                invariant
                    n == images@.len(),
                    i < j <= n || (i + 1 == j && j > n),
                    i < n,
                    forall|a: int, b: int|
                        0 <= a < i && a < b < n ==> !same_debug_id(
                            #[trigger] images@[a],
                            #[trigger] images@[b],
                        ) && !same_path_key(images@[a], images@[b]),
                    forall|b: int|
                        i < b < j ==> !same_debug_id(images@[i as int], #[trigger] images@[b])
                            && !same_path_key(images@[i as int], images@[b]),
                decreases n - j,
            {
                if images_conflict(&images[i], &images[j]) {
                    proof {
                        if same_debug_id(images@[i as int], images@[j as int]) {
                            assert(!debug_ids_unique(images@));
                        } else {
                            assert(same_path_key(images@[i as int], images@[j as int]));
                            assert(!path_keys_unique(images@));
                        }
                    }
                    return Err(LoadFault::Format);
                }
                j = j + 1;
            }
            i = i + 1;
        }
        proof {
            assert forall|a: int, b: int|
                0 <= a < n && 0 <= b < n && a != b implies !same_debug_id(
                #[trigger] images@[a],
                #[trigger] images@[b],
            ) && !same_path_key(images@[a], images@[b]) by {
                if a < b {
                    assert(!same_debug_id(images@[a], images@[b]));
                } else {
                    assert(!same_debug_id(images@[b], images@[a]));
                    assert(!same_path_key(images@[b], images@[a]));
                }
            }
        }
        Ok(Database { images })
    }

    /// How many images the database holds.
    pub fn image_count(&self) -> (n: usize)
        ensures
            n == self@.len(),
    {
        self.images.len()
    }

    /// The image carrying debug identity `id`; absence is not an error.
    pub fn find_image_by_identity(&self, id: DebugId) -> (r: Option<&ImageIndex>)
        ensures
            match r {
                Some(img) => id_lookup(self@, id) == Some(*img),
                None => id_lookup(self@, id) is None,
            },
    {
        proof {
            use_type_invariant(&*self);
        }
        let n = self.images.len();
        let mut i: usize = 0;
        while i < n
            invariant
                n == self@.len(),
                i <= n,
                debug_ids_unique(self@),
                forall|k: int| 0 <= k < i ==> !matches_debug_id(#[trigger] self@[k], id),
            decreases n - i,
        {
            let hit = match &self.images[i].debug_id {
                Some(d) => d.value == id.value,
                None => false,
            };
            if hit {
                proof {
                    assert(matches_debug_id(self@[i as int], id));
                    let c = choose|k: int|
                        0 <= k < self@.len() && matches_debug_id(#[trigger] self@[k], id);
                    if c != i as int {
                        assert(same_debug_id(self@[c], self@[i as int]));
                        assert(false);
                    }
                }
                return Some(&self.images[i]);
            }
            i = i + 1;
        }
        None
    }

    /// The image carrying object path `path` for architecture `arch`;
    /// absence is not an error.
    pub fn find_image_by_path(&self, path: &String, arch: &String) -> (r: Option<&ImageIndex>)
        ensures
            match r {
                Some(img) => path_lookup(self@, path@, arch@) == Some(*img),
                None => path_lookup(self@, path@, arch@) is None,
            },
    {
        proof {
            use_type_invariant(&*self);
        }
        let n = self.images.len();
        let mut i: usize = 0;
        while i < n
            invariant
                n == self@.len(),
                i <= n,
                path_keys_unique(self@),
                forall|k: int| 0 <= k < i ==> !matches_path(#[trigger] self@[k], path@, arch@),
            decreases n - i,
        {
            let hit = match &self.images[i].object_path {
                Some(p) => *p == *path && self.images[i].arch == *arch,
                None => false,
            };
            if hit {
                proof {
                    assert(matches_path(self@[i as int], path@, arch@));
                    let c = choose|k: int|
                        0 <= k < self@.len() && matches_path(#[trigger] self@[k], path@, arch@);
                    if c != i as int {
                        assert(same_path_key(self@[c], self@[i as int]));
                        assert(false);
                    }
                }
                return Some(&self.images[i]);
            }
            i = i + 1;
        }
        None
    }
}

/// The two images collide on an identity key.
fn images_conflict(a: &ImageIndex, b: &ImageIndex) -> (r: bool)
    ensures
        r == (same_debug_id(*a, *b) || same_path_key(*a, *b)),
{
    let id_conflict = match (&a.debug_id, &b.debug_id) {
        (Some(x), Some(y)) => x.value == y.value,
        _ => false,
    };
    let path_conflict = match (&a.object_path, &b.object_path) {
        (Some(p), Some(q)) => *p == *q && a.arch == b.arch,
        _ => false,
    };
    id_conflict || path_conflict
}

} // verus!
