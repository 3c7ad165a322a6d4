//! One binary image: identity keys, link-time base address, symbol table.

use crate::symtab::SymbolTable;
use vstd::prelude::*;

verus! {

/// A binary image's debug identity, as the 128-bit value of its debug UUID.
#[derive(Clone, Copy, Debug, PartialEq, Eq, Hash, Structural)]
pub struct DebugId {
    pub value: u128,
}

/// One binary image's metadata and its symbol index.
#[derive(Debug)]
pub struct ImageIndex {
    /// Debug identity, when the build recorded one.
    pub debug_id: Option<DebugId>,
    /// On-disk object path, when known.
    pub object_path: Option<String>,
    /// CPU architecture the image was built for.
    pub arch: String,
    /// Short object name reported with each resolved symbol.
    pub object_name: String,
    /// The base address the image was linked to expect, when recorded.
    pub link_vmaddr: Option<u64>,
    /// The image's sorted symbol index.
    pub table: SymbolTable,
}

/// The image carries debug identity `id`.
pub open spec fn matches_debug_id(img: ImageIndex, id: DebugId) -> bool {
    img.debug_id == Some(id)
}

/// The image carries object path `path` and was built for `arch`.
pub open spec fn matches_path(img: ImageIndex, path: Seq<char>, arch: Seq<char>) -> bool {
    match img.object_path {
        Some(p) => p@ == path && img.arch@ == arch,
        None => false,
    }
}

} // verus!
