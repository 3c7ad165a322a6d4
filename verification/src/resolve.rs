//! Stateless address resolution: relocation, table lookup, batch protocol.

use crate::database::{id_lookup, path_lookup, Database};
use crate::image::{DebugId, ImageIndex};
use crate::symtab::table_lookup;
use vstd::prelude::*;

verus! {

/// Which identity key a query names for its image, if any.
pub enum ImageIdentity {
    /// Select the image by debug identity (preferred when present).
    ByDebugId(DebugId),
    /// Select the image by object path, under the batch's architecture.
    ByPath(String),
    /// No identity given: the query resolves to nothing.
    Unspecified,
}

/// One address to resolve.
pub struct Query {
    /// The runtime address to symbolicate.
    pub addr: u64,
    /// The address the image was actually loaded at.
    pub image_addr: u64,
    /// The link-time base address the client expects, used as a fallback
    /// when the image does not record its own.
    pub image_vmaddr: Option<u64>,
    /// How to pick the image inside the database.
    pub identity: ImageIdentity,
}

/// The best-matching symbol for one query.
pub struct SymbolResult {
    /// Name of the object (image) the symbol lives in.
    pub object_name: String,
    /// The symbol's name.
    pub symbol: String,
    /// The symbol's own start address (not the queried address).
    pub addr: u64,
}

/// The link-time base address used for relocation: the image's own when
/// recorded, else the query's expected one, else zero.
pub open spec fn spec_effective_vmaddr(img: ImageIndex, q: Query) -> u64 {
    match img.link_vmaddr {
        Some(v) => v,
        None => match q.image_vmaddr {
            Some(v) => v,
            None => 0u64,
        },
    }
}

/// The queried runtime address translated into the image's link address
/// space, in wrapping 64-bit arithmetic.
pub open spec fn spec_adjusted_addr(q: Query, vmaddr: u64) -> u64 {
    vstd::wrapping::u64_specs::wrapping_add(
        vstd::wrapping::u64_specs::wrapping_sub(q.addr, q.image_addr),
        vmaddr,
    )
}

/// What resolving `q` against `img` yields: the table entry with the
/// greatest address not exceeding the translated address, reported under
/// the image's object name with the entry's own start address.
pub open spec fn spec_resolve(img: ImageIndex, q: Query) -> Option<SymbolResult> {
    let adjusted = spec_adjusted_addr(q, spec_effective_vmaddr(img, q));
    match table_lookup(img.table@, adjusted) {
        Some(i) => Some(
            (SymbolResult {
                object_name: img.object_name,
                symbol: img.table@[i].name,
                addr: img.table@[i].addr,
            }),
        ),
        None => None,
    }
}

/// What one batch slot yields: pick the image by the query's identity key,
/// then resolve; any per-query miss degrades to `None`, never an error.
pub open spec fn spec_batch_item(db: Database, arch: Seq<char>, q: Query) -> Option<SymbolResult> {
    match q.identity {
        ImageIdentity::ByDebugId(id) => match id_lookup(db@, id) {
            Some(img) => spec_resolve(img, q),
            None => None,
        },
        ImageIdentity::ByPath(p) => match path_lookup(db@, p@, arch) {
            Some(img) => spec_resolve(img, q),
            None => None,
        },
        ImageIdentity::Unspecified => None,
    }
}

/// The identity key a query names, preferring the debug identity and
/// falling back to the object path; a query naming neither resolves to
/// nothing.
pub open spec fn spec_identity_of(debug_id: Option<DebugId>, path: Option<String>) -> ImageIdentity {
    match debug_id {
        Some(id) => ImageIdentity::ByDebugId(id),
        None => match path {
            Some(p) => ImageIdentity::ByPath(p),
            None => ImageIdentity::Unspecified,
        },
    }
}

/// Selects the identity key for a query from its optional debug identity
/// and object path, preferring the debug identity.
pub fn identity_of(debug_id: Option<DebugId>, path: Option<String>) -> (r: ImageIdentity)
    ensures
        r == spec_identity_of(debug_id, path),
{
    match debug_id {
        Some(id) => ImageIdentity::ByDebugId(id),
        None => match path {
            Some(p) => ImageIdentity::ByPath(p),
            None => ImageIdentity::Unspecified,
        },
    }
}

/// Resolves one query against one image.
pub fn resolve(img: &ImageIndex, q: &Query) -> (r: Option<SymbolResult>)
    ensures
        r == spec_resolve(*img, *q),
{
    let vmaddr = match img.link_vmaddr {
        Some(v) => v,
        None => match q.image_vmaddr {
            Some(v) => v,
            None => 0u64,
        },
    };
    let adjusted = q.addr.wrapping_sub(q.image_addr).wrapping_add(vmaddr);
    match img.table.find_le(adjusted) {
        Some(i) => {
            let e = img.table.entry(i);
            Some(
                SymbolResult {
                    object_name: img.object_name.clone(),
                    symbol: e.name.clone(),
                    addr: e.addr,
                },
            )
        },
        None => None,
    }
}

/// Resolves an ordered batch of queries against one database: one output
/// slot per query, in the same order.
pub fn resolve_batch(db: &Database, arch: &String, queries: &Vec<Query>) -> (r: Vec<
    Option<SymbolResult>,
>)
    ensures
        r@.len() == queries@.len(),
        forall|i: int|
            0 <= i < queries@.len() ==> r@[i] == spec_batch_item(*db, arch@, queries@[i]),
{
    let n = queries.len();
    let mut out: Vec<Option<SymbolResult>> = Vec::new();
    let mut i: usize = 0;
    while i < n
        invariant
            n == queries@.len(),
            i <= n,
            out@.len() == i,
            forall|k: int| 0 <= k < i ==> out@[k] == spec_batch_item(*db, arch@, queries@[k]),
        decreases n - i,
    {
        let q = &queries[i];
        let item = match &q.identity {
            ImageIdentity::ByDebugId(id) => match db.find_image_by_identity(*id) {
                Some(img) => resolve(img, q),
                None => None,
            },
            ImageIdentity::ByPath(p) => match db.find_image_by_path(p, arch) {
                Some(img) => resolve(img, q),
                None => None,
            },
            ImageIdentity::Unspecified => None,
        };
        out.push(item);
        i = i + 1;
    }
    out
}

/// Relocation correctness: resolution depends on the query only through
/// its translated link-space address, so two queries that translate to the
/// same address resolve identically against the same image.
pub proof fn lemma_relocation_equivalence(img: ImageIndex, q1: Query, q2: Query)
    requires
        spec_adjusted_addr(q1, spec_effective_vmaddr(img, q1)) == spec_adjusted_addr(
            q2,
            spec_effective_vmaddr(img, q2),
        ),
    ensures
        spec_resolve(img, q1) == spec_resolve(img, q2),
{
}

/// When the translation stays within 64 bits, the adjusted address is the
/// plain difference to the load address plus the link base.
pub proof fn lemma_adjusted_addr_no_wrap(q: Query, vmaddr: u64)
    requires
        q.image_addr <= q.addr,
        q.addr - q.image_addr + vmaddr <= u64::MAX,
    ensures
        spec_adjusted_addr(q, vmaddr) == q.addr - q.image_addr + vmaddr,
{
}

} // verus!
