//! Read-only system metadata reported by the storage service.

use vstd::prelude::*;

verus! {

/// System information about a stored item.  It is supplied wholesale by the
/// storage service and carried by value; nothing in this crate alters it.
#[derive(Clone, Copy, Debug)]
pub struct System {
    /// When the item was created, in seconds since the Unix epoch.
    pub created: u64,
    /// When the item expires, in seconds since the Unix epoch; `None` means
    /// it never expires.
    pub expires: Option<u64>,
    /// The length of the data associated with this metadata.
    ///
    /// It is a signed integer because the service's own representation is
    /// signed, and narrowing it would lose that range.
    pub content_length: i64,
}

} // verus!
