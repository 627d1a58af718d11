//! The failures that end a mirroring run.

use vstd::prelude::*;

verus! {

#[derive(Clone, Copy, Debug, PartialEq, Eq, Structural)]
pub enum MirrorError {
    /// Text that is not a URL, or a reference that cannot be resolved against its base.
    InvalidUrl,
    /// A URL without a hierarchical path, which cannot name a file.
    NotHierarchical,
    /// Two URLs being related to each other do not share a host.
    HostMismatch,
    /// A response with a status outside 200..=299.
    Http(u16),
    /// The connection failed or timed out.
    Transport,
    /// Bytes that are not a manifest of the kind expected.
    ParseFailure,
    /// A URL with no file name where one is needed.
    FilenameUnresolvable,
    /// Writing the output failed.
    IoFailure,
}

} // verus!
