//! The storage-and-consistency core of a package depot: package identities,
//! the ordering used to resolve "latest", an atomic blob store, and the
//! record tables for packages, origin keys, origins and channels.

pub mod blobs;
pub mod depot;
pub mod ident;
pub mod laws;
pub mod order;
pub mod paths;
pub mod version;
