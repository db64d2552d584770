//! Building, entering and resetting a confined root filesystem for running
//! untrusted programs many times over, and resolving untrusted paths inside it
//! without letting the operating system follow their symlinks.
//!
//! The library decides; a driver acts. Each entry point returns the
//! filesystem and namespace operations ([`FsOp`]) to carry out in order, or,
//! for path resolution, a [`Resolver`] that asks its driver to read one entry at
//! a time.
use vstd::prelude::*;

pub mod layout;
pub mod mounts;
pub mod numbers;
pub mod ops;
pub mod path;
pub mod resolve;
pub mod setup;

pub use mounts::{
    list_child_mounts, reclaim_terminals, reset, tmpfs_options_text, MountTableError, RootfsState,
};
pub use ops::{FsOp, Identity};
pub use resolve::{resolve_abs_box_root, resolve_abs_old_root, ResolveStep, Resolver};
pub use setup::{
    configure_rootfs, create_rootfs, enter_rootfs, EntryKind, NamespacePhase, PhaseError,
    SourceEntry,
};

verus! {

/// Size and inode ceilings of the ephemeral storage filesystem.
#[derive(Clone, Copy, Debug)]
pub struct DiskQuotas {
    /// Bytes.
    pub space: u64,
    pub max_inodes: u64,
}

} // verus!
