//! Disk inventory: the verified core of a disk-usage browser.
//!
//! The library models what a volume scan learns about a directory tree
//! (entries grouped under their parent directory, recursive directory sizes
//! rolled up through every ancestor), the read side that serves sorted
//! directory listings, the volume list shown to the user, and the small
//! bookkeeping of volume windows.

pub mod paths;
pub mod disks;
pub mod filesystem;
pub mod scan;
pub mod windows;
pub mod shell_actions;
pub mod pool;
pub mod progress;
