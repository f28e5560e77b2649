//! The kernel side: memory, locks, files and modules of the guest process.

pub mod bridge;
pub mod direct_memory;
pub mod dirent;
pub mod fs;
pub mod hle;
pub mod modules;
pub mod path;
pub mod process;
pub mod sync;
pub mod tls;
