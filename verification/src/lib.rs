//! Core logic of a small x86_64 teaching kernel: the on-disk filesystem
//! codec and mount path, the VFS lookup layer, the sector cache, the
//! physical-frame and heap allocators, the page-table entry view, the
//! keyboard scancode decoder with its ring buffer, and the shell parser.
//!
//! Hardware access (port I/O, inline assembly, the interrupt stubs) lives
//! outside this crate; everything here is ordinary logic on plain values,
//! stated in contracts and verified.

pub mod ata;
pub mod block;
pub mod bootinfo;
pub mod cache;
pub mod codec;
pub mod consolefmt;
pub mod frame;
pub mod heap;
pub mod imgbuild;
pub mod interrupts;
pub mod keyboard;
pub mod ports;
pub mod shell;
pub mod simplefs;
pub mod text;
pub mod vfs;
pub mod vm;
