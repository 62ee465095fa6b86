//! Support library for a freestanding boot image.
//!
//! The centre of the crate is a boundary-tag heap: one fixed byte region is
//! turned into an allocate/free service whose only bookkeeping is a chain of
//! fixed-size headers written in place at every block boundary.
//!
//! * `header` and `bytes` define the stored header and read and write it.
//! * `layout` is the mathematical model of a heap, `theorems` what holds of
//!   it, and `allocator` the heap itself.
//! * `region` and `boot` find the region to lay the heap over.
//! * `io` and `mem` are what else a boot image computes: where text goes on
//!   the screen, what is written to the serial chip, how the PCI bus is
//!   walked, and the four byte-string routines.
//!
//! Nothing here touches hardware or owns memory: bytes, screen cells and
//! configuration words are lent or handed over by the caller.
pub mod allocator;
pub mod boot;
pub mod bytes;
pub mod header;
pub mod io;
pub mod layout;
pub mod mem;
pub mod region;
pub mod theorems;
