//! Device-facing parts of the boot image, as far as they compute: what is
//! written where, and what is asked of the hardware next. Moving the bytes
//! to and from the hardware is left to the caller.
//!
//! * `vga` puts text on the screen buffer that it is lent.
//! * `serial` says which registers of the serial chip to write.
//! * `pci` walks the PCI bus, one configuration word at a time, and
//!   `enumeration` says what that walk finds.
pub mod enumeration;
pub mod pci;
pub mod serial;
pub mod vga;
