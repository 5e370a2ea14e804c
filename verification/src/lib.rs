//! The verified core of a small x86_64 kernel: physical frames, page mappings,
//! the kernel heap, interrupt dispatch, the scancode bridge and the cooperative
//! task executor, together with the archive-backed file system and the
//! framebuffer console that run on top of them.
//!
//! Everything here works on explicitly owned state. Whatever has to touch the
//! machine (ports, page-table memory, the TLB) is described by the values these
//! functions return, and is carried out by the code that owns the hardware.

pub mod memory;
pub mod allocator;
pub mod task;
pub mod gdt;
pub mod interrupts;
pub mod filesystem;
pub mod framebuffer;
pub mod qemu;
pub mod wasm_game;
pub mod text;
