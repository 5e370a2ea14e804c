//! Physical memory: frames, the boot-time region inventory and page mappings.

pub mod frame;
pub mod paging;
