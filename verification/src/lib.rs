//! Memory-management core of a small freestanding kernel: a physical frame
//! source fed by the boot-time memory map, a page-mapping plan for a fixed
//! virtual heap window, and two interchangeable allocator backends (bump
//! pointer and first-fit free list) behind one allocation contract.
//!
//! Everything here works on plain address values. The hardware edges (page
//! table writes, port output, the video buffer, the spin-locked global
//! allocator facade) live outside the verified library.

use vstd::prelude::*;

pub mod allocator;
pub mod bump;
pub mod linked_list;
pub mod memory;
pub mod vga_buffer;

verus! {

/// Status reported to the emulator when a test kernel finishes.
#[derive(Debug, Clone, Copy, PartialEq, Eq, Structural)]
pub enum QemuExitCode {
    Success,
    Failed,
}

impl QemuExitCode {
    /// The value written to the emulator's isa-debug-exit port for this status.
    pub fn code(self) -> (c: u32)
        ensures
            c == (if self == QemuExitCode::Success {
                0x10u32
            } else {
                0x11u32
            }),
    {
        match self {
            QemuExitCode::Success => 0x10,
            QemuExitCode::Failed => 0x11,
        }
    }
}

} // verus!
