//! Hardware abstraction types shared across the kernel.

pub mod acpi;
pub mod addr;
pub mod block;
pub mod display;
pub mod fs;
pub mod io;
pub mod pci;
