//! ACPI table discovery results and errors.

use vstd::prelude::*;

verus! {

/// Errors of ACPI table discovery.
#[derive(Debug, Clone, Copy, PartialEq, Eq, Structural)]
pub enum AcpiError {
    ParseFailed,
    NoMcfg,
    NoEcamRegion,
}

impl AcpiError {
    /// A short description of the error.
    pub fn as_str(self) -> (r: &'static str)
        ensures
            self == AcpiError::ParseFailed ==> r@ == "failed to parse ACPI tables from RSDP"@,
            self == AcpiError::NoMcfg ==> r@ == "no MCFG table found — not a Q35/PCIe machine?"@,
            self == AcpiError::NoEcamRegion ==> r@ == "no ECAM region for segment 0 bus 0 in MCFG"@,
    {
        match self {
            AcpiError::ParseFailed => "failed to parse ACPI tables from RSDP",
            AcpiError::NoMcfg => "no MCFG table found — not a Q35/PCIe machine?",
            AcpiError::NoEcamRegion => "no ECAM region for segment 0 bus 0 in MCFG",
        }
    }
}

/// The mapping the kernel's ACPI handler uses: physical memory is mapped
/// at `phys_offset`.
#[derive(Debug, Clone, Copy, PartialEq, Eq, Structural)]
pub struct KernelAcpiHandler {
    pub phys_offset: u64,
}

/// What ACPI discovery found: the PCIe ECAM base and the physical mapping.
#[derive(Debug, Clone, Copy, PartialEq, Eq, Structural)]
pub struct AcpiInfo {
    pub ecam_base: u64,
    pub phys_offset: u64,
}

} // verus!
