//! Layouts of the x86 descriptor tables.
use vstd::prelude::*;

verus! {

/// The number of entries of the interrupt descriptor table.
pub const IDT_ENTRY_SIZE: usize = 256;

/// The operand of the instructions that load a descriptor table.
pub struct DescriptorTable {
    /// Size of the table in bytes, minus 1.
    size: u16,
    /// Linear address of the table (paging applies).
    offset: u32,
}

/// One gate of the interrupt descriptor table.
pub struct InterruptDescriptor {
    /// The lower 16 bits of the handler's address.
    isr_low: u16,
    /// The code segment selector loaded before the handler runs.
    kernel_cs: u16,
    /// Always zero.
    reserved: u8,
    /// Gate type and attributes.
    attributes: u8,
    /// The upper 16 bits of the handler's address.
    isr_high: u16,
}

} // verus!
