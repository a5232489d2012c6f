use vstd::prelude::*;

pub mod acpi;
pub mod align;
pub mod boot;
pub mod bump;
pub mod compute;
pub mod devices;
pub mod digits;
pub mod gdt;
pub mod heap;
pub mod idt;
pub mod keyboard;
pub mod linked_list;
pub mod mem;
pub mod paging;
pub mod pci;
pub mod pmm;
pub mod serial;
pub mod task;
pub mod vga;
pub mod vmm;

verus! {

} // verus!
