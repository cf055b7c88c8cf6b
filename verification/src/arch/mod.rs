//! What the kernel core knows of the machine: interrupt vectors, the timer,
//! the CPUs and the PCI configuration space.

pub mod apic;
pub mod interrupts;
pub mod pci;
pub mod smp;
