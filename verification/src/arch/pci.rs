//! The PCI configuration space as this architecture reaches it: through an
//! address port and a data port, or through the memory window that ACPI's
//! MCFG table names for a segment group.

use vstd::prelude::*;

verus! {

/// The bit that enables a configuration cycle.
pub const CONFIG_ENABLE: u32 = 0x8000_0000;

/// A device function on a bus.
#[derive(Debug, Clone, Copy, PartialEq, Eq)]
pub struct BusDeviceFunction {
    pub bus: u8,
    pub device: u8,
    pub function: u8,
}

/// Why a PCI request failed.
#[derive(Debug, Clone, Copy, PartialEq, Eq)]
pub enum PciError {
    /// No entry of the MCFG table is for the segment group.
    SegmentNotFound,
}

/// One entry of the MCFG table.
#[derive(Debug, Clone, Copy, PartialEq, Eq)]
pub struct SegmentGroupConfiguration {
    pub base_address: u64,
    pub pci_segment_group: u16,
    pub bus_number_start: u8,
    pub bus_number_end: u8,
}

/// The root of one segment group.
#[derive(Debug, Clone, Copy, PartialEq, Eq)]
pub struct PciRoot {
    pub physical_address_base: u64,
    pub mmio_base: Option<u64>,
    pub segement_group_number: u16,
    pub bus_begin: u8,
    pub bus_end: u8,
}

/// The word for the address port that selects the register at `offset`.
pub open spec fn config_address(function: BusDeviceFunction, offset: u8) -> u32 {
    ((function.bus as u32) << 16) | ((function.device as u32) << 11) | (((function.function as u32)
        & 7) << 8) | ((offset & 0xfc) as u32) | CONFIG_ENABLE
}

/// The index of the first entry from `from` on that is for `segment`, or the
/// number of entries.
pub open spec fn segment_position(
    table: Seq<SegmentGroupConfiguration>,
    segment: u16,
    from: int,
) -> int
    decreases table.len() - from,
{
    if from < 0 || from >= table.len() {
        table.len() as int
    } else if table[from].pci_segment_group == segment {
        from
    } else {
        segment_position(table, segment, from + 1)
    }
}

/// The PCI access of x86-64.
pub struct X86_64PciArch;

impl X86_64PciArch {
    /// The word to write to the address port before the register at `offset`
    /// of a device function is read or written through the data port.
    pub fn config_address(bus_device_function: &BusDeviceFunction, offset: u8) -> (address: u32)
        ensures
            address == config_address(*bus_device_function, offset),
    {
        ((bus_device_function.bus as u32) << 16) | ((bus_device_function.device as u32) << 11) | ((
        (bus_device_function.function as u32) & 7) << 8) | ((offset & 0xfc) as u32)
            | CONFIG_ENABLE
    }

    /// Turns an address of the PCI domain into one of the memory domain; on
    /// this architecture the two are the same.
    pub fn address_pci_to_address_memory(address: usize) -> (memory: Result<usize, PciError>)
        ensures
            memory == Ok::<usize, PciError>(address),
    {
        Ok(address)
    }

    /// The root of segment group `segement`, from the first entry of the MCFG
    /// table that is for it.
    pub fn ecam_root(mcfg_info: &Vec<SegmentGroupConfiguration>, segement: u16) -> (root: Result<
        PciRoot,
        PciError,
    >)
        ensures
            root == if segment_position(mcfg_info@, segement, 0) < mcfg_info@.len() {
                let entry = mcfg_info@[segment_position(mcfg_info@, segement, 0)];
                Ok::<PciRoot, PciError>(
                    PciRoot {
                        physical_address_base: entry.base_address,
                        mmio_base: None,
                        segement_group_number: segement,
                        bus_begin: entry.bus_number_start,
                        bus_end: entry.bus_number_end,
                    },
                )
            } else {
                Err::<PciRoot, PciError>(PciError::SegmentNotFound)
            },
    {
        let n = mcfg_info.len();
        let mut index: usize = 0;
        while index < n
            invariant
                index <= n,
                n == mcfg_info@.len(),
                segment_position(mcfg_info@, segement, index as int) == segment_position(
                    mcfg_info@,
                    segement,
                    0,
                ),
            decreases n - index,
        {
            let entry = mcfg_info[index];
            if entry.pci_segment_group == segement {
                return Ok(
                    PciRoot {
                        physical_address_base: entry.base_address,
                        mmio_base: None,
                        segement_group_number: segement,
                        bus_begin: entry.bus_number_start,
                        bus_end: entry.bus_number_end,
                    },
                );
            }
            index += 1;
        }
        Err(PciError::SegmentNotFound)
    }
}

} // verus!
