//! Physical and virtual addresses as plain numbers, and the direct map
//! between them.

use vstd::prelude::*;
use x86_64::structures::paging::{Page, PageTableFlags, Size4KiB};
use x86_64::{PhysAddr, VirtAddr};

verus! {

/// The size of a page and of a frame in bytes.
pub const PAGE_SIZE: u64 = 4096;

/// One more than the highest physical address.
pub const PHYSICAL_LIMIT: u64 = 0x10_0000_0000_0000;

/// Whether a virtual address is canonical: bits 47 to 63 are all equal.
pub open spec fn is_canonical(address: u64) -> bool {
    address < 0x8000_0000_0000 || address >= 0xffff_8000_0000_0000
}

/// The start of the page or frame that holds `address`.
pub open spec fn aligned_down(address: u64) -> u64 {
    (address - address % PAGE_SIZE) as u64
}

/// The flag of a page-table entry that says that the entry is present.
pub const PRESENT: u64 = 1;

/// The flag of a page-table entry that says that the entry maps a huge page.
pub const HUGE_PAGE: u64 = 0x80;

/// The flags of a page of user memory: present, writable, open to user mode.
pub const USER_PAGE_FLAGS: u64 = 7;

/// Calls `x86_64::VirtAddr::try_new` and says whether it accepted the
/// address. It accepts an address that its sign extension from bit 47 leaves
/// unchanged, that is a canonical one.
#[verifier::external_body]
pub(crate) fn check_virtual(address: u64) -> (valid: bool)
    ensures
        valid == is_canonical(address),
{
    VirtAddr::try_new(address).is_ok()
}

/// Calls `x86_64::PhysAddr::try_new` and says whether it accepted the
/// address. It accepts an address below two to the power of 52.
#[verifier::external_body]
pub(crate) fn check_physical(address: u64) -> (valid: bool)
    ensures
        valid == (address < PHYSICAL_LIMIT),
{
    PhysAddr::try_new(address).is_ok()
}

/// Calls `x86_64::structures::paging::Page::containing_address` on the
/// `VirtAddr` made of `address`, for pages of 4 KiB, and returns the page's
/// start address. `VirtAddr::new` panics unless the address is canonical. The
/// page starts at the address with its low twelve bits cleared.
#[verifier::external_body]
pub(crate) fn page_containing(address: u64) -> (start: u64)
    requires
        is_canonical(address),
    ensures
        start == aligned_down(address),
{
    Page::<Size4KiB>::containing_address(VirtAddr::new(address)).start_address().as_u64()
}

/// Calls `x86_64::structures::paging::PageTableFlags::from_bits_truncate` and
/// `contains` to ask whether the flag `HUGE_PAGE`, which is bit 7, is set in
/// the flags `flags`.
#[verifier::external_body]
pub(crate) fn flags_huge(flags: u64) -> (huge: bool)
    ensures
        huge == (flags & HUGE_PAGE != 0),
{
    PageTableFlags::from_bits_truncate(flags).contains(PageTableFlags::HUGE_PAGE)
}

/// Asks `x86_64::structures::paging::PageTableFlags` for the bits of the
/// flags `PRESENT`, `WRITABLE` and `USER_ACCESSIBLE` together, which are bits
/// 0, 1 and 2.
#[verifier::external_body]
pub(crate) fn user_page_flags() -> (flags: u64)
    ensures
        flags == USER_PAGE_FLAGS,
{
    (PageTableFlags::PRESENT | PageTableFlags::WRITABLE | PageTableFlags::USER_ACCESSIBLE).bits()
}

/// The virtual address at which the direct map shows physical address
/// `physical_address`, for a direct map that begins at `offset`; `None` if
/// there is no such canonical address.
pub fn convert_physical_to_virtual(physical_address: u64, offset: u64) -> (virtual_address: Option<
    u64,
>)
    ensures
        virtual_address == if physical_address + offset <= u64::MAX && is_canonical(
            (physical_address + offset) as u64,
        ) {
            Some((physical_address + offset) as u64)
        } else {
            None
        },
{
    if physical_address > u64::MAX - offset {
        return None;
    }
    let address = physical_address + offset;
    if check_virtual(address) {
        Some(address)
    } else {
        None
    }
}

/// The physical address that the direct map shows at virtual address
/// `virtual_address`; `None` if the address lies below the direct map or the
/// result is no physical address.
pub fn convert_virtual_to_physical(virtual_address: u64, offset: u64) -> (physical_address: Option<
    u64,
>)
    ensures
        physical_address == if virtual_address >= offset && virtual_address - offset
            < PHYSICAL_LIMIT {
            Some((virtual_address - offset) as u64)
        } else {
            None
        },
{
    if virtual_address < offset {
        return None;
    }
    let address = virtual_address - offset;
    if check_physical(address) {
        Some(address)
    } else {
        None
    }
}

} // verus!
