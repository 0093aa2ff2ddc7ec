//! Virtual addresses of the physical memory mapping.
//!
//! The boot loader maps all physical memory at an offset in the virtual
//! address space. An address in that mapping is usable only in its canonical
//! form, in which bits 48 to 63 repeat bit 47.

use vstd::prelude::*;

verus! {

/// The canonical form of a virtual address, if it has one: an address whose
/// bits 47 to 63 are all equal is canonical as it is; one with bit 47 set and
/// nothing above it is sign-extended; any other holds data in its upper bits
/// and has none.
pub open spec fn spec_canonical_address(addr: u64) -> Option<u64> {
    let top = addr >> 47;
    if top == 0 || top == 0x1ffff {
        Some(addr)
    } else if top == 1 {
        Some(addr | 0xffff_0000_0000_0000)
    } else {
        None
    }
}

/// Calls `x86_64::VirtAddr::try_new` and hands back the address as a number.
/// The contract states what the function's source shows: it accepts an
/// address whose bits 47 to 63 are all clear or all set as it is,
/// sign-extends one in which only bit 47 of them is set, and rejects every
/// other.
#[verifier::external_body]
fn virt_addr_try_new(addr: u64) -> (canonical: Option<u64>)
    ensures
        canonical == spec_canonical_address(addr),
{
    match x86_64::VirtAddr::try_new(addr) {
        Ok(virt) => Some(virt.as_u64()),
        Err(_) => None,
    }
}

/// The canonical form of the virtual address `addr`, if it has one.
pub fn canonical_address(addr: u64) -> (canonical: Option<u64>)
    ensures
        canonical == spec_canonical_address(addr),
{
    virt_addr_try_new(addr)
}

/// The virtual address at which the physical address `phys` is found when
/// physical memory is mapped at `offset`: their sum in canonical form. There
/// is none if the sum does not fit an address or has no canonical form.
pub fn phys_to_virt(offset: u64, phys: u64) -> (virt: Option<u64>)
    ensures
        virt == if offset + phys <= u64::MAX {
            spec_canonical_address((offset + phys) as u64)
        } else {
            None
        },
{
    match offset.checked_add(phys) {
        Some(sum) => virt_addr_try_new(sum),
        None => None,
    }
}

} // verus!
