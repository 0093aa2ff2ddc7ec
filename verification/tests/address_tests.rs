use vekos::address::{canonical_address, phys_to_virt};

#[test]
fn canonical_addresses_are_kept() {
    assert_eq!(canonical_address(0), Some(0));
    assert_eq!(canonical_address(0x0000_7fff_ffff_ffff), Some(0x0000_7fff_ffff_ffff));
    assert_eq!(canonical_address(0xffff_8000_0000_0000), Some(0xffff_8000_0000_0000));
    assert_eq!(canonical_address(u64::MAX), Some(u64::MAX));
}

#[test]
fn bit_47_is_sign_extended() {
    assert_eq!(canonical_address(0x0000_8000_0000_0000), Some(0xffff_8000_0000_0000));
    assert_eq!(canonical_address(0x0000_ffff_ffff_f000), Some(0xffff_ffff_ffff_f000));
}

#[test]
fn data_in_upper_bits_is_rejected() {
    assert_eq!(canonical_address(0x0001_0000_0000_0000), None);
    assert_eq!(canonical_address(0x8000_0000_0000_0000), None);
    assert_eq!(canonical_address(0xfffe_8000_0000_0000), None);
}

#[test]
fn physical_addresses_are_found_at_the_offset() {
    assert_eq!(phys_to_virt(0x0000_1000_0000_0000, 0xfd00_0000), Some(0x0000_1000_fd00_0000));
    assert_eq!(phys_to_virt(0x0000_7fff_ffff_f000, 0x1000), Some(0xffff_8000_0000_0000));
    assert_eq!(phys_to_virt(0xffff_8000_0000_0000, 0x1000), Some(0xffff_8000_0000_1000));
    assert_eq!(phys_to_virt(u64::MAX, 1), None);
    assert_eq!(phys_to_virt(0x0001_0000_0000_0000, 0), None);
}
