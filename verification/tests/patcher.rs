use rtil_hook::arch::Abi;
use rtil_hook::patch::{
    install, patch_bytes, restore, Access, CodeRegion, HookError, Protection,
};

fn prologue(len: u8) -> Vec<u8> {
    (0..len).map(|i| 0x50u8.wrapping_add(i)).collect()
}

#[test]
fn patch_for_a_64_bit_target_is_movabs_then_jmp() {
    let bytes = patch_bytes(Abi::SysV64, 0x1122_3344_5566_7788).unwrap();
    assert_eq!(
        bytes,
        vec![0x48, 0xb8, 0x88, 0x77, 0x66, 0x55, 0x44, 0x33, 0x22, 0x11, 0xff, 0xe0]
    );
}

#[test]
fn patch_for_a_32_bit_target_is_mov_then_jmp() {
    let bytes = patch_bytes(Abi::ThisCall32, 0x0040_1a2b).unwrap();
    assert_eq!(bytes, vec![0xb8, 0x2b, 0x1a, 0x40, 0x00, 0xff, 0xe0]);
}

#[test]
fn patch_lengths_are_twelve_and_seven() {
    assert_eq!(Abi::SysV64.patch_len(), 12);
    assert_eq!(Abi::ThisCall32.patch_len(), 7);
    assert_eq!(patch_bytes(Abi::SysV64, 0).unwrap().len(), 12);
    assert_eq!(patch_bytes(Abi::ThisCall32, 0).unwrap().len(), 7);
}

#[test]
fn patch_refuses_an_address_beyond_32_bits() {
    assert_eq!(
        patch_bytes(Abi::ThisCall32, 0x1_0000_0000),
        Err(HookError::AddressOutOfRange)
    );
    assert!(patch_bytes(Abi::ThisCall32, 0xffff_ffff).is_ok());
    assert!(patch_bytes(Abi::SysV64, u64::MAX).is_ok());
}

#[test]
fn install_backs_up_what_it_overwrites_64() {
    let code = prologue(20);
    let mut region = CodeRegion::new(0x1905d98, code.clone());
    let backup = install(&mut region, Abi::SysV64, 0xdead_beef_0000_0010).unwrap();
    assert_eq!(backup, code[..12].to_vec());
    assert_eq!(
        region.bytes[..12].to_vec(),
        patch_bytes(Abi::SysV64, 0xdead_beef_0000_0010).unwrap()
    );
    assert_eq!(region.bytes[12..].to_vec(), code[12..].to_vec());
    assert_eq!(region.protection, Protection::ExecuteOnly);
}

#[test]
fn install_backs_up_what_it_overwrites_32() {
    let code = prologue(9);
    let mut region = CodeRegion::new(0x4e8bbc, code.clone());
    let backup = install(&mut region, Abi::ThisCall32, 0x7000_0000).unwrap();
    assert_eq!(backup, code[..7].to_vec());
    assert_eq!(
        region.bytes,
        vec![0xb8, 0x00, 0x00, 0x00, 0x70, 0xff, 0xe0, 0x57, 0x58]
    );
}

#[test]
fn install_then_restore_is_the_identity() {
    for abi in [Abi::SysV64, Abi::ThisCall32] {
        let code = prologue(32);
        let mut region = CodeRegion::new(0x1000, code.clone());
        let backup = install(&mut region, abi, 0x1234_5678).unwrap();
        assert_ne!(region.bytes, code);
        restore(&mut region, &backup).unwrap();
        assert_eq!(region.bytes, code);
        assert_eq!(region.protection, Protection::ExecuteOnly);
    }
}

#[test]
fn install_on_a_region_of_exactly_the_patch_length() {
    let code = prologue(7);
    let mut region = CodeRegion::new(0x1000, code.clone());
    let backup = install(&mut region, Abi::ThisCall32, 1).unwrap();
    assert_eq!(backup, code);
    assert_eq!(region.bytes, vec![0xb8, 1, 0, 0, 0, 0xff, 0xe0]);
}

#[test]
fn install_refuses_a_short_region() {
    let code = prologue(11);
    let mut region = CodeRegion::new(0x1000, code.clone());
    assert_eq!(
        install(&mut region, Abi::SysV64, 1),
        Err(HookError::RegionTooShort)
    );
    assert_eq!(region.bytes, code);
}

#[test]
fn install_refuses_an_entry_out_of_range() {
    let code = prologue(16);
    let mut region = CodeRegion::new(0x1000, code.clone());
    assert_eq!(
        install(&mut region, Abi::ThisCall32, 0x2_0000_0000),
        Err(HookError::AddressOutOfRange)
    );
    assert_eq!(region.bytes, code);
}

#[test]
fn a_sealed_region_refuses_every_change_of_protection() {
    let code = prologue(16);
    let mut region = CodeRegion::sealed(0x1000, code.clone());
    assert!(region.sealed);
    assert_eq!(region.set_writable(), Err(HookError::ProtectionDenied));
    assert_eq!(region.set_executable(), Err(HookError::ProtectionDenied));
    assert_eq!(region.protection, Protection::ExecuteOnly);
    assert_eq!(region.bytes, code);
    assert!(region.accesses.is_empty());
}

#[test]
fn install_and_restore_change_the_protection_first_and_last() {
    let mut region = CodeRegion::new(0x1000, prologue(16));
    let backup = install(&mut region, Abi::ThisCall32, 0x4000).unwrap();
    assert_eq!(
        region.accesses,
        vec![
            Access::MadeWritable,
            Access::Read,
            Access::Written,
            Access::MadeExecutable
        ]
    );
    restore(&mut region, &backup).unwrap();
    assert_eq!(
        region.accesses,
        vec![
            Access::MadeWritable,
            Access::Read,
            Access::Written,
            Access::MadeExecutable,
            Access::MadeWritable,
            Access::Written,
            Access::MadeExecutable
        ]
    );
}

#[test]
fn read_hands_out_the_first_bytes() {
    let mut region = CodeRegion::new(0x1000, prologue(4));
    assert_eq!(region.read(3), Ok(vec![0x50, 0x51, 0x52]));
    assert_eq!(region.read(5), Err(HookError::RegionTooShort));
    assert_eq!(region.read(0), Ok(vec![]));
    assert_eq!(region.accesses, vec![Access::Read, Access::Read]);
}

#[test]
fn install_does_not_care_about_the_prior_protection() {
    let code = prologue(16);
    let mut region = CodeRegion::new(0x1000, code.clone());
    region.set_writable().unwrap();
    assert_eq!(region.protection, Protection::Writable);
    install(&mut region, Abi::SysV64, 5).unwrap();
    assert_eq!(region.protection, Protection::ExecuteOnly);
}

#[test]
fn write_needs_a_writable_region() {
    let mut region = CodeRegion::new(0x1000, prologue(4));
    assert_eq!(region.write(&vec![1, 2]), Err(HookError::NotWritable));
    region.set_writable().unwrap();
    assert_eq!(
        region.write(&vec![1, 2, 3, 4, 5]),
        Err(HookError::RegionTooShort)
    );
    assert_eq!(region.write(&vec![1, 2]), Ok(()));
    assert_eq!(region.bytes, vec![1, 2, 0x52, 0x53]);
}

#[test]
fn restore_refuses_a_backup_longer_than_the_region() {
    let mut region = CodeRegion::new(0x1000, prologue(4));
    assert_eq!(
        restore(&mut region, &vec![0u8; 7]),
        Err(HookError::RegionTooShort)
    );
}

#[test]
fn jumps_to_tells_a_patched_region() {
    let mut region = CodeRegion::new(0x1000, prologue(16));
    assert!(!region.jumps_to(Abi::ThisCall32, 0x4000));
    let backup = install(&mut region, Abi::ThisCall32, 0x4000).unwrap();
    assert!(region.jumps_to(Abi::ThisCall32, 0x4000));
    assert!(!region.jumps_to(Abi::ThisCall32, 0x4001));
    assert!(!region.jumps_to(Abi::SysV64, 0x4000));
    restore(&mut region, &backup).unwrap();
    assert!(!region.jumps_to(Abi::ThisCall32, 0x4000));
}
