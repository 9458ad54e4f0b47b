use rtil_hook::arch::{Abi, HookKind};
use rtil_hook::hook::Hook;
use rtil_hook::patch::{patch_bytes, Access, CodeRegion, HookError, Protection};

const TARGET: u64 = 0x1905d98;
const INTERCEPTOR: u64 = 0x7f00_0000_1000;
const CALLBACK: u64 = 0x7f00_0000_2000;

fn prologue(len: u8) -> Vec<u8> {
    (0..len).map(|i| 0x50u8.wrapping_add(i)).collect()
}

fn hook(kind: HookKind) -> Hook {
    Hook::new(Abi::SysV64, kind, TARGET, INTERCEPTOR, CALLBACK).unwrap()
}

#[test]
fn a_new_hook_is_not_installed() {
    let hook = hook(HookKind::Once);
    assert!(!hook.is_installed());
    assert!(hook.backup.is_none());
    assert_eq!(hook.abi, Abi::SysV64);
    assert_eq!(hook.kind, HookKind::Once);
    assert_eq!(hook.target, TARGET);
    assert_eq!(hook.interceptor, INTERCEPTOR);
    assert_eq!(hook.callback, CALLBACK);
}

#[test]
fn a_hook_refuses_addresses_that_do_not_fit() {
    let wide = 0x1_0000_0000u64;
    assert_eq!(
        Hook::new(Abi::ThisCall32, HookKind::Before, wide, 1, 2).err(),
        Some(HookError::AddressOutOfRange)
    );
    assert_eq!(
        Hook::new(Abi::ThisCall32, HookKind::Before, 1, wide, 2).err(),
        Some(HookError::AddressOutOfRange)
    );
    assert_eq!(
        Hook::new(Abi::ThisCall32, HookKind::Before, 1, 2, wide).err(),
        Some(HookError::AddressOutOfRange)
    );
    assert!(Hook::new(Abi::ThisCall32, HookKind::Before, 1, 2, 0xffff_ffff).is_ok());
    assert!(Hook::new(Abi::SysV64, HookKind::Before, wide, wide, wide).is_ok());
}

#[test]
fn install_writes_the_backup_and_restore_keeps_it() {
    let code = prologue(24);
    let mut region = CodeRegion::new(TARGET, code.clone());
    let mut hook = hook(HookKind::Before);
    assert_eq!(hook.install(&mut region), Ok(()));
    assert!(hook.is_installed());
    assert_eq!(hook.backup, Some(code[..12].to_vec()));
    assert_eq!(
        region.bytes[..12].to_vec(),
        patch_bytes(Abi::SysV64, INTERCEPTOR).unwrap()
    );
    assert_eq!(region.protection, Protection::ExecuteOnly);
    assert_eq!(hook.restore(&mut region), Ok(()));
    assert!(!hook.is_installed());
    assert_eq!(hook.backup, Some(code[..12].to_vec()));
    assert_eq!(region.bytes, code);
    assert_eq!(region.protection, Protection::ExecuteOnly);
}

#[test]
fn a_restored_hook_can_be_installed_again() {
    let code = prologue(24);
    let mut region = CodeRegion::new(TARGET, code.clone());
    let mut hook = hook(HookKind::After);
    for _ in 0..3 {
        assert!(!hook.is_installed());
        hook.install(&mut region).unwrap();
        assert!(hook.is_installed());
        assert_eq!(hook.backup, Some(code[..12].to_vec()));
        assert_ne!(region.bytes, code);
        hook.restore(&mut region).unwrap();
        assert_eq!(region.bytes, code);
    }
    assert_eq!(hook.backup, Some(code[..12].to_vec()));
}

#[test]
fn the_protection_changes_frame_every_read_and_write() {
    let mut region = CodeRegion::new(TARGET, prologue(24));
    let mut hook = hook(HookKind::Before);
    hook.install(&mut region).unwrap();
    assert_eq!(
        region.accesses,
        vec![
            Access::MadeWritable,
            Access::Read,
            Access::Written,
            Access::MadeExecutable
        ]
    );
    hook.restore(&mut region).unwrap();
    assert_eq!(
        region.accesses[4..].to_vec(),
        vec![
            Access::MadeWritable,
            Access::Written,
            Access::MadeExecutable
        ]
    );
}

#[test]
fn a_hook_only_takes_the_region_at_its_target() {
    let code = prologue(24);
    let mut elsewhere = CodeRegion::new(TARGET + 0x10, code.clone());
    let mut region = CodeRegion::new(TARGET, code.clone());
    let mut hook = hook(HookKind::Once);
    assert_eq!(hook.install(&mut elsewhere), Err(HookError::WrongRegion));
    assert_eq!(elsewhere.bytes, code);
    assert!(elsewhere.accesses.is_empty());
    assert!(!hook.is_installed());
    hook.install(&mut region).unwrap();
    assert_eq!(hook.restore(&mut elsewhere), Err(HookError::WrongRegion));
    assert!(hook.is_installed());
    assert_eq!(elsewhere.bytes, code);
}

#[test]
fn a_hook_on_a_short_region_stays_uninstalled() {
    let mut short = CodeRegion::new(TARGET, prologue(11));
    let mut hook = hook(HookKind::Once);
    assert_eq!(hook.install(&mut short), Err(HookError::RegionTooShort));
    assert!(!hook.is_installed());
    assert!(hook.backup.is_none());
    assert_eq!(short.bytes, prologue(11));
    assert!(short.accesses.is_empty());
}

#[test]
fn a_restore_refuses_a_region_shorter_than_the_backup() {
    let mut region = CodeRegion::new(TARGET, prologue(24));
    let mut hook = hook(HookKind::Once);
    hook.install(&mut region).unwrap();
    let mut cut = CodeRegion::new(TARGET, prologue(8));
    assert_eq!(hook.restore(&mut cut), Err(HookError::RegionTooShort));
    assert!(hook.is_installed());
    assert_eq!(cut.bytes, prologue(8));
}
