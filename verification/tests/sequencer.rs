use rtil_hook::arch::{Abi, HookKind};
use rtil_hook::hook::Hook;
use rtil_hook::patch::{patch_bytes, CodeRegion, HookError};
use rtil_hook::policy::{sequence, Event, Site, Step};

const TARGET: u64 = 0x4e8bbc;
const INTERCEPTOR: u64 = 0x7000_1000;
const CALLBACK: u64 = 0x7000_2000;

fn prologue(len: u8) -> Vec<u8> {
    (0..len).map(|i| 0x90u8.wrapping_sub(i)).collect()
}

fn site(abi: Abi, kind: HookKind, code: &[u8]) -> Site {
    let hook = Hook::new(abi, kind, TARGET, INTERCEPTOR, CALLBACK).unwrap();
    Site::new(hook, CodeRegion::new(TARGET, code.to_vec()))
}

fn armed(abi: Abi, kind: HookKind, code: &[u8]) -> Site {
    let mut site = site(abi, kind, code);
    site.hook.install(&mut site.region).unwrap();
    site
}

#[test]
fn the_three_kinds_take_their_steps_in_order() {
    assert_eq!(
        sequence(HookKind::Once),
        vec![Step::InvokeCallback, Step::Unhook, Step::JumpToOriginal]
    );
    assert_eq!(
        sequence(HookKind::Before),
        vec![
            Step::InvokeCallback,
            Step::Unhook,
            Step::CallOriginal,
            Step::Rehook,
            Step::ReturnToCaller
        ]
    );
    assert_eq!(
        sequence(HookKind::After),
        vec![
            Step::Unhook,
            Step::CallOriginal,
            Step::Rehook,
            Step::InvokeCallback,
            Step::ReturnToCaller
        ]
    );
}

#[test]
fn an_unhooked_target_runs_the_original_alone() {
    let code = prologue(16);
    let mut site = site(Abi::SysV64, HookKind::Before, &code);
    assert!(!site.is_intercepted());
    assert_eq!(site.call(5), Ok(5));
    assert_eq!(site.call(6), Ok(6));
    assert_eq!(site.trace, vec![Event::Original, Event::Original]);
    assert_eq!(site.callback_count(), 0);
    assert_eq!(site.region.bytes, code);
}

#[test]
fn a_once_hook_fires_once_and_leaves_the_target_pristine() {
    for abi in [Abi::SysV64, Abi::ThisCall32] {
        let code = prologue(16);
        let mut site = armed(abi, HookKind::Once, &code);
        assert!(site.is_intercepted());
        assert_eq!(site.call(41), Ok(41));
        assert_eq!(site.trace, vec![Event::Callback, Event::Original]);
        assert_eq!(site.region.bytes, code);
        assert!(!site.hook.is_installed());
        assert_eq!(
            site.hook.backup,
            Some(code[..abi.patch_len()].to_vec())
        );
        assert!(!site.is_intercepted());
        for n in 0..5u64 {
            assert_eq!(site.call(n), Ok(n));
            assert_eq!(site.callback_count(), 1);
        }
        assert_eq!(site.trace.len(), 7);
        assert!(site.trace[2..].iter().all(|e| *e == Event::Original));
        assert_eq!(site.region.bytes, code);
    }
}

#[test]
fn a_before_hook_fires_before_every_original() {
    let code = prologue(16);
    let mut site = armed(Abi::SysV64, HookKind::Before, &code);
    let patched = site.region.bytes.clone();
    for n in 1..=4u64 {
        assert_eq!(site.call(100 + n), Ok(100 + n));
        assert_eq!(site.callback_count() as u64, n);
        assert!(site.hook.is_installed());
        assert!(site.is_intercepted());
        assert_eq!(site.region.bytes, patched);
    }
    let pattern = [Event::Callback, Event::Original];
    assert_eq!(site.trace, pattern.repeat(4));
}

#[test]
fn an_after_hook_fires_after_every_original() {
    let code = prologue(16);
    let mut site = armed(Abi::ThisCall32, HookKind::After, &code);
    let patched = site.region.bytes.clone();
    for n in 1..=4u64 {
        assert_eq!(site.call(7 * n), Ok(7 * n));
        assert_eq!(site.callback_count() as u64, n);
        assert!(site.hook.is_installed());
        assert!(site.is_intercepted());
        assert_eq!(site.region.bytes, patched);
    }
    let pattern = [Event::Original, Event::Callback];
    assert_eq!(site.trace, pattern.repeat(4));
}

#[test]
fn three_calls_through_a_before_hook_of_seven_bytes() {
    let code = prologue(16);
    let results = [11u64, 22, 33];
    let mut site = site(Abi::ThisCall32, HookKind::Before, &code);
    let direct: Vec<u64> = results.iter().map(|r| site.call(*r).unwrap()).collect();
    assert_eq!(site.callback_count(), 0);
    site.hook.install(&mut site.region).unwrap();
    let patch = patch_bytes(Abi::ThisCall32, INTERCEPTOR).unwrap();
    assert_eq!(patch.len(), 7);
    for (i, result) in results.iter().enumerate() {
        let observed = site.call(*result).unwrap();
        assert_eq!(observed, direct[i]);
        assert_eq!(site.region.bytes[..7].to_vec(), patch);
        assert_ne!(site.region.bytes[..7].to_vec(), code[..7].to_vec());
        assert_eq!(site.region.bytes[7..].to_vec(), code[7..].to_vec());
        assert_eq!(site.callback_count(), i + 1);
    }
    assert_eq!(site.callback_count(), 3);
}

#[test]
fn single_steps_do_what_they_say() {
    let code = prologue(16);
    let mut site = armed(Abi::SysV64, HookKind::Before, &code);
    assert_eq!(site.step(Step::InvokeCallback), Ok(()));
    assert_eq!(site.trace, vec![Event::Callback]);
    assert_eq!(site.step(Step::Unhook), Ok(()));
    assert_eq!(site.region.bytes, code);
    assert_eq!(site.step(Step::Unhook), Err(HookError::NotInstalled));
    assert_eq!(site.step(Step::CallOriginal), Ok(()));
    assert_eq!(site.step(Step::Rehook), Ok(()));
    assert!(site.is_intercepted());
    assert_eq!(site.step(Step::Rehook), Err(HookError::AlreadyInstalled));
    assert_eq!(site.step(Step::ReturnToCaller), Ok(()));
    assert_eq!(site.step(Step::JumpToOriginal), Ok(()));
    assert_eq!(
        site.trace,
        vec![Event::Callback, Event::Original, Event::Original]
    );
}

#[test]
fn a_call_that_cannot_unhook_ends_with_the_error() {
    let code = prologue(16);
    let mut site = armed(Abi::SysV64, HookKind::Before, &code);
    site.region.sealed = true;
    let patched = site.region.bytes.clone();
    assert_eq!(site.call(1), Err(HookError::ProtectionDenied));
    assert_eq!(site.trace, vec![Event::Callback]);
    assert_eq!(site.region.bytes, patched);
    assert!(site.hook.is_installed());
}

#[test]
fn a_call_that_cannot_hook_again_ends_with_the_error() {
    let code = prologue(16);
    let mut site = armed(Abi::SysV64, HookKind::After, &code);
    assert_eq!(site.step(Step::Unhook), Ok(()));
    site.region.sealed = true;
    assert_eq!(site.step(Step::Rehook), Err(HookError::ProtectionDenied));
    assert_eq!(site.region.bytes, code);
    assert!(!site.hook.is_installed());
}
