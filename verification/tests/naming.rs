use rtil_hook::arch::{Abi, HookKind};
use rtil_hook::generate::hook;
use rtil_hook::names::Names;
use rtil_hook::trampoline::interceptor;
use rtil_hook::{hook_after, hook_before, hook_once};

#[test]
fn names_are_derived_from_class_and_function() {
    let names = Names::derive("FEngineLoop", "Tick");
    assert_eq!(names.original_function_name, "FEngineLoop::Tick");
    assert_eq!(names.original_function_address, "FENGINELOOP_TICK");
    assert_eq!(names.original_bytes_backup_name, "ORIGINAL_FENGINELOOP_TICK_BYTES");
    assert_eq!(names.hook_function_name, "hook_fengineloop_tick");
    assert_eq!(names.unhook_function_name, "unhook_fengineloop_tick");
    assert_eq!(names.interceptor_name, "intercept_fengineloop_tick");
}

#[test]
fn names_follow_the_case_of_every_letter() {
    let names = Names::derive("AMyCharacter", "ForcedUnCrouch");
    assert_eq!(names.original_function_name, "AMyCharacter::ForcedUnCrouch");
    assert_eq!(names.original_function_address, "AMYCHARACTER_FORCEDUNCROUCH");
    assert_eq!(names.hook_function_name, "hook_amycharacter_forceduncrouch");
    let plain = Names::derive("slate", "TICK");
    assert_eq!(plain.original_function_address, "SLATE_TICK");
    assert_eq!(plain.interceptor_name, "intercept_slate_tick");
}

#[test]
fn names_are_assembled_from_what_they_are_given() {
    let names = Names::assemble("A", "b", "x", "y", "P", "Q");
    assert_eq!(names.original_function_name, "A::b");
    assert_eq!(names.original_function_address, "P_Q");
    assert_eq!(names.original_bytes_backup_name, "ORIGINAL_P_Q_BYTES");
    assert_eq!(names.hook_function_name, "hook_x_y");
    assert_eq!(names.unhook_function_name, "unhook_x_y");
    assert_eq!(names.interceptor_name, "intercept_x_y");
}

#[test]
fn each_kind_generates_its_own_interceptors() {
    let once = hook_once("FSlateApplication", "Tick", "on_tick");
    let before = hook_before("FSlateApplication", "OnKeyDown", "key_down");
    let after = hook_after("FSlateApplication", "OnKeyUp", "key_up");
    assert_eq!(once.kind, HookKind::Once);
    assert_eq!(before.kind, HookKind::Before);
    assert_eq!(after.kind, HookKind::After);
    assert_eq!(once.callback, "on_tick");
    assert_eq!(before.callback, "key_down");
    assert_eq!(after.callback, "key_up");
    assert_eq!(once.names.hook_function_name, "hook_fslateapplication_tick");
    assert_eq!(
        before.names.unhook_function_name,
        "unhook_fslateapplication_onkeydown"
    );
    assert_eq!(
        after.names.original_function_address,
        "FSLATEAPPLICATION_ONKEYUP"
    );
    for (made, kind) in [
        (&once, HookKind::Once),
        (&before, HookKind::Before),
        (&after, HookKind::After),
    ] {
        assert_eq!(made.sysv64, interceptor(Abi::SysV64, kind));
        assert_eq!(made.thiscall32, interceptor(Abi::ThisCall32, kind));
    }
    let same = hook(HookKind::Once, "FSlateApplication", "Tick", "on_tick");
    assert_eq!(same.sysv64, once.sysv64);
    assert_eq!(same.names.interceptor_name, once.names.interceptor_name);
}

#[test]
fn conventions_have_their_compiler_names() {
    assert_eq!(Abi::SysV64.abi_name(), "C");
    assert_eq!(Abi::ThisCall32.abi_name(), "thiscall");
    assert_eq!(Abi::SysV64.word_bytes(), 8);
    assert_eq!(Abi::ThisCall32.word_bytes(), 4);
    assert_eq!(Abi::SysV64.save_area(), 0xd8);
    assert_eq!(Abi::ThisCall32.save_area(), 0x9c);
    assert!(Abi::ThisCall32.reaches(0xffff_ffff));
    assert!(!Abi::ThisCall32.reaches(0x1_0000_0000));
    assert!(Abi::SysV64.reaches(u64::MAX));
}
