use rtil_hook::arch::{Abi, HookKind};
use rtil_hook::machine::{CallEffect, Callee, Exit, Instr, Machine, Reg};
use rtil_hook::trampoline::{
    hook_after_interceptor, hook_before_interceptor, hook_once_interceptor, interceptor,
};

const TARGET: u64 = 0x0050_0840;
const REGS: [Reg; 11] = [
    Reg::Ax,
    Reg::Bx,
    Reg::Cx,
    Reg::Dx,
    Reg::Si,
    Reg::Di,
    Reg::Bp,
    Reg::R8,
    Reg::R9,
    Reg::R10,
    Reg::R11,
];

fn registers(abi: Abi) -> usize {
    match abi {
        Abi::SysV64 => 11,
        Abi::ThisCall32 => 7,
    }
}

fn reg(m: &Machine, r: Reg) -> u64 {
    m.register(r).unwrap()
}

fn lanes(abi: Abi) -> usize {
    (16 / abi.word_bytes()) as usize
}

fn register_at_entry(i: usize) -> u64 {
    0x1000 + i as u64
}

fn lane_at_entry(k: u8, l: usize) -> u64 {
    0x2000 + 16 * k as u64 + l as u64
}

fn slot_at_entry(i: u64) -> u64 {
    0x30000 + i
}

/// A machine about to run an interceptor: the stack pointer at `entry_slot`,
/// and a different value in every register and every slot.
fn machine(abi: Abi, slots: usize, entry_slot: u64) -> Machine {
    let w = abi.word_bytes();
    let mut m = Machine::new(abi, slots, TARGET).unwrap();
    assert!(m.set_stack_pointer(entry_slot * w));
    for (i, r) in REGS[..registers(abi)].iter().enumerate() {
        assert!(m.set_register(*r, register_at_entry(i)));
    }
    for k in 0..8u8 {
        for l in 0..lanes(abi) {
            assert!(m.set_vector_lane(k, l, lane_at_entry(k, l)));
        }
    }
    for i in 0..slots as u64 {
        assert!(m.poke(i * w, slot_at_entry(i)));
    }
    m
}

fn effect(result: u64, consumed: u64, junk: u64) -> CallEffect {
    CallEffect {
        result,
        consumed,
        junk,
    }
}

fn assert_vectors_as_at_entry(m: &Machine) {
    for k in 0..8u8 {
        for l in 0..lanes(m.abi()) {
            assert_eq!(m.vector_lane(k, l), Some(lane_at_entry(k, l)));
        }
    }
}

fn assert_stack_as_at_entry_from(m: &Machine, slot: u64) {
    let w = m.abi().word_bytes();
    for i in slot..m.slots() as u64 {
        assert_eq!(m.peek(i * w), Some(slot_at_entry(i)));
    }
}

#[test]
fn a_machine_must_fit_its_addresses() {
    assert!(Machine::new(Abi::ThisCall32, 0x4000_0000, 0).is_none());
    assert!(Machine::new(Abi::ThisCall32, 16, 0x1_0000_0000).is_none());
    let m = Machine::new(Abi::ThisCall32, 16, 0xffff_ffff).unwrap();
    assert_eq!(m.stack_pointer(), 64);
    assert_eq!(m.slots(), 16);
    assert_eq!(m.target(), 0xffff_ffff);
    assert_eq!(reg(&m, Reg::Cx), 0);
    assert_eq!(m.peek(60), Some(0));
    assert_eq!(m.peek(64), None);
    assert_eq!(m.peek(2), None);
    assert_eq!(m.vector_lane(7, 3), Some(0));
    assert_eq!(m.vector_lane(7, 4), None);
    assert_eq!(m.vector_lane(8, 0), None);
    let wide = Machine::new(Abi::SysV64, 16, u64::MAX).unwrap();
    assert_eq!(wide.stack_pointer(), 128);
    assert_eq!(wide.vector_lane(0, 1), Some(0));
    assert_eq!(wide.vector_lane(0, 2), None);
}

#[test]
fn setters_refuse_what_does_not_fit() {
    let mut m = Machine::new(Abi::ThisCall32, 16, 0).unwrap();
    assert!(!m.set_register(Reg::Ax, 0x1_0000_0000));
    assert!(!m.set_stack_pointer(0x1_0000_0000));
    assert!(!m.poke(0, 0x1_0000_0000));
    assert!(!m.poke(64, 1));
    assert!(!m.poke(3, 1));
    assert!(!m.set_vector_lane(8, 0, 1));
    assert!(!m.set_vector_lane(0, 4, 1));
    assert!(!m.set_register(Reg::R8, 1));
    assert_eq!(m.register(Reg::R8), None);
    assert_eq!(m.register(Reg::R11), None);
    assert!(!m.step(Instr::Push(Reg::R9)));
    assert!(!m.step(Instr::MovImm(Reg::R10, 1)));
    assert!(m.set_register(Reg::Ax, 0xffff_ffff));
    assert_eq!(reg(&m, Reg::Ax), 0xffff_ffff);
    assert!(m.poke(8, 77));
    assert_eq!(m.peek(8), Some(77));
}

#[test]
fn push_and_pop_move_one_word() {
    for abi in [Abi::SysV64, Abi::ThisCall32] {
        let w = abi.word_bytes();
        let mut m = machine(abi, 32, 20);
        assert!(m.step(Instr::Push(Reg::Dx)));
        assert_eq!(m.stack_pointer(), 19 * w);
        assert_eq!(m.peek(19 * w), Some(register_at_entry(3)));
        assert!(m.step(Instr::Pop(Reg::Si)));
        assert_eq!(m.stack_pointer(), 20 * w);
        assert_eq!(reg(&m, Reg::Si), register_at_entry(3));
        assert_eq!(reg(&m, Reg::Dx), register_at_entry(3));
    }
}

#[test]
fn arithmetic_wraps_at_the_word_size() {
    let mut m = machine(Abi::ThisCall32, 32, 20);
    assert!(m.step(Instr::MovFromSp(Reg::Bx)));
    assert!(m.step(Instr::AddSp(12)));
    assert!(m.step(Instr::SubRegSp(Reg::Bx)));
    assert_eq!(reg(&m, Reg::Bx), 0x1_0000_0000 - 12);
    assert!(m.step(Instr::AddSpReg(Reg::Bx)));
    assert_eq!(m.stack_pointer(), 80);
    assert!(m.step(Instr::SubSpReg(Reg::Bx)));
    assert_eq!(m.stack_pointer(), 92);
    let mut wide = machine(Abi::SysV64, 32, 20);
    assert!(wide.step(Instr::MovFromSp(Reg::Bx)));
    assert!(wide.step(Instr::AddSp(16)));
    assert!(wide.step(Instr::SubRegSp(Reg::Bx)));
    assert_eq!(reg(&wide, Reg::Bx), u64::MAX - 15);
    assert!(wide.step(Instr::AddSpReg(Reg::Bx)));
    assert_eq!(wide.stack_pointer(), 160);
}

#[test]
fn align_rounds_the_stack_pointer_down_to_sixteen() {
    let mut m = machine(Abi::SysV64, 32, 21);
    assert!(m.step(Instr::AlignSp));
    assert_eq!(m.stack_pointer(), 160);
    assert!(m.step(Instr::AlignSp));
    assert_eq!(m.stack_pointer(), 160);
}

#[test]
fn registers_are_computed_as_the_instructions_say() {
    let mut m = machine(Abi::ThisCall32, 32, 20);
    assert!(m.step(Instr::MovImm(Reg::Cx, 0x100)));
    assert_eq!(reg(&m, Reg::Cx), 0x100);
    assert!(!m.step(Instr::MovImm(Reg::Cx, 0x1_0000_0000)));
    assert_eq!(reg(&m, Reg::Cx), 0x100);
    assert!(m.step(Instr::Lea(Reg::Dx, 0x1c)));
    assert_eq!(reg(&m, Reg::Dx), 80 + 0x1c);
    assert!(m.step(Instr::SubReg(Reg::Dx, Reg::Cx)));
    assert_eq!(reg(&m, Reg::Dx), 0x1_0000_0000 + 80 + 0x1c - 0x100);
    assert!(m.step(Instr::LoadTarget(Reg::Ax)));
    assert_eq!(reg(&m, Reg::Ax), TARGET);
    assert!(m.step(Instr::Load(Reg::Di, 8)));
    assert_eq!(reg(&m, Reg::Di), slot_at_entry(22));
    assert!(m.step(Instr::Store(4, Reg::Cx)));
    assert_eq!(m.peek(84), Some(0x100));
    assert!(m.step(Instr::MovImm(Reg::Si, 40)));
    assert!(m.step(Instr::StoreAt(Reg::Si, Reg::Ax)));
    assert_eq!(m.peek(40), Some(TARGET));
    assert!(m.step(Instr::MovToSp(Reg::Si)));
    assert_eq!(m.stack_pointer(), 40);
}

#[test]
fn vector_registers_travel_lane_by_lane() {
    for abi in [Abi::SysV64, Abi::ThisCall32] {
        let w = abi.word_bytes();
        let mut m = machine(abi, 32, 8);
        assert!(m.step(Instr::StoreVec(0x10, 3)));
        for l in 0..lanes(abi) {
            assert_eq!(
                m.peek(8 * w + 0x10 + l as u64 * w),
                Some(lane_at_entry(3, l))
            );
        }
        assert!(m.step(Instr::LoadVec(5, 0x10)));
        for l in 0..lanes(abi) {
            assert_eq!(m.vector_lane(5, l), Some(lane_at_entry(3, l)));
            assert_eq!(m.vector_lane(4, l), Some(lane_at_entry(4, l)));
        }
        assert!(!m.step(Instr::StoreVec(0, 8)));
        assert!(!m.step(Instr::LoadVec(8, 0)));
    }
}

#[test]
fn copy_bytes_copies_slots_and_moves_its_registers() {
    let mut m = machine(Abi::ThisCall32, 64, 40);
    assert!(m.set_register(Reg::Cx, 16));
    assert!(m.set_register(Reg::Si, 160));
    assert!(m.set_register(Reg::Di, 80));
    assert!(m.step(Instr::CopyBytes));
    for t in 0..4u64 {
        assert_eq!(m.peek(80 + 4 * t), Some(slot_at_entry(40 + t)));
    }
    assert_eq!(m.peek(96), Some(slot_at_entry(24)));
    assert_eq!(reg(&m, Reg::Cx), 0);
    assert_eq!(reg(&m, Reg::Si), 176);
    assert_eq!(reg(&m, Reg::Di), 96);
    assert!(m.set_register(Reg::Cx, 16));
    assert!(m.set_register(Reg::Si, 100));
    assert!(m.set_register(Reg::Di, 108));
    assert!(!m.step(Instr::CopyBytes));
    assert!(m.set_register(Reg::Cx, 6));
    assert!(m.set_register(Reg::Di, 0));
    assert!(!m.step(Instr::CopyBytes));
}

#[test]
fn what_cannot_be_carried_out_changes_nothing() {
    let mut m = machine(Abi::ThisCall32, 32, 0);
    assert!(!m.step(Instr::Push(Reg::Ax)));
    assert_eq!(m.stack_pointer(), 0);
    assert!(m.set_stack_pointer(128));
    assert!(!m.step(Instr::Pop(Reg::Ax)));
    assert_eq!(reg(&m, Reg::Ax), register_at_entry(0));
    assert!(m.set_stack_pointer(6));
    assert!(!m.step(Instr::Load(Reg::Ax, 0)));
    assert!(!m.step(Instr::SubSp(0x1_0000_0000)));
    assert!(!m.step(Instr::Call(Callee::Callback)));
    assert!(!m.step(Instr::Ret));
    assert!(!m.step(Instr::JumpReg(Reg::Ax)));
    assert_eq!(m.stack_pointer(), 6);
}

#[test]
fn a_call_leaves_junk_where_a_callee_may() {
    let mut m = machine(Abi::ThisCall32, 32, 20);
    assert!(m.call(effect(0x77, 8, 0xdead)));
    assert_eq!(m.stack_pointer(), 88);
    assert_eq!(reg(&m, Reg::Ax), 0x77);
    assert_eq!(reg(&m, Reg::Bx), register_at_entry(1));
    assert_eq!(reg(&m, Reg::Cx), 0xdead);
    assert_eq!(reg(&m, Reg::Dx), 0xdead);
    assert_eq!(reg(&m, Reg::Si), register_at_entry(4));
    assert_eq!(reg(&m, Reg::Di), register_at_entry(5));
    assert_eq!(reg(&m, Reg::Bp), register_at_entry(6));
    assert_eq!(m.vector_lane(0, 0), Some(0xdead));
    assert_eq!(m.peek(84), Some(0xdead));
    assert_eq!(m.peek(88), Some(slot_at_entry(22)));
    let mut wide = machine(Abi::SysV64, 32, 20);
    assert!(wide.call(effect(1, 0, 2)));
    assert_eq!(reg(&wide, Reg::Bx), register_at_entry(1));
    assert_eq!(reg(&wide, Reg::Si), 2);
    assert_eq!(reg(&wide, Reg::Di), 2);
    assert_eq!(reg(&wide, Reg::Bp), register_at_entry(6));
    assert_eq!(reg(&wide, Reg::R8), 2);
    assert_eq!(reg(&wide, Reg::R11), 2);
    assert!(!wide.call(effect(1, 4, 2)));
    assert!(!wide.call(effect(1, 8 * 13, 2)));
    let mut low = machine(Abi::ThisCall32, 32, 0);
    assert!(!low.call(effect(1, 0, 2)));
    assert!(!m.call(effect(0x1_0000_0000, 0, 0)));
}

#[test]
fn the_once_interceptor_on_64_bits_hands_the_call_on_untouched() {
    let mut m = machine(Abi::SysV64, 64, 40);
    let program = hook_once_interceptor(Abi::SysV64);
    let report = m.run(&program, &vec![effect(5, 0, 0xaaaa), effect(6, 0, 0xbbbb)]);
    assert_eq!(report.exit, Exit::Jumped(TARGET));
    assert_eq!(report.calls, vec![Callee::Callback, Callee::Unhook]);
    assert_eq!(m.stack_pointer(), 40 * 8);
    assert_eq!(reg(&m, Reg::Ax), TARGET);
    for i in 1..11 {
        assert_eq!(reg(&m, REGS[i]), register_at_entry(i));
    }
    assert_vectors_as_at_entry(&m);
    assert_stack_as_at_entry_from(&m, 40);
    let callback = &report.seen[0];
    assert_eq!(callback.stack_pointer() % 16, 0);
    assert_eq!(report.seen[1].stack_pointer() % 16, 0);
    for i in (0..11).filter(|i| *i != 6) {
        assert_eq!(reg(&callback, REGS[i]), register_at_entry(i));
    }
    assert_vectors_as_at_entry(callback);
}

#[test]
fn the_before_interceptor_on_64_bits_returns_what_the_original_returned() {
    for entry in [40u64, 41] {
        let mut m = machine(Abi::SysV64, 64, entry);
        let program = hook_before_interceptor(Abi::SysV64);
        let effects = vec![
            effect(1, 0, 0xaaaa),
            effect(2, 0, 0xbbbb),
            effect(0x1234_5678_9abc, 0, 0xcccc),
            effect(4, 0, 0xdddd),
        ];
        let report = m.run(&program, &effects);
        assert_eq!(report.exit, Exit::Returned(slot_at_entry(entry)));
        assert_eq!(
            report.calls,
            vec![
                Callee::Callback,
                Callee::Unhook,
                Callee::Original,
                Callee::Rehook
            ]
        );
        assert_eq!(m.stack_pointer(), (entry + 1) * 8);
        assert_eq!(reg(&m, Reg::Ax), 0x1234_5678_9abc);
        assert_eq!(reg(&m, Reg::Bx), register_at_entry(1));
        assert_eq!(reg(&m, Reg::Bp), register_at_entry(6));
        assert_stack_as_at_entry_from(&m, entry);
        for seen in report.seen.iter() {
            assert_eq!(seen.stack_pointer() % 16, 0);
        }
        let original = &report.seen[2];
        for i in (0..11).filter(|i| *i != 6) {
            assert_eq!(reg(&original, REGS[i]), register_at_entry(i));
        }
        assert_vectors_as_at_entry(original);
    }
}

#[test]
fn the_after_interceptor_on_64_bits_calls_back_last() {
    let mut m = machine(Abi::SysV64, 64, 40);
    let program = hook_after_interceptor(Abi::SysV64);
    let effects = vec![
        effect(1, 0, 0xaaaa),
        effect(0x55, 0, 0xbbbb),
        effect(3, 0, 0xcccc),
        effect(4, 0, 0xdddd),
    ];
    let report = m.run(&program, &effects);
    assert_eq!(report.exit, Exit::Returned(slot_at_entry(40)));
    assert_eq!(
        report.calls,
        vec![
            Callee::Unhook,
            Callee::Original,
            Callee::Rehook,
            Callee::Callback
        ]
    );
    assert_eq!(m.stack_pointer(), 41 * 8);
    assert_eq!(reg(&m, Reg::Ax), 0x55);
    assert_eq!(reg(&m, Reg::Bx), register_at_entry(1));
    assert_eq!(reg(&m, Reg::Bp), register_at_entry(6));
    assert_stack_as_at_entry_from(&m, 40);
    let original = &report.seen[1];
    for i in (0..11).filter(|i| *i != 6) {
        assert_eq!(reg(&original, REGS[i]), register_at_entry(i));
    }
}

#[test]
fn the_once_interceptor_on_32_bits_hands_the_call_on_untouched() {
    let mut m = machine(Abi::ThisCall32, 128, 100);
    let program = hook_once_interceptor(Abi::ThisCall32);
    let report = m.run(&program, &vec![effect(5, 0, 0xaaaa), effect(6, 0, 0xbbbb)]);
    assert_eq!(report.exit, Exit::Jumped(TARGET));
    assert_eq!(report.calls, vec![Callee::Callback, Callee::Unhook]);
    assert_eq!(m.stack_pointer(), 400);
    assert_eq!(reg(&m, Reg::Ax), TARGET);
    for i in 1..7 {
        assert_eq!(reg(&m, REGS[i]), register_at_entry(i));
    }
    assert_vectors_as_at_entry(&m);
    assert_stack_as_at_entry_from(&m, 100);
    for i in 0..7 {
        assert_eq!(reg(&report.seen[0], REGS[i]), register_at_entry(i));
    }
}

/// Runs a call-before or call-after interceptor on 32 bits where the target
/// takes `k` bytes of arguments, and checks it against a call that was not
/// intercepted.
fn check_stack_accounting(kind: HookKind, k: u64) {
    let entry = 150u64;
    let result = 0x0bad_cafe;
    let mut direct = machine(Abi::ThisCall32, 256, entry + 1);
    assert!(direct.call(effect(result, k, 0x9999)));

    let mut m = machine(Abi::ThisCall32, 256, entry);
    let program = interceptor(Abi::ThisCall32, kind);
    let helper = |junk| effect(0, 0, junk);
    let (effects, order, original_at, callback_at, held) = match kind {
        HookKind::Before => (
            vec![
                effect(1, k, 0xaaaa),
                helper(0xbbbb),
                effect(result, k, 0xcccc),
                helper(0xdddd),
            ],
            vec![
                Callee::Callback,
                Callee::Unhook,
                Callee::Original,
                Callee::Rehook,
            ],
            2,
            0,
            Reg::Cx,
        ),
        _ => (
            vec![
                helper(0xaaaa),
                effect(result, k, 0xbbbb),
                helper(0xcccc),
                effect(1, k, 0xdddd),
            ],
            vec![
                Callee::Unhook,
                Callee::Original,
                Callee::Rehook,
                Callee::Callback,
            ],
            1,
            3,
            Reg::Dx,
        ),
    };
    let report = m.run(&program, &effects);
    assert_eq!(report.exit, Exit::Returned(slot_at_entry(entry)));
    assert_eq!(report.calls, order);
    assert_eq!(m.stack_pointer(), direct.stack_pointer());
    assert_eq!(m.stack_pointer(), entry * 4 + 4 + k);
    assert_eq!(reg(&m, Reg::Ax), reg(&direct, Reg::Ax));
    assert_eq!(reg(&m, Reg::Ax), result);
    for (i, r) in REGS[..7].iter().enumerate() {
        if *r == Reg::Ax {
            continue;
        }
        if *r == held {
            assert_eq!(reg(&m, *r), (0x1_0000_0000 - k) % 0x1_0000_0000);
        } else {
            assert_eq!(reg(&m, *r), register_at_entry(i));
        }
    }
    assert_vectors_as_at_entry(&m);
    assert_stack_as_at_entry_from(&m, entry + 1 + k / 4);
    for at in [original_at, callback_at] {
        let seen = &report.seen[at];
        assert_eq!(reg(&seen, Reg::Cx), register_at_entry(2));
        assert_vectors_as_at_entry(seen);
        let sp = seen.stack_pointer();
        for t in 0..24u64 {
            assert_eq!(seen.peek(sp + 4 * t), Some(slot_at_entry(entry + 1 + t)));
        }
    }
}

#[test]
fn the_before_interceptor_on_32_bits_accounts_for_the_arguments() {
    for k in [0u64, 4, 12, 0x5c, 0x60] {
        check_stack_accounting(HookKind::Before, k);
    }
}

#[test]
fn the_after_interceptor_on_32_bits_accounts_for_the_arguments() {
    for k in [0u64, 4, 12, 0x5c, 0x60] {
        check_stack_accounting(HookKind::After, k);
    }
}

#[test]
fn callback_and_original_may_take_different_amounts() {
    let entry = 150u64;
    let mut m = machine(Abi::ThisCall32, 256, entry);
    let program = hook_before_interceptor(Abi::ThisCall32);
    let effects = vec![
        effect(1, 0, 0xaaaa),
        effect(2, 0, 0xbbbb),
        effect(3, 16, 0xcccc),
        effect(4, 0, 0xdddd),
    ];
    let report = m.run(&program, &effects);
    assert_eq!(report.exit, Exit::Returned(slot_at_entry(entry)));
    assert_eq!(m.stack_pointer(), entry * 4 + 4 + 16);
    assert_eq!(reg(&m, Reg::Ax), 3);
}

#[test]
fn more_arguments_than_the_window_holds_are_not_survived() {
    let entry = 150u64;
    let mut m = machine(Abi::ThisCall32, 256, entry);
    let program = hook_before_interceptor(Abi::ThisCall32);
    let effects = vec![
        effect(1, 0x64, 0xaaaa),
        effect(2, 0, 0xbbbb),
        effect(3, 0x64, 0xcccc),
        effect(4, 0, 0xdddd),
    ];
    let report = m.run(&program, &effects);
    let intact = report.exit == Exit::Returned(slot_at_entry(entry))
        && (0..8u8).all(|k| (0..4).all(|l| m.vector_lane(k, l) == Some(lane_at_entry(k, l))));
    assert!(!intact);
}

#[test]
fn an_interceptor_without_room_faults() {
    let mut m = machine(Abi::ThisCall32, 256, 100);
    let program = hook_before_interceptor(Abi::ThisCall32);
    let effects = vec![effect(0, 0, 0); 4];
    let report = m.run(&program, &effects);
    assert_eq!(report.exit, Exit::Fault);
    let mut short = machine(Abi::SysV64, 64, 20);
    let report = short.run(&hook_once_interceptor(Abi::SysV64), &effects);
    assert_eq!(report.exit, Exit::Fault);
    assert!(report.calls.is_empty());
}

#[test]
fn a_run_stalls_when_effects_or_instructions_run_out() {
    let mut m = machine(Abi::SysV64, 64, 40);
    let program = hook_once_interceptor(Abi::SysV64);
    let report = m.run(&program, &vec![effect(5, 0, 1)]);
    assert_eq!(report.exit, Exit::Stalled);
    assert_eq!(report.calls, vec![Callee::Callback]);
    let mut n = machine(Abi::SysV64, 64, 40);
    let report = n.run(&vec![Instr::Push(Reg::Ax)], &vec![]);
    assert_eq!(report.exit, Exit::Stalled);
    assert_eq!(n.stack_pointer(), 39 * 8);
    let mut r = machine(Abi::SysV64, 64, 40);
    let report = r.run(&vec![Instr::Ret], &vec![]);
    assert_eq!(report.exit, Exit::Returned(slot_at_entry(40)));
    assert_eq!(r.stack_pointer(), 41 * 8);
}

#[test]
fn interceptors_have_the_expected_shape() {
    let once64 = hook_once_interceptor(Abi::SysV64);
    assert_eq!(once64.len(), 20 + 3 + 2 + 2 + 20 + 2);
    assert_eq!(once64[0], Instr::Push(Reg::Ax));
    assert_eq!(once64[7], Instr::Push(Reg::R8));
    assert_eq!(once64[10], Instr::Push(Reg::R11));
    assert_eq!(once64[11], Instr::SubSp(0x80));
    assert_eq!(once64[12], Instr::StoreVec(0x70, 0));
    assert_eq!(once64[19], Instr::StoreVec(0, 7));
    assert_eq!(once64[20], Instr::Push(Reg::Bp));
    assert_eq!(once64[23], Instr::Call(Callee::Callback));
    assert_eq!(once64[24], Instr::Call(Callee::Unhook));
    assert_eq!(once64[36], Instr::Pop(Reg::R11));
    let once32 = hook_once_interceptor(Abi::ThisCall32);
    assert_eq!(once32.len(), 16 + 2 + 16 + 2);
    assert_eq!(once32[7], Instr::SubSp(0x80));
    assert_eq!(once64[once64.len() - 1], Instr::JumpReg(Reg::Ax));
    let before32 = hook_before_interceptor(Abi::ThisCall32);
    assert_eq!(before32[16], Instr::SubSp(0x100));
    assert_eq!(before32[20], Instr::CopyBytes);
    assert_eq!(before32[before32.len() - 2], Instr::SubSpReg(Reg::Cx));
    assert_eq!(before32[before32.len() - 1], Instr::Ret);
    let after32 = hook_after_interceptor(Abi::ThisCall32);
    assert_eq!(after32[16], Instr::Call(Callee::Unhook));
    assert_eq!(after32[after32.len() - 2], Instr::SubSpReg(Reg::Dx));
    for abi in [Abi::SysV64, Abi::ThisCall32] {
        assert_eq!(interceptor(abi, HookKind::Once), hook_once_interceptor(abi));
        assert_eq!(
            interceptor(abi, HookKind::Before),
            hook_before_interceptor(abi)
        );
        assert_eq!(interceptor(abi, HookKind::After), hook_after_interceptor(abi));
    }
}

#[test]
fn the_saved_registers_lie_where_the_offsets_say() {
    let mut m = machine(Abi::ThisCall32, 128, 100);
    let program = hook_once_interceptor(Abi::ThisCall32);
    for instr in program[..16].iter() {
        assert!(m.step(*instr));
    }
    let sp = m.stack_pointer();
    assert_eq!(sp, 400 - 0x9c);
    for k in 0..8u8 {
        for l in 0..4usize {
            let at = sp + 0x70 - 0x10 * k as u64 + 4 * l as u64;
            assert_eq!(m.peek(at), Some(lane_at_entry(k, l)));
        }
    }
    assert_eq!(m.peek(sp + 0x80), Some(register_at_entry(6)));
    assert_eq!(m.peek(sp + 0x84), Some(register_at_entry(5)));
    assert_eq!(m.peek(sp + 0x88), Some(register_at_entry(4)));
    assert_eq!(m.peek(sp + 0x8c), Some(register_at_entry(3)));
    assert_eq!(m.peek(sp + 0x90), Some(register_at_entry(2)));
    assert_eq!(m.peek(sp + 0x94), Some(register_at_entry(1)));
    assert_eq!(m.peek(sp + 0x98), Some(register_at_entry(0)));
    assert_eq!(m.peek(sp + 0x9c), Some(slot_at_entry(100)));
    assert_eq!(m.peek(sp + 0xa0), Some(slot_at_entry(101)));

    let mut wide = machine(Abi::SysV64, 64, 40);
    for instr in hook_once_interceptor(Abi::SysV64)[..20].iter() {
        assert!(wide.step(*instr));
    }
    let sp = wide.stack_pointer();
    assert_eq!(sp, 320 - 0xd8);
    assert_eq!(wide.peek(sp), Some(lane_at_entry(7, 0)));
    assert_eq!(wide.peek(sp + 8), Some(lane_at_entry(7, 1)));
    assert_eq!(wide.peek(sp + 0x70), Some(lane_at_entry(0, 0)));
    assert_eq!(wide.peek(sp + 0x80), Some(register_at_entry(10)));
    assert_eq!(wide.peek(sp + 0x88), Some(register_at_entry(9)));
    assert_eq!(wide.peek(sp + 0x90), Some(register_at_entry(8)));
    assert_eq!(wide.peek(sp + 0x98), Some(register_at_entry(7)));
    assert_eq!(wide.peek(sp + 0xa0), Some(register_at_entry(6)));
    assert_eq!(wide.peek(sp + 0xd0), Some(register_at_entry(0)));
    assert_eq!(wide.peek(sp + 0xd8), Some(slot_at_entry(40)));
}

#[test]
fn the_shadow_holds_the_return_address_and_the_arguments() {
    let mut m = machine(Abi::ThisCall32, 256, 150);
    let program = hook_before_interceptor(Abi::ThisCall32);
    for instr in program[..21].iter() {
        assert!(m.step(*instr));
    }
    let sp = m.stack_pointer();
    assert_eq!(sp, 600 - 0x9c - 0x100);
    assert_eq!(m.peek(sp + 0x98), Some(register_at_entry(0)));
    assert_eq!(m.peek(sp + 0x9c), Some(slot_at_entry(150)));
    for t in 0..24u64 {
        assert_eq!(m.peek(sp + 0xa0 + 4 * t), Some(slot_at_entry(151 + t)));
    }
    assert_eq!(reg(&m, Reg::Cx), 0);
    assert_eq!(reg(&m, Reg::Si), 600 - 0x9c + 0x100);
    assert_eq!(reg(&m, Reg::Di), 600 - 0x9c);
}
