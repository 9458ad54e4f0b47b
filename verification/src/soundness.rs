//! What the interceptors of [`crate::trampoline`] do when they run on the
//! machine of [`crate::machine`]: which functions they call and in which
//! order, what those functions find in the registers and on the stack, and in
//! what state the real caller, or the original function, gets control back.

use crate::arch::{Abi, HookKind};
use crate::machine::{
    callee_saved, lane, lanes, operands_exist, register_count, to_address, to_slot, wrap_add,
    wrap_sub, CallEffect, Callee, Exit, Instr, MachineView, Outcome, Reg,
};
use crate::policy::{sequence_spec, Step};
use crate::trampoline::{
    align, aligned_call, call, interceptor_spec, mark, measure, release, relocate_return,
    leave_over_arguments, restore_all, save_all, shadow, shadowed_call, unalign,
};
use vstd::prelude::*;

verus! {

/// The machine after the instructions of `block` from index `from` on, none
/// of which calls or leaves; `None` where one of them cannot be carried out.
pub open spec fn steps(m: MachineView, block: Seq<Instr>, from: int) -> Option<MachineView>
    decreases block.len() - from,
{
    if from < 0 || from >= block.len() {
        Some(m)
    } else {
        match m.step(block[from]) {
            Some(next) => steps(next, block, from + 1),
            None => None,
        }
    }
}

/// An instruction that `step` carries out neither calls nor leaves.
pub proof fn lemma_step_is_plain(m: MachineView, instr: Instr)
    ensures
        m.step(instr) is Some ==> !(instr is Call || instr is JumpReg || instr is Ret),
{
    reveal(MachineView::step);
}

/// The slot that the stack pointer stands at.
pub proof fn lemma_slot_of_stack_pointer(m: MachineView, s: int)
    requires
        stands_at(m, s),
    ensures
        s < m.stack.len() ==> m.slot(m.sp) == Some(s),
        s == m.stack.len() ==> m.slot(m.sp) is None,
        s < m.stack.len() ==> wrap_add(m.abi, m.sp, m.abi.word_bytes_spec() as u64)
            == to_address(m.abi, s + 1),
{
    match m.abi {
        Abi::SysV64 => {
            assert(m.sp == 8 * s);
        },
        Abi::ThisCall32 => {
            assert(m.sp == 4 * s);
        },
    }
}

/// A run goes through a block of plain instructions as `steps` says.
pub proof fn lemma_run_steps(
    m: MachineView,
    block: Seq<Instr>,
    from: int,
    rest: Seq<Instr>,
    effects: Seq<CallEffect>,
)
    requires
        0 <= from <= block.len(),
        steps(m, block, from) is Some,
    ensures
        m.run(block.skip(from) + rest, effects) == steps(m, block, from)->0.run(rest, effects),
    decreases block.len() - from,
{
    if from == block.len() {
        assert(block.skip(from) + rest =~= rest);
    } else {
        lemma_step_is_plain(m, block[from]);
        let program = block.skip(from) + rest;
        let next = m.step(block[from])->0;
        assert(program[0] == block[from]);
        assert(program.drop_first() =~= block.skip(from + 1) + rest);
        lemma_run_steps(next, block, from + 1, rest, effects);
    }
}

/// A run goes through a whole block of plain instructions as `steps` says.
pub proof fn lemma_run_block(
    m: MachineView,
    block: Seq<Instr>,
    rest: Seq<Instr>,
    effects: Seq<CallEffect>,
)
    requires
        steps(m, block, 0) is Some,
    ensures
        m.run(block + rest, effects) == steps(m, block, 0)->0.run(rest, effects),
{
    lemma_run_steps(m, block, 0, rest, effects);
    assert(block.skip(0) =~= block);
}

/// A run goes through a call as the callee's effect says, and notes the call.
pub proof fn lemma_run_call(
    m: MachineView,
    callee: Callee,
    rest: Seq<Instr>,
    effects: Seq<CallEffect>,
)
    requires
        effects.len() > 0,
        m.call(effects[0]) is Some,
    ensures
        m.run(call(callee) + rest, effects) == ({
            let after = m.call(effects[0])->0.run(rest, effects.drop_first());
            Outcome { calls: seq![(callee, m)] + after.calls, ..after }
        }),
{
    let program = call(callee) + rest;
    assert(program[0] == Instr::Call(callee));
    assert(program.drop_first() =~= rest);
}

/// What `save_all` leaves on the stack, from the lowest address up: the
/// vector registers from the last to the first, then the general registers
/// from the last to the first.
pub open spec fn frame_image(abi: Abi, regs: Seq<u64>, vecs: Seq<u64>) -> Seq<u64> {
    match abi {
        Abi::SysV64 => Seq::new(
            27,
            |t: int|
                if t < 16 {
                    vecs[2 * (7 - t / 2) + t % 2]
                } else {
                    regs[26 - t]
                },
        ),
        Abi::ThisCall32 => Seq::new(
            39,
            |t: int|
                if t < 32 {
                    vecs[4 * (7 - t / 4) + t % 4]
                } else {
                    regs[38 - t]
                },
        ),
    }
}

/// `stack` with `image` laid over it from the slot at index `base` on.
pub open spec fn overlay(stack: Seq<u64>, base: int, image: Seq<u64>) -> Seq<u64> {
    Seq::new(
        stack.len(),
        |j: int|
            if base <= j < base + image.len() {
                image[j - base]
            } else {
                stack[j]
            },
    )
}

/// Whether the slots of `stack` from index `base` on hold `image`.
pub open spec fn holds(stack: Seq<u64>, base: int, image: Seq<u64>) -> bool {
    &&& 0 <= base
    &&& base + image.len() <= stack.len()
    &&& forall|j: int| base <= j < base + image.len() ==> #[trigger] stack[j] == image[j - base]
}

/// The stack pointer of `m` stands at the slot with index `s`.
pub open spec fn stands_at(m: MachineView, s: int) -> bool {
    &&& m.regs.len() == register_count(m.abi)
    &&& m.vecs.len() == 8 * lanes(m.abi)
    &&& to_address(m.abi, m.stack.len() as int) < m.abi.modulus()
    &&& 0 <= s <= m.stack.len()
    &&& m.sp == to_address(m.abi, s)
}

/// One instruction further in a block.
pub proof fn lemma_steps_next(m: MachineView, block: Seq<Instr>, from: int, next: MachineView)
    requires
        0 <= from < block.len(),
        m.step(block[from]) == Some(next),
    ensures
        steps(m, block, from) == steps(next, block, from + 1),
{
}

/// `push r` with the stack pointer at slot `s`.
pub proof fn lemma_push(m: MachineView, r: Reg, s: int)
    requires
        r.on(m.abi),
        stands_at(m, s),
        s >= 1,
    ensures
        m.step(Instr::Push(r)) == Some(
            MachineView {
                sp: to_address(m.abi, s - 1) as u64,
                stack: m.stack.update(s - 1, m.regs[r.index_spec()]),
                ..m
            },
        ),
{
    reveal(MachineView::step);
}

/// `pop r` with the stack pointer at slot `s`.
pub proof fn lemma_pop(m: MachineView, r: Reg, s: int)
    requires
        r.on(m.abi),
        stands_at(m, s),
        s < m.stack.len(),
    ensures
        m.step(Instr::Pop(r)) == Some(
            MachineView {
                sp: to_address(m.abi, s + 1) as u64,
                regs: m.regs.update(r.index_spec(), m.stack[s]),
                ..m
            },
        ),
{
    reveal(MachineView::step);
}

/// `sub sp, n` from slot `s` down to slot `t`.
pub proof fn lemma_sub_sp(m: MachineView, n: u64, s: int, t: int)
    requires
        stands_at(m, s),
        0 <= t <= s,
        n == to_address(m.abi, s - t),
    ensures
        m.step(Instr::SubSp(n)) == Some(MachineView { sp: to_address(m.abi, t) as u64, ..m }),
{
    reveal(MachineView::step);
}

/// `add sp, n` from slot `s` up to slot `t`.
pub proof fn lemma_add_sp(m: MachineView, n: u64, s: int, t: int)
    requires
        stands_at(m, s),
        s <= t <= m.stack.len(),
        n == to_address(m.abi, t - s),
    ensures
        m.step(Instr::AddSp(n)) == Some(MachineView { sp: to_address(m.abi, t) as u64, ..m }),
{
    reveal(MachineView::step);
}

/// `movdqu [sp + n], xmmK` with the stack pointer at slot `s` and the
/// address `sp + n` at slot `t`.
pub proof fn lemma_store_vec(m: MachineView, n: u64, k: u8, s: int, t: int)
    requires
        stands_at(m, s),
        s <= t,
        t + lanes(m.abi) <= m.stack.len(),
        n == to_address(m.abi, t - s),
        k < 8,
    ensures
        m.step(Instr::StoreVec(n, k)) == Some(
            MachineView {
                stack: Seq::new(
                    m.stack.len(),
                    |j: int|
                        if t <= j < t + lanes(m.abi) {
                            m.vecs[lane(m.abi, k as int, j - t)]
                        } else {
                            m.stack[j]
                        },
                ),
                ..m
            },
        ),
{
    reveal(MachineView::step);
}

/// `movdqu xmmK, [sp + n]` with the stack pointer at slot `s` and the
/// address `sp + n` at slot `t`.
pub proof fn lemma_load_vec(m: MachineView, k: u8, n: u64, s: int, t: int)
    requires
        stands_at(m, s),
        s <= t,
        t + lanes(m.abi) <= m.stack.len(),
        n == to_address(m.abi, t - s),
        k < 8,
    ensures
        m.step(Instr::LoadVec(k, n)) == Some(
            MachineView {
                vecs: Seq::new(
                    m.vecs.len(),
                    |j: int|
                        if lane(m.abi, k as int, 0) <= j < lane(m.abi, k as int, lanes(m.abi)) {
                            m.stack[t + (j - lane(m.abi, k as int, 0))]
                        } else {
                            m.vecs[j]
                        },
                ),
                ..m
            },
        ),
{
    reveal(MachineView::step);
}

/// The machine after `save_all`.
pub open spec fn saved(m: MachineView) -> MachineView {
    let sp = (m.sp - m.abi.save_area_spec()) as u64;
    MachineView {
        sp,
        stack: overlay(m.stack, to_slot(m.abi, sp as int), frame_image(m.abi, m.regs, m.vecs)),
        ..m
    }
}

proof fn lemma_save_all_sysv64(m: MachineView, s: int)
    requires
        m.abi == Abi::SysV64,
        stands_at(m, s),
        s >= 27,
    ensures
        steps(m, save_all(m.abi), 0) == Some(saved(m)),
{
    let b = save_all(m.abi);
    lemma_push(m, Reg::Ax, s - 0);
    let m1 = m.step(b[0])->0;
    lemma_steps_next(m, b, 0, m1);
    lemma_push(m1, Reg::Bx, s - 1);
    let m2 = m1.step(b[1])->0;
    lemma_steps_next(m1, b, 1, m2);
    lemma_push(m2, Reg::Cx, s - 2);
    let m3 = m2.step(b[2])->0;
    lemma_steps_next(m2, b, 2, m3);
    lemma_push(m3, Reg::Dx, s - 3);
    let m4 = m3.step(b[3])->0;
    lemma_steps_next(m3, b, 3, m4);
    lemma_push(m4, Reg::Si, s - 4);
    let m5 = m4.step(b[4])->0;
    lemma_steps_next(m4, b, 4, m5);
    lemma_push(m5, Reg::Di, s - 5);
    let m6 = m5.step(b[5])->0;
    lemma_steps_next(m5, b, 5, m6);
    lemma_push(m6, Reg::Bp, s - 6);
    let m7 = m6.step(b[6])->0;
    lemma_steps_next(m6, b, 6, m7);
    lemma_push(m7, Reg::R8, s - 7);
    let m8 = m7.step(b[7])->0;
    lemma_steps_next(m7, b, 7, m8);
    lemma_push(m8, Reg::R9, s - 8);
    let m9 = m8.step(b[8])->0;
    lemma_steps_next(m8, b, 8, m9);
    lemma_push(m9, Reg::R10, s - 9);
    let m10 = m9.step(b[9])->0;
    lemma_steps_next(m9, b, 9, m10);
    lemma_push(m10, Reg::R11, s - 10);
    let m11 = m10.step(b[10])->0;
    lemma_steps_next(m10, b, 10, m11);
    lemma_sub_sp(m11, 0x80, s - 11, s - 27);
    let m12 = m11.step(b[11])->0;
    lemma_steps_next(m11, b, 11, m12);
    lemma_store_vec(m12, 0x70, 0, s - 27, s - 27 + 14);
    let m13 = m12.step(b[12])->0;
    lemma_steps_next(m12, b, 12, m13);
    lemma_store_vec(m13, 0x60, 1, s - 27, s - 27 + 12);
    let m14 = m13.step(b[13])->0;
    lemma_steps_next(m13, b, 13, m14);
    lemma_store_vec(m14, 0x50, 2, s - 27, s - 27 + 10);
    let m15 = m14.step(b[14])->0;
    lemma_steps_next(m14, b, 14, m15);
    lemma_store_vec(m15, 0x40, 3, s - 27, s - 27 + 8);
    let m16 = m15.step(b[15])->0;
    lemma_steps_next(m15, b, 15, m16);
    lemma_store_vec(m16, 0x30, 4, s - 27, s - 27 + 6);
    let m17 = m16.step(b[16])->0;
    lemma_steps_next(m16, b, 16, m17);
    lemma_store_vec(m17, 0x20, 5, s - 27, s - 27 + 4);
    let m18 = m17.step(b[17])->0;
    lemma_steps_next(m17, b, 17, m18);
    lemma_store_vec(m18, 0x10, 6, s - 27, s - 27 + 2);
    let m19 = m18.step(b[18])->0;
    lemma_steps_next(m18, b, 18, m19);
    lemma_store_vec(m19, 0x0, 7, s - 27, s - 27 + 0);
    let m20 = m19.step(b[19])->0;
    lemma_steps_next(m19, b, 19, m20);
    assert(steps(m20, b, 20) == Some(m20));
    assert(m20.sp == saved(m).sp);
    assert(m20.stack =~= saved(m).stack);
    assert(m20 == saved(m));
}

proof fn lemma_save_all_thiscall32(m: MachineView, s: int)
    requires
        m.abi == Abi::ThisCall32,
        stands_at(m, s),
        s >= 39,
    ensures
        steps(m, save_all(m.abi), 0) == Some(saved(m)),
{
    let b = save_all(m.abi);
    let abi = m.abi;
    lemma_push(m, Reg::Ax, s - 0);
    let m1 = m.step(b[0])->0;
    lemma_steps_next(m, b, 0, m1);
    lemma_push(m1, Reg::Bx, s - 1);
    let m2 = m1.step(b[1])->0;
    lemma_steps_next(m1, b, 1, m2);
    lemma_push(m2, Reg::Cx, s - 2);
    let m3 = m2.step(b[2])->0;
    lemma_steps_next(m2, b, 2, m3);
    lemma_push(m3, Reg::Dx, s - 3);
    let m4 = m3.step(b[3])->0;
    lemma_steps_next(m3, b, 3, m4);
    lemma_push(m4, Reg::Si, s - 4);
    let m5 = m4.step(b[4])->0;
    lemma_steps_next(m4, b, 4, m5);
    lemma_push(m5, Reg::Di, s - 5);
    let m6 = m5.step(b[5])->0;
    lemma_steps_next(m5, b, 5, m6);
    lemma_push(m6, Reg::Bp, s - 6);
    let m7 = m6.step(b[6])->0;
    lemma_steps_next(m6, b, 6, m7);
    lemma_sub_sp(m7, 0x80, s - 7, s - 39);
    let m8 = m7.step(b[7])->0;
    lemma_steps_next(m7, b, 7, m8);
    lemma_store_vec(m8, 0x70, 0, s - 39, s - 39 + 28);
    let m9 = m8.step(b[8])->0;
    lemma_steps_next(m8, b, 8, m9);
    lemma_store_vec(m9, 0x60, 1, s - 39, s - 39 + 24);
    let m10 = m9.step(b[9])->0;
    lemma_steps_next(m9, b, 9, m10);
    lemma_store_vec(m10, 0x50, 2, s - 39, s - 39 + 20);
    let m11 = m10.step(b[10])->0;
    lemma_steps_next(m10, b, 10, m11);
    lemma_store_vec(m11, 0x40, 3, s - 39, s - 39 + 16);
    let m12 = m11.step(b[11])->0;
    lemma_steps_next(m11, b, 11, m12);
    lemma_store_vec(m12, 0x30, 4, s - 39, s - 39 + 12);
    let m13 = m12.step(b[12])->0;
    lemma_steps_next(m12, b, 12, m13);
    lemma_store_vec(m13, 0x20, 5, s - 39, s - 39 + 8);
    let m14 = m13.step(b[13])->0;
    lemma_steps_next(m13, b, 13, m14);
    lemma_store_vec(m14, 0x10, 6, s - 39, s - 39 + 4);
    let m15 = m14.step(b[14])->0;
    lemma_steps_next(m14, b, 14, m15);
    lemma_store_vec(m15, 0x0, 7, s - 39, s - 39 + 0);
    let m16 = m15.step(b[15])->0;
    lemma_steps_next(m15, b, 15, m16);
    assert(steps(m16, b, 16) == Some(m16));
    assert(m16.sp == saved(m).sp);
    assert(m16.stack =~= saved(m).stack);
    assert(m16 == saved(m));
}

/// The number of slots that the saved registers fill.
pub open spec fn frame_slots(abi: Abi) -> int {
    match abi {
        Abi::SysV64 => 27,
        Abi::ThisCall32 => 39,
    }
}

/// `save_all` lays the registers down below the stack pointer and changes
/// nothing else.
pub proof fn lemma_save_all(m: MachineView, s: int)
    requires
        stands_at(m, s),
        s >= frame_slots(m.abi),
    ensures
        steps(m, save_all(m.abi), 0) == Some(saved(m)),
        saved(m) == (MachineView {
            sp: to_address(m.abi, s - frame_slots(m.abi)) as u64,
            stack: overlay(m.stack, s - frame_slots(m.abi), frame_image(m.abi, m.regs, m.vecs)),
            ..m
        }),
{
    match m.abi {
        Abi::SysV64 => lemma_save_all_sysv64(m, s),
        Abi::ThisCall32 => lemma_save_all_thiscall32(m, s),
    }
}

/// The machine after `restore_all` has taken `regs` and `vecs` from the
/// stack.
pub open spec fn restored(m: MachineView, regs: Seq<u64>, vecs: Seq<u64>) -> MachineView {
    MachineView { sp: (m.sp + m.abi.save_area_spec()) as u64, regs, vecs, ..m }
}

proof fn lemma_restore_all_sysv64(m: MachineView, s: int, regs: Seq<u64>, vecs: Seq<u64>)
    requires
        m.abi == Abi::SysV64,
        stands_at(m, s),
        regs.len() == 11,
        vecs.len() == 16,
        holds(m.stack, s, frame_image(m.abi, regs, vecs)),
    ensures
        steps(m, restore_all(m.abi), 0) == Some(restored(m, regs, vecs)),
{
    let image = frame_image(m.abi, regs, vecs);
    let b = restore_all(m.abi);
    lemma_load_vec(m, 7, 0x0, s, s + 0);
    let m1 = m.step(b[0])->0;
    lemma_steps_next(m, b, 0, m1);
    lemma_load_vec(m1, 6, 0x10, s, s + 2);
    let m2 = m1.step(b[1])->0;
    lemma_steps_next(m1, b, 1, m2);
    lemma_load_vec(m2, 5, 0x20, s, s + 4);
    let m3 = m2.step(b[2])->0;
    lemma_steps_next(m2, b, 2, m3);
    lemma_load_vec(m3, 4, 0x30, s, s + 6);
    let m4 = m3.step(b[3])->0;
    lemma_steps_next(m3, b, 3, m4);
    lemma_load_vec(m4, 3, 0x40, s, s + 8);
    let m5 = m4.step(b[4])->0;
    lemma_steps_next(m4, b, 4, m5);
    lemma_load_vec(m5, 2, 0x50, s, s + 10);
    let m6 = m5.step(b[5])->0;
    lemma_steps_next(m5, b, 5, m6);
    lemma_load_vec(m6, 1, 0x60, s, s + 12);
    let m7 = m6.step(b[6])->0;
    lemma_steps_next(m6, b, 6, m7);
    lemma_load_vec(m7, 0, 0x70, s, s + 14);
    let m8 = m7.step(b[7])->0;
    lemma_steps_next(m7, b, 7, m8);
    assert forall|j: int| 0 <= j < 16 implies m8.vecs[j] == vecs[j] by {
        let t = 2 * (7 - j / 2) + j % 2;
        assert(m.stack[s + t] == image[s + t - s]);
    }
    assert(m8.vecs =~= vecs);
    lemma_add_sp(m8, 0x80, s, s + 16);
    let m9 = m8.step(b[8])->0;
    lemma_steps_next(m8, b, 8, m9);
    lemma_pop(m9, Reg::R11, s + 16);
    let m10 = m9.step(b[9])->0;
    lemma_steps_next(m9, b, 9, m10);
    lemma_pop(m10, Reg::R10, s + 17);
    let m11 = m10.step(b[10])->0;
    lemma_steps_next(m10, b, 10, m11);
    lemma_pop(m11, Reg::R9, s + 18);
    let m12 = m11.step(b[11])->0;
    lemma_steps_next(m11, b, 11, m12);
    lemma_pop(m12, Reg::R8, s + 19);
    let m13 = m12.step(b[12])->0;
    lemma_steps_next(m12, b, 12, m13);
    lemma_pop(m13, Reg::Bp, s + 20);
    let m14 = m13.step(b[13])->0;
    lemma_steps_next(m13, b, 13, m14);
    lemma_pop(m14, Reg::Di, s + 21);
    let m15 = m14.step(b[14])->0;
    lemma_steps_next(m14, b, 14, m15);
    lemma_pop(m15, Reg::Si, s + 22);
    let m16 = m15.step(b[15])->0;
    lemma_steps_next(m15, b, 15, m16);
    lemma_pop(m16, Reg::Dx, s + 23);
    let m17 = m16.step(b[16])->0;
    lemma_steps_next(m16, b, 16, m17);
    lemma_pop(m17, Reg::Cx, s + 24);
    let m18 = m17.step(b[17])->0;
    lemma_steps_next(m17, b, 17, m18);
    lemma_pop(m18, Reg::Bx, s + 25);
    let m19 = m18.step(b[18])->0;
    lemma_steps_next(m18, b, 18, m19);
    lemma_pop(m19, Reg::Ax, s + 26);
    let m20 = m19.step(b[19])->0;
    lemma_steps_next(m19, b, 19, m20);
    assert(steps(m20, b, 20) == Some(m20));
    assert(m20.regs =~= regs);
    assert(m20.sp == restored(m, regs, vecs).sp);
    assert(m20 == restored(m, regs, vecs));
}

proof fn lemma_restore_all_thiscall32(m: MachineView, s: int, regs: Seq<u64>, vecs: Seq<u64>)
    requires
        m.abi == Abi::ThisCall32,
        stands_at(m, s),
        regs.len() == 7,
        vecs.len() == 32,
        holds(m.stack, s, frame_image(m.abi, regs, vecs)),
    ensures
        steps(m, restore_all(m.abi), 0) == Some(restored(m, regs, vecs)),
{
    let image = frame_image(m.abi, regs, vecs);
    let b = restore_all(m.abi);
    lemma_load_vec(m, 7, 0x0, s, s + 0);
    let m1 = m.step(b[0])->0;
    lemma_steps_next(m, b, 0, m1);
    lemma_load_vec(m1, 6, 0x10, s, s + 4);
    let m2 = m1.step(b[1])->0;
    lemma_steps_next(m1, b, 1, m2);
    lemma_load_vec(m2, 5, 0x20, s, s + 8);
    let m3 = m2.step(b[2])->0;
    lemma_steps_next(m2, b, 2, m3);
    lemma_load_vec(m3, 4, 0x30, s, s + 12);
    let m4 = m3.step(b[3])->0;
    lemma_steps_next(m3, b, 3, m4);
    lemma_load_vec(m4, 3, 0x40, s, s + 16);
    let m5 = m4.step(b[4])->0;
    lemma_steps_next(m4, b, 4, m5);
    lemma_load_vec(m5, 2, 0x50, s, s + 20);
    let m6 = m5.step(b[5])->0;
    lemma_steps_next(m5, b, 5, m6);
    lemma_load_vec(m6, 1, 0x60, s, s + 24);
    let m7 = m6.step(b[6])->0;
    lemma_steps_next(m6, b, 6, m7);
    lemma_load_vec(m7, 0, 0x70, s, s + 28);
    let m8 = m7.step(b[7])->0;
    lemma_steps_next(m7, b, 7, m8);
    assert forall|j: int| 0 <= j < 32 implies m8.vecs[j] == vecs[j] by {
        let t = 4 * (7 - j / 4) + j % 4;
        assert(m.stack[s + t] == image[s + t - s]);
    }
    assert(m8.vecs =~= vecs);
    lemma_add_sp(m8, 0x80, s, s + 32);
    let m9 = m8.step(b[8])->0;
    lemma_steps_next(m8, b, 8, m9);
    lemma_pop(m9, Reg::Bp, s + 32);
    let m10 = m9.step(b[9])->0;
    lemma_steps_next(m9, b, 9, m10);
    lemma_pop(m10, Reg::Di, s + 33);
    let m11 = m10.step(b[10])->0;
    lemma_steps_next(m10, b, 10, m11);
    lemma_pop(m11, Reg::Si, s + 34);
    let m12 = m11.step(b[11])->0;
    lemma_steps_next(m11, b, 11, m12);
    lemma_pop(m12, Reg::Dx, s + 35);
    let m13 = m12.step(b[12])->0;
    lemma_steps_next(m12, b, 12, m13);
    lemma_pop(m13, Reg::Cx, s + 36);
    let m14 = m13.step(b[13])->0;
    lemma_steps_next(m13, b, 13, m14);
    lemma_pop(m14, Reg::Bx, s + 37);
    let m15 = m14.step(b[14])->0;
    lemma_steps_next(m14, b, 14, m15);
    lemma_pop(m15, Reg::Ax, s + 38);
    let m16 = m15.step(b[15])->0;
    lemma_steps_next(m15, b, 15, m16);
    assert(steps(m16, b, 16) == Some(m16));
    assert(m16.regs =~= regs);
    assert(m16.sp == restored(m, regs, vecs).sp);
    assert(m16 == restored(m, regs, vecs));
}

/// `restore_all` takes back the registers that the frame at the stack
/// pointer holds, and changes nothing else.
pub proof fn lemma_restore_all(m: MachineView, s: int, regs: Seq<u64>, vecs: Seq<u64>)
    requires
        stands_at(m, s),
        regs.len() == register_count(m.abi),
        vecs.len() == 8 * lanes(m.abi),
        holds(m.stack, s, frame_image(m.abi, regs, vecs)),
    ensures
        steps(m, restore_all(m.abi), 0) == Some(restored(m, regs, vecs)),
        restored(m, regs, vecs) == (MachineView {
            sp: to_address(m.abi, s + frame_slots(m.abi)) as u64,
            regs,
            vecs,
            ..m
        }),
{
    match m.abi {
        Abi::SysV64 => lemma_restore_all_sysv64(m, s, regs, vecs),
        Abi::ThisCall32 => lemma_restore_all_thiscall32(m, s, regs, vecs),
    }
}

/// `slots` stack slots as a negative number of bytes, the way a register
/// holds it.
pub open spec fn minus(abi: Abi, slots: int) -> u64 {
    if slots == 0 {
        0
    } else {
        (abi.modulus() - to_address(abi, slots)) as u64
    }
}

/// `a` and `b` are equally long and agree from index `from` up.
pub open spec fn same_from(a: Seq<u64>, b: Seq<u64>, from: int) -> bool {
    &&& a.len() == b.len()
    &&& forall|j: int| from <= j < a.len() ==> #[trigger] a[j] == b[j]
}

/// The `n` slots of `a` from index `at` on are those of `b` from `from` on.
pub open spec fn copy_of(a: Seq<u64>, at: int, b: Seq<u64>, from: int, n: int) -> bool {
    forall|j: int| at <= j < at + n ==> #[trigger] a[j] == b[j - at + from]
}

/// A block of one instruction.
pub proof fn lemma_steps_one(m: MachineView, instr: Instr, next: MachineView)
    requires
        m.step(instr) == Some(next),
    ensures
        steps(m, seq![instr], 0) == Some(next),
{
    lemma_steps_next(m, seq![instr], 0, next);
}

/// `mov [sp + n], r` with the stack pointer at slot `s` and the address
/// `sp + n` at slot `t`.
pub proof fn lemma_store(m: MachineView, n: u64, r: Reg, s: int, t: int)
    requires
        r.on(m.abi),
        stands_at(m, s),
        s <= t < m.stack.len(),
        n == to_address(m.abi, t - s),
    ensures
        m.step(Instr::Store(n, r)) == Some(
            MachineView { stack: m.stack.update(t, m.regs[r.index_spec()]), ..m },
        ),
{
    reveal(MachineView::step);
}

/// `mov r, [sp + n]` with the stack pointer at slot `s` and the address
/// `sp + n` at slot `t`.
pub proof fn lemma_load(m: MachineView, r: Reg, n: u64, s: int, t: int)
    requires
        r.on(m.abi),
        stands_at(m, s),
        s <= t < m.stack.len(),
        n == to_address(m.abi, t - s),
    ensures
        m.step(Instr::Load(r, n)) == Some(
            MachineView { regs: m.regs.update(r.index_spec(), m.stack[t]), ..m },
        ),
{
    reveal(MachineView::step);
}

/// Loading the address of the original function into `r`.
pub proof fn lemma_load_target(m: MachineView, r: Reg)
    requires
        r.on(m.abi),
    ensures
        m.step(Instr::LoadTarget(r)) == Some(m.with_reg(r, m.target)),
{
    reveal(MachineView::step);
}

/// What `step` does for an instruction that works on registers alone, and
/// for the two for which the machine has a function of their own.
pub proof fn lemma_step_on_registers(m: MachineView, instr: Instr)
    requires
        operands_exist(m.abi, instr),
    ensures
        match instr {
            Instr::MovFromSp(r) => m.step(instr) == Some(m.with_reg(r, m.sp)),
            Instr::MovToSp(r) => m.step(instr) == Some(m.with_sp(m.reg(r))),
            Instr::AlignSp => m.step(instr) == Some(m.with_sp((m.sp - m.sp % 16) as u64)),
            Instr::AddSpReg(r) => m.step(instr) == Some(
                m.with_sp(wrap_add(m.abi, m.sp, m.reg(r))),
            ),
            Instr::SubSpReg(r) => m.step(instr) == Some(
                m.with_sp(wrap_sub(m.abi, m.sp, m.reg(r))),
            ),
            Instr::SubRegSp(r) => m.step(instr) == Some(
                m.with_reg(r, wrap_sub(m.abi, m.reg(r), m.sp)),
            ),
            Instr::SubReg(a, b) => m.step(instr) == Some(
                m.with_reg(a, wrap_sub(m.abi, m.reg(a), m.reg(b))),
            ),
            Instr::MovImm(r, n) => n < m.abi.modulus() ==> m.step(instr) == Some(m.with_reg(r, n)),
            Instr::Lea(r, n) => n < m.abi.modulus() ==> m.step(instr) == Some(
                m.with_reg(r, wrap_add(m.abi, m.sp, n)),
            ),
            Instr::StoreAt(a, b) => m.step(instr) == m.store_at(a, b),
            Instr::CopyBytes => m.step(instr) == m.copy_bytes(),
            _ => true,
        },
{
    reveal(MachineView::step);
}

/// `sub sp, r` where `r` holds `c` slots as a negative number: the stack
/// pointer goes up by `c` slots.
pub proof fn lemma_sub_sp_reg(m: MachineView, r: Reg, s: int, c: int)
    requires
        r.on(m.abi),
        stands_at(m, s),
        0 <= c,
        s + c <= m.stack.len(),
        m.regs[r.index_spec()] == minus(m.abi, c),
    ensures
        m.step(Instr::SubSpReg(r)) == Some(
            MachineView { sp: to_address(m.abi, s + c) as u64, ..m },
        ),
{
    lemma_step_on_registers(m, Instr::SubSpReg(r));
}

/// A called function that removes `c` slots of arguments, found with the
/// stack pointer at slot `s`.
pub proof fn lemma_call(m: MachineView, effect: CallEffect, s: int, c: int)
    requires
        stands_at(m, s),
        s >= 1,
        0 <= c,
        s + c <= m.stack.len(),
        effect.consumed == to_address(m.abi, c),
        effect.result < m.abi.modulus(),
        effect.junk < m.abi.modulus(),
    ensures
        m.call(effect) == Some(
            MachineView {
                regs: Seq::new(
                    m.regs.len(),
                    |r: int|
                        if r == 0 {
                            effect.result
                        } else if callee_saved(m.abi, r) {
                            m.regs[r]
                        } else {
                            effect.junk
                        },
                ),
                vecs: Seq::new(m.vecs.len(), |i: int| effect.junk),
                sp: to_address(m.abi, s + c) as u64,
                stack: Seq::new(
                    m.stack.len(),
                    |j: int|
                        if j < s + c {
                            effect.junk
                        } else {
                            m.stack[j]
                        },
                ),
                ..m
            },
        ),
{
    let after = m.call(effect)->0;
    let expected = Seq::new(
        m.stack.len(),
        |j: int|
            if j < s + c {
                effect.junk
            } else {
                m.stack[j]
            },
    );
    assert(after.stack =~= expected);
}

/// `align` on a 64-bit machine with the stack pointer at slot `s`: the frame
/// pointer goes to the stack at slot `s - 1` and takes that address, and the
/// stack pointer goes down to a multiple of sixteen.
pub proof fn lemma_align(m: MachineView, s: int)
    requires
        m.abi == Abi::SysV64,
        stands_at(m, s),
        s >= 1,
    ensures
        steps(m, align(), 0) == Some(
            MachineView {
                sp: to_address(m.abi, (s - 1) - (s - 1) % 2) as u64,
                regs: m.regs.update(6, to_address(m.abi, s - 1) as u64),
                stack: m.stack.update(s - 1, m.regs[6]),
                ..m
            },
        ),
{
    let b = align();
    lemma_push(m, Reg::Bp, s);
    let m1 = m.step(b[0])->0;
    lemma_steps_next(m, b, 0, m1);
    lemma_step_on_registers(m1, b[1]);
    let m2 = m1.step(b[1])->0;
    lemma_steps_next(m1, b, 1, m2);
    lemma_step_on_registers(m2, b[2]);
    let m3 = m2.step(b[2])->0;
    lemma_steps_next(m2, b, 2, m3);
    assert(steps(m3, b, 3) == Some(m3));
}

/// `unalign` where the frame pointer holds the address of slot `t`: the
/// stack pointer goes there, and the frame pointer comes back from the stack.
pub proof fn lemma_unalign(m: MachineView, t: int)
    requires
        m.regs.len() == register_count(m.abi),
        m.vecs.len() == 8 * lanes(m.abi),
        to_address(m.abi, m.stack.len() as int) < m.abi.modulus(),
        0 <= t < m.stack.len(),
        m.regs[6] == to_address(m.abi, t),
    ensures
        steps(m, unalign(), 0) == Some(
            MachineView {
                sp: to_address(m.abi, t + 1) as u64,
                regs: m.regs.update(6, m.stack[t]),
                ..m
            },
        ),
{
    let b = unalign();
    lemma_step_on_registers(m, b[0]);
    let m1 = m.step(b[0])->0;
    lemma_steps_next(m, b, 0, m1);
    lemma_pop(m1, Reg::Bp, t);
    let m2 = m1.step(b[1])->0;
    lemma_steps_next(m1, b, 1, m2);
    assert(steps(m2, b, 2) == Some(m2));
}

/// `shadow` on a 32-bit machine with the stack pointer at slot `s`: the 64
/// slots from `s` up are copied to the 64 slots below `s`, and the stack
/// pointer goes down to the copy.
pub proof fn lemma_shadow(m: MachineView, s: int)
    requires
        m.abi == Abi::ThisCall32,
        stands_at(m, s),
        s >= 64,
        s + 64 <= m.stack.len(),
    ensures
        steps(m, shadow(), 0) == Some(
            MachineView {
                sp: to_address(m.abi, s - 64) as u64,
                regs: m.regs.update(2, 0).update(4, to_address(m.abi, s + 64) as u64).update(
                    5,
                    to_address(m.abi, s) as u64,
                ),
                stack: Seq::new(
                    m.stack.len(),
                    |j: int|
                        if s - 64 <= j < s {
                            m.stack[j + 64]
                        } else {
                            m.stack[j]
                        },
                ),
                ..m
            },
        ),
{
    let b = shadow();
    lemma_sub_sp(m, 0x100, s, s - 64);
    let m1 = m.step(b[0])->0;
    lemma_steps_next(m, b, 0, m1);
    lemma_step_on_registers(m1, b[1]);
    let m2 = m1.step(b[1])->0;
    lemma_steps_next(m1, b, 1, m2);
    lemma_step_on_registers(m2, b[2]);
    let m3 = m2.step(b[2])->0;
    lemma_steps_next(m2, b, 2, m3);
    lemma_step_on_registers(m3, b[3]);
    let m4 = m3.step(b[3])->0;
    lemma_steps_next(m3, b, 3, m4);
    assert(m4.regs[2] == 0x100 && m4.regs[4] == 4 * s && m4.regs[5] == 4 * (s - 64));
    lemma_step_on_registers(m4, b[4]);
    let m5 = m4.step(b[4])->0;
    assert(m4.copy_bytes() is Some);
    lemma_steps_next(m4, b, 4, m5);
    assert(steps(m5, b, 5) == Some(m5));
    let expected = Seq::new(
        m.stack.len(),
        |j: int|
            if s - 64 <= j < s {
                m.stack[j + 64]
            } else {
                m.stack[j]
            },
    );
    assert(m5.stack =~= expected);
    assert(m5.regs =~= m.regs.update(2, 0).update(4, to_address(m.abi, s + 64) as u64).update(
        5,
        to_address(m.abi, s) as u64,
    ));
}

/// `mark` with the stack pointer at slot `s`: the accumulator takes the slot
/// off the stack, and the base register notes where the stack pointer
/// stands then.
pub proof fn lemma_mark(m: MachineView, s: int)
    requires
        stands_at(m, s),
        s < m.stack.len(),
    ensures
        steps(m, mark(), 0) == Some(
            MachineView {
                sp: to_address(m.abi, s + 1) as u64,
                regs: m.regs.update(0, m.stack[s]).update(1, to_address(m.abi, s + 1) as u64),
                ..m
            },
        ),
{
    let b = mark();
    lemma_pop(m, Reg::Ax, s);
    let m1 = m.step(b[0])->0;
    lemma_steps_next(m, b, 0, m1);
    lemma_step_on_registers(m1, b[1]);
    let m2 = m1.step(b[1])->0;
    lemma_steps_next(m1, b, 1, m2);
    assert(steps(m2, b, 2) == Some(m2));
}

/// `measure` where the base register holds the address of slot `t` and the
/// stack pointer stands `c` slots above it: the base register takes `c`
/// slots as a negative number.
pub proof fn lemma_measure(m: MachineView, t: int, c: int)
    requires
        stands_at(m, t + c),
        0 <= t,
        0 <= c,
        m.regs[1] == to_address(m.abi, t),
    ensures
        steps(m, measure(), 0) == Some(
            MachineView { regs: m.regs.update(1, minus(m.abi, c)), ..m },
        ),
{
    let b = measure();
    lemma_step_on_registers(m, b[0]);
    let m1 = m.step(b[0])->0;
    lemma_steps_next(m, b, 0, m1);
    assert(steps(m1, b, 1) == Some(m1));
}

/// `release` on a 32-bit machine with the stack pointer at slot `s`, where
/// the base register holds `c` slots as a negative number: the stack pointer
/// goes up by the 24 slots of the argument window, less `c`.
pub proof fn lemma_release(m: MachineView, s: int, c: int)
    requires
        m.abi == Abi::ThisCall32,
        stands_at(m, s),
        0 <= c <= 24,
        s + 24 <= m.stack.len(),
        m.regs[1] == minus(m.abi, c),
    ensures
        steps(m, release(), 0) == Some(
            MachineView { sp: to_address(m.abi, s + 24 - c) as u64, ..m },
        ),
{
    let b = release();
    lemma_add_sp(m, 0x60, s, s + 24);
    let m1 = m.step(b[0])->0;
    lemma_steps_next(m, b, 0, m1);
    lemma_step_on_registers(m1, b[1]);
    let m2 = m1.step(b[1])->0;
    lemma_steps_next(m1, b, 1, m2);
    assert(steps(m2, b, 2) == Some(m2));
}

/// `relocate_return` on a 32-bit machine with the stack pointer at slot `s`
/// below a frame of saved registers, where the base register holds `c` slots
/// as a negative number: the return address, which stands right above the
/// frame, is copied `c` slots further up.
pub proof fn lemma_relocate_return(m: MachineView, s: int, c: int)
    requires
        m.abi == Abi::ThisCall32,
        stands_at(m, s),
        0 <= c,
        s + 39 + c < m.stack.len(),
        m.regs[1] == minus(m.abi, c),
    ensures
        steps(m, relocate_return(), 0) == Some(
            MachineView {
                regs: m.regs.update(0, m.stack[s + 39]).update(
                    3,
                    to_address(m.abi, s + 39 + c) as u64,
                ),
                stack: m.stack.update(s + 39 + c, m.stack[s + 39]),
                ..m
            },
        ),
{
    let b = relocate_return();
    lemma_load(m, Reg::Ax, 0x9c, s, s + 39);
    let m1 = m.step(b[0])->0;
    lemma_steps_next(m, b, 0, m1);
    lemma_step_on_registers(m1, b[1]);
    let m2 = m1.step(b[1])->0;
    lemma_steps_next(m1, b, 1, m2);
    assert(m2.regs[3] == 4 * (s + 39));
    lemma_step_on_registers(m2, b[2]);
    let m3 = m2.step(b[2])->0;
    lemma_steps_next(m2, b, 2, m3);
    assert(m3.regs[3] == 4 * (s + 39 + c));
    lemma_step_on_registers(m3, b[3]);
    let m4 = m3.step(b[3])->0;
    lemma_steps_next(m3, b, 3, m4);
    assert(steps(m4, b, 4) == Some(m4));
    assert(m4.regs =~= m.regs.update(0, m.stack[s + 39]).update(
        3,
        to_address(m.abi, s + 39 + c) as u64,
    ));
}

/// `after`, with the call of `callee`, which found the machine as `seen`,
/// noted in front of its calls.
pub open spec fn noted(callee: Callee, seen: MachineView, after: Outcome) -> Outcome {
    Outcome { calls: seq![(callee, seen)] + after.calls, ..after }
}

/// A run that has only `ret` left, with the stack pointer at slot `s`.
pub proof fn lemma_run_ret(m: MachineView, s: int, effects: Seq<CallEffect>)
    requires
        stands_at(m, s),
        s < m.stack.len(),
    ensures
        m.run(seq![Instr::Ret], effects) == (Outcome {
            machine: MachineView { sp: to_address(m.abi, s + 1) as u64, ..m },
            exit: Exit::Returned(m.stack[s]),
            calls: Seq::empty(),
        }),
{
    let program = seq![Instr::Ret];
    assert(program.len() == 1 && program[0] == Instr::Ret);
    lemma_slot_of_stack_pointer(m, s);
}

/// A run that has only a jump left.
pub proof fn lemma_run_jump(m: MachineView, r: Reg, effects: Seq<CallEffect>)
    requires
        r.on(m.abi),
    ensures
        m.run(seq![Instr::JumpReg(r)], effects) == (Outcome {
            machine: m,
            exit: Exit::Jumped(m.regs[r.index_spec()]),
            calls: Seq::empty(),
        }),
{
    let program = seq![Instr::JumpReg(r)];
    assert(program.len() == 1 && program[0] == Instr::JumpReg(r));
}

/// A run goes through one plain instruction as `step` says.
pub proof fn lemma_run_one(
    m: MachineView,
    instr: Instr,
    next: MachineView,
    rest: Seq<Instr>,
    effects: Seq<CallEffect>,
)
    requires
        m.step(instr) == Some(next),
    ensures
        m.run(seq![instr] + rest, effects) == next.run(rest, effects),
{
    lemma_steps_one(m, instr, next);
    lemma_run_block(m, seq![instr], rest, effects);
}

/// The machine as the callee finds it when `m` calls on an aligned stack.
pub open spec fn aligned_entry(m: MachineView) -> MachineView {
    steps(m, align(), 0)->0
}

/// The machine when a call on an aligned stack is over and the stack pointer
/// is back where it was.
pub open spec fn aligned_exit(m: MachineView, effect: CallEffect) -> MachineView {
    steps(aligned_entry(m).call(effect)->0, unalign(), 0)->0
}

/// The machine when two calls in a row on an aligned stack are over and the
/// stack pointer is back where it was.
pub open spec fn aligned_exit_of_two(
    m: MachineView,
    first: CallEffect,
    second: CallEffect,
) -> MachineView {
    steps(aligned_entry(m).call(first)->0.call(second)->0, unalign(), 0)->0
}

/// The registers after a call on a 64-bit machine: the result, the two
/// registers among the eleven that the callee preserves, and junk.
pub open spec fn after_call_sysv64(regs: Seq<u64>, effect: CallEffect) -> Seq<u64> {
    seq![
        effect.result,
        regs[1],
        effect.junk,
        effect.junk,
        effect.junk,
        effect.junk,
        regs[6],
        effect.junk,
        effect.junk,
        effect.junk,
        effect.junk,
    ]
}

/// One call on an aligned stack, on a 64-bit machine with the stack pointer
/// at slot `s`. The callee finds the stack pointer at a multiple of sixteen,
/// every register but the frame pointer as it was, and the stack from slot
/// `s` up as it was. Afterwards the stack pointer is back at slot `s`, and
/// the stack from there up is untouched.
#[verifier::rlimit(60)]
pub proof fn lemma_run_aligned_call(
    m: MachineView,
    s: int,
    callee: Callee,
    rest: Seq<Instr>,
    effects: Seq<CallEffect>,
)
    requires
        m.abi == Abi::SysV64,
        stands_at(m, s),
        s >= 3,
        effects.len() > 0,
        effects[0].consumed == 0,
    ensures
        m.run(aligned_call(callee, rest), effects) == noted(
            callee,
            aligned_entry(m),
            aligned_exit(m, effects[0]).run(rest, effects.drop_first()),
        ),
        aligned_entry(m).sp % 16 == 0,
        aligned_entry(m).regs == m.regs.update(6, to_address(m.abi, s - 1) as u64),
        aligned_entry(m).vecs == m.vecs,
        same_from(aligned_entry(m).stack, m.stack, s),
        stands_at(aligned_exit(m, effects[0]), s),
        aligned_exit(m, effects[0]).abi == m.abi,
        aligned_exit(m, effects[0]).target == m.target,
        aligned_exit(m, effects[0]).regs == after_call_sysv64(m.regs, effects[0]),
        same_from(aligned_exit(m, effects[0]).stack, m.stack, s),
{
    let e = effects[0];
    let a = (s - 1) - (s - 1) % 2;
    lemma_align(m, s);
    let entry = aligned_entry(m);
    lemma_run_block(m, align(), call(callee) + (unalign() + rest), effects);
    lemma_call(entry, e, a, 0);
    let back = entry.call(e)->0;
    lemma_run_call(entry, callee, unalign() + rest, effects);
    lemma_unalign(back, s - 1);
    let exit = aligned_exit(m, e);
    lemma_run_block(back, unalign(), rest, effects.drop_first());
    assert(exit.regs =~= after_call_sysv64(m.regs, e));
}

/// Two calls in a row on an aligned stack, on a 64-bit machine with the
/// stack pointer at slot `s`. Both callees find the stack pointer at a
/// multiple of sixteen and the stack from slot `s` up as it was; the first
/// finds every register but the frame pointer as it was. Afterwards the
/// stack pointer is back at slot `s`, and the stack from there up is
/// untouched.
#[verifier::rlimit(60)]
pub proof fn lemma_run_aligned_calls(
    m: MachineView,
    s: int,
    first: Callee,
    second: Callee,
    rest: Seq<Instr>,
    effects: Seq<CallEffect>,
)
    requires
        m.abi == Abi::SysV64,
        stands_at(m, s),
        s >= 3,
        effects.len() > 1,
        effects[0].consumed == 0,
        effects[1].consumed == 0,
    ensures
        m.run(align() + (call(first) + (call(second) + (unalign() + rest))), effects) == noted(
            first,
            aligned_entry(m),
            noted(
                second,
                aligned_entry(m).call(effects[0])->0,
                aligned_exit_of_two(m, effects[0], effects[1]).run(
                    rest,
                    effects.drop_first().drop_first(),
                ),
            ),
        ),
        aligned_entry(m).sp % 16 == 0,
        aligned_entry(m).regs == m.regs.update(6, to_address(m.abi, s - 1) as u64),
        aligned_entry(m).vecs == m.vecs,
        same_from(aligned_entry(m).stack, m.stack, s),
        aligned_entry(m).call(effects[0])->0.sp % 16 == 0,
        same_from(aligned_entry(m).call(effects[0])->0.stack, m.stack, s),
        stands_at(aligned_exit_of_two(m, effects[0], effects[1]), s),
        aligned_exit_of_two(m, effects[0], effects[1]).abi == m.abi,
        aligned_exit_of_two(m, effects[0], effects[1]).target == m.target,
        aligned_exit_of_two(m, effects[0], effects[1]).regs == after_call_sysv64(
            m.regs,
            effects[1],
        ),
        same_from(aligned_exit_of_two(m, effects[0], effects[1]).stack, m.stack, s),
{
    let a = (s - 1) - (s - 1) % 2;
    lemma_align(m, s);
    let entry = aligned_entry(m);
    lemma_run_block(m, align(), call(first) + (call(second) + (unalign() + rest)), effects);
    lemma_call(entry, effects[0], a, 0);
    let between = entry.call(effects[0])->0;
    lemma_run_call(entry, first, call(second) + (unalign() + rest), effects);
    let later = effects.drop_first();
    assert(later[0] == effects[1]);
    lemma_call(between, effects[1], a, 0);
    let back = between.call(effects[1])->0;
    lemma_run_call(between, second, unalign() + rest, later);
    lemma_unalign(back, s - 1);
    let exit = aligned_exit_of_two(m, effects[0], effects[1]);
    lemma_run_block(back, unalign(), rest, later.drop_first());
    assert(exit.regs =~= after_call_sysv64(m.regs, effects[1]));
}

/// Every general register but the frame pointer, the argument registers
/// among them, and every vector register is in `seen` what it is in `m`.
pub open spec fn registers_as_in(seen: MachineView, m: MachineView) -> bool {
    &&& seen.regs.len() == m.regs.len()
    &&& forall|i: int| 0 <= i < m.regs.len() && i != 6 ==> seen.regs[i] == m.regs[i]
    &&& seen.vecs == m.vecs
}

/// The step of the policy that a call of `callee` stands for.
pub open spec fn step_of(callee: Callee) -> Step {
    match callee {
        Callee::Callback => Step::InvokeCallback,
        Callee::Unhook => Step::Unhook,
        Callee::Rehook => Step::Rehook,
        Callee::Original => Step::CallOriginal,
    }
}

/// The steps of the policy that a run took: one for each call, and one for
/// the way it left.
pub open spec fn steps_taken(out: Outcome) -> Seq<Step> {
    Seq::new(out.calls.len(), |i: int| step_of(out.calls[i].0)) + (match out.exit {
        Exit::Returned(_) => seq![Step::ReturnToCaller],
        Exit::Jumped(_) => seq![Step::JumpToOriginal],
        _ => Seq::empty(),
    })
}

/// The fire-once interceptor on a 64-bit machine, entered with the stack
/// pointer at slot `s`.
///
/// It calls the callback and then the unhook function, both on a stack
/// aligned to sixteen bytes; the callback finds the caller's registers. It
/// leaves for the original function with the stack pointer, the stack from
/// there up, and every register but the accumulator as they were on entry.
#[verifier::rlimit(60)]
pub proof fn lemma_once_sysv64(m: MachineView, s: int, effects: Seq<CallEffect>)
    requires
        m.abi == Abi::SysV64,
        stands_at(m, s),
        s >= 30,
        effects.len() == 2,
        effects[0].consumed == 0,
        effects[1].consumed == 0,
    ensures
        ({
            let out = m.run(interceptor_spec(Abi::SysV64, HookKind::Once), effects);
            &&& steps_taken(out) == sequence_spec(HookKind::Once)
            &&& out.exit == Exit::Jumped(m.target)
            &&& out.calls.len() == 2
            &&& out.calls[0].0 == Callee::Callback
            &&& out.calls[1].0 == Callee::Unhook
            &&& registers_as_in(out.calls[0].1, m)
            &&& same_from(out.calls[0].1.stack, m.stack, s)
            &&& out.calls[0].1.sp % 16 == 0
            &&& out.calls[1].1.sp % 16 == 0
            &&& out.machine.sp == m.sp
            &&& out.machine.regs == m.regs.update(0, m.target)
            &&& out.machine.vecs == m.vecs
            &&& same_from(out.machine.stack, m.stack, s)
        }),
{
    let leave = seq![Instr::LoadTarget(Reg::Ax)] + seq![Instr::JumpReg(Reg::Ax)];
    let r5 = restore_all(m.abi) + leave;
    let r1 = align() + (call(Callee::Callback) + (call(Callee::Unhook) + (unalign() + r5)));
    let out = m.run(interceptor_spec(Abi::SysV64, HookKind::Once), effects);
    lemma_save_all(m, s);
    let m1 = saved(m);
    lemma_run_block(m, save_all(m.abi), r1, effects);
    assert(out == m1.run(r1, effects));
    lemma_run_aligned_calls(m1, s - 27, Callee::Callback, Callee::Unhook, r5, effects);
    let m5 = aligned_exit_of_two(m1, effects[0], effects[1]);
    let later = effects.drop_first().drop_first();
    assert(holds(m5.stack, s - 27, frame_image(m.abi, m.regs, m.vecs)));
    lemma_restore_all(m5, s - 27, m.regs, m.vecs);
    let m6 = restored(m5, m.regs, m.vecs);
    lemma_run_block(m5, restore_all(m.abi), leave, later);
    lemma_load_target(m6, Reg::Ax);
    let m7 = m6.with_reg(Reg::Ax, m.target);
    lemma_run_one(m6, Instr::LoadTarget(Reg::Ax), m7, seq![Instr::JumpReg(Reg::Ax)], later);
    lemma_run_jump(m7, Reg::Ax, later);
    assert(out.machine == m7);
    assert(steps_taken(out) =~= sequence_spec(HookKind::Once));
}

/// The machine after a call that is not intercepted, told from the state in
/// which an interceptor would have been entered: the callee takes the return
/// address off the stack and has the effect `effect`.
pub open spec fn direct_call(m: MachineView, effect: CallEffect) -> Option<MachineView> {
    m.with_sp(wrap_add(m.abi, m.sp, m.abi.word_bytes_spec() as u64)).call(effect)
}

/// `after` is to the caller what a call that was not intercepted would have
/// left: the same stack pointer, the same result, the same values in the
/// registers that a callee preserves, and the same stack from the stack
/// pointer up.
pub open spec fn as_a_direct_call(after: MachineView, m: MachineView, effect: CallEffect) -> bool {
    &&& direct_call(m, effect) matches Some(direct)
    &&& after.sp == direct.sp
    &&& after.regs.len() == m.regs.len()
    &&& after.regs[0] == direct.regs[0]
    &&& forall|r: int|
        0 <= r < m.regs.len() && callee_saved(m.abi, r) ==> after.regs[r] == direct.regs[r]
    &&& same_from(after.stack, direct.stack, to_slot(m.abi, direct.sp as int))
}

/// An interceptor left the machine as `after`, with the stack pointer `c`
/// slots above the slot that follows the return address, the result of the
/// original function in the accumulator, and the registers that a callee
/// preserves and the stack from the stack pointer up as in `m`: that is what
/// a direct call leaves.
proof fn lemma_as_a_direct_call(
    after: MachineView,
    m: MachineView,
    s: int,
    effect: CallEffect,
    c: int,
)
    requires
        stands_at(m, s),
        0 <= c,
        s + 1 + c <= m.stack.len(),
        effect.consumed == to_address(m.abi, c),
        effect.result < m.abi.modulus(),
        effect.junk < m.abi.modulus(),
        after.sp == to_address(m.abi, s + 1 + c),
        after.regs.len() == m.regs.len(),
        after.regs[0] == effect.result,
        forall|r: int|
            0 <= r < m.regs.len() && callee_saved(m.abi, r) ==> after.regs[r] == m.regs[r],
        same_from(after.stack, m.stack, s + 1 + c),
    ensures
        as_a_direct_call(after, m, effect),
{
    lemma_slot_of_stack_pointer(m, s);
    let entered = m.with_sp(to_address(m.abi, s + 1) as u64);
    lemma_call(entered, effect, s + 1, c);
    let direct = direct_call(m, effect)->0;
    match m.abi {
        Abi::SysV64 => {
            assert(to_slot(m.abi, direct.sp as int) == s + 1 + c);
        },
        Abi::ThisCall32 => {
            assert(to_slot(m.abi, direct.sp as int) == s + 1 + c);
        },
    }
}

/// The call-before interceptor on a 64-bit machine, entered with the stack
/// pointer at slot `s`.
///
/// It calls the callback, the unhook function, the original function and the
/// hook function, in this order, each on a stack aligned to sixteen bytes.
/// The callback and the original function find the caller's registers. It
/// returns to the caller's return address with the stack pointer one slot
/// up, as an unhooked call would, with the result of the original function
/// in the accumulator, and with the registers that a callee must preserve
/// and the stack from slot `s` up as they were on entry.
#[verifier::rlimit(60)]
pub proof fn lemma_before_sysv64(m: MachineView, s: int, effects: Seq<CallEffect>)
    requires
        m.abi == Abi::SysV64,
        stands_at(m, s),
        30 <= s < m.stack.len(),
        effects.len() == 4,
        forall|i: int| 0 <= i < 4 ==> (#[trigger] effects[i]).consumed == 0,
    ensures
        ({
            let out = m.run(interceptor_spec(Abi::SysV64, HookKind::Before), effects);
            &&& steps_taken(out) == sequence_spec(HookKind::Before)
            &&& out.exit == Exit::Returned(m.stack[s])
            &&& out.calls.len() == 4
            &&& out.calls[0].0 == Callee::Callback
            &&& out.calls[1].0 == Callee::Unhook
            &&& out.calls[2].0 == Callee::Original
            &&& out.calls[3].0 == Callee::Rehook
            &&& registers_as_in(out.calls[0].1, m)
            &&& registers_as_in(out.calls[2].1, m)
            &&& same_from(out.calls[0].1.stack, m.stack, s)
            &&& same_from(out.calls[2].1.stack, m.stack, s)
            &&& forall|i: int| 0 <= i < 4 ==> (#[trigger] out.calls[i]).1.sp % 16 == 0
            &&& out.machine.sp == to_address(m.abi, s + 1)
            &&& out.machine.regs[0] == effects[2].result
            &&& out.machine.regs[1] == m.regs[1]
            &&& out.machine.regs[6] == m.regs[6]
            &&& same_from(out.machine.stack, m.stack, s)
            &&& as_a_direct_call(out.machine, m, effects[2])
        }),
{
    let r9 = seq![Instr::Pop(Reg::Ax)] + seq![Instr::Ret];
    let r8 = aligned_call(Callee::Rehook, r9);
    let r7 = seq![Instr::Push(Reg::Ax)] + r8;
    let r6 = aligned_call(Callee::Original, r7);
    let r5 = restore_all(m.abi) + r6;
    let r1 = align() + (call(Callee::Callback) + (call(Callee::Unhook) + (unalign() + r5)));
    let out = m.run(interceptor_spec(Abi::SysV64, HookKind::Before), effects);
    lemma_save_all(m, s);
    let m1 = saved(m);
    lemma_run_block(m, save_all(m.abi), r1, effects);
    lemma_run_aligned_calls(m1, s - 27, Callee::Callback, Callee::Unhook, r5, effects);
    let m5 = aligned_exit_of_two(m1, effects[0], effects[1]);
    let e2 = effects.drop_first().drop_first();
    assert(e2[0] == effects[2]);
    assert(holds(m5.stack, s - 27, frame_image(m.abi, m.regs, m.vecs)));
    lemma_restore_all(m5, s - 27, m.regs, m.vecs);
    let m6 = restored(m5, m.regs, m.vecs);
    lemma_run_block(m5, restore_all(m.abi), r6, e2);
    lemma_run_aligned_call(m6, s, Callee::Original, r7, e2);
    let m7 = aligned_exit(m6, effects[2]);
    let e3 = e2.drop_first();
    assert(e3[0] == effects[3]);
    lemma_push(m7, Reg::Ax, s);
    let m8 = m7.step(Instr::Push(Reg::Ax))->0;
    lemma_run_one(m7, Instr::Push(Reg::Ax), m8, r8, e3);
    lemma_run_aligned_call(m8, s - 1, Callee::Rehook, r9, e3);
    let m9 = aligned_exit(m8, effects[3]);
    let e4 = e3.drop_first();
    lemma_pop(m9, Reg::Ax, s - 1);
    let m10 = m9.step(Instr::Pop(Reg::Ax))->0;
    lemma_run_one(m9, Instr::Pop(Reg::Ax), m10, seq![Instr::Ret], e4);
    lemma_run_ret(m10, s, e4);
    assert(steps_taken(out) =~= sequence_spec(HookKind::Before));
    lemma_as_a_direct_call(out.machine, m, s, effects[2], 0);
}

/// The call-after interceptor on a 64-bit machine, entered with the stack
/// pointer at slot `s`.
///
/// It calls the unhook function, the original function, the hook function
/// and the callback, in this order, each on a stack aligned to sixteen
/// bytes. The original function finds the caller's registers. It returns to
/// the caller's return address with the stack pointer one slot up, as an
/// unhooked call would, with the result of the original function in the
/// accumulator, and with the registers that a callee must preserve and the
/// stack from slot `s` up as they were on entry.
#[verifier::rlimit(60)]
pub proof fn lemma_after_sysv64(m: MachineView, s: int, effects: Seq<CallEffect>)
    requires
        m.abi == Abi::SysV64,
        stands_at(m, s),
        30 <= s < m.stack.len(),
        effects.len() == 4,
        forall|i: int| 0 <= i < 4 ==> (#[trigger] effects[i]).consumed == 0,
    ensures
        ({
            let out = m.run(interceptor_spec(Abi::SysV64, HookKind::After), effects);
            &&& steps_taken(out) == sequence_spec(HookKind::After)
            &&& out.exit == Exit::Returned(m.stack[s])
            &&& out.calls.len() == 4
            &&& out.calls[0].0 == Callee::Unhook
            &&& out.calls[1].0 == Callee::Original
            &&& out.calls[2].0 == Callee::Rehook
            &&& out.calls[3].0 == Callee::Callback
            &&& registers_as_in(out.calls[1].1, m)
            &&& same_from(out.calls[1].1.stack, m.stack, s)
            &&& forall|i: int| 0 <= i < 4 ==> (#[trigger] out.calls[i]).1.sp % 16 == 0
            &&& out.machine.sp == to_address(m.abi, s + 1)
            &&& out.machine.regs[0] == effects[1].result
            &&& out.machine.regs[1] == m.regs[1]
            &&& out.machine.regs[6] == m.regs[6]
            &&& same_from(out.machine.stack, m.stack, s)
            &&& as_a_direct_call(out.machine, m, effects[1])
        }),
{
    let r9 = seq![Instr::Pop(Reg::Ax)] + seq![Instr::Ret];
    let r8 = align() + (call(Callee::Rehook) + (call(Callee::Callback) + (unalign() + r9)));
    let r7 = seq![Instr::Push(Reg::Ax)] + r8;
    let r6 = aligned_call(Callee::Original, r7);
    let r5 = restore_all(m.abi) + r6;
    let out = m.run(interceptor_spec(Abi::SysV64, HookKind::After), effects);
    lemma_save_all(m, s);
    let m1 = saved(m);
    lemma_run_block(m, save_all(m.abi), aligned_call(Callee::Unhook, r5), effects);
    lemma_run_aligned_call(m1, s - 27, Callee::Unhook, r5, effects);
    let m5 = aligned_exit(m1, effects[0]);
    let e1 = effects.drop_first();
    assert(e1[0] == effects[1]);
    assert(holds(m5.stack, s - 27, frame_image(m.abi, m.regs, m.vecs)));
    lemma_restore_all(m5, s - 27, m.regs, m.vecs);
    let m6 = restored(m5, m.regs, m.vecs);
    lemma_run_block(m5, restore_all(m.abi), r6, e1);
    lemma_run_aligned_call(m6, s, Callee::Original, r7, e1);
    let m7 = aligned_exit(m6, effects[1]);
    let e2 = e1.drop_first();
    assert(e2[0] == effects[2] && e2[1] == effects[3]);
    lemma_push(m7, Reg::Ax, s);
    let m8 = m7.step(Instr::Push(Reg::Ax))->0;
    lemma_run_one(m7, Instr::Push(Reg::Ax), m8, r8, e2);
    lemma_run_aligned_calls(m8, s - 1, Callee::Rehook, Callee::Callback, r9, e2);
    let m9 = aligned_exit_of_two(m8, effects[2], effects[3]);
    let e4 = e2.drop_first().drop_first();
    lemma_pop(m9, Reg::Ax, s - 1);
    let m10 = m9.step(Instr::Pop(Reg::Ax))->0;
    lemma_run_one(m9, Instr::Pop(Reg::Ax), m10, seq![Instr::Ret], e4);
    lemma_run_ret(m10, s, e4);
    assert(steps_taken(out) =~= sequence_spec(HookKind::After));
    lemma_as_a_direct_call(out.machine, m, s, effects[1], 0);
}

/// The machine as the callee finds it when `m` calls on a copy of the
/// caller's frame.
pub open spec fn shadowed_entry(m: MachineView) -> MachineView {
    steps(steps(steps(m, shadow(), 0)->0, restore_all(m.abi), 0)->0, mark(), 0)->0
}

/// The machine when a call on a copy of the caller's frame is over and what
/// the callee removed from the stack has been measured.
pub open spec fn shadowed_exit(m: MachineView, effect: CallEffect) -> MachineView {
    steps(shadowed_entry(m).call(effect)->0, measure(), 0)->0
}

/// One call on a copy of the caller's frame, on a 32-bit machine with the
/// stack pointer at slot `s`, where the stack holds the saved `regs` and
/// `vecs` from slot `s` up, the return address above them, and the caller's
/// arguments above that.
///
/// The callee finds the saved registers back in place, but for the
/// accumulator and the base register, and the first 24 slots of the caller's
/// arguments right above the stack pointer, where a direct call would have
/// them. It may remove `c` of them. Afterwards the base register holds `c`
/// slots as a negative number, and the stack from slot `s` up is untouched.
#[verifier::rlimit(60)]
pub proof fn lemma_run_shadowed_call(
    m: MachineView,
    s: int,
    regs: Seq<u64>,
    vecs: Seq<u64>,
    callee: Callee,
    rest: Seq<Instr>,
    effects: Seq<CallEffect>,
    c: int,
)
    requires
        m.abi == Abi::ThisCall32,
        stands_at(m, s),
        s >= 64,
        s + 64 <= m.stack.len(),
        regs.len() == 7,
        vecs.len() == 32,
        holds(m.stack, s, frame_image(m.abi, regs, vecs)),
        effects.len() > 0,
        0 <= c <= 24,
        effects[0].consumed == 4 * c,
        effects[0].result < 0x1_0000_0000,
        effects[0].junk < 0x1_0000_0000,
    ensures
        m.run(shadowed_call(callee, rest), effects) == noted(
            callee,
            shadowed_entry(m),
            shadowed_exit(m, effects[0]).run(rest, effects.drop_first()),
        ),
        stands_at(shadowed_entry(m), s - 24),
        shadowed_entry(m).regs == regs.update(0, m.stack[s + 39]).update(
            1,
            to_address(m.abi, s - 24) as u64,
        ),
        shadowed_entry(m).vecs == vecs,
        copy_of(shadowed_entry(m).stack, s - 24, m.stack, s + 40, 24),
        same_from(shadowed_entry(m).stack, m.stack, s),
        stands_at(shadowed_exit(m, effects[0]), s - 24 + c),
        shadowed_exit(m, effects[0]).abi == m.abi,
        shadowed_exit(m, effects[0]).target == m.target,
        shadowed_exit(m, effects[0]).regs == seq![
            effects[0].result,
            minus(m.abi, c),
            effects[0].junk,
            effects[0].junk,
            regs[4],
            regs[5],
            regs[6],
        ],
        same_from(shadowed_exit(m, effects[0]).stack, m.stack, s),
{
    let e = effects[0];
    let r4 = measure() + rest;
    let r3 = call(callee) + r4;
    let r2 = mark() + r3;
    let r1 = restore_all(m.abi) + r2;
    lemma_shadow(m, s);
    let a1 = steps(m, shadow(), 0)->0;
    lemma_run_block(m, shadow(), r1, effects);
    assert(holds(a1.stack, s - 64, frame_image(m.abi, regs, vecs))) by {
        let image = frame_image(m.abi, regs, vecs);
        assert forall|j: int| s - 64 <= j < s - 64 + image.len() implies #[trigger] a1.stack[j]
            == image[j - (s - 64)] by {
            assert(m.stack[j + 64] == image[j + 64 - s]);
        }
    }
    lemma_restore_all(a1, s - 64, regs, vecs);
    let a2 = restored(a1, regs, vecs);
    lemma_run_block(a1, restore_all(m.abi), r2, effects);
    lemma_mark(a2, s - 25);
    let a3 = steps(a2, mark(), 0)->0;
    lemma_run_block(a2, mark(), r3, effects);
    assert(a3 == shadowed_entry(m));
    lemma_call(a3, e, s - 24, c);
    let a4 = a3.call(e)->0;
    lemma_run_call(a3, callee, r4, effects);
    lemma_measure(a4, s - 24, c);
    let a5 = steps(a4, measure(), 0)->0;
    lemma_run_block(a4, measure(), rest, effects.drop_first());
    assert(a5 == shadowed_exit(m, e));
    assert(a5.regs =~= seq![e.result, minus(m.abi, c), e.junk, e.junk, regs[4], regs[5], regs[6]]);
}

/// The end of a 32-bit interceptor that returns: with the stack pointer at
/// slot `s` below a frame that holds `regs` and `vecs`, the return address
/// `c` slots above the slot that follows the frame, and `c` slots as a
/// negative number in the saved copy of `held`.
///
/// The run returns to that return address, with `regs` and `vecs` in the
/// registers, the stack pointer right above the return address, and the
/// stack untouched.
#[verifier::rlimit(60)]
pub proof fn lemma_run_leave_over_arguments(
    m: MachineView,
    s: int,
    c: int,
    held: Reg,
    regs: Seq<u64>,
    vecs: Seq<u64>,
    effects: Seq<CallEffect>,
)
    requires
        m.abi == Abi::ThisCall32,
        stands_at(m, s),
        0 <= c,
        s + 39 + c < m.stack.len(),
        regs.len() == 7,
        vecs.len() == 32,
        holds(m.stack, s, frame_image(m.abi, regs, vecs)),
        held.on(m.abi),
        regs[held.index_spec()] == minus(m.abi, c),
    ensures
        ({
            let out = m.run(leave_over_arguments(held), effects);
            &&& out.exit == Exit::Returned(m.stack[s + 39 + c])
            &&& out.calls.len() == 0
            &&& out.machine.sp == to_address(m.abi, s + 40 + c)
            &&& out.machine.regs == regs
            &&& out.machine.vecs == vecs
            &&& out.machine.stack == m.stack
        }),
{
    let t2 = seq![Instr::SubSpReg(held)] + seq![Instr::Ret];
    lemma_restore_all(m, s, regs, vecs);
    let x2 = restored(m, regs, vecs);
    lemma_run_block(m, restore_all(m.abi), t2, effects);
    lemma_sub_sp_reg(x2, held, s + 39, c);
    let x3 = x2.step(Instr::SubSpReg(held))->0;
    lemma_run_one(x2, Instr::SubSpReg(held), x3, seq![Instr::Ret], effects);
    lemma_run_ret(x3, s + 39 + c, effects);
}

/// What a 32-bit callee is owed: `this` in the counter, the vector
/// registers, and the first 24 slots of the arguments that stand above slot
/// `s` of `m`, right above the stack pointer, where a call that had not been
/// intercepted would have them.
pub open spec fn arguments_as_in(seen: MachineView, m: MachineView, s: int) -> bool {
    &&& seen.regs.len() == 7
    &&& seen.regs[2] == m.regs[2]
    &&& seen.vecs == m.vecs
    &&& seen.sp == to_address(m.abi, s - 63)
    &&& copy_of(seen.stack, s - 63, m.stack, s + 1, 24)
}

/// The fire-once interceptor on a 32-bit machine, entered with the stack
/// pointer at slot `s`, with a callback that takes nothing from the stack.
///
/// It calls the callback and then the unhook function; the callback finds
/// the caller's registers. It leaves for the original function with the
/// stack pointer, the stack from there up, and every register but the
/// accumulator as they were on entry, so that the original function removes
/// the caller's arguments itself.
#[verifier::rlimit(60)]
pub proof fn lemma_once_thiscall32(m: MachineView, s: int, effects: Seq<CallEffect>)
    requires
        m.abi == Abi::ThisCall32,
        stands_at(m, s),
        s >= 40,
        effects.len() == 2,
        forall|i: int|
            0 <= i < 2 ==> (#[trigger] effects[i]).consumed == 0 && effects[i].result
                < 0x1_0000_0000 && effects[i].junk < 0x1_0000_0000,
    ensures
        ({
            let out = m.run(interceptor_spec(Abi::ThisCall32, HookKind::Once), effects);
            &&& steps_taken(out) == sequence_spec(HookKind::Once)
            &&& out.exit == Exit::Jumped(m.target)
            &&& out.calls.len() == 2
            &&& out.calls[0].0 == Callee::Callback
            &&& out.calls[1].0 == Callee::Unhook
            &&& out.calls[0].1.regs == m.regs
            &&& out.calls[0].1.vecs == m.vecs
            &&& same_from(out.calls[0].1.stack, m.stack, s)
            &&& out.machine.abi == m.abi
            &&& out.machine.sp == m.sp
            &&& out.machine.regs == m.regs.update(0, m.target)
            &&& out.machine.vecs == m.vecs
            &&& same_from(out.machine.stack, m.stack, s)
        }),
{
    let leave = seq![Instr::LoadTarget(Reg::Ax)] + seq![Instr::JumpReg(Reg::Ax)];
    let r3 = restore_all(m.abi) + leave;
    let r2 = call(Callee::Unhook) + r3;
    let r1 = call(Callee::Callback) + r2;
    let out = m.run(interceptor_spec(Abi::ThisCall32, HookKind::Once), effects);
    lemma_save_all(m, s);
    let m1 = saved(m);
    lemma_run_block(m, save_all(m.abi), r1, effects);
    lemma_call(m1, effects[0], s - 39, 0);
    let m2 = m1.call(effects[0])->0;
    lemma_run_call(m1, Callee::Callback, r2, effects);
    let e1 = effects.drop_first();
    assert(e1[0] == effects[1]);
    lemma_call(m2, effects[1], s - 39, 0);
    let m3 = m2.call(effects[1])->0;
    lemma_run_call(m2, Callee::Unhook, r3, e1);
    let e2 = e1.drop_first();
    assert(holds(m3.stack, s - 39, frame_image(m.abi, m.regs, m.vecs)));
    lemma_restore_all(m3, s - 39, m.regs, m.vecs);
    let m4 = restored(m3, m.regs, m.vecs);
    lemma_run_block(m3, restore_all(m.abi), leave, e2);
    lemma_load_target(m4, Reg::Ax);
    let m5 = m4.with_reg(Reg::Ax, m.target);
    lemma_run_one(m4, Instr::LoadTarget(Reg::Ax), m5, seq![Instr::JumpReg(Reg::Ax)], e2);
    lemma_run_jump(m5, Reg::Ax, e2);
    assert(out.machine == m5);
    assert(steps_taken(out) =~= sequence_spec(HookKind::Once));
}

/// The call-before interceptor on a 32-bit machine, entered with the stack
/// pointer at slot `s`, the return address in that slot and the caller's
/// arguments above it. The callback removes `c0` slots of arguments from the
/// stack and the original function `c`, neither more than the 24 slots of
/// the window.
///
/// It calls the callback, the unhook function, the original function and the
/// hook function, in this order. The callback and the original function find
/// `this`, the vector registers and the caller's arguments as a direct call
/// would hand them over. It returns to the caller's return address with the
/// stack pointer `c` slots and the return address up, exactly as an unhooked
/// call would leave it, with the result of the original function in the
/// accumulator, and with every other register but the counter, and the stack
/// above the arguments, as they were on entry.
#[verifier::rlimit(60)]
pub proof fn lemma_before_thiscall32(
    m: MachineView,
    s: int,
    effects: Seq<CallEffect>,
    c0: int,
    c: int,
)
    requires
        m.abi == Abi::ThisCall32,
        stands_at(m, s),
        s >= 103,
        s + 25 <= m.stack.len(),
        effects.len() == 4,
        forall|i: int|
            0 <= i < 4 ==> (#[trigger] effects[i]).result < 0x1_0000_0000 && effects[i].junk
                < 0x1_0000_0000,
        0 <= c0 <= 24,
        0 <= c <= 24,
        effects[0].consumed == 4 * c0,
        effects[1].consumed == 0,
        effects[2].consumed == 4 * c,
        effects[3].consumed == 0,
    ensures
        ({
            let out = m.run(interceptor_spec(Abi::ThisCall32, HookKind::Before), effects);
            &&& steps_taken(out) == sequence_spec(HookKind::Before)
            &&& out.exit == Exit::Returned(m.stack[s])
            &&& out.calls.len() == 4
            &&& out.calls[0].0 == Callee::Callback
            &&& out.calls[1].0 == Callee::Unhook
            &&& out.calls[2].0 == Callee::Original
            &&& out.calls[3].0 == Callee::Rehook
            &&& arguments_as_in(out.calls[0].1, m, s)
            &&& arguments_as_in(out.calls[2].1, m, s)
            &&& out.machine.sp == to_address(m.abi, s + 1 + c)
            &&& out.machine.regs == m.regs.update(0, effects[2].result).update(
                2,
                minus(m.abi, c),
            )
            &&& out.machine.vecs == m.vecs
            &&& same_from(out.machine.stack, m.stack, s + 1 + c)
            &&& as_a_direct_call(out.machine, m, effects[2])
        }),
{
    let abi = m.abi;
    let image = frame_image(abi, m.regs, m.vecs);
    let s1 = s - 39;
    let back = leave_over_arguments(Reg::Cx);
    let t6 = call(Callee::Rehook) + back;
    let t5 = relocate_return() + t6;
    let t4 = seq![Instr::Store(0x90, Reg::Bx)] + t5;
    let t3 = seq![Instr::Store(0x98, Reg::Ax)] + t4;
    let t2 = release() + t3;
    let u2 = shadowed_call(Callee::Original, t2);
    let u1 = release() + u2;
    let t1 = call(Callee::Unhook) + u1;
    let out = m.run(interceptor_spec(Abi::ThisCall32, HookKind::Before), effects);
    lemma_save_all(m, s);
    let m1 = saved(m);
    lemma_run_block(m, save_all(m.abi), shadowed_call(Callee::Callback, t1), effects);
    lemma_run_shadowed_call(m1, s1, m.regs, m.vecs, Callee::Callback, t1, effects, c0);
    let seen0 = shadowed_entry(m1);
    let x0 = shadowed_exit(m1, effects[0]);
    let e1 = effects.drop_first();
    assert(e1[0] == effects[1]);
    lemma_call(x0, effects[1], s1 - 24 + c0, 0);
    let x1 = x0.call(effects[1])->0;
    lemma_run_call(x0, Callee::Unhook, u1, e1);
    let e2 = e1.drop_first();
    assert(e2[0] == effects[2]);
    lemma_release(x1, s1 - 24 + c0, c0);
    let x2 = steps(x1, release(), 0)->0;
    lemma_run_block(x1, release(), u2, e2);
    assert(holds(x2.stack, s1, image));
    lemma_run_shadowed_call(x2, s1, m.regs, m.vecs, Callee::Original, t2, e2, c);
    let seen2 = shadowed_entry(x2);
    let x3 = shadowed_exit(x2, effects[2]);
    let e3 = e2.drop_first();
    assert(e3[0] == effects[3]);
    lemma_release(x3, s1 - 24 + c, c);
    let x4 = steps(x3, release(), 0)->0;
    lemma_run_block(x3, release(), t3, e3);
    lemma_store(x4, 0x98, Reg::Ax, s1, s1 + 38);
    let x5 = x4.step(Instr::Store(0x98, Reg::Ax))->0;
    lemma_run_one(x4, Instr::Store(0x98, Reg::Ax), x5, t4, e3);
    lemma_store(x5, 0x90, Reg::Bx, s1, s1 + 36);
    let x6 = x5.step(Instr::Store(0x90, Reg::Bx))->0;
    lemma_run_one(x5, Instr::Store(0x90, Reg::Bx), x6, t5, e3);
    lemma_relocate_return(x6, s1, c);
    let x7 = steps(x6, relocate_return(), 0)->0;
    lemma_run_block(x6, relocate_return(), t6, e3);
    lemma_call(x7, effects[3], s1, 0);
    let x8 = x7.call(effects[3])->0;
    lemma_run_call(x7, Callee::Rehook, back, e3);
    let e4 = e3.drop_first();
    let regs = m.regs.update(0, effects[2].result).update(2, minus(abi, c));
    let changed = frame_image(abi, regs, m.vecs);
    assert(holds(x8.stack, s1, changed)) by {
        assert forall|j: int| s1 <= j < s1 + changed.len() implies #[trigger] x8.stack[j]
            == changed[j - s1] by {
            assert(x2.stack[j] == image[j - s1]);
        }
    }
    lemma_run_leave_over_arguments(x8, s1, c, Reg::Cx, regs, m.vecs, e4);
    assert(arguments_as_in(seen0, m, s));
    assert(arguments_as_in(seen2, m, s));
    assert(steps_taken(out) =~= sequence_spec(HookKind::Before));
    lemma_as_a_direct_call(out.machine, m, s, effects[2], c);
}

/// The call-after interceptor on a 32-bit machine, entered with the stack
/// pointer at slot `s`, the return address in that slot and the caller's
/// arguments above it. The original function removes `c` slots of arguments
/// from the stack and the callback `c0`, neither more than the 24 slots of
/// the window.
///
/// It calls the unhook function, the original function, the hook function
/// and the callback, in this order. The original function and the callback
/// find `this`, the vector registers and the caller's arguments as a direct
/// call would hand them over. It returns to the caller's return address with
/// the stack pointer `c` slots and the return address up, exactly as an
/// unhooked call would leave it, with the result of the original function in
/// the accumulator, and with every other register but the data register, and
/// the stack above the arguments, as they were on entry.
#[verifier::rlimit(60)]
pub proof fn lemma_after_thiscall32(
    m: MachineView,
    s: int,
    effects: Seq<CallEffect>,
    c: int,
    c0: int,
)
    requires
        m.abi == Abi::ThisCall32,
        stands_at(m, s),
        s >= 103,
        s + 25 <= m.stack.len(),
        effects.len() == 4,
        forall|i: int|
            0 <= i < 4 ==> (#[trigger] effects[i]).result < 0x1_0000_0000 && effects[i].junk
                < 0x1_0000_0000,
        0 <= c0 <= 24,
        0 <= c <= 24,
        effects[0].consumed == 0,
        effects[1].consumed == 4 * c,
        effects[2].consumed == 0,
        effects[3].consumed == 4 * c0,
    ensures
        ({
            let out = m.run(interceptor_spec(Abi::ThisCall32, HookKind::After), effects);
            &&& steps_taken(out) == sequence_spec(HookKind::After)
            &&& out.exit == Exit::Returned(m.stack[s])
            &&& out.calls.len() == 4
            &&& out.calls[0].0 == Callee::Unhook
            &&& out.calls[1].0 == Callee::Original
            &&& out.calls[2].0 == Callee::Rehook
            &&& out.calls[3].0 == Callee::Callback
            &&& arguments_as_in(out.calls[1].1, m, s)
            &&& arguments_as_in(out.calls[3].1, m, s)
            &&& out.machine.sp == to_address(m.abi, s + 1 + c)
            &&& out.machine.regs == m.regs.update(0, effects[1].result).update(
                3,
                minus(m.abi, c),
            )
            &&& out.machine.vecs == m.vecs
            &&& same_from(out.machine.stack, m.stack, s + 1 + c)
            &&& as_a_direct_call(out.machine, m, effects[1])
        }),
{
    let abi = m.abi;
    let image = frame_image(abi, m.regs, m.vecs);
    let s1 = s - 39;
    let back = leave_over_arguments(Reg::Dx);
    let t8 = relocate_return() + back;
    let t7 = seq![Instr::Load(Reg::Bx, 0x8c)] + t8;
    let t6 = release() + t7;
    let u2 = shadowed_call(Callee::Callback, t6);
    let t5 = call(Callee::Rehook) + u2;
    let t4 = seq![Instr::Store(0x8c, Reg::Bx)] + t5;
    let t3 = seq![Instr::Store(0x98, Reg::Ax)] + t4;
    let t2 = release() + t3;
    let u1 = shadowed_call(Callee::Original, t2);
    let out = m.run(interceptor_spec(Abi::ThisCall32, HookKind::After), effects);
    lemma_save_all(m, s);
    let m1 = saved(m);
    lemma_run_block(m, save_all(m.abi), call(Callee::Unhook) + u1, effects);
    lemma_call(m1, effects[0], s1, 0);
    let x0 = m1.call(effects[0])->0;
    lemma_run_call(m1, Callee::Unhook, u1, effects);
    let e1 = effects.drop_first();
    assert(e1[0] == effects[1]);
    assert(holds(x0.stack, s1, image));
    lemma_run_shadowed_call(x0, s1, m.regs, m.vecs, Callee::Original, t2, e1, c);
    let seen1 = shadowed_entry(x0);
    let x1 = shadowed_exit(x0, effects[1]);
    let e2 = e1.drop_first();
    assert(e2[0] == effects[2]);
    lemma_release(x1, s1 - 24 + c, c);
    let x2 = steps(x1, release(), 0)->0;
    lemma_run_block(x1, release(), t3, e2);
    lemma_store(x2, 0x98, Reg::Ax, s1, s1 + 38);
    let x3 = x2.step(Instr::Store(0x98, Reg::Ax))->0;
    lemma_run_one(x2, Instr::Store(0x98, Reg::Ax), x3, t4, e2);
    lemma_store(x3, 0x8c, Reg::Bx, s1, s1 + 35);
    let x4 = x3.step(Instr::Store(0x8c, Reg::Bx))->0;
    lemma_run_one(x3, Instr::Store(0x8c, Reg::Bx), x4, t5, e2);
    lemma_call(x4, effects[2], s1, 0);
    let x5 = x4.call(effects[2])->0;
    lemma_run_call(x4, Callee::Rehook, u2, e2);
    let e3 = e2.drop_first();
    assert(e3[0] == effects[3]);
    let regs = m.regs.update(0, effects[1].result).update(3, minus(abi, c));
    let changed = frame_image(abi, regs, m.vecs);
    assert(holds(x5.stack, s1, changed)) by {
        assert forall|j: int| s1 <= j < s1 + changed.len() implies #[trigger] x5.stack[j]
            == changed[j - s1] by {
            assert(x0.stack[j] == image[j - s1]);
        }
    }
    lemma_run_shadowed_call(x5, s1, regs, m.vecs, Callee::Callback, t6, e3, c0);
    let seen3 = shadowed_entry(x5);
    let x6 = shadowed_exit(x5, effects[3]);
    let e4 = e3.drop_first();
    lemma_release(x6, s1 - 24 + c0, c0);
    let x7 = steps(x6, release(), 0)->0;
    lemma_run_block(x6, release(), t7, e4);
    lemma_load(x7, Reg::Bx, 0x8c, s1, s1 + 35);
    let x8 = x7.step(Instr::Load(Reg::Bx, 0x8c))->0;
    lemma_run_one(x7, Instr::Load(Reg::Bx, 0x8c), x8, t8, e4);
    lemma_relocate_return(x8, s1, c);
    let x9 = steps(x8, relocate_return(), 0)->0;
    lemma_run_block(x8, relocate_return(), back, e4);
    assert(holds(x9.stack, s1, changed)) by {
        assert forall|j: int| s1 <= j < s1 + changed.len() implies #[trigger] x9.stack[j]
            == changed[j - s1] by {
            assert(x5.stack[j] == changed[j - s1]);
        }
    }
    lemma_run_leave_over_arguments(x9, s1, c, Reg::Dx, regs, m.vecs, e4);
    assert(arguments_as_in(seen1, m, s));
    assert(arguments_as_in(seen3, m, s));
    assert(steps_taken(out) =~= sequence_spec(HookKind::After));
    lemma_as_a_direct_call(out.machine, m, s, effects[1], c);
}

/// Where the stack pointer stands when the caller has control back after a
/// call that went through an interceptor: where `ret` left it, if the
/// interceptor returned; where the original function's own return leaves it,
/// if the interceptor left for the original function.
pub open spec fn stack_pointer_back_at_caller(out: Outcome, original: CallEffect) -> Option<u64> {
    match out.exit {
        Exit::Returned(_) => Some(out.machine.sp),
        Exit::Jumped(_) => match direct_call(out.machine, original) {
            Some(after) => Some(after.sp),
            None => None,
        },
        _ => None,
    }
}

/// What a 32-bit interceptor of the given kind is given to work with: the
/// effects of the functions it calls, in the order in which it calls them,
/// with `original` where the original function is called. The original
/// function removes `k` slots of arguments from the stack. The callback
/// removes `c0`, and none where the hook fires once; the unhook and hook
/// functions remove none.
pub open spec fn effects_fit(
    kind: HookKind,
    effects: Seq<CallEffect>,
    original: CallEffect,
    k: int,
    c0: int,
) -> bool {
    &&& original.consumed == 4 * k
    &&& original.result < 0x1_0000_0000
    &&& original.junk < 0x1_0000_0000
    &&& forall|i: int|
        0 <= i < effects.len() ==> (#[trigger] effects[i]).result < 0x1_0000_0000
            && effects[i].junk < 0x1_0000_0000
    &&& match kind {
        HookKind::Once => {
            &&& effects.len() == 2
            &&& effects[0].consumed == 0
            &&& effects[1].consumed == 0
        },
        HookKind::Before => {
            &&& effects.len() == 4
            &&& effects[0].consumed == 4 * c0
            &&& effects[1].consumed == 0
            &&& effects[2] == original
            &&& effects[3].consumed == 0
        },
        HookKind::After => {
            &&& effects.len() == 4
            &&& effects[0].consumed == 0
            &&& effects[1] == original
            &&& effects[2].consumed == 0
            &&& effects[3].consumed == 4 * c0
        },
    }
}

/// Stack accounting on 32 bits, for every kind of hook. A call enters the
/// interceptor with the stack pointer at slot `s`, the return address in
/// that slot and the arguments above it; the original function removes `k`
/// slots of arguments, not more than the 24 of the window. When the caller
/// has control back, the stack pointer stands `k` slots above the slot that
/// follows the return address: exactly where a call that was not
/// intercepted leaves it, whatever the callback removed from its copy.
#[verifier::rlimit(60)]
pub proof fn lemma_stack_accounting(
    m: MachineView,
    s: int,
    kind: HookKind,
    effects: Seq<CallEffect>,
    original: CallEffect,
    k: int,
    c0: int,
)
    requires
        m.abi == Abi::ThisCall32,
        stands_at(m, s),
        s >= 103,
        s + 25 <= m.stack.len(),
        0 <= k <= 24,
        0 <= c0 <= 24,
        effects_fit(kind, effects, original, k, c0),
    ensures
        ({
            let out = m.run(interceptor_spec(Abi::ThisCall32, kind), effects);
            &&& steps_taken(out) == sequence_spec(kind)
            &&& direct_call(m, original) is Some
            &&& stack_pointer_back_at_caller(out, original) == Some(direct_call(m, original)->0.sp)
            &&& direct_call(m, original)->0.sp == m.sp + 4 + 4 * k
        }),
{
    let out = m.run(interceptor_spec(Abi::ThisCall32, kind), effects);
    lemma_slot_of_stack_pointer(m, s);
    lemma_call(m.with_sp(to_address(m.abi, s + 1) as u64), original, s + 1, k);
    match kind {
        HookKind::Once => {
            lemma_once_thiscall32(m, s, effects);
            lemma_slot_of_stack_pointer(out.machine, s);
            lemma_call(out.machine.with_sp(to_address(m.abi, s + 1) as u64), original, s + 1, k);
        },
        HookKind::Before => {
            lemma_before_thiscall32(m, s, effects, c0, k);
        },
        HookKind::After => {
            lemma_after_thiscall32(m, s, effects, k, c0);
        },
    }
}

} // verus!
