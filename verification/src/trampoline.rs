//! The interceptors: for each calling convention and each kind of hook, the
//! instructions that a redirected call lands in.
//!
//! An interceptor is put together from a few blocks. `save_all` and
//! `restore_all` keep on the stack every register that a caller may have
//! something in; `align` and
//! `unalign` give a 64-bit callee the stack alignment it is owed; `shadow`
//! copies the saved registers, the return address and a window of the
//! caller's arguments to fresh stack, so that a 32-bit callee, which removes
//! its arguments itself, removes the copy and not the caller's own.

use crate::arch::{Abi, HookKind};
use crate::machine::{Callee, Instr, Reg};
use vstd::prelude::*;

verus! {

/// Bytes that `shadow` copies: the saved registers, the return address, and
/// the window of arguments.
pub const SHADOW_BYTES: u64 = 0x100;

/// Bytes of arguments that `shadow` copies. A hooked 32-bit function must
/// not take more than this on the stack.
pub const ARGUMENT_WINDOW: u64 = 0x60;

/// Pushes the general registers, then stores the eight vector registers
/// below them.
pub open spec fn save_all(abi: Abi) -> Seq<Instr> {
    match abi {
        Abi::SysV64 => seq![
            Instr::Push(Reg::Ax),
            Instr::Push(Reg::Bx),
            Instr::Push(Reg::Cx),
            Instr::Push(Reg::Dx),
            Instr::Push(Reg::Si),
            Instr::Push(Reg::Di),
            Instr::Push(Reg::Bp),
            Instr::Push(Reg::R8),
            Instr::Push(Reg::R9),
            Instr::Push(Reg::R10),
            Instr::Push(Reg::R11),
            Instr::SubSp(0x80),
            Instr::StoreVec(0x70, 0),
            Instr::StoreVec(0x60, 1),
            Instr::StoreVec(0x50, 2),
            Instr::StoreVec(0x40, 3),
            Instr::StoreVec(0x30, 4),
            Instr::StoreVec(0x20, 5),
            Instr::StoreVec(0x10, 6),
            Instr::StoreVec(0, 7),
        ],
        Abi::ThisCall32 => seq![
            Instr::Push(Reg::Ax),
            Instr::Push(Reg::Bx),
            Instr::Push(Reg::Cx),
            Instr::Push(Reg::Dx),
            Instr::Push(Reg::Si),
            Instr::Push(Reg::Di),
            Instr::Push(Reg::Bp),
            Instr::SubSp(0x80),
            Instr::StoreVec(0x70, 0),
            Instr::StoreVec(0x60, 1),
            Instr::StoreVec(0x50, 2),
            Instr::StoreVec(0x40, 3),
            Instr::StoreVec(0x30, 4),
            Instr::StoreVec(0x20, 5),
            Instr::StoreVec(0x10, 6),
            Instr::StoreVec(0, 7),
        ],
    }
}

/// Loads the eight vector registers, then pops the general registers:
/// `save_all` backwards.
pub open spec fn restore_all(abi: Abi) -> Seq<Instr> {
    match abi {
        Abi::SysV64 => seq![
            Instr::LoadVec(7, 0),
            Instr::LoadVec(6, 0x10),
            Instr::LoadVec(5, 0x20),
            Instr::LoadVec(4, 0x30),
            Instr::LoadVec(3, 0x40),
            Instr::LoadVec(2, 0x50),
            Instr::LoadVec(1, 0x60),
            Instr::LoadVec(0, 0x70),
            Instr::AddSp(0x80),
            Instr::Pop(Reg::R11),
            Instr::Pop(Reg::R10),
            Instr::Pop(Reg::R9),
            Instr::Pop(Reg::R8),
            Instr::Pop(Reg::Bp),
            Instr::Pop(Reg::Di),
            Instr::Pop(Reg::Si),
            Instr::Pop(Reg::Dx),
            Instr::Pop(Reg::Cx),
            Instr::Pop(Reg::Bx),
            Instr::Pop(Reg::Ax),
        ],
        Abi::ThisCall32 => seq![
            Instr::LoadVec(7, 0),
            Instr::LoadVec(6, 0x10),
            Instr::LoadVec(5, 0x20),
            Instr::LoadVec(4, 0x30),
            Instr::LoadVec(3, 0x40),
            Instr::LoadVec(2, 0x50),
            Instr::LoadVec(1, 0x60),
            Instr::LoadVec(0, 0x70),
            Instr::AddSp(0x80),
            Instr::Pop(Reg::Bp),
            Instr::Pop(Reg::Di),
            Instr::Pop(Reg::Si),
            Instr::Pop(Reg::Dx),
            Instr::Pop(Reg::Cx),
            Instr::Pop(Reg::Bx),
            Instr::Pop(Reg::Ax),
        ],
    }
}

/// Keeps the stack pointer in the frame pointer and rounds it down to a
/// multiple of sixteen.
pub open spec fn align() -> Seq<Instr> {
    seq![Instr::Push(Reg::Bp), Instr::MovFromSp(Reg::Bp), Instr::AlignSp]
}

/// Takes the stack pointer back from the frame pointer: `align` backwards.
pub open spec fn unalign() -> Seq<Instr> {
    seq![Instr::MovToSp(Reg::Bp), Instr::Pop(Reg::Bp)]
}

/// Copies the `SHADOW_BYTES` above the stack pointer to fresh stack below it.
pub open spec fn shadow() -> Seq<Instr> {
    seq![
        Instr::SubSp(0x100),
        Instr::MovImm(Reg::Cx, 0x100),
        Instr::Lea(Reg::Si, 0x100),
        Instr::MovFromSp(Reg::Di),
        Instr::CopyBytes,
    ]
}

/// Drops the copied return address, so that the call that follows puts its
/// own in that place, and notes the stack pointer.
pub open spec fn mark() -> Seq<Instr> {
    seq![Instr::Pop(Reg::Ax), Instr::MovFromSp(Reg::Bx)]
}

/// Measures what the callee removed from the stack, as a negative number.
pub open spec fn measure() -> Seq<Instr> {
    seq![Instr::SubRegSp(Reg::Bx)]
}

/// Gives up what is left of the shadow: the window of arguments, less what
/// the callee removed of it.
pub open spec fn release() -> Seq<Instr> {
    seq![Instr::AddSp(0x60), Instr::AddSpReg(Reg::Bx)]
}

/// Moves the return address up over the caller's arguments, to where the
/// stack pointer will stand once they are removed.
pub open spec fn relocate_return() -> Seq<Instr> {
    seq![
        Instr::Load(Reg::Ax, 0x9c),
        Instr::Lea(Reg::Dx, 0x9c),
        Instr::SubReg(Reg::Dx, Reg::Bx),
        Instr::StoreAt(Reg::Dx, Reg::Ax),
    ]
}

/// One call.
pub open spec fn call(callee: Callee) -> Seq<Instr> {
    seq![Instr::Call(callee)]
}

/// `callee` called on an aligned stack, then `rest`.
pub open spec fn aligned_call(callee: Callee, rest: Seq<Instr>) -> Seq<Instr> {
    align() + (call(callee) + (unalign() + rest))
}

/// `callee` called on a copy of the caller's frame, with what it removed
/// from the stack measured, then `rest`.
pub open spec fn shadowed_call(callee: Callee, rest: Seq<Instr>) -> Seq<Instr> {
    shadow() + (restore_all(Abi::ThisCall32) + (mark() + (call(callee) + (measure() + rest))))
}

/// The end of an interceptor that returns to the caller of a 32-bit target,
/// once the return address has moved up over the arguments: the registers
/// come back, and the stack pointer follows the return address.
///
/// `held` is the register whose saved copy holds, as a negative number, what
/// the original function removed from the stack.
pub open spec fn leave_over_arguments(held: Reg) -> Seq<Instr> {
    restore_all(Abi::ThisCall32) + (seq![Instr::SubSpReg(held)] + seq![Instr::Ret])
}

/// The interceptor for the given convention and kind.
pub open spec fn interceptor_spec(abi: Abi, kind: HookKind) -> Seq<Instr> {
    match (abi, kind) {
        (Abi::SysV64, HookKind::Once) => save_all(Abi::SysV64) + (align() + (call(Callee::Callback) + (call(
            Callee::Unhook,
        ) + (unalign() + (restore_all(Abi::SysV64) + (seq![Instr::LoadTarget(Reg::Ax)] + seq![
            Instr::JumpReg(Reg::Ax),
        ])))))),
        (Abi::SysV64, HookKind::Before) => save_all(Abi::SysV64) + (align() + (call(Callee::Callback) + (call(
            Callee::Unhook,
        ) + (unalign() + (restore_all(Abi::SysV64) + aligned_call(
            Callee::Original,
            seq![Instr::Push(Reg::Ax)] + aligned_call(
                Callee::Rehook,
                seq![Instr::Pop(Reg::Ax)] + seq![Instr::Ret],
            ),
        )))))),
        (Abi::SysV64, HookKind::After) => save_all(Abi::SysV64) + aligned_call(
            Callee::Unhook,
            restore_all(Abi::SysV64) + aligned_call(
                Callee::Original,
                seq![Instr::Push(Reg::Ax)] + (align() + (call(Callee::Rehook) + (call(
                    Callee::Callback,
                ) + (unalign() + (seq![Instr::Pop(Reg::Ax)] + seq![Instr::Ret]))))),
            ),
        ),
        (Abi::ThisCall32, HookKind::Once) => save_all(Abi::ThisCall32) + (call(Callee::Callback) + (call(
            Callee::Unhook,
        ) + (restore_all(Abi::ThisCall32) + (seq![Instr::LoadTarget(Reg::Ax)] + seq![Instr::JumpReg(Reg::Ax)])))),
        (Abi::ThisCall32, HookKind::Before) => save_all(Abi::ThisCall32) + shadowed_call(
            Callee::Callback,
            call(Callee::Unhook) + (release() + shadowed_call(
                Callee::Original,
                release() + (seq![Instr::Store(0x98, Reg::Ax)] + (seq![
                    Instr::Store(0x90, Reg::Bx),
                ] + (relocate_return() + (call(Callee::Rehook) + leave_over_arguments(Reg::Cx))))),
            )),
        ),
        (Abi::ThisCall32, HookKind::After) => save_all(Abi::ThisCall32) + (call(Callee::Unhook) + shadowed_call(
            Callee::Original,
            release() + (seq![Instr::Store(0x98, Reg::Ax)] + (seq![
                Instr::Store(0x8c, Reg::Bx),
            ] + (call(Callee::Rehook) + shadowed_call(
                Callee::Callback,
                release() + (seq![Instr::Load(Reg::Bx, 0x8c)] + (relocate_return()
                    + leave_over_arguments(Reg::Dx))),
            )))),
        )),
    }
}

/// `first`, then `rest`.
fn then(first: Vec<Instr>, rest: Vec<Instr>) -> (code: Vec<Instr>)
    ensures
        code@ == first@ + rest@,
{
    let mut code = first;
    let mut rest = rest;
    code.append(&mut rest);
    code
}

/// One instruction.
fn one(instr: Instr) -> (code: Vec<Instr>)
    ensures
        code@ == seq![instr],
{
    let mut code: Vec<Instr> = Vec::new();
    code.push(instr);
    assert(code@ =~= seq![instr]);
    code
}

fn save_all_code(abi: Abi) -> (code: Vec<Instr>)
    ensures
        code@ == save_all(abi),
{
    let mut code: Vec<Instr> = Vec::new();
    code.push(Instr::Push(Reg::Ax));
    code.push(Instr::Push(Reg::Bx));
    code.push(Instr::Push(Reg::Cx));
    code.push(Instr::Push(Reg::Dx));
    code.push(Instr::Push(Reg::Si));
    code.push(Instr::Push(Reg::Di));
    code.push(Instr::Push(Reg::Bp));
    match abi {
        Abi::SysV64 => {
            code.push(Instr::Push(Reg::R8));
            code.push(Instr::Push(Reg::R9));
            code.push(Instr::Push(Reg::R10));
            code.push(Instr::Push(Reg::R11));
        },
        Abi::ThisCall32 => {},
    }
    code.push(Instr::SubSp(0x80));
    code.push(Instr::StoreVec(0x70, 0));
    code.push(Instr::StoreVec(0x60, 1));
    code.push(Instr::StoreVec(0x50, 2));
    code.push(Instr::StoreVec(0x40, 3));
    code.push(Instr::StoreVec(0x30, 4));
    code.push(Instr::StoreVec(0x20, 5));
    code.push(Instr::StoreVec(0x10, 6));
    code.push(Instr::StoreVec(0, 7));
    assert(code@ =~= save_all(abi));
    code
}

fn restore_all_code(abi: Abi) -> (code: Vec<Instr>)
    ensures
        code@ == restore_all(abi),
{
    let mut code: Vec<Instr> = Vec::new();
    code.push(Instr::LoadVec(7, 0));
    code.push(Instr::LoadVec(6, 0x10));
    code.push(Instr::LoadVec(5, 0x20));
    code.push(Instr::LoadVec(4, 0x30));
    code.push(Instr::LoadVec(3, 0x40));
    code.push(Instr::LoadVec(2, 0x50));
    code.push(Instr::LoadVec(1, 0x60));
    code.push(Instr::LoadVec(0, 0x70));
    code.push(Instr::AddSp(0x80));
    match abi {
        Abi::SysV64 => {
            code.push(Instr::Pop(Reg::R11));
            code.push(Instr::Pop(Reg::R10));
            code.push(Instr::Pop(Reg::R9));
            code.push(Instr::Pop(Reg::R8));
        },
        Abi::ThisCall32 => {},
    }
    code.push(Instr::Pop(Reg::Bp));
    code.push(Instr::Pop(Reg::Di));
    code.push(Instr::Pop(Reg::Si));
    code.push(Instr::Pop(Reg::Dx));
    code.push(Instr::Pop(Reg::Cx));
    code.push(Instr::Pop(Reg::Bx));
    code.push(Instr::Pop(Reg::Ax));
    assert(code@ =~= restore_all(abi));
    code
}

fn align_code() -> (code: Vec<Instr>)
    ensures
        code@ == align(),
{
    let mut code: Vec<Instr> = Vec::new();
    code.push(Instr::Push(Reg::Bp));
    code.push(Instr::MovFromSp(Reg::Bp));
    code.push(Instr::AlignSp);
    assert(code@ =~= align());
    code
}

fn unalign_code() -> (code: Vec<Instr>)
    ensures
        code@ == unalign(),
{
    let mut code: Vec<Instr> = Vec::new();
    code.push(Instr::MovToSp(Reg::Bp));
    code.push(Instr::Pop(Reg::Bp));
    assert(code@ =~= unalign());
    code
}

fn shadow_code() -> (code: Vec<Instr>)
    ensures
        code@ == shadow(),
{
    let mut code: Vec<Instr> = Vec::new();
    code.push(Instr::SubSp(SHADOW_BYTES));
    code.push(Instr::MovImm(Reg::Cx, SHADOW_BYTES));
    code.push(Instr::Lea(Reg::Si, SHADOW_BYTES));
    code.push(Instr::MovFromSp(Reg::Di));
    code.push(Instr::CopyBytes);
    assert(code@ =~= shadow());
    code
}

fn mark_code() -> (code: Vec<Instr>)
    ensures
        code@ == mark(),
{
    let mut code: Vec<Instr> = Vec::new();
    code.push(Instr::Pop(Reg::Ax));
    code.push(Instr::MovFromSp(Reg::Bx));
    assert(code@ =~= mark());
    code
}

fn release_code() -> (code: Vec<Instr>)
    ensures
        code@ == release(),
{
    let mut code: Vec<Instr> = Vec::new();
    code.push(Instr::AddSp(ARGUMENT_WINDOW));
    code.push(Instr::AddSpReg(Reg::Bx));
    assert(code@ =~= release());
    code
}

fn relocate_return_code() -> (code: Vec<Instr>)
    ensures
        code@ == relocate_return(),
{
    let mut code: Vec<Instr> = Vec::new();
    code.push(Instr::Load(Reg::Ax, 0x9c));
    code.push(Instr::Lea(Reg::Dx, 0x9c));
    code.push(Instr::SubReg(Reg::Dx, Reg::Bx));
    code.push(Instr::StoreAt(Reg::Dx, Reg::Ax));
    assert(code@ =~= relocate_return());
    code
}

fn call_code(callee: Callee) -> (code: Vec<Instr>)
    ensures
        code@ == call(callee),
{
    one(Instr::Call(callee))
}

fn aligned_call_code(callee: Callee, rest: Vec<Instr>) -> (code: Vec<Instr>)
    ensures
        code@ == aligned_call(callee, rest@),
{
    then(align_code(), then(call_code(callee), then(unalign_code(), rest)))
}

fn shadowed_call_code(callee: Callee, rest: Vec<Instr>) -> (code: Vec<Instr>)
    ensures
        code@ == shadowed_call(callee, rest@),
{
    then(
        shadow_code(),
        then(
            restore_all_code(Abi::ThisCall32),
            then(mark_code(), then(call_code(callee), then(one(Instr::SubRegSp(Reg::Bx)), rest))),
        ),
    )
}

fn leave_over_arguments_code(held: Reg) -> (code: Vec<Instr>)
    ensures
        code@ == leave_over_arguments(held),
{
    then(restore_all_code(Abi::ThisCall32), then(one(Instr::SubSpReg(held)), one(Instr::Ret)))
}

/// The fire-once interceptor: callback, unhook, then away to the original
/// function with the caller's registers and stack as they came.
pub fn hook_once_interceptor(abi: Abi) -> (code: Vec<Instr>)
    ensures
        code@ == interceptor_spec(abi, HookKind::Once),
{
    let leave = then(
        restore_all_code(abi),
        then(one(Instr::LoadTarget(Reg::Ax)), one(Instr::JumpReg(Reg::Ax))),
    );
    match abi {
        Abi::SysV64 => then(
            save_all_code(abi),
            then(
                align_code(),
                then(
                    call_code(Callee::Callback),
                    then(call_code(Callee::Unhook), then(unalign_code(), leave)),
                ),
            ),
        ),
        Abi::ThisCall32 => then(
            save_all_code(abi),
            then(call_code(Callee::Callback), then(call_code(Callee::Unhook), leave)),
        ),
    }
}

/// The call-before interceptor: callback, unhook, the original function,
/// hook again, and back to the caller with what the original returned.
pub fn hook_before_interceptor(abi: Abi) -> (code: Vec<Instr>)
    ensures
        code@ == interceptor_spec(abi, HookKind::Before),
{
    match abi {
        Abi::SysV64 => {
            let back = then(one(Instr::Pop(Reg::Ax)), one(Instr::Ret));
            let rehook = then(one(Instr::Push(Reg::Ax)), aligned_call_code(Callee::Rehook, back));
            let original = aligned_call_code(Callee::Original, rehook);
            then(
                save_all_code(abi),
                then(
                    align_code(),
                    then(
                        call_code(Callee::Callback),
                        then(
                            call_code(Callee::Unhook),
                            then(unalign_code(), then(restore_all_code(abi), original)),
                        ),
                    ),
                ),
            )
        },
        Abi::ThisCall32 => {
            let back = then(
                release_code(),
                then(
                    one(Instr::Store(0x98, Reg::Ax)),
                    then(
                        one(Instr::Store(0x90, Reg::Bx)),
                        then(
                            relocate_return_code(),
                            then(call_code(Callee::Rehook), leave_over_arguments_code(Reg::Cx)),
                        ),
                    ),
                ),
            );
            let original = shadowed_call_code(Callee::Original, back);
            then(
                save_all_code(abi),
                shadowed_call_code(
                    Callee::Callback,
                    then(call_code(Callee::Unhook), then(release_code(), original)),
                ),
            )
        },
    }
}

/// The call-after interceptor: unhook, the original function, hook again,
/// callback, and back to the caller with what the original returned.
pub fn hook_after_interceptor(abi: Abi) -> (code: Vec<Instr>)
    ensures
        code@ == interceptor_spec(abi, HookKind::After),
{
    match abi {
        Abi::SysV64 => {
            let back = then(one(Instr::Pop(Reg::Ax)), one(Instr::Ret));
            let after = then(
                one(Instr::Push(Reg::Ax)),
                then(
                    align_code(),
                    then(
                        call_code(Callee::Rehook),
                        then(call_code(Callee::Callback), then(unalign_code(), back)),
                    ),
                ),
            );
            let original = aligned_call_code(Callee::Original, after);
            then(
                save_all_code(abi),
                aligned_call_code(Callee::Unhook, then(restore_all_code(abi), original)),
            )
        },
        Abi::ThisCall32 => {
            let back = then(
                release_code(),
                then(
                    one(Instr::Load(Reg::Bx, 0x8c)),
                    then(relocate_return_code(), leave_over_arguments_code(Reg::Dx)),
                ),
            );
            let callback = shadowed_call_code(Callee::Callback, back);
            let after = then(
                release_code(),
                then(
                    one(Instr::Store(0x98, Reg::Ax)),
                    then(
                        one(Instr::Store(0x8c, Reg::Bx)),
                        then(call_code(Callee::Rehook), callback),
                    ),
                ),
            );
            let original = shadowed_call_code(Callee::Original, after);
            then(save_all_code(abi), then(call_code(Callee::Unhook), original))
        },
    }
}

/// The interceptor for the given convention and kind.
pub fn interceptor(abi: Abi, kind: HookKind) -> (code: Vec<Instr>)
    ensures
        code@ == interceptor_spec(abi, kind),
{
    match kind {
        HookKind::Once => hook_once_interceptor(abi),
        HookKind::Before => hook_before_interceptor(abi),
        HookKind::After => hook_after_interceptor(abi),
    }
}

} // verus!
