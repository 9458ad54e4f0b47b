//! A small machine on which interceptors can be run and watched: the general
//! registers that a caller may have something in (seven on 32 bits, eleven
//! on 64), eight vector registers, a stack pointer and a stack.
//!
//! The stack is a sequence of slots, each one word wide; the slot at index
//! `i` lives at address `i` times the word size. A vector register is held as
//! the lanes it fills on the stack, one word each. Arithmetic on registers
//! wraps at the word size, as it does in hardware.
//!
//! The functions that an interceptor calls are not part of the machine. What
//! one of them did comes in as a [`CallEffect`]: the value it returned, the
//! bytes of arguments it removed from the stack, and the junk it left in
//! everything that a callee is free to overwrite.

use crate::arch::Abi;
use vstd::prelude::*;

verus! {

/// A general register, named by its role on both architectures.
#[derive(Clone, Copy, Debug, PartialEq, Eq, Structural)]
pub enum Reg {
    /// The accumulator, which carries the return value.
    Ax,
    /// The base register.
    Bx,
    /// The counter, which carries `this` in the 32-bit convention.
    Cx,
    /// The data register.
    Dx,
    /// The source index.
    Si,
    /// The destination index.
    Di,
    /// The frame pointer.
    Bp,
    /// The fifth argument register of the 64-bit convention; 32-bit code
    /// has none of this and the following three.
    R8,
    /// The sixth argument register of the 64-bit convention.
    R9,
    /// A scratch register of the 64-bit convention.
    R10,
    /// A scratch register of the 64-bit convention.
    R11,
}

/// A function that an interceptor calls.
#[derive(Clone, Copy, Debug, PartialEq, Eq, Structural)]
pub enum Callee {
    /// The user callback.
    Callback,
    /// The function that restores the original bytes of the target.
    Unhook,
    /// The function that writes the jump over the target again.
    Rehook,
    /// The original function.
    Original,
}

/// One instruction of an interceptor. Offsets and amounts are in bytes.
#[derive(Clone, Copy, Debug, PartialEq, Eq, Structural)]
pub enum Instr {
    /// `push r`
    Push(Reg),
    /// `pop r`
    Pop(Reg),
    /// `sub sp, n`
    SubSp(u64),
    /// `add sp, n`
    AddSp(u64),
    /// `add sp, r`
    AddSpReg(Reg),
    /// `sub sp, r`
    SubSpReg(Reg),
    /// `and sp, -16`
    AlignSp,
    /// `mov r, sp`
    MovFromSp(Reg),
    /// `mov sp, r`
    MovToSp(Reg),
    /// `sub r, sp`
    SubRegSp(Reg),
    /// `sub a, b`
    SubReg(Reg, Reg),
    /// `mov r, n`
    MovImm(Reg, u64),
    /// `lea r, [sp + n]`
    Lea(Reg, u64),
    /// `mov r, [sp + n]`
    Load(Reg, u64),
    /// `mov [sp + n], r`
    Store(u64, Reg),
    /// `mov [a], b`
    StoreAt(Reg, Reg),
    /// `movdqu [sp + n], xmmK`
    StoreVec(u64, u8),
    /// `movdqu xmmK, [sp + n]`
    LoadVec(u8, u64),
    /// `rep movsb`: copies `Cx` bytes from the address in `Si` to the
    /// address in `Di`.
    CopyBytes,
    /// Loads the address of the original function into `r`.
    LoadTarget(Reg),
    /// `call` of one of the functions around the interceptor.
    Call(Callee),
    /// `jmp r`: leaves the interceptor for the address in `r`.
    JumpReg(Reg),
    /// `ret`
    Ret,
}

/// What a called function did, as far as its caller can tell.
#[derive(Clone, Copy, Debug, PartialEq, Eq, Structural)]
pub struct CallEffect {
    /// The value it returned, in the accumulator.
    pub result: u64,
    /// The bytes of arguments it removed from the stack when it returned.
    pub consumed: u64,
    /// What it left in every register that a callee need not preserve, and
    /// in every slot of the stack below the stack pointer it returned with.
    pub junk: u64,
}

/// How a run of an interceptor ended.
#[derive(Clone, Copy, Debug, PartialEq, Eq, Structural)]
pub enum Exit {
    /// `ret` took this return address from the stack.
    Returned(u64),
    /// A jump left for this address.
    Jumped(u64),
    /// An instruction could not be carried out: an address out of the stack
    /// or not at a slot, an operand too wide, a callee that took more from
    /// the stack than there was.
    Fault,
    /// The instructions ran out, or a call found no effect left to apply.
    Stalled,
}

impl Reg {
    /// The place of the register in the register file.
    pub open spec fn index_spec(self) -> int {
        match self {
            Reg::Ax => 0,
            Reg::Bx => 1,
            Reg::Cx => 2,
            Reg::Dx => 3,
            Reg::Si => 4,
            Reg::Di => 5,
            Reg::Bp => 6,
            Reg::R8 => 7,
            Reg::R9 => 8,
            Reg::R10 => 9,
            Reg::R11 => 10,
        }
    }

    /// The place of the register in the register file.
    pub fn index(self) -> (i: usize)
        ensures
            i == self.index_spec(),
            i < 11,
    {
        match self {
            Reg::Ax => 0,
            Reg::Bx => 1,
            Reg::Cx => 2,
            Reg::Dx => 3,
            Reg::Si => 4,
            Reg::Di => 5,
            Reg::Bp => 6,
            Reg::R8 => 7,
            Reg::R9 => 8,
            Reg::R10 => 9,
            Reg::R11 => 10,
        }
    }

    /// Whether code of the given convention has this register.
    pub open spec fn on_spec(self, abi: Abi) -> bool {
        self.index_spec() < register_count(abi)
    }

    /// Whether code of the given convention has this register.
    #[verifier::when_used_as_spec(on_spec)]
    pub fn on(self, abi: Abi) -> (yes: bool)
        ensures
            yes == self.on_spec(abi),
    {
        self.index() < register_total(abi)
    }
}

/// How many general registers the machine has.
pub open spec fn register_count(abi: Abi) -> int {
    match abi {
        Abi::SysV64 => 11,
        Abi::ThisCall32 => 7,
    }
}

/// Whether code of the given convention has every register that `instr`
/// names.
pub open spec fn operands_exist(abi: Abi, instr: Instr) -> bool {
    match instr {
        Instr::Push(r) => r.on(abi),
        Instr::Pop(r) => r.on(abi),
        Instr::AddSpReg(r) => r.on(abi),
        Instr::SubSpReg(r) => r.on(abi),
        Instr::MovFromSp(r) => r.on(abi),
        Instr::MovToSp(r) => r.on(abi),
        Instr::SubRegSp(r) => r.on(abi),
        Instr::MovImm(r, _) => r.on(abi),
        Instr::Lea(r, _) => r.on(abi),
        Instr::Load(r, _) => r.on(abi),
        Instr::Store(_, r) => r.on(abi),
        Instr::LoadTarget(r) => r.on(abi),
        Instr::JumpReg(r) => r.on(abi),
        Instr::SubReg(a, b) => a.on(abi) && b.on(abi),
        Instr::StoreAt(a, b) => a.on(abi) && b.on(abi),
        _ => true,
    }
}

/// How many stack slots a vector register of sixteen bytes fills.
pub open spec fn lanes(abi: Abi) -> int {
    match abi {
        Abi::SysV64 => 2,
        Abi::ThisCall32 => 4,
    }
}

/// The place of lane `l` of vector register `k` among all the lanes.
pub open spec fn lane(abi: Abi, k: int, l: int) -> int {
    match abi {
        Abi::SysV64 => 2 * k + l,
        Abi::ThisCall32 => 4 * k + l,
    }
}

/// The index of the slot that `address` lies in.
pub open spec fn to_slot(abi: Abi, address: int) -> int {
    match abi {
        Abi::SysV64 => address / 8,
        Abi::ThisCall32 => address / 4,
    }
}

/// The address of the slot at index `slot`.
pub open spec fn to_address(abi: Abi, slot: int) -> int {
    match abi {
        Abi::SysV64 => 8 * slot,
        Abi::ThisCall32 => 4 * slot,
    }
}

/// Whether `address` is the address of a slot.
pub open spec fn at_slot(abi: Abi, address: int) -> bool {
    match abi {
        Abi::SysV64 => address % 8 == 0,
        Abi::ThisCall32 => address % 4 == 0,
    }
}

/// Whether a called function must hand the register at index `r` back as it
/// found it.
pub open spec fn callee_saved(abi: Abi, r: int) -> bool {
    match abi {
        Abi::SysV64 => r == 1 || r == 6,
        Abi::ThisCall32 => r == 1 || r == 4 || r == 5 || r == 6,
    }
}

/// `a + b`, wrapped at the word size.
pub open spec fn wrap_add(abi: Abi, a: u64, b: u64) -> u64 {
    if a + b >= abi.modulus() {
        (a + b - abi.modulus()) as u64
    } else {
        (a + b) as u64
    }
}

/// `a - b`, wrapped at the word size.
pub open spec fn wrap_sub(abi: Abi, a: u64, b: u64) -> u64 {
    if a >= b {
        (a - b) as u64
    } else {
        (a + abi.modulus() - b) as u64
    }
}

/// The state of the machine, as contracts speak of it.
pub struct MachineView {
    pub abi: Abi,
    /// The general registers, by [`Reg::index_spec`].
    pub regs: Seq<u64>,
    /// The vector registers, lane by lane: register `k` fills the entries
    /// from `k * lanes` on.
    pub vecs: Seq<u64>,
    /// The stack pointer, a byte address.
    pub sp: u64,
    /// The stack, slot by slot from address zero up.
    pub stack: Seq<u64>,
    /// The address of the original function.
    pub target: u64,
}

/// What a run of an interceptor comes to.
pub struct Outcome {
    /// The machine when the run ended.
    pub machine: MachineView,
    /// How it ended.
    pub exit: Exit,
    /// The calls it made, in order, each with the machine as the callee
    /// found it.
    pub calls: Seq<(Callee, MachineView)>,
}

impl MachineView {
    /// The general registers of the convention, eight vector registers,
    /// every value within the word size, and a stack whose addresses fit a
    /// register.
    pub open spec fn wf(self) -> bool {
        &&& self.regs.len() == register_count(self.abi)
        &&& self.vecs.len() == 8 * lanes(self.abi)
        &&& to_address(self.abi, self.stack.len() as int) < self.abi.modulus()
        &&& self.sp < self.abi.modulus()
        &&& self.target < self.abi.modulus()
        &&& forall|i: int| 0 <= i < self.regs.len() ==> #[trigger] self.regs[i] < self.abi.modulus()
        &&& forall|i: int| 0 <= i < self.vecs.len() ==> #[trigger] self.vecs[i] < self.abi.modulus()
        &&& forall|i: int|
            0 <= i < self.stack.len() ==> #[trigger] self.stack[i] < self.abi.modulus()
    }

    /// The index of the slot at `address`, where there is one.
    pub open spec fn slot(self, address: u64) -> Option<int> {
        if at_slot(self.abi, address as int) && to_slot(self.abi, address as int)
            < self.stack.len() {
            Some(to_slot(self.abi, address as int))
        } else {
            None
        }
    }

    /// The register `r`.
    pub open spec fn reg(self, r: Reg) -> u64 {
        self.regs[r.index_spec()]
    }

    /// The machine with `value` in register `r`.
    pub open spec fn with_reg(self, r: Reg, value: u64) -> MachineView {
        MachineView { regs: self.regs.update(r.index_spec(), value), ..self }
    }

    /// The machine with the stack pointer at `sp`.
    pub open spec fn with_sp(self, sp: u64) -> MachineView {
        MachineView { sp, ..self }
    }

    /// The machine with `value` in the slot at index `i`.
    pub open spec fn with_slot(self, i: int, value: u64) -> MachineView {
        MachineView { stack: self.stack.update(i, value), ..self }
    }

    /// `push r`
    pub open spec fn push(self, r: Reg) -> Option<MachineView> {
        let sp = wrap_sub(self.abi, self.sp, self.abi.word_bytes_spec() as u64);
        match self.slot(sp) {
            Some(i) => Some(self.with_slot(i, self.reg(r)).with_sp(sp)),
            None => None,
        }
    }

    /// `pop r`
    pub open spec fn pop(self, r: Reg) -> Option<MachineView> {
        match self.slot(self.sp) {
            Some(i) => Some(
                self.with_reg(r, self.stack[i]).with_sp(
                    wrap_add(self.abi, self.sp, self.abi.word_bytes_spec() as u64),
                ),
            ),
            None => None,
        }
    }

    /// `mov r, [sp + n]`
    pub open spec fn load(self, r: Reg, n: u64) -> Option<MachineView> {
        if n < self.abi.modulus() {
            match self.slot(wrap_add(self.abi, self.sp, n)) {
                Some(i) => Some(self.with_reg(r, self.stack[i])),
                None => None,
            }
        } else {
            None
        }
    }

    /// `mov [sp + n], r`
    pub open spec fn store(self, n: u64, r: Reg) -> Option<MachineView> {
        if n < self.abi.modulus() {
            match self.slot(wrap_add(self.abi, self.sp, n)) {
                Some(i) => Some(self.with_slot(i, self.reg(r))),
                None => None,
            }
        } else {
            None
        }
    }

    /// `mov [a], b`
    pub open spec fn store_at(self, a: Reg, b: Reg) -> Option<MachineView> {
        match self.slot(self.reg(a)) {
            Some(i) => Some(self.with_slot(i, self.reg(b))),
            None => None,
        }
    }

    /// `movdqu [sp + n], xmmK`
    pub open spec fn store_vec(self, n: u64, k: u8) -> Option<MachineView> {
        if n < self.abi.modulus() && k < 8 {
            match self.slot(wrap_add(self.abi, self.sp, n)) {
                Some(i) => if i + lanes(self.abi) <= self.stack.len() {
                    Some(
                        MachineView {
                            stack: Seq::new(
                                self.stack.len(),
                                |j: int|
                                    if i <= j < i + lanes(self.abi) {
                                        self.vecs[lane(self.abi, k as int, j - i)]
                                    } else {
                                        self.stack[j]
                                    },
                            ),
                            ..self
                        },
                    )
                } else {
                    None
                },
                None => None,
            }
        } else {
            None
        }
    }

    /// `movdqu xmmK, [sp + n]`
    pub open spec fn load_vec(self, k: u8, n: u64) -> Option<MachineView> {
        if n < self.abi.modulus() && k < 8 {
            match self.slot(wrap_add(self.abi, self.sp, n)) {
                Some(i) => if i + lanes(self.abi) <= self.stack.len() {
                    Some(
                        MachineView {
                            vecs: Seq::new(
                                self.vecs.len(),
                                |j: int|
                                    if lane(self.abi, k as int, 0) <= j < lane(
                                        self.abi,
                                        k as int,
                                        lanes(self.abi),
                                    ) {
                                        self.stack[i + (j - lane(self.abi, k as int, 0))]
                                    } else {
                                        self.vecs[j]
                                    },
                            ),
                            ..self
                        },
                    )
                } else {
                    None
                },
                None => None,
            }
        } else {
            None
        }
    }

    /// `rep movsb`
    pub open spec fn copy_bytes(self) -> Option<MachineView> {
        let abi = self.abi;
        let count = self.reg(Reg::Cx);
        let from = self.reg(Reg::Si);
        let to = self.reg(Reg::Di);
        let n = to_slot(abi, count as int);
        match (self.slot(from), self.slot(to)) {
            (Some(s), Some(d)) => if at_slot(abi, count as int) && s + n <= self.stack.len() && d
                + n <= self.stack.len() && (d + n <= s || s + n <= d) {
                Some(
                    MachineView {
                        stack: Seq::new(
                            self.stack.len(),
                            |j: int|
                                if d <= j < d + n {
                                    self.stack[s + (j - d)]
                                } else {
                                    self.stack[j]
                                },
                        ),
                        regs: self.regs.update(Reg::Cx.index_spec(), 0).update(
                            Reg::Si.index_spec(),
                            wrap_add(abi, from, count),
                        ).update(Reg::Di.index_spec(), wrap_add(abi, to, count)),
                        ..self
                    },
                )
            } else {
                None
            },
            _ => None,
        }
    }

    /// The machine after one instruction that neither calls nor leaves, or
    /// `None` where the instruction cannot be carried out.
    #[verifier::opaque]
    pub open spec fn step(self, instr: Instr) -> Option<MachineView> {
        let abi = self.abi;
        if !operands_exist(abi, instr) {
            None
        } else {
            self.carry_out(instr)
        }
    }

    /// The machine after one instruction whose registers all exist.
    pub open spec fn carry_out(self, instr: Instr) -> Option<MachineView> {
        let abi = self.abi;
        match instr {
            Instr::Push(r) => self.push(r),
            Instr::Pop(r) => self.pop(r),
            Instr::SubSp(n) => if n < abi.modulus() {
                Some(self.with_sp(wrap_sub(abi, self.sp, n)))
            } else {
                None
            },
            Instr::AddSp(n) => if n < abi.modulus() {
                Some(self.with_sp(wrap_add(abi, self.sp, n)))
            } else {
                None
            },
            Instr::AddSpReg(r) => Some(self.with_sp(wrap_add(abi, self.sp, self.reg(r)))),
            Instr::SubSpReg(r) => Some(self.with_sp(wrap_sub(abi, self.sp, self.reg(r)))),
            Instr::AlignSp => Some(self.with_sp((self.sp - self.sp % 16) as u64)),
            Instr::MovFromSp(r) => Some(self.with_reg(r, self.sp)),
            Instr::MovToSp(r) => Some(self.with_sp(self.reg(r))),
            Instr::SubRegSp(r) => Some(self.with_reg(r, wrap_sub(abi, self.reg(r), self.sp))),
            Instr::SubReg(a, b) => Some(self.with_reg(a, wrap_sub(abi, self.reg(a), self.reg(b)))),
            Instr::MovImm(r, n) => if n < abi.modulus() {
                Some(self.with_reg(r, n))
            } else {
                None
            },
            Instr::Lea(r, n) => if n < abi.modulus() {
                Some(self.with_reg(r, wrap_add(abi, self.sp, n)))
            } else {
                None
            },
            Instr::Load(r, n) => self.load(r, n),
            Instr::Store(n, r) => self.store(n, r),
            Instr::StoreAt(a, b) => self.store_at(a, b),
            Instr::StoreVec(n, k) => self.store_vec(n, k),
            Instr::LoadVec(k, n) => self.load_vec(k, n),
            Instr::CopyBytes => self.copy_bytes(),
            Instr::LoadTarget(r) => Some(self.with_reg(r, self.target)),
            Instr::Call(_) | Instr::JumpReg(_) | Instr::Ret => None,
        }
    }

    /// The machine when a called function has returned with `effect`, or
    /// `None` where the call cannot be carried out.
    ///
    /// The call puts a return address on the stack; the callee takes it off
    /// again together with the arguments it removes. Registers that the
    /// callee must preserve, and the stack from its final stack pointer up,
    /// are as before. The accumulator holds the result. Everything else is
    /// junk.
    pub open spec fn call(self, effect: CallEffect) -> Option<MachineView> {
        let abi = self.abi;
        let w = abi.word_bytes_spec() as u64;
        let top = self.sp + effect.consumed;
        if self.sp >= w && self.slot((self.sp - w) as u64) is Some && at_slot(
            abi,
            effect.consumed as int,
        ) && top <= to_address(abi, self.stack.len() as int) && effect.result < abi.modulus()
            && effect.junk < abi.modulus() && top < abi.modulus() {
            Some(
                MachineView {
                    regs: Seq::new(
                        self.regs.len(),
                        |r: int|
                            if r == 0 {
                                effect.result
                            } else if callee_saved(abi, r) {
                                self.regs[r]
                            } else {
                                effect.junk
                            },
                    ),
                    vecs: Seq::new(self.vecs.len(), |i: int| effect.junk),
                    sp: top as u64,
                    stack: Seq::new(
                        self.stack.len(),
                        |j: int|
                            if to_address(abi, j) < top {
                                effect.junk
                            } else {
                                self.stack[j]
                            },
                    ),
                    ..self
                },
            )
        } else {
            None
        }
    }

    /// Runs `program` from its first instruction, applying `effects` to the
    /// calls in the order in which they are made.
    pub open spec fn run(self, program: Seq<Instr>, effects: Seq<CallEffect>) -> Outcome
        decreases program.len(),
    {
        if program.len() == 0 {
            Outcome { machine: self, exit: Exit::Stalled, calls: Seq::empty() }
        } else {
            match program[0] {
                Instr::Ret => match self.slot(self.sp) {
                    Some(i) => Outcome {
                        machine: self.with_sp(
                            wrap_add(self.abi, self.sp, self.abi.word_bytes_spec() as u64),
                        ),
                        exit: Exit::Returned(self.stack[i]),
                        calls: Seq::empty(),
                    },
                    None => Outcome { machine: self, exit: Exit::Fault, calls: Seq::empty() },
                },
                Instr::JumpReg(r) => Outcome {
                    machine: self,
                    exit: if r.on(self.abi) {
                        Exit::Jumped(self.reg(r))
                    } else {
                        Exit::Fault
                    },
                    calls: Seq::empty(),
                },
                Instr::Call(callee) => if effects.len() == 0 {
                    Outcome { machine: self, exit: Exit::Stalled, calls: Seq::empty() }
                } else {
                    match self.call(effects[0]) {
                        Some(next) => {
                            let rest = next.run(program.drop_first(), effects.drop_first());
                            Outcome { calls: seq![(callee, self)] + rest.calls, ..rest }
                        },
                        None => Outcome { machine: self, exit: Exit::Fault, calls: Seq::empty() },
                    }
                },
                instr => match self.step(instr) {
                    Some(next) => next.run(program.drop_first(), effects),
                    None => Outcome { machine: self, exit: Exit::Fault, calls: Seq::empty() },
                },
            }
        }
    }
}

/// `out`, with `calls` in front of the calls it made.
pub open spec fn prefixed(calls: Seq<(Callee, MachineView)>, out: Outcome) -> Outcome {
    Outcome { calls: calls + out.calls, ..out }
}

/// A machine that can be run.
pub struct Machine {
    abi: Abi,
    regs: Vec<u64>,
    vecs: Vec<u64>,
    sp: u64,
    stack: Vec<u64>,
    target: u64,
}

/// What a run reports: how it ended, which functions it called, and the
/// machine as each of them found it.
pub struct Report {
    pub exit: Exit,
    pub calls: Vec<Callee>,
    pub seen: Vec<Machine>,
}

impl View for Machine {
    type V = MachineView;

    closed spec fn view(&self) -> MachineView {
        MachineView {
            abi: self.abi,
            regs: self.regs@,
            vecs: self.vecs@,
            sp: self.sp,
            stack: self.stack@,
            target: self.target,
        }
    }
}

impl Report {
    /// Whether the report tells what `out` holds.
    pub open spec fn tells(&self, out: Outcome) -> bool {
        &&& self.exit == out.exit
        &&& self.calls@.len() == out.calls.len()
        &&& self.seen@.len() == out.calls.len()
        &&& forall|i: int|
            0 <= i < out.calls.len() ==> self.calls@[i] == (#[trigger] out.calls[i]).0
                && self.seen@[i]@ == out.calls[i].1
    }
}

fn add_wrapped(abi: Abi, a: u64, b: u64) -> (r: u64)
    requires
        a < abi.modulus(),
        b < abi.modulus(),
    ensures
        r == wrap_add(abi, a, b),
        r < abi.modulus(),
{
    match abi {
        Abi::ThisCall32 => {
            let sum = a + b;
            if sum >= 0x1_0000_0000 {
                sum - 0x1_0000_0000
            } else {
                sum
            }
        },
        Abi::SysV64 => {
            if a > u64::MAX - b {
                a - (u64::MAX - b) - 1
            } else {
                a + b
            }
        },
    }
}

fn sub_wrapped(abi: Abi, a: u64, b: u64) -> (r: u64)
    requires
        a < abi.modulus(),
        b < abi.modulus(),
    ensures
        r == wrap_sub(abi, a, b),
        r < abi.modulus(),
{
    if a >= b {
        a - b
    } else {
        match abi {
            Abi::ThisCall32 => a + 0x1_0000_0000 - b,
            Abi::SysV64 => u64::MAX - b + a + 1,
        }
    }
}

fn lane_count(abi: Abi) -> (n: usize)
    ensures
        n == lanes(abi),
{
    match abi {
        Abi::SysV64 => 2,
        Abi::ThisCall32 => 4,
    }
}

fn lane_index(abi: Abi, k: u8, l: usize) -> (i: usize)
    requires
        k < 8,
        l <= 4,
    ensures
        i == lane(abi, k as int, l as int),
{
    match abi {
        Abi::SysV64 => 2 * (k as usize) + l,
        Abi::ThisCall32 => 4 * (k as usize) + l,
    }
}

fn register_total(abi: Abi) -> (n: usize)
    ensures
        n == register_count(abi),
{
    match abi {
        Abi::SysV64 => 11,
        Abi::ThisCall32 => 7,
    }
}

/// Whether code of the given convention has every register that `instr`
/// names.
pub fn has_operands(abi: Abi, instr: Instr) -> (yes: bool)
    ensures
        yes == operands_exist(abi, instr),
{
    let count = register_total(abi);
    match instr {
        Instr::Push(r) => r.index() < count,
        Instr::Pop(r) => r.index() < count,
        Instr::AddSpReg(r) => r.index() < count,
        Instr::SubSpReg(r) => r.index() < count,
        Instr::MovFromSp(r) => r.index() < count,
        Instr::MovToSp(r) => r.index() < count,
        Instr::SubRegSp(r) => r.index() < count,
        Instr::MovImm(r, _) => r.index() < count,
        Instr::Lea(r, _) => r.index() < count,
        Instr::Load(r, _) => r.index() < count,
        Instr::Store(_, r) => r.index() < count,
        Instr::LoadTarget(r) => r.index() < count,
        Instr::JumpReg(r) => r.index() < count,
        Instr::SubReg(a, b) => a.index() < count && b.index() < count,
        Instr::StoreAt(a, b) => a.index() < count && b.index() < count,
        Instr::AlignSp => true,
        Instr::StoreVec(_, _) => true,
        Instr::LoadVec(_, _) => true,
        Instr::CopyBytes => true,
        Instr::SubSp(_) => true,
        Instr::AddSp(_) => true,
        Instr::Call(_) => true,
        Instr::Ret => true,
    }
}

fn is_callee_saved(abi: Abi, r: usize) -> (yes: bool)
    ensures
        yes == callee_saved(abi, r as int),
{
    match abi {
        Abi::SysV64 => r == 1 || r == 6,
        Abi::ThisCall32 => r == 1 || r == 4 || r == 5 || r == 6,
    }
}

fn filled(n: usize, value: u64) -> (v: Vec<u64>)
    ensures
        v@ == Seq::new(n as nat, |i: int| value),
{
    let mut v: Vec<u64> = Vec::new();
    while v.len() < n
        invariant
            v@.len() <= n,
            v@ == Seq::new(v@.len(), |i: int| value),
        decreases n - v@.len(),
    {
        v.push(value);
        assert(v@ =~= Seq::new(v@.len(), |i: int| value));
    }
    v
}

fn copied(source: &Vec<u64>) -> (v: Vec<u64>)
    ensures
        v@ == source@,
{
    let mut v: Vec<u64> = Vec::new();
    while v.len() < source.len()
        invariant
            v@.len() <= source@.len(),
            v@ == source@.take(v@.len() as int),
        decreases source@.len() - v@.len(),
    {
        v.push(source[v.len()]);
        assert(v@ =~= source@.take(v@.len() as int));
    }
    assert(source@.take(source@.len() as int) =~= source@);
    v
}

impl Machine {
    /// A machine with a stack of `slots` slots, all zero, the stack pointer
    /// above the last of them, and zero in every register; `None` where the
    /// stack would not fit the addresses of the architecture, or `target`
    /// does not.
    pub fn new(abi: Abi, slots: usize, target: u64) -> (made: Option<Machine>)
        ensures
            match made {
                Some(m) => {
                    &&& m@.wf()
                    &&& m@ == (MachineView {
                        abi,
                        regs: Seq::new(register_count(abi) as nat, |i: int| 0u64),
                        vecs: Seq::new((8 * lanes(abi)) as nat, |i: int| 0u64),
                        sp: to_address(abi, slots as int) as u64,
                        stack: Seq::new(slots as nat, |i: int| 0u64),
                        target,
                    })
                },
                None => !(to_address(abi, slots as int) < abi.modulus() && target < abi.modulus()),
            },
    {
        if !abi.reaches(target) {
            return None;
        }
        let sp: u64 = match abi {
            Abi::SysV64 => {
                if slots as u64 > u64::MAX / 8 {
                    return None;
                }
                8 * (slots as u64)
            },
            Abi::ThisCall32 => {
                if slots as u64 >= 0x4000_0000 {
                    return None;
                }
                4 * (slots as u64)
            },
        };
        let m = Machine {
            abi,
            regs: filled(register_total(abi), 0),
            vecs: filled(8 * lane_count(abi), 0),
            sp,
            stack: filled(slots, 0),
            target,
        };
        Some(m)
    }

    /// The index of the slot at `address`, where there is one.
    fn slot_index(&self, address: u64) -> (found: Option<usize>)
        requires
            self@.wf(),
        ensures
            match found {
                Some(i) => self@.slot(address) == Some(i as int) && i < self@.stack.len(),
                None => self@.slot(address) is None,
            },
    {
        let (at, index) = match self.abi {
            Abi::SysV64 => (address % 8 == 0, address / 8),
            Abi::ThisCall32 => (address % 4 == 0, address / 4),
        };
        if at && index < self.stack.len() as u64 {
            Some(index as usize)
        } else {
            None
        }
    }

    fn set_sp(&mut self, sp: u64)
        requires
            old(self)@.wf(),
            sp < old(self)@.abi.modulus(),
        ensures
            final(self)@.wf(),
            final(self)@ == old(self)@.with_sp(sp),
    {
        self.sp = sp;
    }

    fn get(&self, r: Reg) -> (value: u64)
        requires
            self@.wf(),
            r.on(self@.abi),
        ensures
            value == self@.reg(r),
            value < self@.abi.modulus(),
    {
        self.regs[r.index()]
    }

    fn set(&mut self, r: Reg, value: u64)
        requires
            old(self)@.wf(),
            r.on(old(self)@.abi),
            value < old(self)@.abi.modulus(),
        ensures
            final(self)@.wf(),
            final(self)@ == old(self)@.with_reg(r, value),
    {
        self.regs.set(r.index(), value);
    }

    fn set_slot(&mut self, i: usize, value: u64)
        requires
            old(self)@.wf(),
            i < old(self)@.stack.len(),
            value < old(self)@.abi.modulus(),
        ensures
            final(self)@.wf(),
            final(self)@ == old(self)@.with_slot(i as int, value),
    {
        self.stack.set(i, value);
    }

    fn get_slot(&self, i: usize) -> (value: u64)
        requires
            self@.wf(),
            i < self@.stack.len(),
        ensures
            value == self@.stack[i as int],
            value < self@.abi.modulus(),
    {
        self.stack[i]
    }

    fn push(&mut self, r: Reg) -> (done: bool)
        requires
            old(self)@.wf(),
            r.on(old(self)@.abi),
        ensures
            final(self)@.wf(),
            match old(self)@.push(r) {
                Some(next) => done && final(self)@ == next,
                None => !done && final(self)@ == old(self)@,
            },
    {
        let sp = sub_wrapped(self.abi, self.sp, self.abi.word_bytes());
        match self.slot_index(sp) {
            Some(i) => {
                let value = self.get(r);
                self.set_slot(i, value);
                self.set_sp(sp);
                true
            },
            None => false,
        }
    }

    fn pop(&mut self, r: Reg) -> (done: bool)
        requires
            old(self)@.wf(),
            r.on(old(self)@.abi),
        ensures
            final(self)@.wf(),
            match old(self)@.pop(r) {
                Some(next) => done && final(self)@ == next,
                None => !done && final(self)@ == old(self)@,
            },
    {
        match self.slot_index(self.sp) {
            Some(i) => {
                let value = self.get_slot(i);
                let sp = add_wrapped(self.abi, self.sp, self.abi.word_bytes());
                self.set(r, value);
                self.set_sp(sp);
                true
            },
            None => false,
        }
    }

    fn load(&mut self, r: Reg, n: u64) -> (done: bool)
        requires
            old(self)@.wf(),
            r.on(old(self)@.abi),
        ensures
            final(self)@.wf(),
            match old(self)@.load(r, n) {
                Some(next) => done && final(self)@ == next,
                None => !done && final(self)@ == old(self)@,
            },
    {
        if !self.abi.reaches(n) {
            return false;
        }
        match self.slot_index(add_wrapped(self.abi, self.sp, n)) {
            Some(i) => {
                let value = self.get_slot(i);
                self.set(r, value);
                true
            },
            None => false,
        }
    }

    fn store(&mut self, n: u64, r: Reg) -> (done: bool)
        requires
            old(self)@.wf(),
            r.on(old(self)@.abi),
        ensures
            final(self)@.wf(),
            match old(self)@.store(n, r) {
                Some(next) => done && final(self)@ == next,
                None => !done && final(self)@ == old(self)@,
            },
    {
        if !self.abi.reaches(n) {
            return false;
        }
        match self.slot_index(add_wrapped(self.abi, self.sp, n)) {
            Some(i) => {
                let value = self.get(r);
                self.set_slot(i, value);
                true
            },
            None => false,
        }
    }

    fn store_at(&mut self, a: Reg, b: Reg) -> (done: bool)
        requires
            old(self)@.wf(),
            a.on(old(self)@.abi),
            b.on(old(self)@.abi),
        ensures
            final(self)@.wf(),
            match old(self)@.store_at(a, b) {
                Some(next) => done && final(self)@ == next,
                None => !done && final(self)@ == old(self)@,
            },
    {
        match self.slot_index(self.get(a)) {
            Some(i) => {
                let value = self.get(b);
                self.set_slot(i, value);
                true
            },
            None => false,
        }
    }

    fn store_vector(&mut self, n: u64, k: u8) -> (done: bool)
        requires
            old(self)@.wf(),
        ensures
            final(self)@.wf(),
            match old(self)@.store_vec(n, k) {
                Some(next) => done && final(self)@ == next,
                None => !done && final(self)@ == old(self)@,
            },
    {
        let abi = self.abi;
        if !(abi.reaches(n) && k < 8) {
            return false;
        }
        let count = lane_count(abi);
        match self.slot_index(add_wrapped(abi, self.sp, n)) {
            None => false,
            Some(i) => {
                if count > self.stack.len() - i {
                    return false;
                }
                let ghost before = self@;
                let mut l: usize = 0;
                assert(self.stack@ =~= Seq::new(
                    before.stack.len(),
                    |j: int|
                        if i <= j < i + l {
                            before.vecs[lane(abi, k as int, j - i)]
                        } else {
                            before.stack[j]
                        },
                ));
                while l < count
                    invariant
                        l <= count,
                        count == lanes(abi),
                        k < 8,
                        i + count <= before.stack.len(),
                        i + count <= usize::MAX,
                        before.wf(),
                        before.abi == abi,
                        self.abi == abi,
                        self.sp == before.sp,
                        self.target == before.target,
                        self.regs@ == before.regs,
                        self.vecs@ == before.vecs,
                        self.stack@.len() == before.stack.len(),
                        self.stack@ == Seq::new(
                            before.stack.len(),
                            |j: int|
                                if i <= j < i + l {
                                    before.vecs[lane(abi, k as int, j - i)]
                                } else {
                                    before.stack[j]
                                },
                        ),
                    decreases count - l,
                {
                    let value = self.vecs[lane_index(abi, k, l)];
                    self.stack.set(i + l, value);
                    l = l + 1;
                    assert(self.stack@ =~= Seq::new(
                        before.stack.len(),
                        |j: int|
                            if i <= j < i + l {
                                before.vecs[lane(abi, k as int, j - i)]
                            } else {
                                before.stack[j]
                            },
                    ));
                }
                assert(self@.stack =~= before.store_vec(n, k)->0.stack);
                true
            },
        }
    }

    fn load_vector(&mut self, k: u8, n: u64) -> (done: bool)
        requires
            old(self)@.wf(),
        ensures
            final(self)@.wf(),
            match old(self)@.load_vec(k, n) {
                Some(next) => done && final(self)@ == next,
                None => !done && final(self)@ == old(self)@,
            },
    {
        let abi = self.abi;
        if !(abi.reaches(n) && k < 8) {
            return false;
        }
        let count = lane_count(abi);
        match self.slot_index(add_wrapped(abi, self.sp, n)) {
            None => false,
            Some(i) => {
                if count > self.stack.len() - i {
                    return false;
                }
                let ghost before = self@;
                let first = lane_index(abi, k, 0);
                let mut l: usize = 0;
                assert(self.vecs@ =~= Seq::new(
                    before.vecs.len(),
                    |j: int|
                        if first <= j < first + l {
                            before.stack[i + (j - first)]
                        } else {
                            before.vecs[j]
                        },
                ));
                while l < count
                    invariant
                        l <= count,
                        count == lanes(abi),
                        k < 8,
                        first == lane(abi, k as int, 0),
                        i + count <= before.stack.len(),
                        i + count <= usize::MAX,
                        before.wf(),
                        before.abi == abi,
                        self.abi == abi,
                        self.sp == before.sp,
                        self.target == before.target,
                        self.regs@ == before.regs,
                        self.stack@ == before.stack,
                        self.vecs@.len() == before.vecs.len(),
                        self.vecs@ == Seq::new(
                            before.vecs.len(),
                            |j: int|
                                if first <= j < first + l {
                                    before.stack[i + (j - first)]
                                } else {
                                    before.vecs[j]
                                },
                        ),
                    decreases count - l,
                {
                    let value = self.stack[i + l];
                    self.vecs.set(first + l, value);
                    l = l + 1;
                    assert(self.vecs@ =~= Seq::new(
                        before.vecs.len(),
                        |j: int|
                            if first <= j < first + l {
                                before.stack[i + (j - first)]
                            } else {
                                before.vecs[j]
                            },
                    ));
                }
                assert(self@.vecs =~= before.load_vec(k, n)->0.vecs);
                true
            },
        }
    }

    fn copy_bytes(&mut self) -> (done: bool)
        requires
            old(self)@.wf(),
        ensures
            final(self)@.wf(),
            match old(self)@.copy_bytes() {
                Some(next) => done && final(self)@ == next,
                None => !done && final(self)@ == old(self)@,
            },
    {
        let abi = self.abi;
        let count = self.get(Reg::Cx);
        let from = self.get(Reg::Si);
        let to = self.get(Reg::Di);
        let (whole, n) = match abi {
            Abi::SysV64 => (count % 8 == 0, count / 8),
            Abi::ThisCall32 => (count % 4 == 0, count / 4),
        };
        let s = match self.slot_index(from) {
            Some(s) => s,
            None => {
                return false;
            },
        };
        let d = match self.slot_index(to) {
            Some(d) => d,
            None => {
                return false;
            },
        };
        let len = self.stack.len();
        if !(whole && n <= (len - s) as u64 && n <= (len - d) as u64) {
            return false;
        }
        let n = n as usize;
        if !(d + n <= s || s + n <= d) {
            return false;
        }
        let ghost before = self@;
        let mut t: usize = 0;
        assert(self.stack@ =~= Seq::new(
            before.stack.len(),
            |j: int|
                if d <= j < d + t {
                    before.stack[s + (j - d)]
                } else {
                    before.stack[j]
                },
        ));
        while t < n
            invariant
                t <= n,
                s + n <= len,
                d + n <= len,
                d + n <= s || s + n <= d,
                len == before.stack.len(),
                before.wf(),
                before.abi == abi,
                self.abi == abi,
                self.sp == before.sp,
                self.target == before.target,
                self.regs@ == before.regs,
                self.vecs@ == before.vecs,
                self.stack@ == Seq::new(
                    before.stack.len(),
                    |j: int|
                        if d <= j < d + t {
                            before.stack[s + (j - d)]
                        } else {
                            before.stack[j]
                        },
                ),
            decreases n - t,
        {
            let value = self.stack[s + t];
            self.stack.set(d + t, value);
            t = t + 1;
            assert(self.stack@ =~= Seq::new(
                before.stack.len(),
                |j: int|
                    if d <= j < d + t {
                        before.stack[s + (j - d)]
                    } else {
                        before.stack[j]
                    },
            ));
        }
        self.regs.set(2, 0);
        self.regs.set(4, add_wrapped(abi, from, count));
        self.regs.set(5, add_wrapped(abi, to, count));
        assert(self@.stack =~= before.copy_bytes()->0.stack);
        true
    }

    /// An instruction that moves the stack pointer and nothing else.
    fn move_stack_pointer(&mut self, instr: Instr) -> (done: bool)
        requires
            old(self)@.wf(),
            operands_exist(old(self)@.abi, instr),
            instr is SubSp || instr is AddSp || instr is AddSpReg || instr is SubSpReg
                || instr is AlignSp || instr is MovToSp,
        ensures
            final(self)@.wf(),
            match old(self)@.carry_out(instr) {
                Some(next) => done && final(self)@ == next,
                None => !done && final(self)@ == old(self)@,
            },
    {
        let abi = self.abi;
        match instr {
            Instr::SubSp(n) => {
                if !abi.reaches(n) {
                    return false;
                }
                self.set_sp(sub_wrapped(abi, self.sp, n));
                true
            },
            Instr::AddSp(n) => {
                if !abi.reaches(n) {
                    return false;
                }
                self.set_sp(add_wrapped(abi, self.sp, n));
                true
            },
            Instr::AddSpReg(r) => {
                self.set_sp(add_wrapped(abi, self.sp, self.get(r)));
                true
            },
            Instr::SubSpReg(r) => {
                self.set_sp(sub_wrapped(abi, self.sp, self.get(r)));
                true
            },
            Instr::AlignSp => {
                self.set_sp(self.sp - self.sp % 16);
                true
            },
            Instr::MovToSp(r) => {
                self.set_sp(self.get(r));
                true
            },
            _ => false,
        }
    }

    /// An instruction that computes a register from registers.
    fn compute_register(&mut self, instr: Instr) -> (done: bool)
        requires
            old(self)@.wf(),
            operands_exist(old(self)@.abi, instr),
            instr is MovFromSp || instr is SubRegSp || instr is SubReg || instr is MovImm
                || instr is Lea || instr is LoadTarget,
        ensures
            final(self)@.wf(),
            match old(self)@.carry_out(instr) {
                Some(next) => done && final(self)@ == next,
                None => !done && final(self)@ == old(self)@,
            },
    {
        let abi = self.abi;
        match instr {
            Instr::MovFromSp(r) => {
                self.set(r, self.sp);
                true
            },
            Instr::SubRegSp(r) => {
                self.set(r, sub_wrapped(abi, self.get(r), self.sp));
                true
            },
            Instr::SubReg(a, b) => {
                self.set(a, sub_wrapped(abi, self.get(a), self.get(b)));
                true
            },
            Instr::MovImm(r, n) => {
                if !abi.reaches(n) {
                    return false;
                }
                self.set(r, n);
                true
            },
            Instr::Lea(r, n) => {
                if !abi.reaches(n) {
                    return false;
                }
                self.set(r, add_wrapped(abi, self.sp, n));
                true
            },
            Instr::LoadTarget(r) => {
                self.set(r, self.target);
                true
            },
            _ => false,
        }
    }

    /// An instruction that reads or writes the stack.
    fn access_stack(&mut self, instr: Instr) -> (done: bool)
        requires
            old(self)@.wf(),
            operands_exist(old(self)@.abi, instr),
            instr is Push || instr is Pop || instr is Load || instr is Store || instr is StoreAt
                || instr is StoreVec || instr is LoadVec || instr is CopyBytes,
        ensures
            final(self)@.wf(),
            match old(self)@.carry_out(instr) {
                Some(next) => done && final(self)@ == next,
                None => !done && final(self)@ == old(self)@,
            },
    {
        match instr {
            Instr::Push(r) => self.push(r),
            Instr::Pop(r) => self.pop(r),
            Instr::Load(r, n) => self.load(r, n),
            Instr::Store(n, r) => self.store(n, r),
            Instr::StoreAt(a, b) => self.store_at(a, b),
            Instr::StoreVec(n, k) => self.store_vector(n, k),
            Instr::LoadVec(k, n) => self.load_vector(k, n),
            Instr::CopyBytes => self.copy_bytes(),
            _ => false,
        }
    }

    /// Carries out one instruction that neither calls nor leaves. Where the
    /// instruction cannot be carried out, nothing changes and `false` comes
    /// back.
    pub fn step(&mut self, instr: Instr) -> (done: bool)
        requires
            old(self)@.wf(),
        ensures
            final(self)@.wf(),
            match old(self)@.step(instr) {
                Some(next) => done && final(self)@ == next,
                None => !done && final(self)@ == old(self)@,
            },
    {
        proof {
            reveal(MachineView::step);
        }
        if !has_operands(self.abi, instr) {
            return false;
        }
        match instr {
            Instr::SubSp(_)
            | Instr::AddSp(_)
            | Instr::AddSpReg(_)
            | Instr::SubSpReg(_)
            | Instr::AlignSp
            | Instr::MovToSp(_) => self.move_stack_pointer(instr),
            Instr::MovFromSp(_)
            | Instr::SubRegSp(_)
            | Instr::SubReg(_, _)
            | Instr::MovImm(_, _)
            | Instr::Lea(_, _)
            | Instr::LoadTarget(_) => self.compute_register(instr),
            Instr::Push(_)
            | Instr::Pop(_)
            | Instr::Load(_, _)
            | Instr::Store(_, _)
            | Instr::StoreAt(_, _)
            | Instr::StoreVec(_, _)
            | Instr::LoadVec(_, _)
            | Instr::CopyBytes => self.access_stack(instr),
            Instr::Call(_) | Instr::JumpReg(_) | Instr::Ret => false,
        }
    }

    /// Applies what a called function did. Where the call cannot be carried
    /// out, nothing changes and `false` comes back.
    pub fn call(&mut self, effect: CallEffect) -> (done: bool)
        requires
            old(self)@.wf(),
        ensures
            final(self)@.wf(),
            match old(self)@.call(effect) {
                Some(next) => done && final(self)@ == next,
                None => !done && final(self)@ == old(self)@,
            },
    {
        let abi = self.abi;
        let w = abi.word_bytes();
        if self.sp < w {
            return false;
        }
        if self.slot_index(self.sp - w).is_none() {
            return false;
        }
        let whole = match abi {
            Abi::SysV64 => effect.consumed % 8 == 0,
            Abi::ThisCall32 => effect.consumed % 4 == 0,
        };
        if !(whole && abi.reaches(effect.result) && abi.reaches(effect.junk)) {
            return false;
        }
        if effect.consumed > u64::MAX - self.sp {
            return false;
        }
        let top = self.sp + effect.consumed;
        let limit = top / w;
        if !(limit <= self.stack.len() as u64 && abi.reaches(top)) {
            return false;
        }
        let limit = limit as usize;
        let ghost before = self@;
        let ghost next = before.call(effect)->0;
        assert(before.call(effect) is Some);
        let mut regs: Vec<u64> = Vec::new();
        regs.push(effect.result);
        assert(regs@ =~= next.regs.take(1));
        let total = self.regs.len();
        while regs.len() < total
            invariant
                1 <= regs@.len() <= total,
                total == before.regs.len(),
                self@ == before,
                before.wf(),
                abi == before.abi,
                before.call(effect) == Some(next),
                regs@ == next.regs.take(regs@.len() as int),
            decreases total - regs@.len(),
        {
            let r = regs.len();
            if is_callee_saved(abi, r) {
                regs.push(self.regs[r]);
            } else {
                regs.push(effect.junk);
            }
            assert(regs@ =~= next.regs.take(regs@.len() as int));
        }
        assert(next.regs.take(total as int) =~= next.regs);
        let mut j: usize = 0;
        assert(self.stack@ =~= Seq::new(
            before.stack.len(),
            |i: int|
                if i < j {
                    effect.junk
                } else {
                    before.stack[i]
                },
        ));
        while j < limit
            invariant
                j <= limit <= self.stack@.len(),
                self.stack@ == Seq::new(
                    before.stack.len(),
                    |i: int|
                        if i < j {
                            effect.junk
                        } else {
                            before.stack[i]
                        },
                ),
                self.abi == before.abi,
                self.sp == before.sp,
                self.target == before.target,
                self.vecs@ == before.vecs,
            decreases limit - j,
        {
            self.stack.set(j, effect.junk);
            j = j + 1;
            assert(self.stack@ =~= Seq::new(
                before.stack.len(),
                |i: int|
                    if i < j {
                        effect.junk
                    } else {
                        before.stack[i]
                    },
            ));
        }
        self.regs = regs;
        self.vecs = filled(self.vecs.len(), effect.junk);
        self.sp = top;
        assert(self@.stack =~= next.stack);
        assert(self@.vecs =~= next.vecs);
        true
    }

    /// Runs `program` from its first instruction, applying `effects` to the
    /// calls in the order in which they are made, and reports how the run
    /// went.
    pub fn run(&mut self, program: &Vec<Instr>, effects: &Vec<CallEffect>) -> (report: Report)
        requires
            old(self)@.wf(),
        ensures
            final(self)@.wf(),
            final(self)@ == old(self)@.run(program@, effects@).machine,
            report.tells(old(self)@.run(program@, effects@)),
    {
        let mut calls: Vec<Callee> = Vec::new();
        let mut seen: Vec<Machine> = Vec::new();
        let ghost mut noted: Seq<(Callee, MachineView)> = Seq::empty();
        let mut pc: usize = 0;
        let mut used: usize = 0;
        assert(program@.skip(0) =~= program@ && effects@.skip(0) =~= effects@);
        assert(noted + self@.run(program@, effects@).calls =~= self@.run(
            program@,
            effects@,
        ).calls);
        while pc < program.len()
            invariant
                pc <= program@.len(),
                used <= effects@.len(),
                self@.wf(),
                calls@.len() == noted.len(),
                seen@.len() == noted.len(),
                forall|i: int|
                    0 <= i < noted.len() ==> calls@[i] == (#[trigger] noted[i]).0 && seen@[i]@
                        == noted[i].1,
                old(self)@.run(program@, effects@) == prefixed(
                    noted,
                    self@.run(program@.skip(pc as int), effects@.skip(used as int)),
                ),
            decreases program@.len() - pc,
        {
            let ghost rest = program@.skip(pc as int);
            let ghost left = effects@.skip(used as int);
            let ghost here = self@;
            assert(rest[0] == program@[pc as int]);
            assert(rest.drop_first() =~= program@.skip(pc + 1));
            let instr = program[pc];
            match instr {
                Instr::Ret => {
                    match self.slot_index(self.sp) {
                        Some(i) => {
                            let address = self.stack[i];
                            self.sp = add_wrapped(self.abi, self.sp, self.abi.word_bytes());
                            assert(noted + Seq::<(Callee, MachineView)>::empty() =~= noted);
                            return Report { exit: Exit::Returned(address), calls, seen };
                        },
                        None => {
                            assert(noted + Seq::<(Callee, MachineView)>::empty() =~= noted);
                            return Report { exit: Exit::Fault, calls, seen };
                        },
                    }
                },
                Instr::JumpReg(r) => {
                    assert(noted + Seq::<(Callee, MachineView)>::empty() =~= noted);
                    if !r.on(self.abi) {
                        return Report { exit: Exit::Fault, calls, seen };
                    }
                    let address = self.regs[r.index()];
                    return Report { exit: Exit::Jumped(address), calls, seen };
                },
                Instr::Call(callee) => {
                    if used >= effects.len() {
                        assert(noted + Seq::<(Callee, MachineView)>::empty() =~= noted);
                        return Report { exit: Exit::Stalled, calls, seen };
                    }
                    assert(left[0] == effects@[used as int]);
                    assert(left.drop_first() =~= effects@.skip(used + 1));
                    let found = self.snapshot();
                    if !self.call(effects[used]) {
                        assert(noted + Seq::<(Callee, MachineView)>::empty() =~= noted);
                        return Report { exit: Exit::Fault, calls, seen };
                    }
                    calls.push(callee);
                    seen.push(found);
                    proof {
                        let after = self@.run(program@.skip(pc + 1), effects@.skip(used + 1));
                        assert(noted + (seq![(callee, here)] + after.calls) =~= noted.push(
                            (callee, here),
                        ) + after.calls);
                        noted = noted.push((callee, here));
                    }
                    used = used + 1;
                },
                _ => {
                    if !self.step(instr) {
                        assert(noted + Seq::<(Callee, MachineView)>::empty() =~= noted);
                        return Report { exit: Exit::Fault, calls, seen };
                    }
                },
            }
            pc = pc + 1;
        }
        assert(noted + Seq::<(Callee, MachineView)>::empty() =~= noted);
        Report { exit: Exit::Stalled, calls, seen }
    }

    /// The convention that the machine runs under.
    pub fn abi(&self) -> (abi: Abi)
        ensures
            abi == self@.abi,
    {
        self.abi
    }

    /// The stack pointer.
    pub fn stack_pointer(&self) -> (sp: u64)
        ensures
            sp == self@.sp,
    {
        self.sp
    }

    /// The address of the original function.
    pub fn target(&self) -> (target: u64)
        ensures
            target == self@.target,
    {
        self.target
    }

    /// The number of slots of the stack.
    pub fn slots(&self) -> (n: usize)
        ensures
            n == self@.stack.len(),
    {
        self.stack.len()
    }

    /// What register `r` holds; `None` where the machine has no such
    /// register.
    pub fn register(&self, r: Reg) -> (value: Option<u64>)
        requires
            self@.wf(),
        ensures
            value == (if r.on(self@.abi) {
                Some(self@.reg(r))
            } else {
                None
            }),
    {
        if r.on(self.abi) {
            Some(self.get(r))
        } else {
            None
        }
    }

    /// What lane `l` of vector register `k` holds; `None` where there is no
    /// such lane.
    pub fn vector_lane(&self, k: u8, l: usize) -> (value: Option<u64>)
        requires
            self@.wf(),
        ensures
            value == (if k < 8 && l < lanes(self@.abi) {
                Some(self@.vecs[lane(self@.abi, k as int, l as int)])
            } else {
                None
            }),
    {
        if k < 8 && l < lane_count(self.abi) {
            Some(self.vecs[lane_index(self.abi, k, l)])
        } else {
            None
        }
    }

    /// What the slot at `address` holds; `None` where there is no slot at
    /// that address.
    pub fn peek(&self, address: u64) -> (value: Option<u64>)
        requires
            self@.wf(),
        ensures
            value == (match self@.slot(address) {
                Some(i) => Some(self@.stack[i]),
                None => None,
            }),
    {
        match self.slot_index(address) {
            Some(i) => Some(self.stack[i]),
            None => None,
        }
    }

    /// Puts `value` into register `r`. Refuses a value wider than a word,
    /// and a register that the machine does not have.
    pub fn set_register(&mut self, r: Reg, value: u64) -> (done: bool)
        requires
            old(self)@.wf(),
        ensures
            final(self)@.wf(),
            done == (value < old(self)@.abi.modulus() && r.on(old(self)@.abi)),
            done ==> final(self)@ == old(self)@.with_reg(r, value),
            !done ==> final(self)@ == old(self)@,
    {
        if !(self.abi.reaches(value) && r.on(self.abi)) {
            return false;
        }
        self.set(r, value);
        true
    }

    /// Puts `value` into lane `l` of vector register `k`. Refuses a value
    /// wider than a word, and a lane that is not there.
    pub fn set_vector_lane(&mut self, k: u8, l: usize, value: u64) -> (done: bool)
        requires
            old(self)@.wf(),
        ensures
            final(self)@.wf(),
            done == (value < old(self)@.abi.modulus() && k < 8 && l < lanes(old(self)@.abi)),
            done ==> final(self)@ == (MachineView {
                vecs: old(self)@.vecs.update(lane(old(self)@.abi, k as int, l as int), value),
                ..old(self)@
            }),
            !done ==> final(self)@ == old(self)@,
    {
        if !(self.abi.reaches(value) && k < 8 && l < lane_count(self.abi)) {
            return false;
        }
        let i = lane_index(self.abi, k, l);
        self.vecs.set(i, value);
        true
    }

    /// Puts the stack pointer at `sp`. Refuses an address wider than a word.
    pub fn set_stack_pointer(&mut self, sp: u64) -> (done: bool)
        requires
            old(self)@.wf(),
        ensures
            final(self)@.wf(),
            done == (sp < old(self)@.abi.modulus()),
            done ==> final(self)@ == old(self)@.with_sp(sp),
            !done ==> final(self)@ == old(self)@,
    {
        if !self.abi.reaches(sp) {
            return false;
        }
        self.set_sp(sp);
        true
    }

    /// Puts `value` into the slot at `address`. Refuses a value wider than a
    /// word, and an address at which there is no slot.
    pub fn poke(&mut self, address: u64, value: u64) -> (done: bool)
        requires
            old(self)@.wf(),
        ensures
            final(self)@.wf(),
            done == (value < old(self)@.abi.modulus() && old(self)@.slot(address) is Some),
            done ==> final(self)@ == old(self)@.with_slot(old(self)@.slot(address)->0, value),
            !done ==> final(self)@ == old(self)@,
    {
        if !self.abi.reaches(value) {
            return false;
        }
        match self.slot_index(address) {
            Some(i) => {
                self.set_slot(i, value);
                true
            },
            None => false,
        }
    }

    /// A copy of the machine as it stands.
    pub fn snapshot(&self) -> (copy: Machine)
        ensures
            copy@ == self@,
    {
        Machine {
            abi: self.abi,
            regs: copied(&self.regs),
            vecs: copied(&self.vecs),
            sp: self.sp,
            stack: copied(&self.stack),
            target: self.target,
        }
    }
}

} // verus!
