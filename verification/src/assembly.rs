//! The interceptors as assembler text, Intel syntax: what stands in the body
//! of the function that a hook jumps to.
//!
//! The functions around an interceptor appear as operands in braces, to be
//! bound to symbols where the text is assembled: `{callback}`, `{unhook}`
//! and `{rehook}` are functions, `{target}` is the variable that holds the
//! address of the original function.

use crate::arch::Abi;
use crate::machine::{has_operands, operands_exist, Callee, Instr, Reg};
use vstd::prelude::*;
use vstd::string::*;

verus! {

/// One hexadecimal digit.
pub open spec fn digit(d: int) -> Seq<char> {
    if d == 0 {
        "0"@
    } else if d == 1 {
        "1"@
    } else if d == 2 {
        "2"@
    } else if d == 3 {
        "3"@
    } else if d == 4 {
        "4"@
    } else if d == 5 {
        "5"@
    } else if d == 6 {
        "6"@
    } else if d == 7 {
        "7"@
    } else if d == 8 {
        "8"@
    } else if d == 9 {
        "9"@
    } else if d == 10 {
        "a"@
    } else if d == 11 {
        "b"@
    } else if d == 12 {
        "c"@
    } else if d == 13 {
        "d"@
    } else if d == 14 {
        "e"@
    } else {
        "f"@
    }
}

/// The hexadecimal digits of `n`, without leading zeros.
pub open spec fn hex_digits(n: nat) -> Seq<char>
    decreases n,
{
    if n < 16 {
        digit(n as int)
    } else {
        hex_digits(n / 16) + digit((n % 16) as int)
    }
}

/// `n` as a hexadecimal number.
pub open spec fn hex(n: u64) -> Seq<char> {
    "0x"@ + hex_digits(n as nat)
}

/// The name of a general register.
pub open spec fn register_name(abi: Abi, r: Reg) -> Seq<char> {
    match abi {
        Abi::SysV64 => match r {
            Reg::Ax => "rax"@,
            Reg::Bx => "rbx"@,
            Reg::Cx => "rcx"@,
            Reg::Dx => "rdx"@,
            Reg::Si => "rsi"@,
            Reg::Di => "rdi"@,
            Reg::Bp => "rbp"@,
            Reg::R8 => "r8"@,
            Reg::R9 => "r9"@,
            Reg::R10 => "r10"@,
            Reg::R11 => "r11"@,
        },
        Abi::ThisCall32 => match r {
            Reg::Ax => "eax"@,
            Reg::Bx => "ebx"@,
            Reg::Cx => "ecx"@,
            Reg::Dx => "edx"@,
            Reg::Si => "esi"@,
            Reg::Di => "edi"@,
            Reg::Bp => "ebp"@,
            Reg::R8 => "r8d"@,
            Reg::R9 => "r9d"@,
            Reg::R10 => "r10d"@,
            Reg::R11 => "r11d"@,
        },
    }
}

/// The name of the stack pointer.
pub open spec fn stack_pointer_name(abi: Abi) -> Seq<char> {
    match abi {
        Abi::SysV64 => "rsp"@,
        Abi::ThisCall32 => "esp"@,
    }
}

/// The operand of a call.
pub open spec fn call_operand(abi: Abi, callee: Callee) -> Seq<char> {
    match callee {
        Callee::Callback => "{callback}"@,
        Callee::Unhook => "{unhook}"@,
        Callee::Rehook => "{rehook}"@,
        Callee::Original => target_operand(abi),
    }
}

/// The place in memory that holds the address of the original function.
pub open spec fn target_operand(abi: Abi) -> Seq<char> {
    match abi {
        Abi::SysV64 => "[rip+{target}]"@,
        Abi::ThisCall32 => "[{target}]"@,
    }
}

/// The mask that rounds the stack pointer down to a multiple of sixteen.
pub open spec fn align_mask(abi: Abi) -> Seq<char> {
    match abi {
        Abi::SysV64 => "0xfffffffffffffff0"@,
        Abi::ThisCall32 => "0xfffffff0"@,
    }
}

/// An instruction with one operand.
pub open spec fn unary(op: Seq<char>, a: Seq<char>) -> Seq<char> {
    op + " "@ + a
}

/// An instruction with two operands.
pub open spec fn binary(op: Seq<char>, a: Seq<char>, b: Seq<char>) -> Seq<char> {
    op + " "@ + a + ", "@ + b
}

/// The memory at `n` bytes above the address in `base`.
pub open spec fn above(base: Seq<char>, n: u64) -> Seq<char> {
    "["@ + base + " + "@ + hex(n) + "]"@
}

/// The sixteen bytes of memory at `n` bytes above the address in `base`.
pub open spec fn vector_above(base: Seq<char>, n: u64) -> Seq<char> {
    if n == 0 {
        "["@ + base + "]"@
    } else {
        "["@ + base + "+"@ + hex(n) + "]"@
    }
}

/// The name of vector register `k`.
pub open spec fn vector_name(k: u8) -> Seq<char> {
    "xmm"@ + digit(k as int)
}

/// Whether `instr` can be written down for the given convention: the
/// registers it names exist, the vector register is one of the eight.
pub open spec fn can_be_written(abi: Abi, instr: Instr) -> bool {
    operands_exist(abi, instr) && match instr {
        Instr::StoreVec(_, k) => k < 8,
        Instr::LoadVec(k, _) => k < 8,
        _ => true,
    }
}

/// One instruction as a line of assembler.
pub open spec fn mnemonic_spec(abi: Abi, instr: Instr) -> Seq<char> {
    let sp = stack_pointer_name(abi);
    match instr {
        Instr::Push(r) => unary("push"@, register_name(abi, r)),
        Instr::Pop(r) => unary("pop"@, register_name(abi, r)),
        Instr::SubSp(n) => binary("sub"@, sp, hex(n)),
        Instr::AddSp(n) => binary("add"@, sp, hex(n)),
        Instr::AddSpReg(r) => binary("add"@, sp, register_name(abi, r)),
        Instr::SubSpReg(r) => binary("sub"@, sp, register_name(abi, r)),
        Instr::AlignSp => binary("and"@, sp, align_mask(abi)),
        Instr::MovFromSp(r) => binary("mov"@, register_name(abi, r), sp),
        Instr::MovToSp(r) => binary("mov"@, sp, register_name(abi, r)),
        Instr::SubRegSp(r) => binary("sub"@, register_name(abi, r), sp),
        Instr::SubReg(a, b) => binary("sub"@, register_name(abi, a), register_name(abi, b)),
        Instr::MovImm(r, n) => binary("mov"@, register_name(abi, r), hex(n)),
        Instr::Lea(r, n) => binary("lea"@, register_name(abi, r), above(sp, n)),
        Instr::Load(r, n) => binary("mov"@, register_name(abi, r), above(sp, n)),
        Instr::Store(n, r) => binary("mov"@, above(sp, n), register_name(abi, r)),
        Instr::StoreAt(a, b) => binary(
            "mov"@,
            "["@ + register_name(abi, a) + "]"@,
            register_name(abi, b),
        ),
        Instr::StoreVec(n, k) => binary("movdqu"@, vector_above(sp, n), vector_name(k)),
        Instr::LoadVec(k, n) => binary("movdqu"@, vector_name(k), vector_above(sp, n)),
        Instr::CopyBytes => "rep movsb"@,
        Instr::LoadTarget(r) => binary("mov"@, register_name(abi, r), target_operand(abi)),
        Instr::Call(callee) => unary("call"@, call_operand(abi, callee)),
        Instr::JumpReg(r) => unary("jmp"@, register_name(abi, r)),
        Instr::Ret => "ret"@,
    }
}

fn digit_text(d: u64) -> (text: &'static str)
    requires
        d < 16,
    ensures
        text@ == digit(d as int),
{
    if d == 0 {
        "0"
    } else if d == 1 {
        "1"
    } else if d == 2 {
        "2"
    } else if d == 3 {
        "3"
    } else if d == 4 {
        "4"
    } else if d == 5 {
        "5"
    } else if d == 6 {
        "6"
    } else if d == 7 {
        "7"
    } else if d == 8 {
        "8"
    } else if d == 9 {
        "9"
    } else if d == 10 {
        "a"
    } else if d == 11 {
        "b"
    } else if d == 12 {
        "c"
    } else if d == 13 {
        "d"
    } else if d == 14 {
        "e"
    } else {
        "f"
    }
}

fn append_hex_digits(out: &mut String, n: u64)
    ensures
        final(out)@ == old(out)@ + hex_digits(n as nat),
    decreases n,
{
    if n >= 16 {
        append_hex_digits(out, n / 16);
    }
    out.append(digit_text(n % 16));
    assert(out@ =~= old(out)@ + hex_digits(n as nat));
}

fn hex_text(n: u64) -> (text: String)
    ensures
        text@ == hex(n),
{
    let mut text = String::from_str("0x");
    append_hex_digits(&mut text, n);
    text
}

fn register_text(abi: Abi, r: Reg) -> (text: &'static str)
    ensures
        text@ == register_name(abi, r),
{
    match abi {
        Abi::SysV64 => match r {
            Reg::Ax => "rax",
            Reg::Bx => "rbx",
            Reg::Cx => "rcx",
            Reg::Dx => "rdx",
            Reg::Si => "rsi",
            Reg::Di => "rdi",
            Reg::Bp => "rbp",
            Reg::R8 => "r8",
            Reg::R9 => "r9",
            Reg::R10 => "r10",
            Reg::R11 => "r11",
        },
        Abi::ThisCall32 => match r {
            Reg::Ax => "eax",
            Reg::Bx => "ebx",
            Reg::Cx => "ecx",
            Reg::Dx => "edx",
            Reg::Si => "esi",
            Reg::Di => "edi",
            Reg::Bp => "ebp",
            Reg::R8 => "r8d",
            Reg::R9 => "r9d",
            Reg::R10 => "r10d",
            Reg::R11 => "r11d",
        },
    }
}

fn stack_pointer_text(abi: Abi) -> (text: &'static str)
    ensures
        text@ == stack_pointer_name(abi),
{
    match abi {
        Abi::SysV64 => "rsp",
        Abi::ThisCall32 => "esp",
    }
}

fn target_text(abi: Abi) -> (text: &'static str)
    ensures
        text@ == target_operand(abi),
{
    match abi {
        Abi::SysV64 => "[rip+{target}]",
        Abi::ThisCall32 => "[{target}]",
    }
}

fn call_text(abi: Abi, callee: Callee) -> (text: &'static str)
    ensures
        text@ == call_operand(abi, callee),
{
    match callee {
        Callee::Callback => "{callback}",
        Callee::Unhook => "{unhook}",
        Callee::Rehook => "{rehook}",
        Callee::Original => target_text(abi),
    }
}

fn align_mask_text(abi: Abi) -> (text: &'static str)
    ensures
        text@ == align_mask(abi),
{
    match abi {
        Abi::SysV64 => "0xfffffffffffffff0",
        Abi::ThisCall32 => "0xfffffff0",
    }
}

fn unary_text(op: &str, a: &str) -> (text: String)
    ensures
        text@ == unary(op@, a@),
{
    let mut text = String::from_str(op);
    text.append(" ");
    text.append(a);
    text
}

fn binary_text(op: &str, a: &str, b: &str) -> (text: String)
    ensures
        text@ == binary(op@, a@, b@),
{
    let mut text = String::from_str(op);
    text.append(" ");
    text.append(a);
    text.append(", ");
    text.append(b);
    text
}

fn above_text(base: &str, n: u64) -> (text: String)
    ensures
        text@ == above(base@, n),
{
    let mut text = String::from_str("[");
    text.append(base);
    text.append(" + ");
    text.append(hex_text(n).as_str());
    text.append("]");
    text
}

fn vector_above_text(base: &str, n: u64) -> (text: String)
    ensures
        text@ == vector_above(base@, n),
{
    let mut text = String::from_str("[");
    text.append(base);
    if n != 0 {
        text.append("+");
        text.append(hex_text(n).as_str());
    }
    text.append("]");
    text
}

fn vector_text(k: u8) -> (text: String)
    requires
        k < 8,
    ensures
        text@ == vector_name(k),
{
    let mut text = String::from_str("xmm");
    text.append(digit_text(k as u64));
    text
}

fn bracketed_text(inner: &str) -> (text: String)
    ensures
        text@ == "["@ + inner@ + "]"@,
{
    let mut text = String::from_str("[");
    text.append(inner);
    text.append("]");
    text
}

fn can_write(abi: Abi, instr: Instr) -> (yes: bool)
    ensures
        yes == can_be_written(abi, instr),
{
    let vector = match instr {
        Instr::StoreVec(_, k) => k < 8,
        Instr::LoadVec(k, _) => k < 8,
        _ => true,
    };
    has_operands(abi, instr) && vector
}

/// One instruction as a line of assembler; `None` where the instruction
/// names a register that the convention does not have.
pub fn mnemonic(abi: Abi, instr: Instr) -> (text: Option<String>)
    ensures
        match text {
            Some(line) => can_be_written(abi, instr) && line@ == mnemonic_spec(abi, instr),
            None => !can_be_written(abi, instr),
        },
{
    if !can_write(abi, instr) {
        return None;
    }
    let sp = stack_pointer_text(abi);
    let line = match instr {
        Instr::Push(r) => unary_text("push", register_text(abi, r)),
        Instr::Pop(r) => unary_text("pop", register_text(abi, r)),
        Instr::SubSp(n) => binary_text("sub", sp, hex_text(n).as_str()),
        Instr::AddSp(n) => binary_text("add", sp, hex_text(n).as_str()),
        Instr::AddSpReg(r) => binary_text("add", sp, register_text(abi, r)),
        Instr::SubSpReg(r) => binary_text("sub", sp, register_text(abi, r)),
        Instr::AlignSp => binary_text("and", sp, align_mask_text(abi)),
        Instr::MovFromSp(r) => binary_text("mov", register_text(abi, r), sp),
        Instr::MovToSp(r) => binary_text("mov", sp, register_text(abi, r)),
        Instr::SubRegSp(r) => binary_text("sub", register_text(abi, r), sp),
        Instr::SubReg(a, b) => binary_text("sub", register_text(abi, a), register_text(abi, b)),
        Instr::MovImm(r, n) => binary_text("mov", register_text(abi, r), hex_text(n).as_str()),
        Instr::Lea(r, n) => binary_text("lea", register_text(abi, r), above_text(sp, n).as_str()),
        Instr::Load(r, n) => binary_text("mov", register_text(abi, r), above_text(sp, n).as_str()),
        Instr::Store(n, r) => binary_text("mov", above_text(sp, n).as_str(), register_text(abi, r)),
        Instr::StoreAt(a, b) => binary_text(
            "mov",
            bracketed_text(register_text(abi, a)).as_str(),
            register_text(abi, b),
        ),
        Instr::StoreVec(n, k) => binary_text(
            "movdqu",
            vector_above_text(sp, n).as_str(),
            vector_text(k).as_str(),
        ),
        Instr::LoadVec(k, n) => binary_text(
            "movdqu",
            vector_text(k).as_str(),
            vector_above_text(sp, n).as_str(),
        ),
        Instr::CopyBytes => String::from_str("rep movsb"),
        Instr::LoadTarget(r) => binary_text("mov", register_text(abi, r), target_text(abi)),
        Instr::Call(callee) => unary_text("call", call_text(abi, callee)),
        Instr::JumpReg(r) => unary_text("jmp", register_text(abi, r)),
        Instr::Ret => String::from_str("ret"),
    };
    Some(line)
}

/// Whether `line` is `instr` written down.
pub open spec fn is_line_of(line: String, abi: Abi, instr: Instr) -> bool {
    can_be_written(abi, instr) && line@ == mnemonic_spec(abi, instr)
}

/// A whole interceptor, line by line; `None` where one of its instructions
/// cannot be written down.
pub fn listing(abi: Abi, program: &Vec<Instr>) -> (lines: Option<Vec<String>>)
    ensures
        match lines {
            Some(lines) => {
                &&& lines@.len() == program@.len()
                &&& forall|i: int|
                    0 <= i < program@.len() ==> is_line_of(#[trigger] lines@[i], abi, program@[i])
            },
            None => exists|i: int|
                0 <= i < program@.len() && !can_be_written(abi, #[trigger] program@[i]),
        },
{
    let mut lines: Vec<String> = Vec::new();
    let mut i: usize = 0;
    while i < program.len()
        invariant
            i <= program@.len(),
            lines@.len() == i,
            forall|j: int| 0 <= j < i ==> is_line_of(#[trigger] lines@[j], abi, program@[j]),
        decreases program@.len() - i,
    {
        match mnemonic(abi, program[i]) {
            Some(line) => {
                let ghost before = lines@;
                lines.push(line);
                assert forall|j: int| 0 <= j < i + 1 implies is_line_of(
                    #[trigger] lines@[j],
                    abi,
                    program@[j],
                ) by {
                    if j < i {
                        assert(lines@[j] == before[j]);
                    }
                }
            },
            None => {
                return None;
            },
        }
        i = i + 1;
    }
    Some(lines)
}

} // verus!
