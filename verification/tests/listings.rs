use rtil_hook::arch::{Abi, HookKind};
use rtil_hook::assembly::{listing, mnemonic};
use rtil_hook::machine::{Callee, Instr, Reg};
use rtil_hook::trampoline::interceptor;

fn lines(text: &str) -> Vec<String> {
    text.lines()
        .map(|line| line.trim().to_string())
        .filter(|line| !line.is_empty())
        .collect()
}

fn joined(blocks: &[&str]) -> Vec<String> {
    blocks.iter().flat_map(|block| lines(block)).collect()
}

const PUSHALL_64: &str = "
    push rax
    push rbx
    push rcx
    push rdx
    push rsi
    push rdi
    push rbp
    push r8
    push r9
    push r10
    push r11
    sub rsp, 0x80
    movdqu [rsp+0x70], xmm0
    movdqu [rsp+0x60], xmm1
    movdqu [rsp+0x50], xmm2
    movdqu [rsp+0x40], xmm3
    movdqu [rsp+0x30], xmm4
    movdqu [rsp+0x20], xmm5
    movdqu [rsp+0x10], xmm6
    movdqu [rsp], xmm7
";

const POPALL_64: &str = "
    movdqu xmm7, [rsp]
    movdqu xmm6, [rsp+0x10]
    movdqu xmm5, [rsp+0x20]
    movdqu xmm4, [rsp+0x30]
    movdqu xmm3, [rsp+0x40]
    movdqu xmm2, [rsp+0x50]
    movdqu xmm1, [rsp+0x60]
    movdqu xmm0, [rsp+0x70]
    add rsp, 0x80
    pop r11
    pop r10
    pop r9
    pop r8
    pop rbp
    pop rdi
    pop rsi
    pop rdx
    pop rcx
    pop rbx
    pop rax
";

const ALIGN_PRE: &str = "
    push rbp
    mov rbp, rsp
    and rsp, 0xfffffffffffffff0
";

const ALIGN_POST: &str = "
    mov rsp, rbp
    pop rbp
";

const PUSHALL_32: &str = "
    push eax
    push ebx
    push ecx
    push edx
    push esi
    push edi
    push ebp
    sub esp, 0x80
    movdqu [esp+0x70], xmm0
    movdqu [esp+0x60], xmm1
    movdqu [esp+0x50], xmm2
    movdqu [esp+0x40], xmm3
    movdqu [esp+0x30], xmm4
    movdqu [esp+0x20], xmm5
    movdqu [esp+0x10], xmm6
    movdqu [esp], xmm7
";

const POPALL_32: &str = "
    movdqu xmm7, [esp]
    movdqu xmm6, [esp+0x10]
    movdqu xmm5, [esp+0x20]
    movdqu xmm4, [esp+0x30]
    movdqu xmm3, [esp+0x40]
    movdqu xmm2, [esp+0x50]
    movdqu xmm1, [esp+0x60]
    movdqu xmm0, [esp+0x70]
    add esp, 0x80
    pop ebp
    pop edi
    pop esi
    pop edx
    pop ecx
    pop ebx
    pop eax
";

const COPY_FRAME: &str = "
    sub esp, 0x100
    mov ecx, 0x100
    lea esi, [esp + 0x100]
    mov edi, esp
    rep movsb
";

const RESTORE_STACK: &str = "
    add esp, 0x60
    add esp, ebx
";

const MOVE_RETURN: &str = "
    mov eax, [esp + 0x9c]
    lea edx, [esp + 0x9c]
    sub edx, ebx
    mov [edx], eax
";

fn text(abi: Abi, kind: HookKind) -> Vec<String> {
    listing(abi, &interceptor(abi, kind)).unwrap()
}

#[test]
fn the_once_listing_for_64_bits() {
    let expected = joined(&[
        PUSHALL_64,
        ALIGN_PRE,
        "call {callback}",
        "call {unhook}",
        ALIGN_POST,
        POPALL_64,
        "mov rax, [rip+{target}]",
        "jmp rax",
    ]);
    assert_eq!(text(Abi::SysV64, HookKind::Once), expected);
}

#[test]
fn the_before_listing_for_64_bits() {
    let expected = joined(&[
        PUSHALL_64,
        ALIGN_PRE,
        "call {callback}",
        "call {unhook}",
        ALIGN_POST,
        POPALL_64,
        ALIGN_PRE,
        "call [rip+{target}]",
        ALIGN_POST,
        "push rax",
        ALIGN_PRE,
        "call {rehook}",
        ALIGN_POST,
        "pop rax",
        "ret",
    ]);
    assert_eq!(text(Abi::SysV64, HookKind::Before), expected);
}

#[test]
fn the_after_listing_for_64_bits() {
    let expected = joined(&[
        PUSHALL_64,
        ALIGN_PRE,
        "call {unhook}",
        ALIGN_POST,
        POPALL_64,
        ALIGN_PRE,
        "call [rip+{target}]",
        ALIGN_POST,
        "push rax",
        ALIGN_PRE,
        "call {rehook}",
        "call {callback}",
        ALIGN_POST,
        "pop rax",
        "ret",
    ]);
    assert_eq!(text(Abi::SysV64, HookKind::After), expected);
}

#[test]
fn the_once_listing_for_32_bits() {
    let expected = joined(&[
        PUSHALL_32,
        "call {callback}",
        "call {unhook}",
        POPALL_32,
        "mov eax, [{target}]",
        "jmp eax",
    ]);
    assert_eq!(text(Abi::ThisCall32, HookKind::Once), expected);
}

#[test]
fn the_before_listing_for_32_bits() {
    let expected = joined(&[
        PUSHALL_32,
        COPY_FRAME,
        POPALL_32,
        "pop eax",
        "mov ebx, esp",
        "call {callback}",
        "sub ebx, esp",
        "call {unhook}",
        RESTORE_STACK,
        COPY_FRAME,
        POPALL_32,
        "pop eax",
        "mov ebx, esp",
        "call [{target}]",
        "sub ebx, esp",
        RESTORE_STACK,
        "mov [esp + 0x98], eax",
        "mov [esp + 0x90], ebx",
        MOVE_RETURN,
        "call {rehook}",
        POPALL_32,
        "sub esp, ecx",
        "ret",
    ]);
    assert_eq!(text(Abi::ThisCall32, HookKind::Before), expected);
}

#[test]
fn the_after_listing_for_32_bits() {
    let expected = joined(&[
        PUSHALL_32,
        "call {unhook}",
        COPY_FRAME,
        POPALL_32,
        "pop eax",
        "mov ebx, esp",
        "call [{target}]",
        "sub ebx, esp",
        RESTORE_STACK,
        "mov [esp + 0x98], eax",
        "mov [esp + 0x8c], ebx",
        "call {rehook}",
        COPY_FRAME,
        POPALL_32,
        "pop eax",
        "mov ebx, esp",
        "call {callback}",
        "sub ebx, esp",
        RESTORE_STACK,
        "mov ebx, [esp + 0x8c]",
        MOVE_RETURN,
        POPALL_32,
        "sub esp, edx",
        "ret",
    ]);
    assert_eq!(text(Abi::ThisCall32, HookKind::After), expected);
}

#[test]
fn numbers_are_written_in_hexadecimal() {
    let line = |instr| mnemonic(Abi::SysV64, instr).unwrap();
    assert_eq!(line(Instr::SubSp(0)), "sub rsp, 0x0");
    assert_eq!(line(Instr::AddSp(9)), "add rsp, 0x9");
    assert_eq!(line(Instr::AddSp(10)), "add rsp, 0xa");
    assert_eq!(line(Instr::AddSp(255)), "add rsp, 0xff");
    assert_eq!(line(Instr::MovImm(Reg::R9, 0x1234_5678_9abc_def0)), "mov r9, 0x123456789abcdef0");
    assert_eq!(line(Instr::MovImm(Reg::Ax, u64::MAX)), "mov rax, 0xffffffffffffffff");
    assert_eq!(line(Instr::Lea(Reg::Si, 0x100)), "lea rsi, [rsp + 0x100]");
    assert_eq!(line(Instr::Store(0x10, Reg::R11)), "mov [rsp + 0x10], r11");
    assert_eq!(line(Instr::StoreVec(0, 7)), "movdqu [rsp], xmm7");
    assert_eq!(line(Instr::LoadVec(0, 0x70)), "movdqu xmm0, [rsp+0x70]");
}

#[test]
fn every_instruction_has_its_line() {
    let line = |instr| mnemonic(Abi::ThisCall32, instr).unwrap();
    assert_eq!(line(Instr::Push(Reg::Bp)), "push ebp");
    assert_eq!(line(Instr::Pop(Reg::Di)), "pop edi");
    assert_eq!(line(Instr::AddSpReg(Reg::Bx)), "add esp, ebx");
    assert_eq!(line(Instr::SubSpReg(Reg::Cx)), "sub esp, ecx");
    assert_eq!(line(Instr::AlignSp), "and esp, 0xfffffff0");
    assert_eq!(line(Instr::MovFromSp(Reg::Bx)), "mov ebx, esp");
    assert_eq!(line(Instr::MovToSp(Reg::Bp)), "mov esp, ebp");
    assert_eq!(line(Instr::SubRegSp(Reg::Bx)), "sub ebx, esp");
    assert_eq!(line(Instr::SubReg(Reg::Dx, Reg::Bx)), "sub edx, ebx");
    assert_eq!(line(Instr::Load(Reg::Ax, 0x9c)), "mov eax, [esp + 0x9c]");
    assert_eq!(line(Instr::StoreAt(Reg::Dx, Reg::Ax)), "mov [edx], eax");
    assert_eq!(line(Instr::CopyBytes), "rep movsb");
    assert_eq!(line(Instr::LoadTarget(Reg::Ax)), "mov eax, [{target}]");
    assert_eq!(line(Instr::Call(Callee::Rehook)), "call {rehook}");
    assert_eq!(line(Instr::Call(Callee::Original)), "call [{target}]");
    assert_eq!(line(Instr::JumpReg(Reg::Ax)), "jmp eax");
    assert_eq!(line(Instr::Ret), "ret");
}

#[test]
fn what_the_convention_does_not_have_is_not_written() {
    assert_eq!(mnemonic(Abi::ThisCall32, Instr::Push(Reg::R8)), None);
    assert_eq!(mnemonic(Abi::ThisCall32, Instr::SubReg(Reg::Ax, Reg::R11)), None);
    assert_eq!(mnemonic(Abi::SysV64, Instr::StoreVec(0, 8)), None);
    assert_eq!(mnemonic(Abi::SysV64, Instr::LoadVec(9, 0)), None);
    assert!(mnemonic(Abi::SysV64, Instr::Push(Reg::R8)).is_some());
    assert_eq!(
        listing(Abi::ThisCall32, &interceptor(Abi::SysV64, HookKind::Once)),
        None
    );
    assert_eq!(listing(Abi::SysV64, &vec![]), Some(vec![]));
}
