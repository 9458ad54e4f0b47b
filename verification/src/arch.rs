//! The calling conventions that hooks are built for, and the kinds of hook.

use vstd::prelude::*;

verus! {

/// Length in bytes of the jump that replaces the entry of a 64-bit target.
pub const PATCH_LEN_SYSV64: usize = 12;

/// Length in bytes of the jump that replaces the entry of a 32-bit target.
pub const PATCH_LEN_THISCALL32: usize = 7;

/// Bytes that the interceptor needs to save the eleven general registers and
/// the eight vector registers of a 64-bit caller.
pub const SAVE_AREA_SYSV64: u64 = 0xd8;

/// Bytes that the interceptor needs to save the seven general registers and
/// the eight vector registers of a 32-bit caller.
pub const SAVE_AREA_THISCALL32: u64 = 0x9c;

/// A calling convention together with the architecture it lives on.
#[derive(Clone, Copy, Debug, PartialEq, Eq, Structural)]
pub enum Abi {
    /// 64-bit code whose arguments travel in registers.
    SysV64,
    /// 32-bit code that takes `this` in a register and every other argument
    /// on the stack, below the return address; the callee removes them.
    ThisCall32,
}

/// When the user callback runs relative to the original function.
#[derive(Clone, Copy, Debug, PartialEq, Eq, Structural)]
pub enum HookKind {
    /// The callback runs on the first call only; the hook then removes itself.
    Once,
    /// The callback runs before the original function, on every call.
    Before,
    /// The callback runs after the original function, on every call.
    After,
}

impl Abi {
    /// Width of a register, an address and a stack slot, in bytes.
    pub open spec fn word_bytes_spec(self) -> nat {
        match self {
            Abi::SysV64 => 8,
            Abi::ThisCall32 => 4,
        }
    }

    /// Width of a register, an address and a stack slot, in bytes.
    pub fn word_bytes(self) -> (n: u64)
        ensures
            n == self.word_bytes_spec(),
    {
        match self {
            Abi::SysV64 => 8,
            Abi::ThisCall32 => 4,
        }
    }

    /// One more than the largest value a register can hold.
    pub open spec fn modulus(self) -> int {
        match self {
            Abi::SysV64 => 0x1_0000_0000_0000_0000,
            Abi::ThisCall32 => 0x1_0000_0000,
        }
    }

    /// Number of bytes that a jump patch overwrites.
    pub open spec fn patch_len_spec(self) -> nat {
        match self {
            Abi::SysV64 => 12,
            Abi::ThisCall32 => 7,
        }
    }

    /// Number of bytes that a jump patch overwrites.
    pub fn patch_len(self) -> (n: usize)
        ensures
            n == self.patch_len_spec(),
    {
        match self {
            Abi::SysV64 => PATCH_LEN_SYSV64,
            Abi::ThisCall32 => PATCH_LEN_THISCALL32,
        }
    }

    /// Whether `address` can be held in a register of this architecture.
    pub open spec fn reaches_spec(self, address: u64) -> bool {
        address < self.modulus()
    }

    /// Whether `address` can be held in a register of this architecture.
    #[verifier::when_used_as_spec(reaches_spec)]
    pub fn reaches(self, address: u64) -> (yes: bool)
        ensures
            yes == self.reaches_spec(address),
    {
        match self {
            Abi::SysV64 => true,
            Abi::ThisCall32 => address <= 0xffff_ffff,
        }
    }

    /// Bytes of stack that hold the saved registers: eight vector registers
    /// of sixteen bytes, then the general registers, eleven of eight bytes
    /// or seven of four.
    pub open spec fn save_area_spec(self) -> nat {
        match self {
            Abi::SysV64 => 0xd8,
            Abi::ThisCall32 => 0x9c,
        }
    }

    /// Bytes of stack that hold the saved registers.
    pub fn save_area(self) -> (n: u64)
        ensures
            n == self.save_area_spec(),
    {
        match self {
            Abi::SysV64 => SAVE_AREA_SYSV64,
            Abi::ThisCall32 => SAVE_AREA_THISCALL32,
        }
    }

    /// The name under which the Rust compiler knows this convention.
    pub fn abi_name(self) -> (name: &'static str)
        ensures
            name@ == (match self {
                Abi::SysV64 => "C"@,
                Abi::ThisCall32 => "thiscall"@,
            }),
    {
        match self {
            Abi::SysV64 => "C",
            Abi::ThisCall32 => "thiscall",
        }
    }
}

} // verus!
