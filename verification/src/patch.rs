//! The code patcher: the jump that redirects a target function, the region of
//! code it is written over, and the way back.

use crate::arch::Abi;
use crate::endian::{encode_u32, encode_u64, le_bytes, lemma_le_bytes_len};
use vstd::prelude::*;

verus! {

/// Why an operation on a hook did not take place, or why a hooked process
/// stopped. Every one of these is fatal to the hook: the caller is expected
/// to stop the process rather than go on.
#[derive(Clone, Copy, Debug, PartialEq, Eq, Structural)]
pub enum HookError {
    /// The operating system refused to change the protection of the region.
    ProtectionDenied,
    /// The region holds fewer bytes than the operation has to write.
    RegionTooShort,
    /// An address does not fit a register of the architecture.
    AddressOutOfRange,
    /// The region is not writable.
    NotWritable,
    /// The region does not start at the hook's target address.
    WrongRegion,
    /// The hook is installed already.
    AlreadyInstalled,
    /// The hook is not installed, so there is no backup to restore from.
    NotInstalled,
}

/// What the operating system lets a program do with a region of code.
#[derive(Clone, Copy, Debug, PartialEq, Eq, Structural)]
pub enum Protection {
    /// The code can run and cannot be written.
    ExecuteOnly,
    /// The code can be written.
    Writable,
}

/// One thing done to a region of code.
#[derive(Clone, Copy, Debug, PartialEq, Eq, Structural)]
pub enum Access {
    /// The region was made writable.
    MadeWritable,
    /// The region was made executable only.
    MadeExecutable,
    /// Bytes of the region were read.
    Read,
    /// Bytes of the region were written.
    Written,
}

/// The code at the entry of a target function, with its protection.
///
/// `sealed` stands for an operating system that rejects every change of
/// protection on this region. `accesses` keeps, in order, what was done to
/// the region through the functions of this module.
pub struct CodeRegion {
    pub address: u64,
    pub bytes: Vec<u8>,
    pub protection: Protection,
    pub sealed: bool,
    pub accesses: Vec<Access>,
}

/// What a [`CodeRegion`] holds, as contracts speak of it.
pub struct RegionView {
    pub address: u64,
    pub bytes: Seq<u8>,
    pub protection: Protection,
    pub sealed: bool,
    pub accesses: Seq<Access>,
}

impl View for CodeRegion {
    type V = RegionView;

    open spec fn view(&self) -> RegionView {
        RegionView {
            address: self.address,
            bytes: self.bytes@,
            protection: self.protection,
            sealed: self.sealed,
            accesses: self.accesses@,
        }
    }
}

/// The jump to `entry`: load the address into the accumulator, then jump
/// through it.
pub open spec fn jump_patch(abi: Abi, entry: u64) -> Seq<u8> {
    match abi {
        Abi::SysV64 => seq![0x48u8, 0xb8u8] + le_bytes(entry as nat, 8) + seq![0xffu8, 0xe0u8],
        Abi::ThisCall32 => seq![0xb8u8] + le_bytes(entry as nat, 4) + seq![0xffu8, 0xe0u8],
    }
}

/// `code` with its entry replaced by the jump to `entry`.
pub open spec fn patched(code: Seq<u8>, abi: Abi, entry: u64) -> Seq<u8> {
    jump_patch(abi, entry) + code.skip(abi.patch_len_spec() as int)
}

/// The bytes of `code` that a patch replaces.
pub open spec fn overwritten(code: Seq<u8>, abi: Abi) -> Seq<u8> {
    code.take(abi.patch_len_spec() as int)
}

/// `code` with `backup` copied back over its first bytes.
pub open spec fn unpatched(code: Seq<u8>, backup: Seq<u8>) -> Seq<u8> {
    backup + code.skip(backup.len() as int)
}

/// Whether `code` starts with the jump to `entry`.
pub open spec fn is_patched(code: Seq<u8>, abi: Abi, entry: u64) -> bool {
    code.len() >= abi.patch_len_spec() && code.take(abi.patch_len_spec() as int) == jump_patch(
        abi,
        entry,
    )
}

/// The reason for which `install` refuses, if it does.
pub open spec fn install_error(region: RegionView, abi: Abi, entry: u64) -> Option<HookError> {
    if region.bytes.len() < abi.patch_len_spec() {
        Some(HookError::RegionTooShort)
    } else if !abi.reaches(entry) {
        Some(HookError::AddressOutOfRange)
    } else {
        None
    }
}

/// The reason for which `restore` refuses, if it does.
pub open spec fn restore_error(region: RegionView, backup: Seq<u8>) -> Option<HookError> {
    if region.bytes.len() < backup.len() {
        Some(HookError::RegionTooShort)
    } else {
        None
    }
}

/// What `install` does to a region, in order: it makes the region writable,
/// reads the bytes it is about to replace, writes the jump, and makes the
/// region executable only.
pub open spec fn install_accesses() -> Seq<Access> {
    seq![Access::MadeWritable, Access::Read, Access::Written, Access::MadeExecutable]
}

/// What `restore` does to a region, in order: it makes the region writable,
/// writes the backup, and makes the region executable only.
pub open spec fn restore_accesses() -> Seq<Access> {
    seq![Access::MadeWritable, Access::Written, Access::MadeExecutable]
}

/// The region after a successful `install`.
pub open spec fn installed(region: RegionView, abi: Abi, entry: u64) -> RegionView {
    RegionView {
        bytes: patched(region.bytes, abi, entry),
        protection: Protection::ExecuteOnly,
        accesses: region.accesses + install_accesses(),
        ..region
    }
}

/// The region after a successful `restore`.
pub open spec fn restored(region: RegionView, backup: Seq<u8>) -> RegionView {
    RegionView {
        bytes: unpatched(region.bytes, backup),
        protection: Protection::ExecuteOnly,
        accesses: region.accesses + restore_accesses(),
        ..region
    }
}

/// A jump patch has the length that its architecture fixes.
pub proof fn lemma_jump_patch_len(abi: Abi, entry: u64)
    ensures
        jump_patch(abi, entry).len() == abi.patch_len_spec(),
{
    lemma_le_bytes_len(entry as nat, 8);
    lemma_le_bytes_len(entry as nat, 4);
}

/// Installing a hook and restoring it at once, with the backup that the
/// installation took, leaves the code byte for byte as it was.
pub proof fn lemma_install_then_restore(code: Seq<u8>, abi: Abi, entry: u64)
    requires
        code.len() >= abi.patch_len_spec(),
    ensures
        unpatched(patched(code, abi, entry), overwritten(code, abi)) == code,
{
    lemma_jump_patch_len(abi, entry);
    assert(unpatched(patched(code, abi, entry), overwritten(code, abi)) =~= code);
}

/// The backup holds exactly what the patch replaces: it is as long as the
/// patch, it equals the code that stood there, and the patched code differs
/// from the old code nowhere else.
pub proof fn lemma_backup_is_what_was_overwritten(code: Seq<u8>, abi: Abi, entry: u64)
    requires
        code.len() >= abi.patch_len_spec(),
    ensures
        overwritten(code, abi).len() == abi.patch_len_spec(),
        patched(code, abi, entry).len() == code.len(),
        forall|i: int|
            0 <= i < abi.patch_len_spec() ==> overwritten(code, abi)[i] == code[i],
        forall|i: int|
            abi.patch_len_spec() <= i < code.len() ==> patched(code, abi, entry)[i] == code[i],
        is_patched(patched(code, abi, entry), abi, entry),
{
    lemma_jump_patch_len(abi, entry);
    assert(patched(code, abi, entry).take(abi.patch_len_spec() as int) =~= jump_patch(abi, entry));
}

/// The bytes of the jump to `entry`, or `AddressOutOfRange` when `entry` does
/// not fit the architecture.
pub fn patch_bytes(abi: Abi, entry: u64) -> (out: Result<Vec<u8>, HookError>)
    ensures
        match out {
            Ok(bytes) => abi.reaches(entry) && bytes@ == jump_patch(abi, entry) && bytes@.len()
                == abi.patch_len_spec(),
            Err(e) => !abi.reaches(entry) && e == HookError::AddressOutOfRange,
        },
{
    if !abi.reaches(entry) {
        return Err(HookError::AddressOutOfRange);
    }
    proof {
        lemma_jump_patch_len(abi, entry);
    }
    let mut bytes: Vec<u8> = Vec::new();
    match abi {
        Abi::SysV64 => {
            bytes.push(0x48);
            bytes.push(0xb8);
            let mut address = encode_u64(entry);
            bytes.append(&mut address);
        },
        Abi::ThisCall32 => {
            bytes.push(0xb8);
            let mut address = encode_u32(entry as u32);
            bytes.append(&mut address);
        },
    }
    bytes.push(0xff);
    bytes.push(0xe0);
    assert(bytes@ =~= jump_patch(abi, entry));
    Ok(bytes)
}

impl CodeRegion {
    /// A region of code as a process finds it: executable, open to a change
    /// of protection, and untouched.
    pub fn new(address: u64, bytes: Vec<u8>) -> (region: CodeRegion)
        ensures
            region@ == (RegionView {
                address,
                bytes: bytes@,
                protection: Protection::ExecuteOnly,
                sealed: false,
                accesses: Seq::empty(),
            }),
    {
        CodeRegion {
            address,
            bytes,
            protection: Protection::ExecuteOnly,
            sealed: false,
            accesses: Vec::new(),
        }
    }

    /// A region whose protection the operating system will not change.
    pub fn sealed(address: u64, bytes: Vec<u8>) -> (region: CodeRegion)
        ensures
            region@ == (RegionView {
                address,
                bytes: bytes@,
                protection: Protection::ExecuteOnly,
                sealed: true,
                accesses: Seq::empty(),
            }),
    {
        CodeRegion {
            address,
            bytes,
            protection: Protection::ExecuteOnly,
            sealed: true,
            accesses: Vec::new(),
        }
    }

    /// Makes the region writable, whatever its protection was. A sealed
    /// region is left as it is and `ProtectionDenied` comes back.
    pub fn set_writable(&mut self) -> (r: Result<(), HookError>)
        ensures
            r == (if old(self).sealed {
                Err::<(), HookError>(HookError::ProtectionDenied)
            } else {
                Ok(())
            }),
            old(self).sealed ==> final(self)@ == old(self)@,
            !old(self).sealed ==> final(self)@ == (RegionView {
                protection: Protection::Writable,
                accesses: old(self)@.accesses.push(Access::MadeWritable),
                ..old(self)@
            }),
    {
        if self.sealed {
            return Err(HookError::ProtectionDenied);
        }
        self.protection = Protection::Writable;
        self.accesses.push(Access::MadeWritable);
        Ok(())
    }

    /// Makes the region executable only, whatever its protection was. A
    /// sealed region is left as it is and `ProtectionDenied` comes back.
    pub fn set_executable(&mut self) -> (r: Result<(), HookError>)
        ensures
            r == (if old(self).sealed {
                Err::<(), HookError>(HookError::ProtectionDenied)
            } else {
                Ok(())
            }),
            old(self).sealed ==> final(self)@ == old(self)@,
            !old(self).sealed ==> final(self)@ == (RegionView {
                protection: Protection::ExecuteOnly,
                accesses: old(self)@.accesses.push(Access::MadeExecutable),
                ..old(self)@
            }),
    {
        if self.sealed {
            return Err(HookError::ProtectionDenied);
        }
        self.protection = Protection::ExecuteOnly;
        self.accesses.push(Access::MadeExecutable);
        Ok(())
    }

    /// The first `len` bytes of the region. Refuses with `RegionTooShort`
    /// when the region has fewer.
    pub fn read(&mut self, len: usize) -> (r: Result<Vec<u8>, HookError>)
        ensures
            match r {
                Ok(bytes) => {
                    &&& len <= old(self)@.bytes.len()
                    &&& bytes@ == old(self)@.bytes.take(len as int)
                    &&& final(self)@ == (RegionView {
                        accesses: old(self)@.accesses.push(Access::Read),
                        ..old(self)@
                    })
                },
                Err(e) => {
                    &&& e == HookError::RegionTooShort
                    &&& len > old(self)@.bytes.len()
                    &&& final(self)@ == old(self)@
                },
            },
    {
        if self.bytes.len() < len {
            return Err(HookError::RegionTooShort);
        }
        let mut bytes: Vec<u8> = Vec::new();
        let mut i: usize = 0;
        while i < len
            invariant
                i <= len <= self.bytes@.len(),
                bytes@ == self.bytes@.take(i as int),
                self@ == old(self)@,
            decreases len - i,
        {
            bytes.push(self.bytes[i]);
            assert(self.bytes@.take(i + 1) =~= self.bytes@.take(i as int).push(
                self.bytes@[i as int],
            ));
            i = i + 1;
        }
        self.accesses.push(Access::Read);
        Ok(bytes)
    }

    /// Copies `data` over the first bytes of the region. Refuses with
    /// `NotWritable` unless the region is writable, and with
    /// `RegionTooShort` when `data` is longer than the region.
    pub fn write(&mut self, data: &Vec<u8>) -> (r: Result<(), HookError>)
        ensures
            r == (if old(self).protection != Protection::Writable {
                Err::<(), HookError>(HookError::NotWritable)
            } else if old(self).bytes@.len() < data@.len() {
                Err(HookError::RegionTooShort)
            } else {
                Ok(())
            }),
            r is Err ==> final(self)@ == old(self)@,
            r is Ok ==> final(self)@ == (RegionView {
                bytes: unpatched(old(self).bytes@, data@),
                accesses: old(self)@.accesses.push(Access::Written),
                ..old(self)@
            }),
    {
        if self.protection != Protection::Writable {
            return Err(HookError::NotWritable);
        }
        if self.bytes.len() < data.len() {
            return Err(HookError::RegionTooShort);
        }
        let mut i: usize = 0;
        while i < data.len()
            invariant
                i <= data@.len() <= self.bytes@.len(),
                self.bytes@.len() == old(self).bytes@.len(),
                self.bytes@ == data@.take(i as int) + old(self).bytes@.skip(i as int),
                self.address == old(self).address,
                self.protection == old(self).protection,
                self.sealed == old(self).sealed,
                self.accesses@ == old(self).accesses@,
            decreases data@.len() - i,
        {
            self.bytes.set(i, data[i]);
            i = i + 1;
        }
        assert(data@.take(data@.len() as int) =~= data@);
        self.accesses.push(Access::Written);
        Ok(())
    }

    /// Whether the region starts with the jump to `entry`: whether a call to
    /// its address lands in the interceptor at `entry`. This is the
    /// processor fetching the code, not the patcher reading it, and leaves
    /// no access behind.
    pub fn jumps_to(&self, abi: Abi, entry: u64) -> (yes: bool)
        ensures
            yes == (abi.reaches(entry) && is_patched(self.bytes@, abi, entry)),
    {
        match patch_bytes(abi, entry) {
            Err(_) => false,
            Ok(patch) => {
                if self.bytes.len() < patch.len() {
                    return false;
                }
                let mut i: usize = 0;
                while i < patch.len()
                    invariant
                        i <= patch@.len() <= self.bytes@.len(),
                        patch@ == jump_patch(abi, entry),
                        patch@.len() == abi.patch_len_spec(),
                        self.bytes@.take(i as int) == patch@.take(i as int),
                    decreases patch@.len() - i,
                {
                    if self.bytes[i] != patch[i] {
                        assert(self.bytes@.take(patch@.len() as int)[i as int] != patch@[i as int]);
                        return false;
                    }
                    assert(self.bytes@.take(i + 1) =~= self.bytes@.take(i as int).push(
                        self.bytes@[i as int],
                    ));
                    assert(patch@.take(i + 1) =~= patch@.take(i as int).push(patch@[i as int]));
                    i = i + 1;
                }
                assert(patch@.take(patch@.len() as int) =~= patch@);
                true
            },
        }
    }
}

/// Writes the jump to `entry` over the entry of the region and hands back the
/// bytes that stood there.
///
/// The region is made writable first and executable only last, whatever its
/// protection was before; the bytes are read and written in between. A
/// region whose protection cannot be changed must not be handed in: there is
/// no way on from there. When the call refuses, nothing has changed.
pub fn install(region: &mut CodeRegion, abi: Abi, entry: u64) -> (r: Result<Vec<u8>, HookError>)
    requires
        !old(region)@.sealed,
    ensures
        match r {
            Ok(backup) => {
                &&& install_error(old(region)@, abi, entry) is None
                &&& backup@ == overwritten(old(region)@.bytes, abi)
                &&& final(region)@ == installed(old(region)@, abi, entry)
            },
            Err(e) => install_error(old(region)@, abi, entry) == Some(e) && final(region)@ == old(
                region,
            )@,
        },
{
    let len = abi.patch_len();
    if region.bytes.len() < len {
        return Err(HookError::RegionTooShort);
    }
    let patch = match patch_bytes(abi, entry) {
        Ok(patch) => patch,
        Err(e) => {
            return Err(e);
        },
    };
    let opened = region.set_writable();
    let read = region.read(len);
    let wrote = region.write(&patch);
    let closed = region.set_executable();
    assert(opened is Ok && wrote is Ok && closed is Ok);
    assert(region@.accesses =~= old(region)@.accesses + install_accesses());
    match read {
        Ok(backup) => Ok(backup),
        Err(e) => Err(e),
    }
}

/// Copies `backup` back over the entry of the region.
///
/// The region is made writable first and executable only last, whatever its
/// protection was before; the bytes are written in between. A region whose
/// protection cannot be changed must not be handed in: there is no way on
/// from there. When the call refuses, nothing has changed.
pub fn restore(region: &mut CodeRegion, backup: &Vec<u8>) -> (r: Result<(), HookError>)
    requires
        !old(region)@.sealed,
    ensures
        match r {
            Ok(()) => restore_error(old(region)@, backup@) is None && final(region)@ == restored(
                old(region)@,
                backup@,
            ),
            Err(e) => restore_error(old(region)@, backup@) == Some(e) && final(region)@ == old(
                region,
            )@,
        },
{
    if region.bytes.len() < backup.len() {
        return Err(HookError::RegionTooShort);
    }
    let opened = region.set_writable();
    let wrote = region.write(backup);
    let closed = region.set_executable();
    assert(opened is Ok && wrote is Ok && closed is Ok);
    assert(region@.accesses =~= old(region)@.accesses + restore_accesses());
    Ok(())
}

} // verus!
