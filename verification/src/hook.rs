//! One hook: the target it redirects, the interceptor it redirects to, the
//! bytes it displaced, and whether it is installed.

use crate::arch::{Abi, HookKind};
use crate::patch::{
    install, installed, lemma_install_then_restore, lemma_jump_patch_len, overwritten, restore,
    restore_accesses, restored, CodeRegion, HookError, Protection, RegionView,
};
use vstd::prelude::*;

verus! {

/// A hook on one target function.
///
/// The backup of the overwritten bytes lives here, one per hook. Installing
/// writes it; restoring reads it and leaves it as it is. Whether the hook is
/// installed is kept apart from it, in `installed`.
///
/// A hook holds no lock. Installing and restoring take the hook and the code
/// by exclusive reference, so two of them cannot run at once on the same
/// hook; but between the unhook and the hook-again of one intercepted call
/// the target is unpatched, and a call from another thread in that window
/// reaches the original function without being intercepted. Whoever hooks
/// a function that several threads call has to live with that or to keep
/// the threads apart.
#[derive(Clone, Debug)]
pub struct Hook {
    pub abi: Abi,
    pub kind: HookKind,
    pub target: u64,
    pub interceptor: u64,
    pub callback: u64,
    pub backup: Option<Vec<u8>>,
    pub installed: bool,
}

/// What a [`Hook`] holds, as contracts speak of it.
pub struct HookView {
    pub abi: Abi,
    pub kind: HookKind,
    pub target: u64,
    pub interceptor: u64,
    pub callback: u64,
    pub backup: Option<Seq<u8>>,
    pub installed: bool,
}

impl View for Hook {
    type V = HookView;

    open spec fn view(&self) -> HookView {
        HookView {
            abi: self.abi,
            kind: self.kind,
            target: self.target,
            interceptor: self.interceptor,
            callback: self.callback,
            backup: match self.backup {
                Some(bytes) => Some(bytes@),
                None => None,
            },
            installed: self.installed,
        }
    }
}

impl HookView {
    /// The addresses fit the architecture; a backup, where there is one, is
    /// as long as the patch; and an installed hook has its backup.
    pub open spec fn wf(self) -> bool {
        &&& self.abi.reaches(self.target)
        &&& self.abi.reaches(self.interceptor)
        &&& self.abi.reaches(self.callback)
        &&& (self.backup matches Some(bytes) ==> bytes.len() == self.abi.patch_len_spec())
        &&& (self.installed ==> self.backup is Some)
    }

    /// Whether the hook is installed.
    pub open spec fn is_installed(self) -> bool {
        self.installed
    }

    /// The reason for which installing over `region` is refused, if it is.
    pub open spec fn install_error(self, region: RegionView) -> Option<HookError> {
        if region.address != self.target {
            Some(HookError::WrongRegion)
        } else {
            crate::patch::install_error(region, self.abi, self.interceptor)
        }
    }

    /// The hook after it has been installed over `region`.
    pub open spec fn after_install(self, region: RegionView) -> HookView {
        HookView { backup: Some(overwritten(region.bytes, self.abi)), installed: true, ..self }
    }

    /// The reason for which restoring `region` is refused, if it is.
    pub open spec fn restore_error(self, region: RegionView) -> Option<HookError> {
        if region.address != self.target {
            Some(HookError::WrongRegion)
        } else {
            crate::patch::restore_error(region, self.backup->0)
        }
    }

    /// The hook after its target has been restored: not installed, with the
    /// backup it had.
    pub open spec fn after_restore(self) -> HookView {
        HookView { installed: false, ..self }
    }
}

impl Hook {
    /// A hook that is not installed and has no backup yet. Refuses with
    /// `AddressOutOfRange` when one of the three addresses does not fit the
    /// architecture.
    pub fn new(abi: Abi, kind: HookKind, target: u64, interceptor: u64, callback: u64) -> (r:
        Result<Hook, HookError>)
        ensures
            match r {
                Ok(hook) => {
                    &&& hook@ == (HookView {
                        abi,
                        kind,
                        target,
                        interceptor,
                        callback,
                        backup: None,
                        installed: false,
                    })
                    &&& hook@.wf()
                },
                Err(e) => {
                    &&& e == HookError::AddressOutOfRange
                    &&& !(abi.reaches(target) && abi.reaches(interceptor) && abi.reaches(callback))
                },
            },
    {
        if abi.reaches(target) && abi.reaches(interceptor) && abi.reaches(callback) {
            Ok(Hook { abi, kind, target, interceptor, callback, backup: None, installed: false })
        } else {
            Err(HookError::AddressOutOfRange)
        }
    }

    /// Whether the hook is installed.
    pub fn is_installed(&self) -> (yes: bool)
        ensures
            yes == self@.is_installed(),
    {
        self.installed
    }

    /// Installs the hook: backs up the entry of `region` and writes the jump
    /// to the interceptor over it.
    ///
    /// The hook must not be installed, and the protection of `region` must
    /// be open to change: installing twice, or on code that cannot be made
    /// writable, is fatal, and whoever calls has to stop the process rather
    /// than call. The call refuses, and changes nothing, when `region` is not
    /// the code at the target address or is shorter than the patch.
    pub fn install(&mut self, region: &mut CodeRegion) -> (r: Result<(), HookError>)
        requires
            !old(self)@.is_installed(),
            !old(region)@.sealed,
        ensures
            r == (match old(self)@.install_error(old(region)@) {
                Some(e) => Err::<(), HookError>(e),
                None => Ok(()),
            }),
            r is Ok ==> final(self)@ == old(self)@.after_install(old(region)@) && final(region)@
                == installed(old(region)@, old(self).abi, old(self).interceptor),
            r is Err ==> final(self)@ == old(self)@ && final(region)@ == old(region)@,
            old(self)@.wf() ==> final(self)@.wf(),
    {
        if region.address != self.target {
            return Err(HookError::WrongRegion);
        }
        match install(region, self.abi, self.interceptor) {
            Ok(backup) => {
                self.backup = Some(backup);
                self.installed = true;
                Ok(())
            },
            Err(e) => Err(e),
        }
    }

    /// Restores the target: copies the backup back over the entry of
    /// `region`. The backup stays as it is; the hook is no longer installed.
    ///
    /// The hook must be installed and have its backup, and the protection of
    /// `region` must be open to change: restoring what was never installed,
    /// or code that cannot be made writable, is fatal, and whoever calls has
    /// to stop the process rather than call. The call refuses, and changes
    /// nothing, when `region` is not the code at the target address or is
    /// shorter than the backup.
    pub fn restore(&mut self, region: &mut CodeRegion) -> (r: Result<(), HookError>)
        requires
            old(self)@.is_installed(),
            old(self)@.backup is Some,
            !old(region)@.sealed,
        ensures
            r == (match old(self)@.restore_error(old(region)@) {
                Some(e) => Err::<(), HookError>(e),
                None => Ok(()),
            }),
            r is Ok ==> final(self)@ == old(self)@.after_restore() && final(region)@ == restored(
                old(region)@,
                old(self)@.backup->0,
            ),
            r is Err ==> final(self)@ == old(self)@ && final(region)@ == old(region)@,
            final(self)@.backup == old(self)@.backup,
            old(self)@.wf() ==> final(self)@.wf(),
    {
        if region.address != self.target {
            return Err(HookError::WrongRegion);
        }
        match self.backup.take() {
            None => Err(HookError::NotInstalled),
            Some(backup) => {
                let outcome = restore(region, &backup);
                self.backup = Some(backup);
                match outcome {
                    Ok(()) => {
                        self.installed = false;
                        Ok(())
                    },
                    Err(e) => Err(e),
                }
            },
        }
    }
}

/// Installing a hook and restoring it at once leaves the code byte for byte
/// as it was, executable only, and the hook uninstalled with the backup that
/// the installation took.
pub proof fn lemma_install_then_restore_hook(hook: HookView, region: RegionView)
    requires
        !hook.is_installed(),
        hook.install_error(region) is None,
    ensures
        hook.after_install(region).is_installed(),
        hook.after_install(region).restore_error(
            installed(region, hook.abi, hook.interceptor),
        ) is None,
        hook.after_install(region).after_restore() == (HookView {
            backup: Some(overwritten(region.bytes, hook.abi)),
            ..hook
        }),
        restored(
            installed(region, hook.abi, hook.interceptor),
            hook.after_install(region).backup->0,
        ) == (RegionView {
            protection: Protection::ExecuteOnly,
            accesses: installed(region, hook.abi, hook.interceptor).accesses
                + restore_accesses(),
            ..region
        }),
{
    lemma_jump_patch_len(hook.abi, hook.interceptor);
    lemma_install_then_restore(region.bytes, hook.abi, hook.interceptor);
}

} // verus!
