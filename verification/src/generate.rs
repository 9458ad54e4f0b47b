//! What is generated for one hook on one function: its names and, for each
//! calling convention, its interceptor.

use crate::arch::{Abi, HookKind};
use crate::machine::Instr;
use crate::names::{assembled, lowercase_of, uppercase_of, Names, NamesView};
use crate::trampoline::{interceptor, interceptor_spec};
use vstd::prelude::*;
use vstd::string::*;

verus! {

/// Everything that belongs to one hook.
pub struct Generated {
    /// When the callback runs.
    pub kind: HookKind,
    /// The names of the generated items.
    pub names: Names,
    /// The name of the user's callback.
    pub callback: String,
    /// The interceptor for 64-bit targets.
    pub sysv64: Vec<Instr>,
    /// The interceptor for 32-bit targets.
    pub thiscall32: Vec<Instr>,
}

/// What [`Generated`] holds, as contracts speak of it.
pub struct GeneratedView {
    pub kind: HookKind,
    pub names: NamesView,
    pub callback: Seq<char>,
    pub sysv64: Seq<Instr>,
    pub thiscall32: Seq<Instr>,
}

impl View for Generated {
    type V = GeneratedView;

    open spec fn view(&self) -> GeneratedView {
        GeneratedView {
            kind: self.kind,
            names: self.names@,
            callback: self.callback@,
            sysv64: self.sysv64@,
            thiscall32: self.thiscall32@,
        }
    }
}

/// What is generated for a hook of `kind` on `class::function` that calls
/// `callback`.
pub open spec fn generated(
    kind: HookKind,
    class: Seq<char>,
    function: Seq<char>,
    callback: Seq<char>,
) -> GeneratedView {
    GeneratedView {
        kind,
        names: assembled(
            class,
            function,
            lowercase_of(class),
            lowercase_of(function),
            uppercase_of(class),
            uppercase_of(function),
        ),
        callback,
        sysv64: interceptor_spec(Abi::SysV64, kind),
        thiscall32: interceptor_spec(Abi::ThisCall32, kind),
    }
}

/// What is generated for a hook of `kind` on `class::function` that calls
/// `callback`.
pub fn hook(kind: HookKind, class: &str, function: &str, callback: &str) -> (out: Generated)
    ensures
        out@ == generated(kind, class@, function@, callback@),
{
    Generated {
        kind,
        names: Names::derive(class, function),
        callback: String::from_str(callback),
        sysv64: interceptor(Abi::SysV64, kind),
        thiscall32: interceptor(Abi::ThisCall32, kind),
    }
}

/// A hook on `class::function` that calls `callback` on the first call only
/// and then removes itself.
pub fn hook_once(class: &str, function: &str, callback: &str) -> (out: Generated)
    ensures
        out@ == generated(HookKind::Once, class@, function@, callback@),
{
    hook(HookKind::Once, class, function, callback)
}

/// A hook on `class::function` that calls `callback` before the function,
/// on every call.
pub fn hook_before(class: &str, function: &str, callback: &str) -> (out: Generated)
    ensures
        out@ == generated(HookKind::Before, class@, function@, callback@),
{
    hook(HookKind::Before, class, function, callback)
}

/// A hook on `class::function` that calls `callback` after the function, on
/// every call.
pub fn hook_after(class: &str, function: &str, callback: &str) -> (out: Generated)
    ensures
        out@ == generated(HookKind::After, class@, function@, callback@),
{
    hook(HookKind::After, class, function, callback)
}

} // verus!
