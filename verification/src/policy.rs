//! The policy sequencer: what an interceptor does, and in which order, when a
//! call reaches a hooked target.
//!
//! A [`Site`] is a target function under observation: its code, its hook, and
//! the trace of what ran. [`Site::call`] plays one call by the real caller.

use crate::arch::HookKind;
use crate::hook::{Hook, HookView};
use crate::patch::{
    installed, is_patched, lemma_backup_is_what_was_overwritten, lemma_install_then_restore,
    overwritten, patched, restored, CodeRegion, HookError, RegionView,
};
use vstd::prelude::*;

verus! {

/// One thing an interceptor does on the way from the real caller and back.
#[derive(Clone, Copy, Debug, PartialEq, Eq, Structural)]
pub enum Step {
    /// Call the user callback.
    InvokeCallback,
    /// Restore the original bytes of the target.
    Unhook,
    /// Call the original function and keep what it returns.
    CallOriginal,
    /// Write the jump over the target again.
    Rehook,
    /// Leave for the original function for good: its own return goes
    /// straight to the real caller.
    JumpToOriginal,
    /// Return to the real caller with what the original function returned.
    ReturnToCaller,
}

/// What an observer of a target sees run.
#[derive(Clone, Copy, Debug, PartialEq, Eq, Structural)]
pub enum Event {
    /// The user callback ran.
    Callback,
    /// The original function ran.
    Original,
}

/// The steps of an interceptor of the given kind, in order.
pub open spec fn sequence_spec(kind: HookKind) -> Seq<Step> {
    match kind {
        HookKind::Once => seq![Step::InvokeCallback, Step::Unhook, Step::JumpToOriginal],
        HookKind::Before => seq![
            Step::InvokeCallback,
            Step::Unhook,
            Step::CallOriginal,
            Step::Rehook,
            Step::ReturnToCaller,
        ],
        HookKind::After => seq![
            Step::Unhook,
            Step::CallOriginal,
            Step::Rehook,
            Step::InvokeCallback,
            Step::ReturnToCaller,
        ],
    }
}

/// The steps of an interceptor of the given kind, in order.
pub fn sequence(kind: HookKind) -> (steps: Vec<Step>)
    ensures
        steps@ == sequence_spec(kind),
{
    let mut steps: Vec<Step> = Vec::new();
    match kind {
        HookKind::Once => {
            steps.push(Step::InvokeCallback);
            steps.push(Step::Unhook);
            steps.push(Step::JumpToOriginal);
        },
        HookKind::Before => {
            steps.push(Step::InvokeCallback);
            steps.push(Step::Unhook);
            steps.push(Step::CallOriginal);
            steps.push(Step::Rehook);
            steps.push(Step::ReturnToCaller);
        },
        HookKind::After => {
            steps.push(Step::Unhook);
            steps.push(Step::CallOriginal);
            steps.push(Step::Rehook);
            steps.push(Step::InvokeCallback);
            steps.push(Step::ReturnToCaller);
        },
    }
    assert(steps@ =~= sequence_spec(kind));
    steps
}

/// A target function under observation.
pub struct Site {
    pub hook: Hook,
    pub region: CodeRegion,
    pub trace: Vec<Event>,
}

/// What a [`Site`] holds, as contracts speak of it.
pub struct SiteView {
    pub hook: HookView,
    pub region: RegionView,
    pub trace: Seq<Event>,
}

impl View for Site {
    type V = SiteView;

    open spec fn view(&self) -> SiteView {
        SiteView { hook: self.hook@, region: self.region@, trace: self.trace@ }
    }
}

/// `pattern`, `n` times over.
pub open spec fn repeat(pattern: Seq<Event>, n: nat) -> Seq<Event>
    decreases n,
{
    if n == 0 {
        Seq::empty()
    } else {
        pattern + repeat(pattern, (n - 1) as nat)
    }
}

/// How often the user callback ran in `trace`.
pub open spec fn fired(trace: Seq<Event>) -> nat
    decreases trace.len(),
{
    if trace.len() == 0 {
        0
    } else {
        fired(trace.drop_last()) + if trace.last() == Event::Callback {
            1nat
        } else {
            0nat
        }
    }
}

impl SiteView {
    /// Whether a call to the target lands in the interceptor: whether the
    /// code at the target starts with the jump to it.
    pub open spec fn intercepted(self) -> bool {
        self.hook.abi.reaches(self.hook.interceptor) && is_patched(
            self.region.bytes,
            self.hook.abi,
            self.hook.interceptor,
        )
    }

    /// Why the hooked process stops when its interceptor is about to unhook,
    /// if it does: the hook is not installed or has no backup, the code
    /// cannot be made writable, or restoring refuses.
    pub open spec fn unhook_stop(self) -> Option<HookError> {
        if !self.hook.installed || self.hook.backup is None {
            Some(HookError::NotInstalled)
        } else if self.region.sealed {
            Some(HookError::ProtectionDenied)
        } else {
            self.hook.restore_error(self.region)
        }
    }

    /// Why the hooked process stops when its interceptor is about to hook
    /// again, if it does: the hook is installed already, the code cannot be
    /// made writable, or installing refuses.
    pub open spec fn rehook_stop(self) -> Option<HookError> {
        if self.hook.installed {
            Some(HookError::AlreadyInstalled)
        } else if self.region.sealed {
            Some(HookError::ProtectionDenied)
        } else {
            self.hook.install_error(self.region)
        }
    }

    /// The site after one step of the interceptor, and the error that the
    /// hooked process stopped with, if it did.
    pub open spec fn step(self, step: Step) -> (SiteView, Option<HookError>) {
        match step {
            Step::InvokeCallback => (
                SiteView { trace: self.trace.push(Event::Callback), ..self },
                None,
            ),
            Step::CallOriginal | Step::JumpToOriginal => (
                SiteView { trace: self.trace.push(Event::Original), ..self },
                None,
            ),
            Step::ReturnToCaller => (self, None),
            Step::Unhook => match self.unhook_stop() {
                Some(e) => (self, Some(e)),
                None => (
                    SiteView {
                        hook: self.hook.after_restore(),
                        region: restored(self.region, self.hook.backup->0),
                        ..self
                    },
                    None,
                ),
            },
            Step::Rehook => match self.rehook_stop() {
                Some(e) => (self, Some(e)),
                None => (
                    SiteView {
                        hook: self.hook.after_install(self.region),
                        region: installed(self.region, self.hook.abi, self.hook.interceptor),
                        ..self
                    },
                    None,
                ),
            },
        }
    }

    /// The site after the given steps, taken in order up to the first that
    /// fails, and the error of that one.
    pub open spec fn run(self, steps: Seq<Step>) -> (SiteView, Option<HookError>)
        decreases steps.len(),
    {
        if steps.len() == 0 {
            (self, None)
        } else {
            let (next, error) = self.step(steps[0]);
            if error is Some {
                (next, error)
            } else {
                next.run(steps.drop_first())
            }
        }
    }

    /// The site after one call by the real caller: through the interceptor
    /// where the target is patched, straight into the original function
    /// where it is not.
    pub open spec fn call(self) -> (SiteView, Option<HookError>) {
        if self.intercepted() {
            self.run(sequence_spec(self.hook.kind))
        } else {
            (SiteView { trace: self.trace.push(Event::Original), ..self }, None)
        }
    }

    /// The site after `n` calls in a row, up to the first that fails.
    pub open spec fn calls(self, n: nat) -> (SiteView, Option<HookError>)
        decreases n,
    {
        if n == 0 {
            (self, None)
        } else {
            let (next, error) = self.call();
            if error is Some {
                (next, error)
            } else {
                next.calls((n - 1) as nat)
            }
        }
    }

    /// The hook and the code belong together, and the code can be patched:
    /// what every law below asks of a site. `code` is the original code of
    /// the target.
    pub open spec fn fits(self, code: Seq<u8>) -> bool {
        &&& self.hook.wf()
        &&& self.region.address == self.hook.target
        &&& !self.region.sealed
        &&& code.len() >= self.hook.abi.patch_len_spec()
    }

    /// `code` is not itself the jump to the interceptor: a call to a target
    /// that holds `code` runs `code`.
    pub open spec fn runs(self, code: Seq<u8>) -> bool {
        !is_patched(code, self.hook.abi, self.hook.interceptor)
    }

    /// The hook is installed over `code`.
    pub open spec fn armed(self, code: Seq<u8>) -> bool {
        &&& self.fits(code)
        &&& self.hook.installed
        &&& self.hook.backup == Some(overwritten(code, self.hook.abi))
        &&& self.region.bytes == patched(code, self.hook.abi, self.hook.interceptor)
    }

    /// The hook is not installed, and the target holds `code`.
    pub open spec fn pristine(self, code: Seq<u8>) -> bool {
        &&& self.fits(code)
        &&& !self.hook.installed
        &&& self.region.bytes == code
    }
}

impl Site {
    /// A site with nothing observed yet.
    pub fn new(hook: Hook, region: CodeRegion) -> (site: Site)
        ensures
            site@ == (SiteView { hook: hook@, region: region@, trace: Seq::empty() }),
    {
        Site { hook, region, trace: Vec::new() }
    }

    /// Whether a call to the target would land in the interceptor.
    pub fn is_intercepted(&self) -> (yes: bool)
        ensures
            yes == self@.intercepted(),
    {
        self.region.jumps_to(self.hook.abi, self.hook.interceptor)
    }

    /// How often the user callback has run.
    pub fn callback_count(&self) -> (n: usize)
        ensures
            n == fired(self@.trace),
    {
        let mut n: usize = 0;
        let mut i: usize = 0;
        assert(self.trace@.take(0) =~= Seq::<Event>::empty());
        while i < self.trace.len()
            invariant
                i <= self.trace@.len(),
                n == fired(self.trace@.take(i as int)),
                n <= i,
            decreases self.trace@.len() - i,
        {
            assert(self.trace@.take(i + 1).drop_last() =~= self.trace@.take(i as int));
            if self.trace[i] == Event::Callback {
                n = n + 1;
            }
            i = i + 1;
        }
        assert(self.trace@.take(self.trace@.len() as int) =~= self.trace@);
        n
    }

    /// Takes one step of the interceptor. An error says that the hooked
    /// process would have stopped at this step, and why; nothing has changed
    /// then.
    pub fn step(&mut self, step: Step) -> (r: Result<(), HookError>)
        ensures
            final(self)@ == old(self)@.step(step).0,
            r == (match old(self)@.step(step).1 {
                Some(e) => Err::<(), HookError>(e),
                None => Ok(()),
            }),
    {
        match step {
            Step::InvokeCallback => {
                self.trace.push(Event::Callback);
                Ok(())
            },
            Step::CallOriginal => {
                self.trace.push(Event::Original);
                Ok(())
            },
            Step::JumpToOriginal => {
                self.trace.push(Event::Original);
                Ok(())
            },
            Step::ReturnToCaller => Ok(()),
            Step::Unhook => {
                if !self.hook.is_installed() || self.hook.backup.is_none() {
                    Err(HookError::NotInstalled)
                } else if self.region.sealed {
                    Err(HookError::ProtectionDenied)
                } else {
                    self.hook.restore(&mut self.region)
                }
            },
            Step::Rehook => {
                if self.hook.is_installed() {
                    Err(HookError::AlreadyInstalled)
                } else if self.region.sealed {
                    Err(HookError::ProtectionDenied)
                } else {
                    self.hook.install(&mut self.region)
                }
            },
        }
    }

    /// Plays one call by the real caller to the target, where the original
    /// function would return `original_result`.
    ///
    /// Where the target is patched the interceptor runs, step by step as the
    /// hook's kind prescribes; where it is not, the original function runs
    /// alone. The caller gets what the original function returned. A step
    /// that fails ends the call with its error: the hooked process cannot
    /// go on.
    pub fn call(&mut self, original_result: u64) -> (r: Result<u64, HookError>)
        ensures
            final(self)@ == old(self)@.call().0,
            r == (match old(self)@.call().1 {
                Some(e) => Err::<u64, HookError>(e),
                None => Ok(original_result),
            }),
    {
        if !self.is_intercepted() {
            self.trace.push(Event::Original);
            return Ok(original_result);
        }
        let steps = sequence(self.hook.kind);
        let mut i: usize = 0;
        assert(steps@.skip(0) =~= steps@);
        while i < steps.len()
            invariant
                i <= steps@.len(),
                old(self)@.intercepted(),
                steps@ == sequence_spec(old(self)@.hook.kind),
                self@.run(steps@.skip(i as int)) == old(self)@.run(steps@),
            decreases steps@.len() - i,
        {
            assert(steps@.skip(i as int).drop_first() =~= steps@.skip(i + 1));
            assert(steps@.skip(i as int)[0] == steps@[i as int]);
            match self.step(steps[i]) {
                Ok(()) => {},
                Err(e) => {
                    return Err(e);
                },
            }
            i = i + 1;
        }
        assert(steps@.skip(i as int).len() == 0);
        Ok(original_result)
    }
}

/// The callbacks of two traces in a row add up.
pub proof fn lemma_fired_adds(a: Seq<Event>, b: Seq<Event>)
    ensures
        fired(a + b) == fired(a) + fired(b),
    decreases b.len(),
{
    if b.len() == 0 {
        assert(a + b =~= a);
    } else {
        lemma_fired_adds(a, b.drop_last());
        assert((a + b).drop_last() =~= a + b.drop_last());
    }
}

/// A trace of one event fires once if the event is the callback.
pub proof fn lemma_fired_one(event: Event)
    ensures
        fired(seq![event]) == (if event == Event::Callback {
            1nat
        } else {
            0nat
        }),
{
    assert(seq![event].drop_last() =~= Seq::<Event>::empty());
    reveal_with_fuel(fired, 2);
}

/// A trace of two events fires once for each that is the callback.
pub proof fn lemma_fired_two(first: Event, second: Event)
    ensures
        fired(seq![first, second]) == fired(seq![first]) + fired(seq![second]),
{
    lemma_fired_adds(seq![first], seq![second]);
    assert(seq![first] + seq![second] =~= seq![first, second]);
}

/// No steps left: the site stays as it is.
proof fn lemma_run_nothing(site: SiteView, steps: Seq<Step>)
    requires
        steps.len() == 0,
    ensures
        site.run(steps) == (site, None::<HookError>),
{
}

/// Installing the hook over an unhooked target arms the site.
pub proof fn lemma_install_arms(site: SiteView, code: Seq<u8>)
    requires
        site.pristine(code),
    ensures
        site.step(Step::Rehook).1 is None,
        site.step(Step::Rehook).0.armed(code),
        site.step(Step::Rehook).0.intercepted(),
        site.step(Step::Rehook).0.trace == site.trace,
{
    lemma_backup_is_what_was_overwritten(code, site.hook.abi, site.hook.interceptor);
}

/// One call to a target that is not hooked runs the original function and
/// nothing else.
pub proof fn lemma_unhooked_call(site: SiteView, code: Seq<u8>)
    requires
        site.pristine(code),
        site.runs(code),
    ensures
        site.call() == (SiteView { trace: site.trace.push(Event::Original), ..site }, None::<
            HookError,
        >),
{
}

/// Calls to a target that is not hooked, however many, run the original
/// function each time and never the callback.
pub proof fn lemma_unhooked_calls(site: SiteView, code: Seq<u8>, n: nat)
    requires
        site.pristine(code),
        site.runs(code),
    ensures
        site.calls(n).1 is None,
        site.calls(n).0.pristine(code),
        site.calls(n).0.hook == site.hook,
        site.calls(n).0.trace == site.trace + repeat(seq![Event::Original], n),
        fired(site.calls(n).0.trace) == fired(site.trace),
    decreases n,
{
    if n == 0 {
        assert(site.trace + repeat(seq![Event::Original], 0) =~= site.trace);
    } else {
        lemma_unhooked_call(site, code);
        let next = site.call().0;
        lemma_unhooked_calls(next, code, (n - 1) as nat);
        assert(site.calls(n).0.trace =~= site.trace + repeat(seq![Event::Original], n));
        assert(next.trace.drop_last() =~= site.trace);
    }
}

/// One call through a fire-once hook: the callback runs, then the original
/// function, and the target is left unhooked with its original code.
pub proof fn lemma_once_call(site: SiteView, code: Seq<u8>)
    requires
        site.armed(code),
        site.hook.kind == HookKind::Once,
    ensures
        site.call().1 is None,
        site.call().0.pristine(code),
        site.call().0.hook == site.hook.after_restore(),
        site.call().0.trace == site.trace + seq![Event::Callback, Event::Original],
{
    let abi = site.hook.abi;
    let entry = site.hook.interceptor;
    lemma_backup_is_what_was_overwritten(code, abi, entry);
    lemma_install_then_restore(code, abi, entry);
    let steps = sequence_spec(HookKind::Once);
    let s1 = site.step(steps[0]).0;
    let s2 = s1.step(steps[1]).0;
    let s3 = s2.step(steps[2]).0;
    assert(steps.drop_first()[0] == steps[1]);
    assert(steps.drop_first().drop_first()[0] == steps[2]);
    assert(steps.drop_first().drop_first().drop_first().len() == 0);
    assert(site.run(steps) == s1.run(steps.drop_first()));
    assert(s1.run(steps.drop_first()) == s2.run(steps.drop_first().drop_first()));
    lemma_run_nothing(s3, steps.drop_first().drop_first().drop_first());
    assert(s2.run(steps.drop_first().drop_first()) == (s3, None::<HookError>));
    assert(s3.trace =~= site.trace + seq![Event::Callback, Event::Original]);
}

/// A fire-once hook fires once: of `n` calls in a row, the first runs the
/// callback and then the original function and unhooks the target; every
/// later one reaches the original function directly. This asks that the
/// original code of the target is not itself the jump to the interceptor.
pub proof fn lemma_once_fires_once(site: SiteView, code: Seq<u8>, n: nat)
    requires
        site.armed(code),
        site.runs(code),
        site.hook.kind == HookKind::Once,
        n >= 1,
    ensures
        site.calls(n).1 is None,
        site.calls(n).0.pristine(code),
        !site.calls(n).0.intercepted(),
        site.calls(n).0.trace == site.trace + seq![Event::Callback, Event::Original] + repeat(
            seq![Event::Original],
            (n - 1) as nat,
        ),
        fired(site.calls(n).0.trace) == fired(site.trace) + 1,
{
    lemma_once_call(site, code);
    let next = site.call().0;
    lemma_unhooked_calls(next, code, (n - 1) as nat);
    lemma_fired_adds(site.trace, seq![Event::Callback, Event::Original]);
    lemma_fired_two(Event::Callback, Event::Original);
    lemma_fired_one(Event::Callback);
    lemma_fired_one(Event::Original);
}

/// One call through a call-before hook: the callback runs, then the original
/// function, and the hook is installed again when the call returns.
pub proof fn lemma_before_call(site: SiteView, code: Seq<u8>)
    requires
        site.armed(code),
        site.hook.kind == HookKind::Before,
    ensures
        site.call().1 is None,
        site.call().0.armed(code),
        site.call().0.intercepted(),
        site.call().0.hook == site.hook,
        site.call().0.trace == site.trace + seq![Event::Callback, Event::Original],
{
    let abi = site.hook.abi;
    let entry = site.hook.interceptor;
    lemma_backup_is_what_was_overwritten(code, abi, entry);
    lemma_install_then_restore(code, abi, entry);
    let steps = sequence_spec(HookKind::Before);
    let t1 = steps.drop_first();
    let t2 = t1.drop_first();
    let t3 = t2.drop_first();
    let t4 = t3.drop_first();
    let s1 = site.step(steps[0]).0;
    let s2 = s1.step(steps[1]).0;
    let s3 = s2.step(steps[2]).0;
    let s4 = s3.step(steps[3]).0;
    let s5 = s4.step(steps[4]).0;
    assert(t1[0] == steps[1] && t2[0] == steps[2] && t3[0] == steps[3] && t4[0] == steps[4]);
    assert(t4.drop_first().len() == 0);
    assert(site.run(steps) == s1.run(t1));
    assert(s1.run(t1) == s2.run(t2));
    assert(s2.region.bytes == code);
    assert(s2.run(t2) == s3.run(t3));
    assert(s3.run(t3) == s4.run(t4));
    lemma_run_nothing(s5, t4.drop_first());
    assert(s4.run(t4) == (s5, None::<HookError>));
    assert(s5.trace =~= site.trace + seq![Event::Callback, Event::Original]);
}

/// A call-before hook fires on every call: after `n` calls in a row the
/// callback has run `n` times, each time right before the original function,
/// and the hook is still installed.
pub proof fn lemma_before_fires_every_call(site: SiteView, code: Seq<u8>, n: nat)
    requires
        site.armed(code),
        site.hook.kind == HookKind::Before,
    ensures
        site.calls(n).1 is None,
        site.calls(n).0.armed(code),
        site.calls(n).0.trace == site.trace + repeat(seq![Event::Callback, Event::Original], n),
        fired(site.calls(n).0.trace) == fired(site.trace) + n,
    decreases n,
{
    let pattern = seq![Event::Callback, Event::Original];
    if n == 0 {
        assert(site.trace + repeat(pattern, 0) =~= site.trace);
    } else {
        lemma_before_call(site, code);
        let next = site.call().0;
        lemma_before_fires_every_call(next, code, (n - 1) as nat);
        assert(site.calls(n).0.trace =~= site.trace + repeat(pattern, n));
        lemma_fired_adds(site.trace, pattern);
        lemma_fired_two(Event::Callback, Event::Original);
        lemma_fired_one(Event::Callback);
        lemma_fired_one(Event::Original);
    }
}

/// One call through a call-after hook: the original function runs, then the
/// callback, and the hook is installed again when the call returns.
pub proof fn lemma_after_call(site: SiteView, code: Seq<u8>)
    requires
        site.armed(code),
        site.hook.kind == HookKind::After,
    ensures
        site.call().1 is None,
        site.call().0.armed(code),
        site.call().0.intercepted(),
        site.call().0.hook == site.hook,
        site.call().0.trace == site.trace + seq![Event::Original, Event::Callback],
{
    let abi = site.hook.abi;
    let entry = site.hook.interceptor;
    lemma_backup_is_what_was_overwritten(code, abi, entry);
    lemma_install_then_restore(code, abi, entry);
    let steps = sequence_spec(HookKind::After);
    let t1 = steps.drop_first();
    let t2 = t1.drop_first();
    let t3 = t2.drop_first();
    let t4 = t3.drop_first();
    let s1 = site.step(steps[0]).0;
    let s2 = s1.step(steps[1]).0;
    let s3 = s2.step(steps[2]).0;
    let s4 = s3.step(steps[3]).0;
    let s5 = s4.step(steps[4]).0;
    assert(t1[0] == steps[1] && t2[0] == steps[2] && t3[0] == steps[3] && t4[0] == steps[4]);
    assert(t4.drop_first().len() == 0);
    assert(s1.region.bytes == code);
    assert(site.run(steps) == s1.run(t1));
    assert(s1.run(t1) == s2.run(t2));
    assert(s2.run(t2) == s3.run(t3));
    assert(s3.run(t3) == s4.run(t4));
    lemma_run_nothing(s5, t4.drop_first());
    assert(s4.run(t4) == (s5, None::<HookError>));
    assert(s5.trace =~= site.trace + seq![Event::Original, Event::Callback]);
}

/// A call-after hook fires on every call: after `n` calls in a row the
/// callback has run `n` times, each time right after the original function,
/// and the hook is still installed.
pub proof fn lemma_after_fires_every_call(site: SiteView, code: Seq<u8>, n: nat)
    requires
        site.armed(code),
        site.hook.kind == HookKind::After,
    ensures
        site.calls(n).1 is None,
        site.calls(n).0.armed(code),
        site.calls(n).0.trace == site.trace + repeat(seq![Event::Original, Event::Callback], n),
        fired(site.calls(n).0.trace) == fired(site.trace) + n,
    decreases n,
{
    let pattern = seq![Event::Original, Event::Callback];
    if n == 0 {
        assert(site.trace + repeat(pattern, 0) =~= site.trace);
    } else {
        lemma_after_call(site, code);
        let next = site.call().0;
        lemma_after_fires_every_call(next, code, (n - 1) as nat);
        assert(site.calls(n).0.trace =~= site.trace + repeat(pattern, n));
        lemma_fired_adds(site.trace, pattern);
        lemma_fired_two(Event::Original, Event::Callback);
        lemma_fired_one(Event::Callback);
        lemma_fired_one(Event::Original);
    }
}

} // verus!
