//! Notifications for when a thread is about to block, and when it wakes again.
//!
//! The motivating consumer is an allocator: mimalloc-style allocators can only
//! return the free space inside a still-used page from the thread that owns it, and
//! only while that thread is not allocating, so a thread that never announces its
//! idle points keeps its slack for the life of the process. A park is exactly that
//! announcement.
//!
//! Hooks are set once, before any executor starts, and by default there are none.
use vstd::prelude::*;

verus! {

/// The pair an embedder installs with [`set_thread_park_hooks`].
#[derive(Clone, Copy, Debug)]
pub struct ThreadParkHooks<H> {
    /// Called on the thread that is about to block.
    pub on_park: H,
    /// Called on that same thread when it wakes.
    pub on_unpark: H,
}

/// The hooks of a process, each of them set once at most.
#[derive(Clone, Copy, Debug)]
pub struct ParkHooks<H> {
    /// The hooks around blocking.
    pub hooks: Option<ThreadParkHooks<H>>,
    /// The hook called when the main thread is about to sleep.
    pub on_idle: Option<H>,
}

impl<H> ParkHooks<H> {
    /// No hooks.
    pub fn new() -> (result: Self)
        ensures
            result.hooks is None,
            result.on_idle is None,
    {
        ParkHooks { hooks: None, on_idle: None }
    }
}

/// Install the park/unpark pair.
///
/// Call once, before worker threads start: a hook installed after that misses every
/// park those threads have already entered.
///
/// Returns `false` if hooks were already installed, in which case the existing
/// pair is kept.
///
/// `on_park` runs immediately before the thread blocks and `on_unpark`
/// immediately after it wakes, on that same thread, always paired. Neither may
/// block or panic: a park hook runs while the executor holds its queue lock, so
/// anything slow here is contention every other worker pays for.
pub fn set_thread_park_hooks<H>(registry: &mut ParkHooks<H>, on_park: H, on_unpark: H) -> (result:
    bool)
    ensures
        result == old(registry).hooks is None,
        final(registry).on_idle == old(registry).on_idle,
        final(registry).hooks == (match old(registry).hooks {
            Some(hooks) => Some(hooks),
            None => Some(ThreadParkHooks { on_park, on_unpark }),
        }),
{
    if registry.hooks.is_some() {
        return false;
    }
    registry.hooks = Some(ThreadParkHooks { on_park, on_unpark });
    true
}

/// Install a hook called on the main thread each time it is about to sleep in
/// the platform run loop.
///
/// Unpaired, unlike [`set_thread_park_hooks`], and that difference is the whole
/// point. A paired hook asks the embedder to do something for the *duration* of
/// the block, which is only sound where nothing else runs in between. On the main
/// thread any other run-loop observer gets its turn after this fires and before the
/// thread actually sleeps, and it allocates. So this hook must do its work
/// synchronously and return, holding nothing across the sleep.
///
/// Fires often, so it must be cheap and self-rate-limiting.
///
/// Returns `false` if a hook was already installed, in which case it is kept.
pub fn set_main_thread_idle_hook<H>(registry: &mut ParkHooks<H>, on_idle: H) -> (result: bool)
    ensures
        result == old(registry).on_idle is None,
        final(registry).hooks == old(registry).hooks,
        final(registry).on_idle == (match old(registry).on_idle {
            Some(installed) => Some(installed),
            None => Some(on_idle),
        }),
{
    if registry.on_idle.is_some() {
        return false;
    }
    registry.on_idle = Some(on_idle);
    true
}

/// The hook to run when the main thread is about to sleep, if one is installed.
pub fn main_thread_idle<H: Copy>(registry: &ParkHooks<H>) -> (result: Option<H>)
    ensures
        result == registry.on_idle,
{
    registry.on_idle
}

/// What a thread that has announced to block owes when it wakes.
#[derive(Clone, Copy, Debug)]
pub struct Parked<H> {
    /// The hook to run then.
    pub on_unpark: Option<H>,
}

/// What to do when a thread is about to block: the hook to run now, and the one
/// that is owed when it wakes. Either both are installed or none is, so that they
/// always pair.
pub fn park<H: Copy>(registry: &ParkHooks<H>) -> (result: (Option<H>, Parked<H>))
    ensures
        result.0 == (match registry.hooks {
            Some(hooks) => Some(hooks.on_park),
            None => None,
        }),
        result.1.on_unpark == (match registry.hooks {
            Some(hooks) => Some(hooks.on_unpark),
            None => None,
        }),
        result.0 is Some <==> result.1.on_unpark is Some,
{
    match registry.hooks {
        Some(hooks) => (Some(hooks.on_park), Parked { on_unpark: Some(hooks.on_unpark) }),
        None => (None, Parked { on_unpark: None }),
    }
}

} // verus!
