//! Keeping the system awake while live streams are active.

use vstd::prelude::*;

verus! {

/// Whether the system is kept awake.
#[derive(Debug, Clone, Copy, PartialEq, Eq)]
pub struct PowerGuard {
    active: bool,
    system_required: bool,
}

/// Whether the process runs unthrottled, and whether the system may not sleep.
#[verifier::ext_equal]
pub struct PowerView {
    pub active: bool,
    pub system_required: bool,
}

impl View for PowerGuard {
    type V = PowerView;

    closed spec fn view(&self) -> PowerView {
        PowerView { active: self.active, system_required: self.system_required }
    }
}

impl PowerGuard {
    /// The system is not kept awake.
    pub fn new() -> (g: Self)
        ensures
            g@ == (PowerView { active: false, system_required: false }),
    {
        PowerGuard { active: false, system_required: false }
    }
}

/// Lets the process run unthrottled. True when that was taken note of.
pub fn disable_power_throttling(guard: &mut PowerGuard) -> (r: bool)
    ensures
        r,
        final(guard)@ == (PowerView { active: true, ..old(guard)@ }),
{
    guard.active = true;
    true
}

/// Says whether the system may not sleep. True when that was taken note of.
pub fn set_system_required(guard: &mut PowerGuard, active: bool) -> (r: bool)
    ensures
        r,
        final(guard)@ == (PowerView { system_required: active, ..old(guard)@ }),
{
    guard.system_required = active;
    true
}

/// True when the system is kept awake.
pub fn is_active(guard: &PowerGuard) -> (r: bool)
    ensures
        r == guard@.active,
{
    guard.active
}

/// Keeps the system awake, if it is not yet.
pub fn init(guard: &mut PowerGuard)
    ensures
        final(guard)@ == if old(guard)@.active {
            old(guard)@
        } else {
            PowerView { active: true, system_required: true }
        },
{
    if !is_active(guard) {
        disable_power_throttling(guard);
        set_system_required(guard, true);
    }
}

/// No longer keeps the system awake, if it did.
pub fn cleanup(guard: &mut PowerGuard)
    ensures
        final(guard)@ == if old(guard)@.active {
            PowerView { active: false, system_required: false }
        } else {
            old(guard)@
        },
{
    if is_active(guard) {
        set_system_required(guard, false);
        guard.active = false;
    }
}

} // verus!
