//! The surface-lifecycle state machine.
//!
//! One manager owns the native surface and buffer-pool resources for one
//! target display. Asynchronous display-server notifications (output added or
//! removed, surface configured or closed, size collapsed to zero) are folded
//! into a total transition function over a small set of states, so every
//! reachable combination is checkable.

use vstd::prelude::*;
use crate::registry::{OutputRegistry, first_match};

verus! {

/// Where the surface stands.
#[derive(Clone, Copy, Debug, PartialEq, Eq, Structural)]
pub enum SurfaceState {
    /// No output bound yet.
    Unbound,
    /// Surface requested; waiting for its first non-zero size.
    Pending,
    /// Configured and drawable at the recorded size.
    Active { width: u32, height: u32 },
    /// Size collapsed to zero: the output is powered off.
    Suspended,
    /// The bound output vanished from the registry while the surface object
    /// is still held.
    Zombie,
    /// The display server destroyed the surface object.
    Closed,
}

/// What the display server or the registry reports.
#[derive(Clone, Copy, Debug, PartialEq, Eq, Structural)]
pub enum SurfaceEvent {
    /// The registry resolved the target to this output.
    OutputBound { id: u64 },
    /// The surface was given a size (possibly zero).
    Configured { width: u32, height: u32 },
    /// The bound output is no longer present in the registry.
    OutputGone,
    /// The display server destroyed the surface.
    SurfaceClosed,
}

/// One step of the machine: the next state and the actions owed before the
/// next event.
#[derive(Clone, Copy, Debug, PartialEq, Eq, Structural)]
pub struct Transition {
    pub next: SurfaceState,
    /// Re-issue the full-screen pin commit (anchor all edges, margin -1,
    /// exclusive zone -1) before redrawing.
    pub pin_commit: bool,
    /// Redraw attempts owed now; three on a resume to defeat the transient
    /// post-resume stale-frame race, one otherwise.
    pub redraws: u32,
    /// Discard the surface and buffer pool and request fresh ones.
    pub recreate: bool,
}

pub open spec fn no_op(s: SurfaceState) -> Transition {
    Transition { next: s, pin_commit: false, redraws: 0, recreate: false }
}

/// The total transition function.
pub open spec fn spec_transition(s: SurfaceState, e: SurfaceEvent) -> Transition {
    match (s, e) {
        (SurfaceState::Unbound, SurfaceEvent::OutputBound { .. }) => Transition {
            next: SurfaceState::Pending,
            pin_commit: false,
            redraws: 0,
            recreate: true,
        },
        (SurfaceState::Zombie, SurfaceEvent::OutputBound { .. }) => Transition {
            next: SurfaceState::Pending,
            pin_commit: false,
            redraws: 0,
            recreate: true,
        },
        (SurfaceState::Closed, SurfaceEvent::OutputBound { .. }) => Transition {
            next: SurfaceState::Pending,
            pin_commit: false,
            redraws: 0,
            recreate: true,
        },
        (SurfaceState::Pending, SurfaceEvent::Configured { width, height }) => {
            if width > 0 && height > 0 {
                // First non-zero size: pin to full screen, then draw.
                Transition {
                    next: SurfaceState::Active { width, height },
                    pin_commit: true,
                    redraws: 1,
                    recreate: false,
                }
            } else {
                no_op(s)
            }
        },
        (SurfaceState::Active { width: w0, height: h0 }, SurfaceEvent::Configured {
            width,
            height,
        }) => {
            if width == 0 || height == 0 {
                // The output powered off.
                Transition {
                    next: SurfaceState::Suspended,
                    pin_commit: false,
                    redraws: 0,
                    recreate: false,
                }
            } else {
                Transition {
                    next: SurfaceState::Active { width, height },
                    pin_commit: false,
                    redraws: if width != w0 || height != h0 {
                        1u32
                    } else {
                        0u32
                    },
                    recreate: false,
                }
            }
        },
        (SurfaceState::Suspended, SurfaceEvent::Configured { width, height }) => {
            if width > 0 && height > 0 {
                // Resume: re-pin defensively and redraw three times.
                Transition {
                    next: SurfaceState::Active { width, height },
                    pin_commit: true,
                    redraws: 3,
                    recreate: false,
                }
            } else {
                no_op(s)
            }
        },
        (SurfaceState::Active { .. }, SurfaceEvent::OutputGone) => Transition {
            next: SurfaceState::Zombie,
            pin_commit: false,
            redraws: 0,
            recreate: false,
        },
        (SurfaceState::Suspended, SurfaceEvent::OutputGone) => Transition {
            next: SurfaceState::Zombie,
            pin_commit: false,
            redraws: 0,
            recreate: false,
        },
        (SurfaceState::Pending, SurfaceEvent::OutputGone) => Transition {
            next: SurfaceState::Zombie,
            pin_commit: false,
            redraws: 0,
            recreate: false,
        },
        (SurfaceState::Active { .. }, SurfaceEvent::SurfaceClosed) => Transition {
            next: SurfaceState::Closed,
            pin_commit: false,
            redraws: 0,
            recreate: false,
        },
        (SurfaceState::Pending, SurfaceEvent::SurfaceClosed) => Transition {
            next: SurfaceState::Closed,
            pin_commit: false,
            redraws: 0,
            recreate: false,
        },
        (SurfaceState::Suspended, SurfaceEvent::SurfaceClosed) => Transition {
            next: SurfaceState::Closed,
            pin_commit: false,
            redraws: 0,
            recreate: false,
        },
        _ => no_op(s),
    }
}

/// Executable transition; computes exactly `spec_transition`.
pub fn transition(s: &SurfaceState, e: &SurfaceEvent) -> (t: Transition)
    ensures
        t == spec_transition(*s, *e),
{
    match (s, e) {
        (SurfaceState::Unbound, SurfaceEvent::OutputBound { .. })
        | (SurfaceState::Zombie, SurfaceEvent::OutputBound { .. })
        | (SurfaceState::Closed, SurfaceEvent::OutputBound { .. }) => Transition {
            next: SurfaceState::Pending,
            pin_commit: false,
            redraws: 0,
            recreate: true,
        },
        (SurfaceState::Pending, SurfaceEvent::Configured { width, height }) => {
            if *width > 0 && *height > 0 {
                Transition {
                    next: SurfaceState::Active { width: *width, height: *height },
                    pin_commit: true,
                    redraws: 1,
                    recreate: false,
                }
            } else {
                Transition { next: *s, pin_commit: false, redraws: 0, recreate: false }
            }
        },
        (SurfaceState::Active { width: w0, height: h0 }, SurfaceEvent::Configured {
            width,
            height,
        }) => {
            if *width == 0 || *height == 0 {
                Transition {
                    next: SurfaceState::Suspended,
                    pin_commit: false,
                    redraws: 0,
                    recreate: false,
                }
            } else {
                Transition {
                    next: SurfaceState::Active { width: *width, height: *height },
                    pin_commit: false,
                    redraws: if *width != *w0 || *height != *h0 {
                        1
                    } else {
                        0
                    },
                    recreate: false,
                }
            }
        },
        (SurfaceState::Suspended, SurfaceEvent::Configured { width, height }) => {
            if *width > 0 && *height > 0 {
                Transition {
                    next: SurfaceState::Active { width: *width, height: *height },
                    pin_commit: true,
                    redraws: 3,
                    recreate: false,
                }
            } else {
                Transition { next: *s, pin_commit: false, redraws: 0, recreate: false }
            }
        },
        (SurfaceState::Active { .. }, SurfaceEvent::OutputGone)
        | (SurfaceState::Suspended, SurfaceEvent::OutputGone)
        | (SurfaceState::Pending, SurfaceEvent::OutputGone) => Transition {
            next: SurfaceState::Zombie,
            pin_commit: false,
            redraws: 0,
            recreate: false,
        },
        (SurfaceState::Active { .. }, SurfaceEvent::SurfaceClosed)
        | (SurfaceState::Pending, SurfaceEvent::SurfaceClosed)
        | (SurfaceState::Suspended, SurfaceEvent::SurfaceClosed) => Transition {
            next: SurfaceState::Closed,
            pin_commit: false,
            redraws: 0,
            recreate: false,
        },
        _ => Transition { next: *s, pin_commit: false, redraws: 0, recreate: false },
    }
}

/// The lifecycle manager for one target display.
pub struct LifecycleManager {
    pub target: String,
    pub state: SurfaceState,
    pub bound_output: Option<u64>,
}

impl LifecycleManager {
    /// Whether an output is bound whose identity the registry no longer
    /// knows.
    pub open spec fn bound_missing(self, reg: OutputRegistry) -> bool {
        match self.bound_output {
            Some(id) => !reg.spec_contains_id(id),
            None => false,
        }
    }

    /// States from which the manager looks for an output to bind.
    pub open spec fn seeks_output(self) -> bool {
        self.state is Unbound || self.state is Zombie || self.state is Closed
    }

    /// States that hold a live surface on the bound output.
    pub open spec fn holds_surface(self) -> bool {
        self.state is Active || self.state is Suspended || self.state is Pending
    }

    pub fn new(target: String) -> (m: LifecycleManager)
        ensures
            m.state == SurfaceState::Unbound,
            m.bound_output is None,
            m.target@ == target@,
    {
        LifecycleManager { target, state: SurfaceState::Unbound, bound_output: None }
    }

    /// Apply a size notification.
    pub fn handle_configure(&mut self, width: u32, height: u32) -> (t: Transition)
        ensures
            t == spec_transition(
                old(self).state,
                SurfaceEvent::Configured { width, height },
            ),
            final(self).state == t.next,
            final(self).bound_output == old(self).bound_output,
            final(self).target == old(self).target,
    {
        let t = transition(&self.state, &SurfaceEvent::Configured { width, height });
        self.state = t.next;
        t
    }

    /// Apply an explicit surface teardown by the display server.
    pub fn handle_closed(&mut self) -> (t: Transition)
        ensures
            t == spec_transition(old(self).state, SurfaceEvent::SurfaceClosed),
            final(self).state == t.next,
            final(self).bound_output == old(self).bound_output,
            final(self).target == old(self).target,
    {
        let t = transition(&self.state, &SurfaceEvent::SurfaceClosed);
        self.state = t.next;
        t
    }

    /// One tick of registry reconciliation: a bound output that vanished
    /// drives the machine to `Zombie` and unbinds; a seeking machine binds
    /// the first output matching the target and enters `Pending`.
    pub fn reconcile_registry(&mut self, registry: &OutputRegistry) -> (t: Transition)
        ensures
            final(self).target == old(self).target,
            old(self).bound_missing(*registry) && old(self).holds_surface() ==> {
                &&& t == spec_transition(old(self).state, SurfaceEvent::OutputGone)
                &&& final(self).state == t.next
                &&& final(self).bound_output is None
            },
            !(old(self).bound_missing(*registry) && old(self).holds_surface())
                && old(self).seeks_output() && first_match(
                registry.outputs@,
                old(self).target@,
                old(self).bound_output is Some,
            ) is Some ==> {
                &&& t == spec_transition(
                    old(self).state,
                    SurfaceEvent::OutputBound {
                        id: first_match(
                            registry.outputs@,
                            old(self).target@,
                            old(self).bound_output is Some,
                        )->0,
                    },
                )
                &&& final(self).state == t.next
                &&& final(self).bound_output == first_match(
                    registry.outputs@,
                    old(self).target@,
                    old(self).bound_output is Some,
                )
            },
            !(old(self).bound_missing(*registry) && old(self).holds_surface()) && !(old(
                self,
            ).seeks_output() && first_match(
                registry.outputs@,
                old(self).target@,
                old(self).bound_output is Some,
            ) is Some) ==> *final(self) == *old(self) && t == no_op(old(self).state),
    {
        let gone = match self.bound_output {
            Some(id) => !registry.contains_id(id),
            None => false,
        };
        let live = match self.state {
            SurfaceState::Active { .. } => true,
            SurfaceState::Suspended => true,
            SurfaceState::Pending => true,
            _ => false,
        };
        if gone && live {
            let t = transition(&self.state, &SurfaceEvent::OutputGone);
            self.state = t.next;
            self.bound_output = None;
            return t;
        }
        let seeking = match self.state {
            SurfaceState::Unbound => true,
            SurfaceState::Zombie => true,
            SurfaceState::Closed => true,
            _ => false,
        };
        if seeking {
            match registry.resolve(self.target.as_str(), self.bound_output.is_some()) {
                Some(id) => {
                    let t = transition(&self.state, &SurfaceEvent::OutputBound { id });
                    self.state = t.next;
                    self.bound_output = Some(id);
                    return t;
                },
                None => {},
            }
        }
        Transition { next: self.state, pin_commit: false, redraws: 0, recreate: false }
    }

    /// Whether the worker should terminate: nothing bound and no output
    /// known at all.
    pub fn should_exit(&self, registry: &OutputRegistry) -> (r: bool)
        ensures
            r == (self.bound_output is None && registry.outputs@.len() == 0),
    {
        self.bound_output.is_none() && registry.is_empty()
    }
}

/// From `Active`, a configure with either dimension zero always suspends;
/// from `Suspended`, a non-zero configure always reactivates at the new size,
/// re-issues the pin commit, and owes exactly three redraw attempts.
pub proof fn lemma_suspend_resume(w0: u32, h0: u32, w: u32, h: u32)
    ensures
        (w == 0 || h == 0) ==> spec_transition(
            SurfaceState::Active { width: w0, height: h0 },
            SurfaceEvent::Configured { width: w, height: h },
        ).next == SurfaceState::Suspended,
        (w > 0 && h > 0) ==> spec_transition(
            SurfaceState::Suspended,
            SurfaceEvent::Configured { width: w, height: h },
        ) == (Transition {
            next: SurfaceState::Active { width: w, height: h },
            pin_commit: true,
            redraws: 3,
            recreate: false,
        }),
{
}

/// Losing the bound output while `Active` or `Suspended` yields `Zombie`.
pub proof fn lemma_output_removal_yields_zombie(s: SurfaceState)
    requires
        s is Active || s is Suspended,
    ensures
        spec_transition(s, SurfaceEvent::OutputGone).next == SurfaceState::Zombie,
{
}

/// A zombie whose target reappears in the registry rebinds to `Pending` with
/// a fresh surface, and its next non-zero configure reaches `Active` again.
pub proof fn lemma_zombie_recovery(id: u64, w: u32, h: u32)
    requires
        w > 0,
        h > 0,
    ensures
        spec_transition(SurfaceState::Zombie, SurfaceEvent::OutputBound { id })
            == (Transition {
            next: SurfaceState::Pending,
            pin_commit: false,
            redraws: 0,
            recreate: true,
        }),
        spec_transition(
            SurfaceState::Pending,
            SurfaceEvent::Configured { width: w, height: h },
        ).next == (SurfaceState::Active { width: w, height: h }),
{
}

/// The machine never records a zero dimension in `Active`: if the current
/// state respects that, so does the next.
pub proof fn lemma_active_dims_nonzero(s: SurfaceState, e: SurfaceEvent)
    requires
        (match s {
            SurfaceState::Active { width, height } => width > 0 && height > 0,
            _ => true,
        }),
    ensures
        (match spec_transition(s, e).next {
            SurfaceState::Active { width, height } => width > 0 && height > 0,
            _ => true,
        }),
{
}

/// Every entry into `Pending` discards the old surface and requests a fresh
/// buffer pool: a stale pool is never reused on a recreated surface.
pub proof fn lemma_pending_entry_recreates(s: SurfaceState, e: SurfaceEvent)
    requires
        !(s is Pending),
        spec_transition(s, e).next is Pending,
    ensures
        spec_transition(s, e).recreate,
{
}

/// A closed surface is re-requested: binding an output from `Closed` enters
/// `Pending` with a fresh surface and pool.
pub proof fn lemma_closed_recovery(s: SurfaceState, id: u64)
    requires
        s is Active || s is Pending || s is Suspended,
    ensures
        spec_transition(s, SurfaceEvent::SurfaceClosed).next == SurfaceState::Closed,
        spec_transition(SurfaceState::Closed, SurfaceEvent::OutputBound { id }).recreate,
        spec_transition(SurfaceState::Closed, SurfaceEvent::OutputBound { id }).next
            == SurfaceState::Pending,
{
}

} // verus!
