//! Decisions of the event dispatch loop.
//!
//! The loop itself is plain single-threaded plumbing: once per 50 ms tick it
//! polls protocol events, two signal flags and the clock, and calls into the
//! lifecycle manager. Every decision it takes per tick is computed here, as a
//! pure function of what it sampled, so the order and the conditions of the
//! dispatch steps are checkable.

use vstd::prelude::*;
use crate::lifecycle::SurfaceState;

verus! {

/// The fixed poll period of the dispatch loop.
pub const POLL_PERIOD_MS: u64 = 50;

/// How long after a resume extra freshness redraws may be owed.
pub const RESUME_WINDOW_MS: u64 = 10000;

/// How stale the last redraw must be, within that window, to owe one.
pub const REDRAW_STALE_MS: u64 = 2000;

/// The two externally raised flags the loop samples each tick.
#[derive(Clone, Copy, Debug, PartialEq, Eq, Structural)]
pub struct TickFlags {
    /// Shutdown requested: the compositor connection is gone or a
    /// termination signal arrived.
    pub shutdown: bool,
    /// The configuration file changed since the last reload.
    pub config_changed: bool,
}

/// What one tick owes, beyond driving the lifecycle manager.
#[derive(Clone, Copy, Debug, PartialEq, Eq, Structural)]
pub struct TickPlan {
    /// Stop the loop and exit cleanly.
    pub exit: bool,
    /// Reload and re-merge the effective configuration, then clear the flag.
    pub reload_config: bool,
    /// Redraw right after the reload (only while a surface is active).
    pub redraw_after_reload: bool,
    /// Force an extra redraw: recently resumed and the last frame is stale.
    pub extra_redraw: bool,
}

/// Whether a post-resume freshness redraw is due.
pub open spec fn spec_resume_redraw_due(
    now_ms: u64,
    resume_at_ms: Option<u64>,
    last_draw_ms: u64,
) -> bool {
    match resume_at_ms {
        Some(t) => now_ms - t < 10000 && now_ms - last_draw_ms > 2000,
        None => false,
    }
}

/// The decisions of one tick, in dispatch order: a set shutdown flag or an
/// empty registry with nothing bound ends the worker; otherwise a raised
/// config flag forces a reload, redrawing only while active; and within ten
/// seconds of a resume a frame older than two seconds is redrawn.
pub fn plan_tick(
    flags: TickFlags,
    state: &SurfaceState,
    registry_empty: bool,
    bound: bool,
    now_ms: u64,
    resume_at_ms: Option<u64>,
    last_draw_ms: u64,
) -> (p: TickPlan)
    requires
        resume_at_ms is Some ==> resume_at_ms->0 <= now_ms,
        last_draw_ms <= now_ms,
    ensures
        p.exit == (flags.shutdown || (registry_empty && !bound)),
        p.reload_config == (!p.exit && flags.config_changed),
        p.redraw_after_reload == (p.reload_config && state is Active),
        p.extra_redraw == (!p.exit && spec_resume_redraw_due(now_ms, resume_at_ms, last_draw_ms)
            && state is Active),
{
    let exit = flags.shutdown || (registry_empty && !bound);
    let active = match state {
        SurfaceState::Active { .. } => true,
        _ => false,
    };
    let reload_config = !exit && flags.config_changed;
    let due = match resume_at_ms {
        Some(t) => now_ms - t < RESUME_WINDOW_MS && now_ms - last_draw_ms > REDRAW_STALE_MS,
        None => false,
    };
    TickPlan {
        exit,
        reload_config,
        redraw_after_reload: reload_config && active,
        extra_redraw: !exit && due && active,
    }
}

/// Debounce stage between the file watcher and the dispatch loop: the first
/// change notification arms a deadline 100 ms out, further notifications
/// within it are absorbed, and one signal is emitted when it expires.
pub struct Debouncer {
    pub deadline: Option<u64>,
}

impl Debouncer {
    pub fn new() -> (d: Debouncer)
        ensures
            d.deadline is None,
    {
        Debouncer { deadline: None }
    }

    /// A change notification arrived.
    pub fn note_event(&mut self, now_ms: u64)
        requires
            now_ms + 100 <= u64::MAX,
        ensures
            old(self).deadline is None ==> final(self).deadline == Some((now_ms + 100) as u64),
            old(self).deadline is Some ==> final(self).deadline == old(self).deadline,
    {
        if self.deadline.is_none() {
            self.deadline = Some(now_ms + 100);
        }
    }

    /// Emit the collapsed signal once the deadline has passed.
    pub fn poll(&mut self, now_ms: u64) -> (fire: bool)
        ensures
            fire == (old(self).deadline is Some && old(self).deadline->0 <= now_ms),
            fire ==> final(self).deadline is None,
            !fire ==> final(self).deadline == old(self).deadline,
    {
        match self.deadline {
            Some(d) => {
                if d <= now_ms {
                    self.deadline = None;
                    true
                } else {
                    false
                }
            },
            None => false,
        }
    }
}

/// The connection retry policy: up to ten attempts, then fatal.
pub fn connection_retry_allowed(attempts_so_far: u32) -> (r: bool)
    ensures
        r == (attempts_so_far < 10),
{
    attempts_so_far < 10
}

} // verus!
