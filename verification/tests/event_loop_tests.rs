use snug::event_loop::{Debouncer, TickFlags, connection_retry_allowed, plan_tick};
use snug::lifecycle::SurfaceState;
use snug::registry::{OutputHandle, OutputRegistry};
use snug::text::str_eq;

const ACTIVE: SurfaceState = SurfaceState::Active { width: 100, height: 100 };

#[test]
fn shutdown_wins_over_everything() {
    let p = plan_tick(
        TickFlags { shutdown: true, config_changed: true },
        &ACTIVE,
        false,
        true,
        5000,
        Some(4000),
        0,
    );
    assert!(p.exit);
    assert!(!p.reload_config);
    assert!(!p.redraw_after_reload);
    assert!(!p.extra_redraw);
}

#[test]
fn empty_registry_unbound_exits() {
    let p = plan_tick(
        TickFlags { shutdown: false, config_changed: false },
        &SurfaceState::Unbound,
        true,
        false,
        0,
        None,
        0,
    );
    assert!(p.exit);
    // bound workers ride out an empty registry
    let p2 = plan_tick(
        TickFlags { shutdown: false, config_changed: false },
        &ACTIVE,
        true,
        true,
        0,
        None,
        0,
    );
    assert!(!p2.exit);
}

#[test]
fn config_change_reloads_and_redraws_when_active() {
    let flags = TickFlags { shutdown: false, config_changed: true };
    let p = plan_tick(flags, &ACTIVE, false, true, 100, None, 100);
    assert!(p.reload_config);
    assert!(p.redraw_after_reload);
    let p2 = plan_tick(flags, &SurfaceState::Suspended, false, true, 100, None, 100);
    assert!(p2.reload_config);
    assert!(!p2.redraw_after_reload);
}

#[test]
fn post_resume_freshness_redraw() {
    let flags = TickFlags { shutdown: false, config_changed: false };
    // within the ten-second window, frame older than two seconds
    let p = plan_tick(flags, &ACTIVE, false, true, 8000, Some(1000), 5000);
    assert!(p.extra_redraw);
    // frame fresh enough
    let p2 = plan_tick(flags, &ACTIVE, false, true, 8000, Some(1000), 7000);
    assert!(!p2.extra_redraw);
    // window expired
    let p3 = plan_tick(flags, &ACTIVE, false, true, 12000, Some(1000), 5000);
    assert!(!p3.extra_redraw);
    // no resume recorded
    let p4 = plan_tick(flags, &ACTIVE, false, true, 8000, None, 5000);
    assert!(!p4.extra_redraw);
}

#[test]
fn debouncer_collapses_bursts() {
    let mut d = Debouncer::new();
    assert!(!d.poll(0));
    d.note_event(1000);
    // burst within the window is absorbed
    d.note_event(1050);
    d.note_event(1090);
    assert!(!d.poll(1099));
    assert!(d.poll(1100));
    // one signal only
    assert!(!d.poll(1200));
    // a later event arms a new deadline
    d.note_event(5000);
    assert!(d.poll(5100));
}

#[test]
fn connection_retries_capped() {
    for attempt in 0..10 {
        assert!(connection_retry_allowed(attempt));
    }
    assert!(!connection_retry_allowed(10));
    assert!(!connection_retry_allowed(11));
}

#[test]
fn registry_resolution_rules() {
    let reg = OutputRegistry {
        outputs: vec![
            OutputHandle { id: 1, name: "eDP-1".to_string() },
            OutputHandle { id: 2, name: "DP-1".to_string() },
        ],
    };
    assert_eq!(reg.resolve("DP-1", false), Some(2));
    assert_eq!(reg.resolve("DP-9", false), None);
    // the default sentinel takes the first output while nothing is bound
    assert_eq!(reg.resolve("default", false), Some(1));
    assert_eq!(reg.resolve("default", true), None);
    assert!(reg.contains_id(2));
    assert!(!reg.contains_id(3));
    assert!(!reg.is_empty());
    assert!(OutputRegistry::new().is_empty());
}

#[test]
fn str_eq_by_contents() {
    assert!(str_eq("DP-1", "DP-1"));
    assert!(!str_eq("DP-1", "DP-2"));
    assert!(!str_eq("DP-1", "DP-11"));
    assert!(str_eq("", ""));
}
