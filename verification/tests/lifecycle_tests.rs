use snug::lifecycle::{LifecycleManager, SurfaceEvent, SurfaceState, Transition, transition};
use snug::registry::{OutputHandle, OutputRegistry};

fn reg(entries: &[(u64, &str)]) -> OutputRegistry {
    OutputRegistry {
        outputs: entries
            .iter()
            .map(|&(id, name)| OutputHandle { id, name: name.to_string() })
            .collect(),
    }
}

#[test]
fn active_zero_configure_suspends() {
    let s = SurfaceState::Active { width: 800, height: 600 };
    let t = transition(&s, &SurfaceEvent::Configured { width: 0, height: 0 });
    assert_eq!(t.next, SurfaceState::Suspended);
    assert_eq!(t.redraws, 0);
}

#[test]
fn suspended_resume_owes_three_redraws() {
    let t = transition(
        &SurfaceState::Suspended,
        &SurfaceEvent::Configured { width: 2560, height: 1440 },
    );
    assert_eq!(
        t,
        Transition {
            next: SurfaceState::Active { width: 2560, height: 1440 },
            pin_commit: true,
            redraws: 3,
            recreate: false,
        }
    );
}

#[test]
fn pending_first_configure_pins_and_draws() {
    let t = transition(
        &SurfaceState::Pending,
        &SurfaceEvent::Configured { width: 1920, height: 1080 },
    );
    assert_eq!(t.next, SurfaceState::Active { width: 1920, height: 1080 });
    assert!(t.pin_commit);
    assert_eq!(t.redraws, 1);
    // a zero size keeps it pending
    let t0 = transition(&SurfaceState::Pending, &SurfaceEvent::Configured { width: 0, height: 0 });
    assert_eq!(t0.next, SurfaceState::Pending);
}

#[test]
fn active_resize_redraws_once() {
    let s = SurfaceState::Active { width: 800, height: 600 };
    let t = transition(&s, &SurfaceEvent::Configured { width: 1024, height: 768 });
    assert_eq!(t.next, SurfaceState::Active { width: 1024, height: 768 });
    assert_eq!(t.redraws, 1);
    let same = transition(&s, &SurfaceEvent::Configured { width: 800, height: 600 });
    assert_eq!(same.redraws, 0);
}

#[test]
fn closed_surface_rebinds_to_pending() {
    let s = SurfaceState::Active { width: 800, height: 600 };
    let t = transition(&s, &SurfaceEvent::SurfaceClosed);
    assert_eq!(t.next, SurfaceState::Closed);
    let t2 = transition(&SurfaceState::Closed, &SurfaceEvent::OutputBound { id: 9 });
    assert_eq!(t2.next, SurfaceState::Pending);
    assert!(t2.recreate);
}

#[test]
fn removal_then_reappearance_reaches_active() {
    // one tick after the bound output disappears, the manager is a zombie
    let mut m = LifecycleManager::new("DP-1".to_string());
    let r1 = reg(&[(7, "DP-1")]);
    let t = m.reconcile_registry(&r1);
    assert_eq!(t.next, SurfaceState::Pending);
    assert!(t.recreate);
    assert_eq!(m.bound_output, Some(7));
    m.handle_configure(1920, 1080);
    assert_eq!(m.state, SurfaceState::Active { width: 1920, height: 1080 });

    let empty = reg(&[]);
    let t = m.reconcile_registry(&empty);
    assert_eq!(t.next, SurfaceState::Zombie);
    assert_eq!(m.state, SurfaceState::Zombie);
    assert_eq!(m.bound_output, None);

    // the output returns under the same name with a fresh identity
    let r2 = reg(&[(8, "DP-1")]);
    let t = m.reconcile_registry(&r2);
    assert_eq!(t.next, SurfaceState::Pending);
    assert!(t.recreate);
    assert_eq!(m.bound_output, Some(8));
    m.handle_configure(1920, 1080);
    assert_eq!(m.state, SurfaceState::Active { width: 1920, height: 1080 });
}

#[test]
fn zombie_from_suspended_too() {
    let mut m = LifecycleManager::new("DP-2".to_string());
    m.reconcile_registry(&reg(&[(1, "DP-2")]));
    m.handle_configure(800, 600);
    m.handle_configure(0, 0);
    assert_eq!(m.state, SurfaceState::Suspended);
    m.reconcile_registry(&reg(&[(2, "DP-3")]));
    assert_eq!(m.state, SurfaceState::Zombie);
}

#[test]
fn default_target_binds_first_output() {
    let mut m = LifecycleManager::new("default".to_string());
    let t = m.reconcile_registry(&reg(&[(3, "eDP-1"), (4, "DP-1")]));
    assert_eq!(t.next, SurfaceState::Pending);
    assert_eq!(m.bound_output, Some(3));
}

#[test]
fn unrelated_registry_change_is_no_op() {
    let mut m = LifecycleManager::new("DP-1".to_string());
    m.reconcile_registry(&reg(&[(7, "DP-1")]));
    m.handle_configure(640, 480);
    // the bound output is still present; another output joining changes nothing
    let t = m.reconcile_registry(&reg(&[(7, "DP-1"), (9, "HDMI-A-1")]));
    assert_eq!(t.next, SurfaceState::Active { width: 640, height: 480 });
    assert_eq!(m.bound_output, Some(7));
}

#[test]
fn should_exit_only_when_unbound_and_empty() {
    let mut m = LifecycleManager::new("DP-1".to_string());
    assert!(m.should_exit(&reg(&[])));
    assert!(!m.should_exit(&reg(&[(1, "HDMI-A-1")])));
    m.reconcile_registry(&reg(&[(7, "DP-1")]));
    assert!(!m.should_exit(&reg(&[])));
}
