//! Drawing panes, and keeping the computer awake.

use flowsurface::ids::Uuid;
use flowsurface::power_guard::{
    cleanup, disable_power_throttling, init, is_active, set_system_required, PowerGuard,
};
use flowsurface::render_scheduler::{compute_interval, DirtyScheduler, RenderPriority};
use flowsurface::windowing::{recovers_position, WindowingMode};

const MS: u64 = 1_000_000;

#[test]
fn a_pane_is_drawn_once_per_interval() {
    let mut s = DirtyScheduler::new();
    let pane = Uuid(1);
    s.register_pane(pane);
    s.mark_dirty(&pane);
    assert!(s.should_render(&pane, 0));
    s.mark_rendered(&pane, 0);
    assert!(!s.should_render(&pane, 1_000 * MS));
    s.mark_dirty(&pane);
    s.set_visible(&pane, true);
    let interval = compute_interval(false, true, 60, 30, 5);
    assert!(!s.should_render(&pane, interval - 1));
    assert!(s.should_render(&pane, interval));
}

#[test]
fn panes_out_of_sight_are_drawn_less_often() {
    assert_eq!(compute_interval(true, true, 60, 30, 5), 16_666_666);
    assert_eq!(compute_interval(false, true, 60, 30, 5), 33_333_333);
    assert_eq!(compute_interval(false, false, 60, 30, 5), 200_000_000);
    let mut s = DirtyScheduler::new();
    let pane = Uuid(1);
    s.register_pane(pane);
    s.set_focused(&pane, true);
    assert_eq!(s.priority(&pane), RenderPriority::Active);
    s.set_focused(&pane, false);
    assert_eq!(s.priority(&pane), RenderPriority::Visible);
    s.set_visible(&pane, false);
    assert_eq!(s.priority(&pane), RenderPriority::Background);
    assert_eq!(s.priority(&Uuid(9)), RenderPriority::Background);
}

#[test]
fn only_changed_panes_are_drawn() {
    let mut s = DirtyScheduler::new();
    for i in 1..=3 {
        s.register_pane(Uuid(i));
    }
    s.mark_all_dirty();
    assert_eq!(s.panes_to_render(0).len(), 3);
    s.mark_rendered(&Uuid(2), 0);
    assert_eq!(s.panes_to_render(0), vec![Uuid(1), Uuid(3)]);
    s.unregister_pane(&Uuid(1));
    assert_eq!(s.stats().total_panes, 2);
    assert_eq!(s.stats().dirty_panes, 1);
}

#[test]
fn the_guard_knows_its_state() {
    let mut g = PowerGuard::new();
    assert!(!is_active(&g));
    init(&mut g);
    disable_power_throttling(&mut g);
    set_system_required(&mut g, true);
    cleanup(&mut g);
    assert!(!is_active(&g));
}

#[test]
fn windows_have_one_window() {
    assert_eq!(WindowingMode::for_separator('\\'), WindowingMode::SingleWindowEmbedded);
    assert_eq!(WindowingMode::for_separator('/'), WindowingMode::NativeMultiWindow);
}

#[test]
fn a_position_is_dropped_only_when_it_is_out_of_reach() {
    assert!(recovers_position(true, Some(2), false));
    assert!(!recovers_position(true, Some(2), true));
    assert!(!recovers_position(true, Some(0), false));
    assert!(!recovers_position(true, None, false));
    assert!(!recovers_position(false, Some(1), false));
}
