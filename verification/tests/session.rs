//! Trading sessions.

use flowsurface::market_data::session::{Day, Session, SessionResolver};

fn january_15_2024() -> Day {
    Day::new(19_737).unwrap()
}

#[test]
fn test_session_hours() {
    assert_eq!(Session::Asian.hours(), (0, 8));
    assert_eq!(Session::London.hours(), (8, 16));
    assert_eq!(Session::NewYork.hours(), (13, 21));
    assert_eq!(Session::Daily.hours(), (0, 24));
}

#[test]
fn test_session_resolve_range() {
    let date = january_15_2024();

    let asian = Session::Asian.resolve_range(date);
    assert_eq!(asian.duration_ms(), 8 * 3600 * 1000); // 8 hours

    let london = Session::London.resolve_range(date);
    assert_eq!(london.duration_ms(), 8 * 3600 * 1000);

    let ny = Session::NewYork.resolve_range(date);
    assert_eq!(ny.duration_ms(), 8 * 3600 * 1000);

    let daily = Session::Daily.resolve_range(date);
    assert_eq!(daily.duration_ms(), 24 * 3600 * 1000);
}

#[test]
fn test_session_custom() {
    let custom = Session::Custom {
        from_hour: 6,
        to_hour: 18,
    };
    assert_eq!(custom.hours(), (6, 18));

    let date = january_15_2024();
    let range = custom.resolve_range(date);
    assert_eq!(range.duration_ms(), 12 * 3600 * 1000);
}

#[test]
fn test_session_display() {
    assert_eq!(Session::Asian.display_name(), "Asian");
    assert_eq!(Session::London.display_name(), "London");
    assert_eq!(Session::NewYork.display_name(), "New York");

    let custom = Session::Custom {
        from_hour: 6,
        to_hour: 18,
    };
    assert_eq!(custom.display_name(), "Custom (6:00-18:00 UTC)");
}

#[test]
fn test_session_parse() {
    assert_eq!(Session::parse("asian"), Some(Session::Asian));
    assert_eq!(Session::parse("London"), Some(Session::London));
    assert_eq!(Session::parse("NY"), Some(Session::NewYork));
    assert_eq!(Session::parse("new_york"), Some(Session::NewYork));
    assert_eq!(Session::parse("daily"), Some(Session::Daily));
    assert_eq!(Session::parse("unknown"), None);
}

#[test]
fn test_session_resolver_standard_sessions() {
    let sessions = SessionResolver::standard_sessions();
    assert_eq!(sessions.len(), 4);
}

#[test]
fn test_session_resolver_today() {
    let range = SessionResolver::today(Session::Asian);
    assert_eq!(range.duration_ms(), 8 * 3600 * 1000);
}
