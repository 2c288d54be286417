//! Identifiers, the clock, the calendar and tables of identifiers.

use flowsurface::id_table::IdTable;
use flowsurface::ids::{short_id, Uuid};
use flowsurface::market_data::session::{Day, Session, SessionResolver, UtcTime};
use flowsurface::time::UnixMs;

#[test]
fn identifiers_differ() {
    let a = Uuid::new_v4();
    let b = Uuid::new_v4();
    assert_ne!(a, b);
    assert_ne!(a, Uuid(0));
}

#[test]
fn identifiers_are_written_in_hexadecimal() {
    assert_eq!(short_id(Uuid(0x12345678_1234_5678_1234_567812345678)), "12345678");
    assert_eq!(short_id(Uuid(0xabcdef01_0000_0000_0000_000000000000)), "abcdef01");
    assert_eq!(short_id(Uuid(7)), "00000000");
    assert_eq!(
        short_id(Uuid(0x0a0b0c0d_1111_2222_3333_444455556666)),
        uuid::Uuid::from_u128(0x0a0b0c0d_1111_2222_3333_444455556666).to_string()[..8]
    );
}

#[test]
fn the_clock_goes_on() {
    let a = UnixMs::now();
    let b = UnixMs::now();
    assert!(a.as_u64() > 1_600_000_000_000);
    assert!(b >= a);
}

#[test]
fn times_before_the_epoch_wrap() {
    assert_eq!(UnixMs::from_signed(5), UnixMs::new(5));
    assert_eq!(UnixMs::from_signed(-1), UnixMs::new(u64::MAX));
    assert_eq!(UnixMs::from_signed(i64::MIN), UnixMs::new(1 << 63));
}

#[test]
fn a_table_keeps_its_order() {
    let mut t: IdTable<u32> = IdTable::new();
    t.insert(Uuid(3), 30);
    t.insert(Uuid(1), 10);
    t.insert(Uuid(2), 20);
    t.insert(Uuid(1), 11);
    assert_eq!(t.len(), 3);
    assert_eq!((t.id_at(0), t.id_at(1), t.id_at(2)), (Uuid(3), Uuid(1), Uuid(2)));
    assert_eq!(t.get(Uuid(1)), Some(&11));
    assert_eq!(t.get(Uuid(9)), None);
    *t.get_mut(Uuid(2)).unwrap() += 5;
    assert_eq!(*t.value_at(2), 25);
    assert_eq!(t.remove(Uuid(3)), Some(30));
    assert_eq!(t.remove(Uuid(3)), None);
    assert!(!t.contains(Uuid(3)));
    assert_eq!(t.id_at(0), Uuid(1));
    t.clear();
    assert_eq!(t.len(), 0);
}

#[test]
fn instants_have_a_day_and_an_hour() {
    // 2024-01-15T13:45:00Z
    let t = UtcTime::from_millis(1_705_326_300_000).unwrap();
    assert_eq!(t.day, Day::new(19_737).unwrap());
    assert_eq!(t.hour, 13);
    let before = UtcTime::from_millis(-1).unwrap();
    assert_eq!(before.day, Day::new(-1).unwrap());
    assert_eq!(before.hour, 23);
    assert!(UtcTime::from_millis(i64::MAX).is_none());
}

#[test]
fn sessions_start_and_end_on_the_hour() {
    let day = Day::new(19_737).unwrap();
    let ny = Session::NewYork.resolve_range(day);
    assert_eq!(ny.from, UnixMs::new(1_705_323_600_000));
    assert_eq!(ny.to, UnixMs::new(1_705_352_400_000));
    let late = Session::Custom { from_hour: 22, to_hour: 6 }.resolve_range(day);
    assert_eq!(late.from, UnixMs::new(1_705_356_000_000));
    let london = Session::London.resolve_range(day);
    assert_eq!(Session::Asian.resolve_range(day).to, london.from);
    assert_eq!(Session::Daily.resolve_range(day).to, Session::Daily.resolve_range(day.succ()).from);
    assert_eq!(day.succ().pred(), day);
}

#[test]
fn a_timestamp_lies_in_its_session() {
    let ts = UnixMs::new(1_705_326_300_000);
    let (session, range) = SessionResolver::resolve_current(ts);
    assert!(range.contains_timestamp(ts));
    assert_eq!(SessionResolver::session_for_timestamp(ts), Some(session));
    assert!(SessionResolver::sessions_for_timestamp(ts).contains(&Session::NewYork));
}

#[test]
fn the_next_session_comes_today_or_tomorrow() {
    let t = UtcTime::from_millis(1_705_326_300_000).unwrap();
    assert_eq!(
        Session::Asian.current_or_next_session_start(t),
        UnixMs::new(1_705_276_800_000 + 86_400_000)
    );
    assert_eq!(
        Session::NewYork.current_or_next_session_start(t),
        UnixMs::new(1_705_323_600_000)
    );
    let range = SessionResolver::current_or_next_at(Session::NewYork, t);
    assert_eq!(range.duration_ms(), 8 * 3_600_000);
}

#[test]
fn names_of_sessions_are_read_in_any_case() {
    assert_eq!(Session::parse("LONDON"), Some(Session::London));
    assert_eq!(Session::parse("New York"), Session::from_lowercase("new york"));
    assert_eq!(Session::parse("Ny"), Some(Session::NewYork));
    assert_eq!(Session::parse(""), None);
}

#[test]
fn the_present_lies_in_the_daily_session() {
    let today = SessionResolver::today(Session::Daily);
    assert_eq!(today.duration_ms(), 86_400_000);
    assert!(today.from.as_u64() <= UnixMs::now().as_u64());
}

#[test]
fn between_sessions_the_next_one_is_current() {
    let (session, range) = SessionResolver::resolve_current(UnixMs::new(79_200_000));
    assert_eq!(session, Session::Asian);
    assert_eq!(range.from, UnixMs::new(86_400_000));
    assert_eq!(range.to, UnixMs::new(115_200_000));
    let (session, range) = SessionResolver::resolve_current(UnixMs::new(75_599_999));
    assert_eq!(session, Session::NewYork);
    assert_eq!(range.to, UnixMs::new(75_600_000));
    let ts = UnixMs::new(79_200_000);
    assert_eq!(SessionResolver::session_for_timestamp(ts), Some(Session::Daily));
}
