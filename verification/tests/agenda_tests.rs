use agenda::agenda::{
    announcement_hidden, announcement_slot, container_right_percent, day_left_percent,
    events_on_day, events_on_paris_day, format_day, paris_now, should_jump_to_next_day,
    show_mobile_announcement, slider_offset, week_days, Agenda, Event,
};
use agenda::dates::{Date, Weekday};
use chrono::{Datelike, TimeZone};

fn ev(start: u64, end: u64) -> Event {
    Event { start_unixtime: start, end_unixtime: end }
}

#[test]
fn format_day_header() {
    assert_eq!(format_day(Weekday::Mon, 5), "Lundi 5");
    assert_eq!(format_day(Weekday::Sun, 31), "Dimanche 31");
    assert_eq!(format_day(Weekday::Wed, 10), "Mercredi 10");
    assert_eq!(format_day(Weekday::Sat, 100), "Samedi 100");
    assert_eq!(format_day(Weekday::Tue, 0), "Mardi 0");
}

#[test]
fn slider_offsets_match_formulas() {
    let d = Date { year: 2023, month: 6, day: 15 };
    let rank = chrono::NaiveDate::from_ymd_opt(2023, 6, 15)
        .unwrap()
        .num_days_from_ce();
    assert_eq!(slider_offset(&d), -20 * (rank - 730000));
    assert_eq!(day_left_percent(&d), 20 * (rank - 730000));
    assert_eq!(container_right_percent(&d), 100 * (rank - 730000));
}

#[test]
fn evening_and_weekend_jump() {
    assert!(should_jump_to_next_day(19, Weekday::Tue, true));
    assert!(!should_jump_to_next_day(18, Weekday::Tue, true));
    assert!(should_jump_to_next_day(8, Weekday::Sun, true));
    assert!(should_jump_to_next_day(8, Weekday::Sat, false));
    assert!(!should_jump_to_next_day(8, Weekday::Sat, true));
}

#[test]
fn next_day_steps() {
    // 2023-06-16 is a Friday.
    let friday = Date { year: 2023, month: 6, day: 16 };
    let mut a = Agenda::new(friday, vec![]);
    // A free Saturday is skipped: Friday jumps to Monday.
    a.next(false);
    assert_eq!(a.selected_day, Date { year: 2023, month: 6, day: 19 });
    // A plain weekday moves one day.
    a.next(false);
    assert_eq!(a.selected_day, Date { year: 2023, month: 6, day: 20 });
    // Friday with a Saturday event moves one day.
    let mut b = Agenda::new(friday, vec![]);
    b.next(true);
    assert_eq!(b.selected_day, Date { year: 2023, month: 6, day: 17 });
    // Saturday moves two days, to Monday.
    b.next(true);
    assert_eq!(b.selected_day, Date { year: 2023, month: 6, day: 19 });
}

#[test]
fn previous_day_steps() {
    // 2023-06-19 is a Monday.
    let monday = Date { year: 2023, month: 6, day: 19 };
    let mut a = Agenda::new(monday, vec![]);
    // Monday with a free previous Saturday goes back three days, to Friday.
    a.previous(false);
    assert_eq!(a.selected_day, Date { year: 2023, month: 6, day: 16 });
    // A plain weekday goes back one day.
    a.previous(false);
    assert_eq!(a.selected_day, Date { year: 2023, month: 6, day: 15 });
    // Monday with an event on the previous Saturday goes back two days.
    let mut b = Agenda::new(monday, vec![]);
    b.previous(true);
    assert_eq!(b.selected_day, Date { year: 2023, month: 6, day: 17 });
}

#[test]
fn goto_returns_offset() {
    let mut a = Agenda::new(Date { year: 2023, month: 6, day: 15 }, vec![]);
    let offset = a.goto(2023, 7, 1);
    assert_eq!(a.selected_day, Date { year: 2023, month: 7, day: 1 });
    assert_eq!(offset, slider_offset(&a.selected_day));
}

#[test]
fn week_start_lands_on_monday() {
    // 2023-06-15 is a Thursday.
    let a = Agenda::new(Date { year: 2023, month: 6, day: 15 }, vec![]);
    assert_eq!(
        a.week_start(false),
        Date { year: 2023, month: 6, day: 12 }
    );
    assert_eq!(a.week_start(true), Date { year: 2023, month: 6, day: 13 });
    let six = week_days(&Date { year: 2023, month: 6, day: 12 });
    assert_eq!(six.len(), 6);
    assert_eq!(six[0], Date { year: 2023, month: 6, day: 12 });
    assert_eq!(six[5], Date { year: 2023, month: 6, day: 17 });
}

#[test]
fn day_window_bounds_are_inclusive() {
    let events = vec![
        ev(999, 1100),
        ev(1000, 1200),
        ev(5000, 6000),
        ev(87400, 90000),
        ev(87401, 90000),
    ];
    let on_day = events_on_day(&events, 1000);
    // Start at the day start, inside it, and exactly a full day later.
    assert_eq!(on_day, vec![ev(1000, 1200), ev(5000, 6000), ev(87400, 90000)]);
}

#[test]
fn announcement_hidden_by_exact_start() {
    let events = vec![ev(66600, 70000)];
    assert!(announcement_hidden(&events, 66600, 72000));
}

#[test]
fn announcement_hidden_by_following_start() {
    let events = vec![ev(67000, 70000)];
    assert!(announcement_hidden(&events, 66600, 72000));
    // The next event starts after the slot: nothing hides it.
    let later = vec![ev(80000, 90000)];
    assert!(!announcement_hidden(&later, 66600, 72000));
}

#[test]
fn announcement_hidden_by_previous_end() {
    // The earlier event ends inside the slot; a later one starts after it.
    let events = vec![ev(60000, 67000), ev(80000, 90000)];
    assert!(announcement_hidden(&events, 66600, 72000));
    // The earlier event ends before the slot: the slot is free.
    let free = vec![ev(60000, 66000), ev(80000, 90000)];
    assert!(!announcement_hidden(&free, 66600, 72000));
}

#[test]
fn announcement_backward_walk_gives_up() {
    // The blocking event ends inside the slot, but an event between it and
    // the slot ends more than six hours before the slot: the walk stops
    // there and the announcement stays.
    let a = 100000;
    let events = vec![ev(50000, 101000), ev(60000, 70000), ev(200000, 201000)];
    assert!(!announcement_hidden(&events, a, a + 5400));
    // Without the early-ending event in between, the walk finds it.
    let events = vec![ev(50000, 101000), ev(60000, 99000), ev(200000, 201000)];
    assert!(announcement_hidden(&events, a, a + 5400));
}

#[test]
fn announcement_without_following_event_stays() {
    // No event starts at or after the slot: nothing is checked at all.
    let events = vec![ev(60000, 101000)];
    assert!(!announcement_hidden(&events, 100000, 105400));
}

#[test]
fn paris_slot_times() {
    // 2023-06-15 is in summer time: 18:30 in Paris is 16:30 UTC.
    let day = Date { year: 2023, month: 6, day: 15 };
    let (a, b) = announcement_slot(&day).unwrap();
    let utc_a = chrono::Utc
        .with_ymd_and_hms(2023, 6, 15, 16, 30, 0)
        .unwrap()
        .timestamp() as u64;
    let utc_b = chrono::Utc
        .with_ymd_and_hms(2023, 6, 15, 18, 0, 0)
        .unwrap()
        .timestamp() as u64;
    assert_eq!(a, utc_a);
    assert_eq!(b, utc_b);
    // 2023-01-15 is in winter time: midnight in Paris is 23:00 UTC the
    // evening before.
    let winter = Date { year: 2023, month: 1, day: 15 };
    let midnight = chrono::Utc
        .with_ymd_and_hms(2023, 1, 14, 23, 0, 0)
        .unwrap()
        .timestamp() as u64;
    let events = vec![ev(midnight, midnight + 3600), ev(midnight + 90000, midnight + 93600)];
    let on_day = events_on_paris_day(&events, &winter);
    assert_eq!(on_day, vec![ev(midnight, midnight + 3600)]);
}

#[test]
fn mobile_banner_room_depends_on_the_slot() {
    let day = Date { year: 2023, month: 6, day: 15 };
    let (a, b) = announcement_slot(&day).unwrap();
    // An event ending inside the evening slot leaves no room.
    let busy = vec![ev(a - 3600, a + 60), ev(b + 10000, b + 20000)];
    assert!(!show_mobile_announcement(&busy, &day));
    // An empty schedule leaves the slot free.
    let free: Vec<Event> = vec![];
    assert!(show_mobile_announcement(&free, &day));
}

#[test]
fn paris_now_is_a_valid_moment() {
    let (date, hour, _ts) = paris_now().unwrap();
    let today = chrono::Local::now()
        .with_timezone(&chrono_tz::Europe::Paris);
    assert_eq!(date.year, today.year());
    assert!(hour < 24);
}
