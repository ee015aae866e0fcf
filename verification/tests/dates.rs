use agenda::dates::{days_in_month, Date, Weekday};
use chrono::Datelike;

fn wd_index(w: Weekday) -> u32 {
    match w {
        Weekday::Mon => 0,
        Weekday::Tue => 1,
        Weekday::Wed => 2,
        Weekday::Thu => 3,
        Weekday::Fri => 4,
        Weekday::Sat => 5,
        Weekday::Sun => 6,
    }
}

#[test]
fn day_rank_matches_chrono() {
    for (y, m, d) in [
        (1, 1, 1),
        (1970, 1, 1),
        (2000, 2, 29),
        (2023, 6, 15),
        (2024, 2, 29),
        (2024, 12, 31),
        (9999, 12, 31),
    ] {
        let ours = Date { year: y, month: m, day: d };
        let theirs = chrono::NaiveDate::from_ymd_opt(y, m, d).unwrap();
        assert_eq!(ours.num_days_from_ce(), theirs.num_days_from_ce());
    }
}

#[test]
fn weekday_matches_chrono() {
    for (y, m, d) in [(1, 1, 1), (2023, 6, 15), (2024, 2, 29), (2026, 10, 11)] {
        let ours = Date { year: y, month: m, day: d };
        let theirs = chrono::NaiveDate::from_ymd_opt(y, m, d).unwrap();
        assert_eq!(
            wd_index(ours.weekday()),
            theirs.weekday().num_days_from_monday()
        );
        assert_eq!(
            ours.weekday().num_days_from_monday(),
            theirs.weekday().num_days_from_monday()
        );
        assert_eq!(
            ours.weekday().number_from_monday(),
            theirs.weekday().number_from_monday()
        );
    }
}

#[test]
fn succ_and_pred_cross_boundaries() {
    let d = Date { year: 2023, month: 12, day: 31 };
    assert_eq!(d.succ(), Date { year: 2024, month: 1, day: 1 });
    assert_eq!(
        Date { year: 2024, month: 1, day: 1 }.pred(),
        Date { year: 2023, month: 12, day: 31 }
    );
    let feb = Date { year: 2024, month: 2, day: 28 };
    assert_eq!(feb.succ(), Date { year: 2024, month: 2, day: 29 });
    assert_eq!(
        Date { year: 2024, month: 3, day: 1 }.pred(),
        Date { year: 2024, month: 2, day: 29 }
    );
    assert_eq!(
        Date { year: 2023, month: 3, day: 1 }.pred(),
        Date { year: 2023, month: 2, day: 28 }
    );
}

#[test]
fn forward_and_backward_days() {
    let d = Date { year: 2023, month: 6, day: 15 };
    assert_eq!(d.forward_days(7), Date { year: 2023, month: 6, day: 22 });
    assert_eq!(d.backward_days(7), Date { year: 2023, month: 6, day: 8 });
    assert_eq!(
        Date { year: 2023, month: 1, day: 3 }.backward_days(7),
        Date { year: 2022, month: 12, day: 27 }
    );
}

#[test]
fn month_lengths() {
    assert_eq!(days_in_month(2023, 2), 28);
    assert_eq!(days_in_month(2024, 2), 29);
    assert_eq!(days_in_month(1900, 2), 28);
    assert_eq!(days_in_month(2000, 2), 29);
    assert_eq!(days_in_month(2023, 4), 30);
    assert_eq!(days_in_month(2023, 12), 31);
}

#[test]
fn from_ymd_checked_rejects_invalid() {
    assert!(Date::from_ymd_checked(2023, 2, 29).is_none());
    assert!(Date::from_ymd_checked(2023, 13, 1).is_none());
    assert!(Date::from_ymd_checked(2023, 0, 1).is_none());
    assert!(Date::from_ymd_checked(2023, 6, 0).is_none());
    assert!(Date::from_ymd_checked(0, 6, 1).is_none());
    assert!(Date::from_ymd_checked(10000, 6, 1).is_none());
    assert_eq!(
        Date::from_ymd_checked(2024, 2, 29),
        Some(Date { year: 2024, month: 2, day: 29 })
    );
}
