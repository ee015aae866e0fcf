use agenda::calendar::{
    calendar_cells, chunk_weeks, format_month_title, Calendar, CalendarAction, CalendarProps,
    Cell, Msg,
};
use agenda::dates::Date;

fn picker(day: u32, month: u32, year: i32) -> Calendar {
    Calendar::new(&CalendarProps { day, month, year })
}

#[test]
fn props_always_compare_equal() {
    let a = CalendarProps { day: 1, month: 1, year: 2023 };
    let b = CalendarProps { day: 28, month: 12, year: 1999 };
    assert!(a == b);
}

#[test]
fn new_picker_is_folded() {
    let c = picker(15, 6, 2023);
    assert!(c.folded);
    assert_eq!(c.selected_day, 15);
    assert_eq!(c.selected_month, 6);
    assert_eq!(c.selected_year, 2023);
}

#[test]
fn unfolded_next_wraps_december() {
    let mut c = picker(15, 12, 2023);
    c.folded = false;
    let (refresh, action) = c.update(Msg::Next);
    assert!(refresh);
    assert_eq!(c.selected_month, 1);
    assert_eq!(c.selected_year, 2024);
    assert_eq!(c.selected_day, 1);
    match action {
        CalendarAction::NotifyAgenda { day, month, year } => {
            assert_eq!((day, month, year), (1, 1, 2024));
        }
        _ => panic!("expected a notification"),
    }
}

#[test]
fn unfolded_previous_wraps_january_to_last_day() {
    let mut c = picker(15, 1, 2024);
    c.folded = false;
    c.update(Msg::Previous);
    assert_eq!(c.selected_month, 12);
    assert_eq!(c.selected_year, 2023);
    assert_eq!(c.selected_day, 31);
    // Into a leap February.
    let mut c = picker(15, 3, 2024);
    c.folded = false;
    c.update(Msg::Previous);
    assert_eq!((c.selected_month, c.selected_day), (2, 29));
}

#[test]
fn folded_next_and_previous_move_a_week() {
    let mut c = picker(15, 6, 2023);
    let (_, action) = c.update(Msg::Next);
    match action {
        CalendarAction::Resend { day, month, year } => {
            assert_eq!((day, month, year), (22, 6, 2023));
        }
        _ => panic!("expected a resent goto"),
    }
    // The state moves only when the goto comes back.
    assert_eq!(c.selected_day, 15);
    let (_, action) = c.update(Msg::Previous);
    match action {
        CalendarAction::Resend { day, month, year } => {
            assert_eq!((day, month, year), (8, 6, 2023));
        }
        _ => panic!("expected a resent goto"),
    }
}

#[test]
fn goto_stores_and_notifies() {
    let mut c = picker(15, 6, 2023);
    let (_, action) = c.update(Msg::Goto { day: 3, month: 2, year: 2024 });
    assert_eq!(
        (c.selected_day, c.selected_month, c.selected_year),
        (3, 2, 2024)
    );
    match action {
        CalendarAction::NotifyAgenda { day, month, year } => {
            assert_eq!((day, month, year), (3, 2, 2024));
        }
        _ => panic!("expected a notification"),
    }
}

#[test]
fn fold_toggles_click_watch() {
    let mut c = picker(15, 6, 2023);
    let (_, action) = c.update(Msg::TriggerFold);
    assert!(!c.folded);
    assert!(matches!(action, CalendarAction::WatchClicks));
    let (_, action) = c.update(Msg::TriggerFold);
    assert!(c.folded);
    assert!(matches!(action, CalendarAction::StopClickWatch));
}

#[test]
fn february_grid() {
    // February 2023 starts on a Wednesday and has 28 days.
    let cells = calendar_cells(2023, 2, 15);
    assert_eq!(cells.len(), 35);
    assert_eq!(cells[0], Cell::Before);
    assert_eq!(cells[1], Cell::Before);
    assert_eq!(
        cells[2],
        Cell::Day { day: 1, selected: false, disabled: false, goto_day: 1 }
    );
    // 2023-02-05 is a Sunday: disabled, and clicking goes a day back.
    assert_eq!(
        cells[6],
        Cell::Day { day: 5, selected: false, disabled: true, goto_day: 4 }
    );
    assert_eq!(
        cells[16],
        Cell::Day { day: 15, selected: true, disabled: false, goto_day: 15 }
    );
    assert_eq!(cells[30], Cell::After);
    assert_eq!(cells[34], Cell::After);
    let weeks = chunk_weeks(&cells);
    assert_eq!(weeks.len(), 5);
    assert_eq!(weeks[0].len(), 7);
    assert_eq!(weeks[0][2], cells[2]);
    assert_eq!(weeks[4][6], cells[34]);
}

#[test]
fn may_2023_grid_ends_flush() {
    // May 2023 starts on a Monday and has 31 days: 31 + 4 blanks = 35.
    let cells = calendar_cells(2023, 5, 1);
    assert_eq!(cells.len(), 35);
    assert_eq!(
        cells[0],
        Cell::Day { day: 1, selected: true, disabled: false, goto_day: 1 }
    );
    assert_eq!(cells[31], Cell::After);
}

#[test]
fn sunday_first_of_month_goes_to_day_zero() {
    // 2023-10-01 is a Sunday: the grid keeps the widget's odd goto of the
    // day before, which is day zero there.
    let cells = calendar_cells(2023, 10, 1);
    // October 2023 leads with six blanks.
    assert_eq!(cells[5], Cell::Before);
    assert_eq!(
        cells[6],
        Cell::Day { day: 1, selected: true, disabled: true, goto_day: 0 }
    );
}

#[test]
fn month_titles() {
    assert_eq!(format_month_title(2, 2023), "Février 2023");
    assert_eq!(format_month_title(8, 1999), "Août 1999");
    assert_eq!(format_month_title(12, 2024), "Décembre 2024");
    assert_eq!(format_month_title(1, 1), "Janvier 1");
}
