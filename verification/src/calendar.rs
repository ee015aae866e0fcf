//! The month picker: its folded/unfolded state machine, the month and week
//! navigation, and the grid of day cells that the view lays out in rows of
//! seven.

use vstd::arithmetic::div_mod::{lemma_fundamental_div_mod, lemma_mod_multiples_basic};
use vstd::prelude::*;

use crate::agenda::{push_decimal, spec_decimal};
use crate::dates::{
    spec_days_from_ce, spec_days_in_month, spec_weekday_index, valid_date, Date, Weekday, MAX_YEAR,
    MIN_YEAR,
};

verus! {

/// The props the picker is created from: the day it should select. The
/// component's link to the agenda stays outside the model. As in the UI,
/// two props always compare equal, so they never force a re-render.
pub struct CalendarProps {
    pub day: u32,
    pub month: u32,
    pub year: i32,
}

impl PartialEq for CalendarProps {
    fn eq(&self, _other: &Self) -> (r: bool) {
        true
    }
}

impl vstd::std_specs::cmp::PartialEqSpecImpl for CalendarProps {
    open spec fn obeys_eq_spec() -> bool {
        true
    }

    open spec fn eq_spec(&self, _other: &Self) -> bool {
        true
    }
}

/// The messages the picker reacts to.
pub enum Msg {
    Next,
    Previous,
    Goto { day: u32, month: u32, year: i32 },
    TriggerFold,
}

/// What the component must do after an update: tell the agenda to move,
/// send itself a goto for a week step, or start or stop watching clicks
/// outside the unfolded picker.
pub enum CalendarAction {
    NotifyAgenda { day: u32, month: u32, year: i32 },
    Resend { day: u32, month: u32, year: i32 },
    WatchClicks,
    StopClickWatch,
}

/// The picker's state: the selected day and whether the grid is folded
/// away.
pub struct Calendar {
    pub selected_day: u32,
    pub selected_month: u32,
    pub selected_year: i32,
    pub folded: bool,
}

/// The month after, wrapping into the next year.
pub open spec fn spec_month_after(month: u32, year: i32) -> (u32, i32) {
    if month == 12 {
        (1u32, (year + 1) as i32)
    } else {
        ((month + 1) as u32, year)
    }
}

/// The month before, wrapping into the previous year.
pub open spec fn spec_month_before(month: u32, year: i32) -> (u32, i32) {
    if month == 1 {
        (12u32, (year - 1) as i32)
    } else {
        ((month - 1) as u32, year)
    }
}

impl Calendar {
    /// The selected fields form a valid date.
    pub open spec fn wf(&self) -> bool {
        valid_date(
            Date { year: self.selected_year, month: self.selected_month, day: self.selected_day },
        )
    }

    /// The date the picker has selected.
    pub open spec fn spec_selected(&self) -> Date {
        Date { year: self.selected_year, month: self.selected_month, day: self.selected_day }
    }

    /// A fresh picker on the given day, folded away.
    pub fn new(props: &CalendarProps) -> (r: Calendar)
        requires
            valid_date(Date { year: props.year, month: props.month, day: props.day }),
        ensures
            r.wf(),
            r.selected_day == props.day,
            r.selected_month == props.month,
            r.selected_year == props.year,
            r.folded == true,
    {
        Calendar {
            selected_day: props.day,
            selected_month: props.month,
            selected_year: props.year,
            folded: true,
        }
    }

    /// One step of the picker. Folded, next and previous move the selected
    /// day a week; unfolded, they move to the first day of the next month
    /// or the last day of the previous one. The view is always refreshed.
    pub fn update(&mut self, msg: Msg) -> (r: (bool, CalendarAction))
        requires
            old(self).wf(),
            match msg {
                Msg::Next => if old(self).folded {
                    spec_days_from_ce(old(self).spec_selected()) + 7 <= spec_days_from_ce(
                        Date::spec_last(),
                    )
                } else {
                    old(self).selected_month == 12 ==> old(self).selected_year < MAX_YEAR
                },
                Msg::Previous => if old(self).folded {
                    spec_days_from_ce(old(self).spec_selected()) >= spec_days_from_ce(
                        Date::spec_first(),
                    ) + 7
                } else {
                    old(self).selected_month == 1 ==> old(self).selected_year > MIN_YEAR
                },
                Msg::Goto { day, month, year } => valid_date(Date { year, month, day }),
                Msg::TriggerFold => true,
            },
        ensures
            r.0 == true,
            final(self).wf(),
            match msg {
                Msg::Next => if old(self).folded {
                    &&& *final(self) == *old(self)
                    &&& (r.1 matches CalendarAction::Resend { day, month, year }
                        && valid_date(Date { year, month, day }) && spec_days_from_ce(
                        Date { year, month, day },
                    ) == spec_days_from_ce(old(self).spec_selected()) + 7)
                } else {
                    let (m2, y2) = spec_month_after(
                        old(self).selected_month,
                        old(self).selected_year,
                    );
                    &&& final(self).selected_month == m2
                    &&& final(self).selected_year == y2
                    &&& final(self).selected_day == 1
                    &&& final(self).folded == old(self).folded
                    &&& r.1 == (CalendarAction::NotifyAgenda { day: 1u32, month: m2, year: y2 })
                },
                Msg::Previous => if old(self).folded {
                    &&& *final(self) == *old(self)
                    &&& (r.1 matches CalendarAction::Resend { day, month, year }
                        && valid_date(Date { year, month, day }) && spec_days_from_ce(
                        Date { year, month, day },
                    ) == spec_days_from_ce(old(self).spec_selected()) - 7)
                } else {
                    let (m2, y2) = spec_month_before(
                        old(self).selected_month,
                        old(self).selected_year,
                    );
                    &&& final(self).selected_month == m2
                    &&& final(self).selected_year == y2
                    &&& final(self).selected_day == spec_days_in_month(y2 as int, m2 as int)
                    &&& final(self).folded == old(self).folded
                    &&& (r.1 matches CalendarAction::NotifyAgenda { day, month, year } && day
                        == final(self).selected_day && month == m2 && year == y2)
                },
                Msg::Goto { day, month, year } => {
                    &&& final(self).selected_day == day
                    &&& final(self).selected_month == month
                    &&& final(self).selected_year == year
                    &&& final(self).folded == old(self).folded
                    &&& r.1 == (CalendarAction::NotifyAgenda { day, month, year })
                },
                Msg::TriggerFold => {
                    &&& final(self).folded == !old(self).folded
                    &&& final(self).selected_day == old(self).selected_day
                    &&& final(self).selected_month == old(self).selected_month
                    &&& final(self).selected_year == old(self).selected_year
                    &&& r.1 == (if old(self).folded {
                        CalendarAction::WatchClicks
                    } else {
                        CalendarAction::StopClickWatch
                    })
                },
            },
    {
        match msg {
            Msg::Next => {
                if !self.folded {
                    if self.selected_month == 12 {
                        self.selected_month = 1;
                        self.selected_year = self.selected_year + 1;
                    } else {
                        self.selected_month = self.selected_month + 1;
                    }
                    self.selected_day = 1;
                    (
                        true,
                        CalendarAction::NotifyAgenda {
                            day: self.selected_day,
                            month: self.selected_month,
                            year: self.selected_year,
                        },
                    )
                } else {
                    let d = Date {
                        year: self.selected_year,
                        month: self.selected_month,
                        day: self.selected_day,
                    };
                    let next_week = d.forward_days(7);
                    (
                        true,
                        CalendarAction::Resend {
                            day: next_week.day,
                            month: next_week.month,
                            year: next_week.year,
                        },
                    )
                }
            },
            Msg::Previous => {
                if !self.folded {
                    if self.selected_month == 1 {
                        self.selected_month = 12;
                        self.selected_year = self.selected_year - 1;
                    } else {
                        self.selected_month = self.selected_month - 1;
                    }
                    self.selected_day = crate::dates::days_in_month(
                        self.selected_year,
                        self.selected_month,
                    );
                    (
                        true,
                        CalendarAction::NotifyAgenda {
                            day: self.selected_day,
                            month: self.selected_month,
                            year: self.selected_year,
                        },
                    )
                } else {
                    let d = Date {
                        year: self.selected_year,
                        month: self.selected_month,
                        day: self.selected_day,
                    };
                    let previous_week = d.backward_days(7);
                    (
                        true,
                        CalendarAction::Resend {
                            day: previous_week.day,
                            month: previous_week.month,
                            year: previous_week.year,
                        },
                    )
                }
            },
            Msg::Goto { day, month, year } => {
                self.selected_day = day;
                self.selected_month = month;
                self.selected_year = year;
                (true, CalendarAction::NotifyAgenda { day, month, year })
            },
            Msg::TriggerFold => {
                self.folded = !self.folded;
                if self.folded {
                    (true, CalendarAction::StopClickWatch)
                } else {
                    (true, CalendarAction::WatchClicks)
                }
            },
        }
    }
}

/// A cell of the picker's grid: a blank that leads back to the previous
/// month, a day of the month, or a trailing blank that leads to the next
/// month. A Sunday cell is disabled and clicking it goes to the day
/// before.
#[derive(Clone, Copy, PartialEq, Eq, Structural, Debug)]
pub enum Cell {
    Before,
    Day { day: u32, selected: bool, disabled: bool, goto_day: u32 },
    After,
}

/// The cell of day `d` of the given month.
pub open spec fn spec_day_cell(year: i32, month: u32, d: int, selected_day: u32) -> Cell {
    let sunday = spec_weekday_index(Date { year, month, day: d as u32 }) == 6;
    Cell::Day {
        day: d as u32,
        selected: d == selected_day,
        disabled: sunday,
        goto_day: if sunday {
            (d - 1) as u32
        } else {
            d as u32
        },
    }
}

/// The picker's cells for a month, flattened: blanks up to the weekday of
/// the month's first day, one cell per day, and blanks filling the last
/// row of seven.
pub open spec fn spec_calendar_cells(year: i32, month: u32, selected_day: u32) -> Seq<Cell> {
    let lead = spec_weekday_index(Date { year, month, day: 1 });
    let ndays = spec_days_in_month(year as int, month as int);
    let pad = (7 - (lead + ndays) % 7) % 7;
    Seq::new(lead as nat, |i: int| Cell::Before) + Seq::new(
        ndays as nat,
        |i: int| spec_day_cell(year, month, i + 1, selected_day),
    ) + Seq::new(pad as nat, |i: int| Cell::After)
}

/// The flattened grid of a month: as many cells as the spec says, their
/// number a multiple of seven.
pub fn calendar_cells(year: i32, month: u32, selected_day: u32) -> (r: Vec<Cell>)
    requires
        MIN_YEAR <= year <= MAX_YEAR,
        1 <= month <= 12,
    ensures
        r@ == spec_calendar_cells(year, month, selected_day),
        r@.len() % 7 == 0,
{
    let ghost cells = spec_calendar_cells(year, month, selected_day);
    let first = Date { year, month, day: 1 };
    let lead = first.weekday().num_days_from_monday();
    let ndays = crate::dates::days_in_month(year, month);
    let mut r: Vec<Cell> = Vec::new();
    let mut i: u32 = 0;
    while i < lead
        invariant
            0 <= i <= lead,
            lead == spec_weekday_index(Date { year, month, day: 1 }),
            r@ =~= Seq::new(i as nat, |k: int| Cell::Before),
        decreases lead - i,
    {
        r.push(Cell::Before);
        proof {
            assert(r@ =~= Seq::new(i as nat + 1, |k: int| Cell::Before));
        }
        i = i + 1;
    }
    let mut d: u32 = 1;
    while d <= ndays
        invariant
            1 <= d <= ndays + 1,
            MIN_YEAR <= year <= MAX_YEAR,
            1 <= month <= 12,
            lead == spec_weekday_index(Date { year, month, day: 1 }),
            ndays == spec_days_in_month(year as int, month as int),
            r@ =~= Seq::new(lead as nat, |k: int| Cell::Before) + Seq::new(
                (d - 1) as nat,
                |k: int| spec_day_cell(year, month, k + 1, selected_day),
            ),
        decreases ndays + 1 - d,
    {
        let date = Date { year, month, day: d };
        let sunday = date.weekday() == Weekday::Sun;
        let goto_day = if sunday {
            d - 1
        } else {
            d
        };
        r.push(Cell::Day { day: d, selected: d == selected_day, disabled: sunday, goto_day });
        proof {
            assert(r@ =~= Seq::new(lead as nat, |k: int| Cell::Before) + Seq::new(
                d as nat,
                |k: int| spec_day_cell(year, month, k + 1, selected_day),
            ));
        }
        d = d + 1;
    }
    let total = lead + ndays;
    let pad = (7 - total % 7) % 7;
    let mut p: u32 = 0;
    while p < pad
        invariant
            0 <= p <= pad,
            lead == spec_weekday_index(Date { year, month, day: 1 }),
            ndays == spec_days_in_month(year as int, month as int),
            pad == (7 - (lead + ndays) % 7) % 7,
            r@ =~= Seq::new(lead as nat, |k: int| Cell::Before) + Seq::new(
                ndays as nat,
                |k: int| spec_day_cell(year, month, k + 1, selected_day),
            ) + Seq::new(p as nat, |k: int| Cell::After),
        decreases pad - p,
    {
        r.push(Cell::After);
        proof {
            assert(r@ =~= Seq::new(lead as nat, |k: int| Cell::Before) + Seq::new(
                ndays as nat,
                |k: int| spec_day_cell(year, month, k + 1, selected_day),
            ) + Seq::new(p as nat + 1, |k: int| Cell::After));
        }
        p = p + 1;
    }
    proof {
        assert(r@ =~= cells);
        let t = (lead + ndays) as int;
        lemma_fundamental_div_mod(t, 7);
        if t % 7 == 0 {
            assert(r@.len() == t);
            lemma_mod_multiples_basic(t / 7, 7);
        } else {
            assert(r@.len() == t + 7 - t % 7);
            assert(r@.len() == 7 * (t / 7 + 1));
            lemma_mod_multiples_basic(t / 7 + 1, 7);
        }
    }
    r
}

/// The grid cut into its rows of seven.
pub fn chunk_weeks(cells: &Vec<Cell>) -> (r: Vec<Vec<Cell>>)
    requires
        cells@.len() % 7 == 0,
    ensures
        r@.len() == cells@.len() / 7,
        forall|w: int|
            0 <= w < r@.len() ==> (#[trigger] r@[w])@ == cells@.subrange(7 * w, 7 * w + 7),
{
    proof {
        lemma_fundamental_div_mod(cells@.len() as int, 7);
    }
    let n = cells.len() / 7;
    let mut r: Vec<Vec<Cell>> = Vec::new();
    let mut w: usize = 0;
    while w < n
        invariant
            0 <= w <= n,
            n == cells@.len() / 7,
            cells@.len() == 7 * n,
            cells@.len() <= usize::MAX,
            r@.len() == w,
            forall|k: int|
                0 <= k < w ==> (#[trigger] r@[k])@ == cells@.subrange(7 * k, 7 * k + 7),
        decreases n - w,
    {
        let mut row: Vec<Cell> = Vec::new();
        let mut j: usize = 0;
        while j < 7
            invariant
                0 <= j <= 7,
                w < n,
                cells@.len() == 7 * n,
                cells@.len() <= usize::MAX,
                row@ =~= cells@.subrange(7 * w as int, 7 * w as int + j as int),
            decreases 7 - j,
        {
            row.push(cells[7 * w + j]);
            proof {
                assert(row@ =~= cells@.subrange(7 * w as int, 7 * w as int + j as int + 1));
            }
            j = j + 1;
        }
        r.push(row);
        w = w + 1;
    }
    r
}

/// The French name of a month, as the picker's title shows it.
pub open spec fn spec_french_month_name(m: int) -> Seq<char> {
    if m == 1 {
        "Janvier"@
    } else if m == 2 {
        "Février"@
    } else if m == 3 {
        "Mars"@
    } else if m == 4 {
        "Avril"@
    } else if m == 5 {
        "Mai"@
    } else if m == 6 {
        "Juin"@
    } else if m == 7 {
        "Juillet"@
    } else if m == 8 {
        "Août"@
    } else if m == 9 {
        "Septembre"@
    } else if m == 10 {
        "Octobre"@
    } else if m == 11 {
        "Novembre"@
    } else {
        "Décembre"@
    }
}

/// The picker's title: the French month name, a space, and the year.
pub fn format_month_title(month: u32, year: i32) -> (r: String)
    requires
        1 <= month <= 12,
        1 <= year <= MAX_YEAR,
    ensures
        r@ == spec_french_month_name(month as int) + seq![' '] + spec_decimal(year as nat),
{
    let name: &str = if month == 1 {
        "Janvier"
    } else if month == 2 {
        "Février"
    } else if month == 3 {
        "Mars"
    } else if month == 4 {
        "Avril"
    } else if month == 5 {
        "Mai"
    } else if month == 6 {
        "Juin"
    } else if month == 7 {
        "Juillet"
    } else if month == 8 {
        "Août"
    } else if month == 9 {
        "Septembre"
    } else if month == 10 {
        "Octobre"
    } else if month == 11 {
        "Novembre"
    } else {
        "Décembre"
    };
    let mut s = String::from_str(name);
    s.append(" ");
    proof {
        reveal_strlit(" ");
        assert((" ")@ =~= seq![' ']);
    }
    push_decimal(&mut s, year as u32);
    proof {
        assert(s@ =~= spec_french_month_name(month as int) + seq![' '] + spec_decimal(
            year as nat,
        ));
    }
    s
}

} // verus!
