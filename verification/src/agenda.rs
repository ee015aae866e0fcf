//! The agenda's view-model: the selected day and the event list, the
//! day-navigation rules, the layout offsets that the slider uses, the
//! selection of the events of a day, and the rule that decides whether the
//! announcement banner fits on the mobile layout.
//!
//! Times of day in the Paris timezone are obtained through `chrono_tz`
//! behind trusted wrappers; everything computed from them is verified.

use vstd::arithmetic::div_mod::{lemma_fundamental_div_mod, lemma_mod_multiples_basic};
use vstd::prelude::*;

use crate::dates::{spec_days_from_ce, spec_weekday_index, valid_date, Date, Weekday};
use chrono::{Datelike, Timelike};

verus! {

/// An event of the schedule, reduced to the fields the agenda's logic
/// reads: when it starts and when it ends, as Unix timestamps.
#[derive(Clone, Copy, PartialEq, Eq, Structural, Debug)]
pub struct Event {
    pub start_unixtime: u64,
    pub end_unixtime: u64,
}

/// The event list is kept ordered by start time, which the searches below
/// rely on.
pub open spec fn events_sorted(s: Seq<Event>) -> bool {
    forall|i: int, j: int|
        0 <= i <= j < s.len() ==> s[i].start_unixtime <= s[j].start_unixtime
}

/// What `chrono_tz` computes for a Europe/Paris wall-clock time: its Unix
/// timestamp, truncated to `u64` as event times are stored, or nothing
/// when that wall-clock time does not exist or is ambiguous there.
pub uninterp spec fn paris_time(year: int, month: int, day: int, hour: int, minute: int) -> Option<
    u64,
>;

/// Relies on `chrono_tz`'s Europe/Paris table through
/// `chrono::TimeZone::with_ymd_and_hms`, which returns the instant of a
/// wall-clock time when it exists and is unambiguous, and `None`
/// otherwise; the result depends on the arguments alone.
#[verifier::external_body]
fn paris_timestamp(d: &Date, hour: u32, minute: u32) -> (r: Option<u64>)
    ensures
        r == paris_time(d.year as int, d.month as int, d.day as int, hour as int, minute as int),
{
    chrono::TimeZone::with_ymd_and_hms(
        &chrono_tz::Europe::Paris,
        d.year,
        d.month,
        d.day,
        hour,
        minute,
        0,
    ).single().map(|t| t.timestamp() as u64)
}

/// Relies on `chrono::Local::now` converted with `DateTime::with_timezone`
/// to Europe/Paris: the current date, hour and Unix timestamp there.
/// Which moment it is cannot be promised; chrono documents `month` as 1 to
/// 12, `day` as 1 to 31 and `hour` as 0 to 23. Everything else about the
/// date is validated by the caller.
#[verifier::external_body]
fn now_paris_raw() -> (r: (i32, u32, u32, u32, i64))
    ensures
        1 <= r.1 <= 12,
        1 <= r.2 <= 31,
        r.3 < 24,
{
    let now = chrono::Local::now().with_timezone(&chrono_tz::Europe::Paris);
    (now.year(), now.month(), now.day(), now.hour(), now.timestamp())
}

/// The current date, hour and Unix timestamp in Paris, when the date falls
/// in the model's year range.
pub fn paris_now() -> (r: Option<(Date, u32, i64)>)
    ensures
        match r {
            Some(t) => valid_date(t.0) && t.1 < 24,
            None => true,
        },
{
    let (y, m, d, h, ts) = now_paris_raw();
    match Date::from_ymd_checked(y, m, d) {
        Some(date) => Some((date, h, ts)),
        None => None,
    }
}

/// The agenda switches straight to the next day when the evening has
/// started, and skips the weekend unless an event is planned on Saturday.
pub fn should_jump_to_next_day(hour: u32, weekday: Weekday, has_saturday_event: bool) -> (r: bool)
    ensures
        r == (hour >= 19 || weekday == Weekday::Sun || (weekday == Weekday::Sat
            && !has_saturday_event)),
{
    hour >= 19 || weekday == Weekday::Sun || (weekday == Weekday::Sat && !has_saturday_event)
}

/// Offset handed to the slider for a selected day: twenty units per day,
/// measured from an epoch around the year 2000 and growing to the left.
pub fn slider_offset(d: &Date) -> (r: i32)
    requires
        valid_date(*d),
    ensures
        r == -20 * (spec_days_from_ce(*d) - 730000),
{
    -20 * (d.num_days_from_ce() - 730000)
}

/// Horizontal position of a day column on the mobile layout, in percent.
pub fn day_left_percent(d: &Date) -> (r: i32)
    requires
        valid_date(*d),
    ensures
        r == 20 * (spec_days_from_ce(*d) - 730000),
{
    (d.num_days_from_ce() - 730000) * 20
}

/// How far the day container is shifted right on the mobile layout, in
/// percent.
pub fn container_right_percent(d: &Date) -> (r: i32)
    requires
        valid_date(*d),
    ensures
        r == 100 * (spec_days_from_ce(*d) - 730000),
{
    100 * (d.num_days_from_ce() - 730000)
}

/// How many days the agenda steps back from the selected day: one inside
/// the week, and from Monday back over the weekend, to Friday when the
/// previous Saturday is free and to Saturday when it is not.
pub open spec fn previous_step_days(wd: Weekday, has_prev_saturday_event: bool) -> int {
    if wd != Weekday::Mon {
        1
    } else if !has_prev_saturday_event {
        3
    } else {
        2
    }
}

/// How many days the agenda steps forward from the selected day: from
/// Saturday to Monday, one inside the week, and from Friday over a free
/// weekend straight to Monday.
pub open spec fn next_step_days(wd: Weekday, has_saturday_event: bool) -> int {
    if wd == Weekday::Sat {
        2
    } else if wd != Weekday::Fri {
        1
    } else if !has_saturday_event {
        3
    } else {
        1
    }
}

/// The props the agenda component is created with hold only outside
/// handles (the application link, the user info), none of which this model
/// reads. As in the UI, two props always compare equal, so they never
/// force a re-render by themselves.
pub struct AgendaProps {}

impl PartialEq for AgendaProps {
    fn eq(&self, _other: &Self) -> (r: bool) {
        true
    }
}

impl vstd::std_specs::cmp::PartialEqSpecImpl for AgendaProps {
    open spec fn obeys_eq_spec() -> bool {
        true
    }

    open spec fn eq_spec(&self, _other: &Self) -> bool {
        true
    }
}

/// The agenda's state: the selected day and the events of the schedule.
pub struct Agenda {
    pub selected_day: Date,
    pub events: Vec<Event>,
}

impl Agenda {
    /// The selected day is a valid date and the events are ordered by
    /// start time.
    pub open spec fn wf(&self) -> bool {
        &&& valid_date(self.selected_day)
        &&& events_sorted(self.events@)
    }

    /// A fresh agenda on the given day.
    pub fn new(selected_day: Date, events: Vec<Event>) -> (r: Agenda)
        requires
            valid_date(selected_day),
            events_sorted(events@),
        ensures
            r.wf(),
            r.selected_day == selected_day,
            r.events == events,
    {
        Agenda { selected_day, events }
    }

    /// Replaces the schedule when a fetch succeeds; the view is refreshed.
    pub fn set_events(&mut self, events: Vec<Event>) -> (refresh: bool)
        requires
            old(self).wf(),
            events_sorted(events@),
        ensures
            final(self).wf(),
            final(self).events == events,
            final(self).selected_day == old(self).selected_day,
            refresh == true,
    {
        self.events = events;
        true
    }

    /// Steps to the previous displayed day and returns the slider offset
    /// to apply.
    pub fn previous(&mut self, has_prev_saturday_event: bool) -> (offset: i32)
        requires
            old(self).wf(),
            spec_days_from_ce(old(self).selected_day) >= spec_days_from_ce(Date::spec_first()) + 3,
        ensures
            final(self).wf(),
            final(self).events == old(self).events,
            spec_days_from_ce(final(self).selected_day) == spec_days_from_ce(
                old(self).selected_day,
            ) - previous_step_days(
                Weekday::spec_from_index(spec_weekday_index(old(self).selected_day)),
                has_prev_saturday_event,
            ),
            offset == -20 * (spec_days_from_ce(final(self).selected_day) - 730000),
    {
        let wd = self.selected_day.weekday();
        if wd != Weekday::Mon {
            self.selected_day = self.selected_day.pred();
        } else if !has_prev_saturday_event {
            self.selected_day = self.selected_day.pred().pred().pred();
        } else {
            self.selected_day = self.selected_day.pred().pred();
        }
        slider_offset(&self.selected_day)
    }

    /// Steps to the next displayed day and returns the slider offset to
    /// apply.
    pub fn next(&mut self, has_saturday_event: bool) -> (offset: i32)
        requires
            old(self).wf(),
            spec_days_from_ce(old(self).selected_day) + 3 <= spec_days_from_ce(Date::spec_last()),
        ensures
            final(self).wf(),
            final(self).events == old(self).events,
            spec_days_from_ce(final(self).selected_day) == spec_days_from_ce(
                old(self).selected_day,
            ) + next_step_days(
                Weekday::spec_from_index(spec_weekday_index(old(self).selected_day)),
                has_saturday_event,
            ),
            offset == -20 * (spec_days_from_ce(final(self).selected_day) - 730000),
    {
        let wd = self.selected_day.weekday();
        if wd == Weekday::Sat {
            self.selected_day = self.selected_day.succ().succ();
        } else if wd != Weekday::Fri {
            self.selected_day = self.selected_day.succ();
        } else if !has_saturday_event {
            self.selected_day = self.selected_day.succ().succ().succ();
        } else {
            self.selected_day = self.selected_day.succ();
        }
        slider_offset(&self.selected_day)
    }

    /// Jumps to a given day and returns the slider offset to apply.
    pub fn goto(&mut self, year: i32, month: u32, day: u32) -> (offset: i32)
        requires
            old(self).wf(),
            valid_date(Date { year, month, day }),
        ensures
            final(self).wf(),
            final(self).events == old(self).events,
            final(self).selected_day == (Date { year, month, day }),
            offset == -20 * (spec_days_from_ce(final(self).selected_day) - 730000),
    {
        self.selected_day = Date { year, month, day };
        slider_offset(&self.selected_day)
    }

    /// First day of the displayed range: two days back on the mobile
    /// layout, the Monday of the selected week otherwise.
    pub fn week_start(&self, mobile: bool) -> (r: Date)
        requires
            self.wf(),
            spec_days_from_ce(self.selected_day) >= spec_days_from_ce(Date::spec_first()) + 6,
        ensures
            valid_date(r),
            mobile ==> spec_days_from_ce(r) == spec_days_from_ce(self.selected_day) - 2,
            !mobile ==> spec_days_from_ce(r) == spec_days_from_ce(self.selected_day)
                - spec_weekday_index(self.selected_day) && spec_weekday_index(r) == 0,
    {
        if mobile {
            self.selected_day.backward_days(2)
        } else {
            let n = self.selected_day.weekday().num_days_from_monday();
            let r = self.selected_day.backward_days(n);
            proof {
                let k = spec_days_from_ce(self.selected_day) - 1;
                lemma_fundamental_div_mod(k, 7);
                lemma_mod_multiples_basic(k / 7, 7);
            }
            r
        }
    }
}

/// The six consecutive days shown from a week's first displayed day.
pub fn week_days(start: &Date) -> (r: Vec<Date>)
    requires
        valid_date(*start),
        spec_days_from_ce(*start) + 5 <= spec_days_from_ce(Date::spec_last()),
    ensures
        r@.len() == 6,
        forall|i: int|
            0 <= i < 6 ==> valid_date(#[trigger] r@[i]) && spec_days_from_ce(r@[i])
                == spec_days_from_ce(*start) + i,
{
    let mut r: Vec<Date> = Vec::new();
    let mut cur = *start;
    let mut i: usize = 0;
    while i < 6
        invariant
            0 <= i <= 6,
            r@.len() == i,
            valid_date(*start),
            spec_days_from_ce(*start) + 5 <= spec_days_from_ce(Date::spec_last()),
            i < 6 ==> valid_date(cur) && spec_days_from_ce(cur) == spec_days_from_ce(*start) + i,
            forall|j: int|
                0 <= j < i ==> valid_date(#[trigger] r@[j]) && spec_days_from_ce(r@[j])
                    == spec_days_from_ce(*start) + j,
        decreases 6 - i,
    {
        r.push(cur);
        if i < 5 {
            proof {
                if cur == Date::spec_last() {
                    assert(spec_days_from_ce(cur) < spec_days_from_ce(Date::spec_last()));
                }
            }
            cur = cur.succ();
        }
        i = i + 1;
    }
    r
}

/// Whether an event starts during the day that begins at `day_start`,
/// including an event starting exactly a full day later.
pub open spec fn in_day_window(e: Event, day_start: u64) -> bool {
    day_start <= e.start_unixtime <= day_start + 86400
}

/// Index of the first event starting at or after `a`, or the length when
/// every event starts before.
pub open spec fn first_at_or_after(s: Seq<Event>, a: u64) -> int
    decreases s.len(),
{
    if s.len() == 0 {
        0
    } else if s[0].start_unixtime >= a {
        0
    } else {
        1 + first_at_or_after(s.drop_first(), a)
    }
}

/// In an ordered event list, the index below which starts are smaller than
/// `a` and from which they are at least `a` is the first-at-or-after index.
pub proof fn lemma_first_at_or_after(s: Seq<Event>, a: u64, idx: int)
    requires
        0 <= idx <= s.len(),
        forall|j: int| 0 <= j < idx ==> (#[trigger] s[j].start_unixtime) < a,
        forall|j: int| idx <= j < s.len() ==> (#[trigger] s[j].start_unixtime) >= a,
    ensures
        idx == first_at_or_after(s, a),
    decreases idx,
{
    if idx == 0 {
    } else {
        lemma_first_at_or_after(s.drop_first(), a, idx - 1);
    }
}

/// Index of the first event starting at or after `key`.
pub fn lower_bound_start(events: &Vec<Event>, key: u64) -> (idx: usize)
    requires
        events_sorted(events@),
    ensures
        0 <= idx <= events@.len(),
        forall|j: int| 0 <= j < idx ==> (#[trigger] events@[j].start_unixtime) < key,
        forall|j: int| idx <= j < events@.len() ==> (#[trigger] events@[j].start_unixtime) >= key,
{
    let mut lo: usize = 0;
    let mut hi: usize = events.len();
    while lo < hi
        invariant
            0 <= lo <= hi <= events@.len(),
            events_sorted(events@),
            forall|j: int| 0 <= j < lo ==> (#[trigger] events@[j].start_unixtime) < key,
            forall|j: int|
                hi <= j < events@.len() ==> (#[trigger] events@[j].start_unixtime) >= key,
        decreases hi - lo,
    {
        let mid = lo + (hi - lo) / 2;
        if events[mid].start_unixtime < key {
            lo = mid + 1;
        } else {
            hi = mid;
        }
    }
    lo
}

/// Filtering a sequence extended by one element keeps the element exactly
/// when it satisfies the predicate.
proof fn lemma_filter_push<A>(s: Seq<A>, x: A, pred: spec_fn(A) -> bool)
    ensures
        s.push(x).filter(pred) == (if pred(x) {
            s.filter(pred).push(x)
        } else {
            s.filter(pred)
        }),
{
    reveal(Seq::filter);
    assert(s.push(x).drop_last() =~= s);
    assert(s.push(x).last() == x);
}

/// Filtering drops everything when nothing satisfies the predicate.
proof fn lemma_filter_all_false<A>(s: Seq<A>, pred: spec_fn(A) -> bool)
    requires
        forall|i: int| 0 <= i < s.len() ==> !pred(#[trigger] s[i]),
    ensures
        s.filter(pred) == Seq::<A>::empty(),
    decreases s.len(),
{
    reveal(Seq::filter);
    if s.len() > 0 {
        lemma_filter_all_false(s.drop_last(), pred);
    }
    assert(s.filter(pred) =~= Seq::<A>::empty());
}

/// The events that start during the day beginning at `day_start`, in
/// order, found from the first of them by a binary search.
pub fn events_on_day(events: &Vec<Event>, day_start: u64) -> (r: Vec<Event>)
    requires
        events_sorted(events@),
    ensures
        r@ == events@.filter(|e: Event| in_day_window(e, day_start)),
{
    let ghost pred = |e: Event| in_day_window(e, day_start);
    let idx = lower_bound_start(events, day_start);
    let mut r: Vec<Event> = Vec::new();
    proof {
        lemma_filter_all_false(events@.subrange(0, idx as int), pred);
    }
    let mut k = idx;
    while k < events.len() && events[k].start_unixtime - day_start <= 86400
        invariant
            events_sorted(events@),
            0 <= idx <= k <= events@.len(),
            forall|j: int| 0 <= j < idx ==> (#[trigger] events@[j].start_unixtime) < day_start,
            forall|j: int|
                idx <= j < events@.len() ==> (#[trigger] events@[j].start_unixtime) >= day_start,
            pred == (|e: Event| in_day_window(e, day_start)),
            r@ == events@.subrange(0, k as int).filter(pred),
        decreases events@.len() - k,
    {
        r.push(events[k]);
        proof {
            assert(events@.subrange(0, k as int + 1) =~= events@.subrange(0, k as int).push(
                events@[k as int],
            ));
            lemma_filter_push(events@.subrange(0, k as int), events@[k as int], pred);
        }
        k = k + 1;
    }
    proof {
        if k < events@.len() {
            assert forall|j: int| k <= j < events@.len() implies !pred(#[trigger] events@[j]) by {
                assert(events@[k as int].start_unixtime <= events@[j].start_unixtime);
            }
            lemma_filter_all_false(events@.subrange(k as int, events@.len() as int), pred);
            assert(events@ =~= events@.subrange(0, k as int) + events@.subrange(
                k as int,
                events@.len() as int,
            ));
            Seq::<Event>::filter_distributes_over_add(
                events@.subrange(0, k as int),
                events@.subrange(k as int, events@.len() as int),
                pred,
            );
            assert(r@ =~= events@.filter(pred));
        } else {
            assert(events@.subrange(0, k as int) =~= events@);
        }
    }
    r
}

/// The events of a Paris day: those starting between the day's midnight
/// and the next, bounds included. When Paris has no unambiguous midnight
/// that day, no event is selected.
pub fn events_on_paris_day(events: &Vec<Event>, day: &Date) -> (r: Vec<Event>)
    requires
        events_sorted(events@),
        valid_date(*day),
    ensures
        match paris_time(day.year as int, day.month as int, day.day as int, 0, 0) {
            Some(ds) => r@ == events@.filter(|e: Event| in_day_window(e, ds)),
            None => r@ == Seq::<Event>::empty(),
        },
{
    match paris_timestamp(day, 0, 0) {
        Some(ds) => events_on_day(events, ds),
        None => Vec::new(),
    }
}

/// The backward walk over the events before the announcement slot: an
/// event ending inside the slot hides the announcement; the walk gives up
/// at an event ending more than six hours before the slot.
pub open spec fn scan_hides(s: Seq<Event>, j: int, a: u64, b: u64) -> bool
    decreases j + 1,
{
    if j < 0 || j >= s.len() {
        false
    } else if a <= s[j].end_unixtime <= b {
        true
    } else if s[j].end_unixtime < a - 21600 {
        false
    } else {
        scan_hides(s, j - 1, a, b)
    }
}

/// The announcement slot from `a` to `b` is hidden by the schedule when an
/// event starts exactly at `a`; otherwise, when the next event starting
/// after `a` exists, it hides the slot if it starts by `b`, and if it does
/// not, the events before it are walked backwards for one ending inside
/// the slot.
pub open spec fn spec_announcement_hidden(s: Seq<Event>, a: u64, b: u64) -> bool {
    if exists|i: int| 0 <= i < s.len() && (#[trigger] s[i].start_unixtime) == a {
        true
    } else {
        let idx = first_at_or_after(s, a);
        if idx == s.len() {
            false
        } else if s[idx].start_unixtime <= b {
            true
        } else {
            scan_hides(s, idx - 1, a, b)
        }
    }
}

/// Whether the events hide the announcement slot from `a` to `b`.
pub fn announcement_hidden(events: &Vec<Event>, a: u64, b: u64) -> (r: bool)
    requires
        events_sorted(events@),
    ensures
        r == spec_announcement_hidden(events@, a, b),
{
    let idx = lower_bound_start(events, a);
    proof {
        lemma_first_at_or_after(events@, a, idx as int);
    }
    if idx < events.len() && events[idx].start_unixtime == a {
        return true;
    }
    proof {
        assert forall|i: int|
            0 <= i < events@.len() implies (#[trigger] events@[i].start_unixtime) != a by {
            if i >= idx {
                assert(events@[idx as int].start_unixtime <= events@[i].start_unixtime);
            }
        }
    }
    if idx == events.len() {
        return false;
    }
    if events[idx].start_unixtime <= b {
        return true;
    }
    let mut j = idx;
    while j > 0
        invariant
            0 <= j <= idx < events@.len(),
            forall|i: int| 0 <= i < events@.len() ==> (#[trigger] events@[i].start_unixtime) != a,
            idx == first_at_or_after(events@, a),
            events@[idx as int].start_unixtime > b,
            scan_hides(events@, idx as int - 1, a, b) == scan_hides(events@, j as int - 1, a, b),
        decreases j,
    {
        let e = events[j - 1];
        if a <= e.end_unixtime && e.end_unixtime <= b {
            return true;
        }
        if e.end_unixtime <= u64::MAX - 21600 && a > e.end_unixtime + 21600 {
            return false;
        }
        j = j - 1;
    }
    false
}

/// The character of a decimal digit.
pub open spec fn decimal_digit_char(d: int) -> char {
    if d == 0 {
        '0'
    } else if d == 1 {
        '1'
    } else if d == 2 {
        '2'
    } else if d == 3 {
        '3'
    } else if d == 4 {
        '4'
    } else if d == 5 {
        '5'
    } else if d == 6 {
        '6'
    } else if d == 7 {
        '7'
    } else if d == 8 {
        '8'
    } else {
        '9'
    }
}

/// The decimal notation of a number, without leading zeroes.
pub open spec fn spec_decimal(n: nat) -> Seq<char>
    decreases n,
{
    if n < 10 {
        seq![decimal_digit_char(n as int)]
    } else {
        spec_decimal(n / 10).push(decimal_digit_char((n % 10) as int))
    }
}

/// Appends the decimal notation of `n`.
pub fn push_decimal(s: &mut String, n: u32)
    ensures
        final(s)@ == old(s)@ + spec_decimal(n as nat),
    decreases n,
{
    if n >= 10 {
        push_decimal(s, n / 10);
    }
    let ghost mid = s@;
    let d = n % 10;
    let c: &str = if d == 0 {
        "0"
    } else if d == 1 {
        "1"
    } else if d == 2 {
        "2"
    } else if d == 3 {
        "3"
    } else if d == 4 {
        "4"
    } else if d == 5 {
        "5"
    } else if d == 6 {
        "6"
    } else if d == 7 {
        "7"
    } else if d == 8 {
        "8"
    } else {
        "9"
    };
    proof {
        reveal_strlit("0");
        reveal_strlit("1");
        reveal_strlit("2");
        reveal_strlit("3");
        reveal_strlit("4");
        reveal_strlit("5");
        reveal_strlit("6");
        reveal_strlit("7");
        reveal_strlit("8");
        reveal_strlit("9");
        assert(c@ =~= seq![decimal_digit_char(d as int)]);
    }
    s.append(c);
    proof {
        assert(s@ =~= old(s)@ + spec_decimal(n as nat));
    }
}

/// The French name of a weekday, as the day header shows it.
pub open spec fn spec_french_day_name(w: Weekday) -> Seq<char> {
    match w {
        Weekday::Mon => "Lundi"@,
        Weekday::Tue => "Mardi"@,
        Weekday::Wed => "Mercredi"@,
        Weekday::Thu => "Jeudi"@,
        Weekday::Fri => "Vendredi"@,
        Weekday::Sat => "Samedi"@,
        Weekday::Sun => "Dimanche"@,
    }
}

/// The header of a day column: the French day name, a space, and the day
/// of the month.
pub fn format_day(day_name: Weekday, day: u32) -> (r: String)
    ensures
        r@ == spec_french_day_name(day_name) + seq![' '] + spec_decimal(day as nat),
{
    let name: &str = match day_name {
        Weekday::Mon => "Lundi",
        Weekday::Tue => "Mardi",
        Weekday::Wed => "Mercredi",
        Weekday::Thu => "Jeudi",
        Weekday::Fri => "Vendredi",
        Weekday::Sat => "Samedi",
        Weekday::Sun => "Dimanche",
    };
    let mut s = String::from_str(name);
    s.append(" ");
    proof {
        reveal_strlit(" ");
        assert((" ")@ =~= seq![' ']);
    }
    push_decimal(&mut s, day);
    proof {
        assert(s@ =~= spec_french_day_name(day_name) + seq![' '] + spec_decimal(day as nat));
    }
    s
}

/// The announcement slot of a day on the mobile layout: from half past six
/// to eight in the evening, Paris time, when those times exist there.
pub fn announcement_slot(day: &Date) -> (r: Option<(u64, u64)>)
    requires
        valid_date(*day),
    ensures
        match r {
            Some(w) => Some(w.0) == paris_time(
                day.year as int,
                day.month as int,
                day.day as int,
                18,
                30,
            ) && Some(w.1) == paris_time(day.year as int, day.month as int, day.day as int, 20, 0),
            None => paris_time(day.year as int, day.month as int, day.day as int, 18, 30) is None
                || paris_time(day.year as int, day.month as int, day.day as int, 20, 0) is None,
        },
{
    let start = paris_timestamp(day, 18, 30);
    let end = paris_timestamp(day, 20, 0);
    match (start, end) {
        (Some(a), Some(b)) => Some((a, b)),
        _ => None,
    }
}

/// Whether the mobile layout has room for the announcement banner in the
/// evening slot of `day`: the slot's times must exist in Paris, and the
/// schedule must leave the slot free.
pub fn show_mobile_announcement(events: &Vec<Event>, day: &Date) -> (r: bool)
    requires
        events_sorted(events@),
        valid_date(*day),
    ensures
        match (
            paris_time(day.year as int, day.month as int, day.day as int, 18, 30),
            paris_time(day.year as int, day.month as int, day.day as int, 20, 0),
        ) {
            (Some(a), Some(b)) => r == !spec_announcement_hidden(events@, a, b),
            _ => r == false,
        },
{
    match announcement_slot(day) {
        Some((a, b)) => !announcement_hidden(events, a, b),
        None => false,
    }
}

} // verus!
