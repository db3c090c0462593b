//! Efficiency of teachers, day by day.
//!
//! For a teacher and a day, every schedule that starts on that day counts as
//! two scheduled sessions; every invoice that names the shift of such a
//! schedule counts as taught where it is eligible and as a no-show where it
//! is not. The variance is what was taught less what was scheduled and less
//! the no-shows.

use crate::billing::BillingRow;
use crate::calendar::{lemma_successor_between, CalendarDate};
use crate::persist::{invoice_row, Invoice};
use crate::schedule::{schedule_views, Schedule, ScheduleView};
use crate::text::{distinct, distinct_texts, texts};
use vstd::prelude::*;

verus! {

/// The efficiency of one teacher on one day.
#[derive(Debug)]
pub struct EfficiencyDay {
    pub date: CalendarDate,
    pub scheduled: i64,
    pub taught: i64,
    pub no_shows: i64,
    pub variance: i64,
    pub teacher_name: String,
}

/// The efficiency of one teacher over the days of a report.
#[derive(Debug)]
pub struct EfficiencySummary {
    pub teacher_name: String,
    pub scheduled: i64,
    pub taught: i64,
    pub no_shows: i64,
    pub variance: i64,
}

/// The efficiency of the teachers of a shift group over the days of a report.
#[derive(Debug)]
pub struct EfficiencyTable {
    pub shift_group: String,
    pub table_teachers: Vec<String>,
    pub table_days_efficiencies: Vec<EfficiencyDay>,
    pub table_days: Vec<CalendarDate>,
    pub table_summary: Vec<EfficiencySummary>,
}

/// What an [`EfficiencyDay`] or an [`EfficiencySummary`] holds. A summary
/// has no date.
pub struct Figures {
    pub teacher_name: Seq<char>,
    pub scheduled: int,
    pub taught: int,
    pub no_shows: int,
    pub variance: int,
}

/// What an [`EfficiencyDay`] holds.
pub struct DayView {
    pub date: CalendarDate,
    pub figures: Figures,
}

impl View for EfficiencyDay {
    type V = DayView;

    open spec fn view(&self) -> DayView {
        DayView {
            date: self.date,
            figures: Figures {
                teacher_name: self.teacher_name@,
                scheduled: self.scheduled as int,
                taught: self.taught as int,
                no_shows: self.no_shows as int,
                variance: self.variance as int,
            },
        }
    }
}

impl View for EfficiencySummary {
    type V = Figures;

    open spec fn view(&self) -> Figures {
        Figures {
            teacher_name: self.teacher_name@,
            scheduled: self.scheduled as int,
            taught: self.taught as int,
            no_shows: self.no_shows as int,
            variance: self.variance as int,
        }
    }
}

impl Clone for EfficiencyDay {
    fn clone(&self) -> (r: Self)
        ensures
            r@ == self@,
    {
        EfficiencyDay {
            date: self.date,
            scheduled: self.scheduled,
            taught: self.taught,
            no_shows: self.no_shows,
            variance: self.variance,
            teacher_name: self.teacher_name.clone(),
        }
    }
}

impl Clone for EfficiencySummary {
    fn clone(&self) -> (r: Self)
        ensures
            r@ == self@,
    {
        EfficiencySummary {
            teacher_name: self.teacher_name.clone(),
            scheduled: self.scheduled,
            taught: self.taught,
            no_shows: self.no_shows,
            variance: self.variance,
        }
    }
}

/// The days of a vector of day efficiencies.
pub open spec fn day_views(days: Seq<EfficiencyDay>) -> Seq<DayView> {
    days.map_values(|d: EfficiencyDay| d@)
}

/// The figures of a vector of summaries.
pub open spec fn summary_views(rows: Seq<EfficiencySummary>) -> Seq<Figures> {
    rows.map_values(|s: EfficiencySummary| s@)
}

/// The billing rows of a vector of invoices.
pub open spec fn invoice_rows(invoices: Seq<Invoice>) -> Seq<BillingRow> {
    invoices.map_values(|i: Invoice| invoice_row(i))
}

/// The names of the teachers of the schedules, one for each schedule.
pub open spec fn teacher_names(schedules: Seq<ScheduleView>) -> Seq<Seq<char>> {
    schedules.map_values(|s: ScheduleView| s.teacher_name)
}

/// The schedule is of `teacher` and starts on `day`.
pub open spec fn works_on(s: ScheduleView, teacher: Seq<char>, day: CalendarDate) -> bool {
    s.teacher_name == teacher && s.start_date.date == day
}

/// The number of invoices that name `shift` with the given eligibility.
pub open spec fn billed(invoices: Seq<BillingRow>, shift: Seq<char>, eligible: bool) -> nat
    decreases invoices.len(),
{
    if invoices.len() == 0 {
        0
    } else if invoices.last().shift == shift && invoices.last().eligible == eligible {
        billed(invoices.drop_last(), shift, eligible) + 1
    } else {
        billed(invoices.drop_last(), shift, eligible)
    }
}

/// The number of schedules of `teacher` that start on `day`.
pub open spec fn schedules_on(schedules: Seq<ScheduleView>, teacher: Seq<char>, day: CalendarDate)
    -> nat
    decreases schedules.len(),
{
    if schedules.len() == 0 {
        0
    } else if works_on(schedules.last(), teacher, day) {
        schedules_on(schedules.drop_last(), teacher, day) + 1
    } else {
        schedules_on(schedules.drop_last(), teacher, day)
    }
}

/// The number of invoices, with the given eligibility, that name the shift
/// of a schedule of `teacher` that starts on `day`; an invoice counts once
/// for every such schedule.
pub open spec fn billed_on(
    schedules: Seq<ScheduleView>,
    invoices: Seq<BillingRow>,
    teacher: Seq<char>,
    day: CalendarDate,
    eligible: bool,
) -> nat
    decreases schedules.len(),
{
    if schedules.len() == 0 {
        0
    } else if works_on(schedules.last(), teacher, day) {
        billed_on(schedules.drop_last(), invoices, teacher, day, eligible) + billed(
            invoices,
            schedules.last().shift,
            eligible,
        )
    } else {
        billed_on(schedules.drop_last(), invoices, teacher, day, eligible)
    }
}

/// The figures of `teacher` on `day`.
pub open spec fn day_figures(
    schedules: Seq<ScheduleView>,
    invoices: Seq<BillingRow>,
    teacher: Seq<char>,
    day: CalendarDate,
) -> Figures {
    let scheduled = 2 * schedules_on(schedules, teacher, day);
    let taught = billed_on(schedules, invoices, teacher, day, true);
    let no_shows = billed_on(schedules, invoices, teacher, day, false);
    Figures {
        teacher_name: teacher,
        scheduled: scheduled as int,
        taught: taught as int,
        no_shows: no_shows as int,
        variance: taught - scheduled - no_shows,
    }
}

/// The days from `first` to `last`, both included; none where `first` is
/// after `last` or either is no day.
pub open spec fn days_through(first: CalendarDate, last: CalendarDate) -> Seq<CalendarDate>
    decreases last.ordinal() - first.ordinal(),
    via days_through_ends
{
    if !first.well_formed() || !last.well_formed() || !first.not_after(&last) {
        Seq::empty()
    } else if first == last {
        seq![first]
    } else {
        seq![first] + days_through(first.successor(), last)
    }
}

#[via_fn]
proof fn days_through_ends(first: CalendarDate, last: CalendarDate) {
    if first.well_formed() && last.well_formed() && first.not_after(&last) && first != last {
        lemma_successor_between(first, last);
    }
}

/// The figures of `teacher` on each of `days`.
pub open spec fn teacher_days(
    schedules: Seq<ScheduleView>,
    invoices: Seq<BillingRow>,
    teacher: Seq<char>,
    days: Seq<CalendarDate>,
) -> Seq<DayView>
    decreases days.len(),
{
    if days.len() == 0 {
        Seq::empty()
    } else {
        teacher_days(schedules, invoices, teacher, days.drop_last()).push(
            DayView {
                date: days.last(),
                figures: day_figures(schedules, invoices, teacher, days.last()),
            },
        )
    }
}

/// The sums of the figures of `days`, under the name `teacher`.
pub open spec fn summed(days: Seq<DayView>, teacher: Seq<char>) -> Figures
    decreases days.len(),
{
    if days.len() == 0 {
        Figures { teacher_name: teacher, scheduled: 0, taught: 0, no_shows: 0, variance: 0 }
    } else {
        let head = summed(days.drop_last(), teacher);
        let last = days.last().figures;
        Figures {
            teacher_name: teacher,
            scheduled: head.scheduled + last.scheduled,
            taught: head.taught + last.taught,
            no_shows: head.no_shows + last.no_shows,
            variance: head.variance + last.variance,
        }
    }
}

/// The day figures of every teacher, teacher by teacher.
pub open spec fn all_days(
    schedules: Seq<ScheduleView>,
    invoices: Seq<BillingRow>,
    teachers: Seq<Seq<char>>,
    days: Seq<CalendarDate>,
) -> Seq<DayView>
    decreases teachers.len(),
{
    if teachers.len() == 0 {
        Seq::empty()
    } else {
        all_days(schedules, invoices, teachers.drop_last(), days) + teacher_days(
            schedules,
            invoices,
            teachers.last(),
            days,
        )
    }
}

/// The summary of every teacher.
pub open spec fn all_summaries(
    schedules: Seq<ScheduleView>,
    invoices: Seq<BillingRow>,
    teachers: Seq<Seq<char>>,
    days: Seq<CalendarDate>,
) -> Seq<Figures>
    decreases teachers.len(),
{
    if teachers.len() == 0 {
        Seq::empty()
    } else {
        all_summaries(schedules, invoices, teachers.drop_last(), days).push(
            summed(teacher_days(schedules, invoices, teachers.last(), days), teachers.last()),
        )
    }
}

/// The most that the figures of one day can come to, in absolute value, with
/// so many schedules and invoices.
pub open spec fn day_limit(schedules: int, invoices: int) -> int {
    2 * schedules * (invoices + 1)
}

/// The figures of a report fit in 64 bits whatever the schedules and
/// invoices hold.
pub open spec fn report_fits(schedules: int, invoices: int, days: int) -> bool {
    days * day_limit(schedules, invoices) <= i64::MAX
}

/// Whether the figures of a report fit in 64 bits whatever the schedules
/// and invoices hold.
pub fn report_fits_in(schedules: usize, invoices: usize, days: usize) -> (r: bool)
    ensures
        r == report_fits(schedules as int, invoices as int, days as int),
{
    if schedules == 0 || days == 0 {
        assert(days * day_limit(schedules as int, invoices as int) == 0) by (nonlinear_arith)
            requires
                schedules == 0 || days == 0,
        ;
        return true;
    }
    let per_schedule: u128 = invoices as u128 + 1;
    assert(schedules * per_schedule <= 0xffff_ffff_ffff_ffff * 0x1_0000_0000_0000_0000)
        by (nonlinear_arith)
        requires
            schedules <= 0xffff_ffff_ffff_ffff,
            per_schedule <= 0x1_0000_0000_0000_0000,
    ;
    let product: u128 = schedules as u128 * per_schedule;
    assert(day_limit(schedules as int, invoices as int) == 2 * product) by (nonlinear_arith)
        requires
            product == schedules * (invoices + 1),
    ;
    if product > 0x3fff_ffff_ffff_ffff {
        assert(days * (2 * product) > i64::MAX) by (nonlinear_arith)
            requires
                days >= 1,
                product > 0x3fff_ffff_ffff_ffff,
        ;
        return false;
    }
    let limit: u128 = 2 * product;
    assert(days * limit <= 0xffff_ffff_ffff_ffff * 0x7fff_ffff_ffff_ffff) by (nonlinear_arith)
        requires
            days <= 0xffff_ffff_ffff_ffff,
            limit <= 0x7fff_ffff_ffff_ffff,
    ;
    days as u128 * limit <= 0x7fff_ffff_ffff_ffff
}

proof fn lemma_scale(k: int, d: int, cap: int)
    requires
        0 <= k < d,
        0 <= cap,
    ensures
        (k + 1) * cap == k * cap + cap,
        (k + 1) * cap <= d * cap,
        0 <= k * cap,
{
    assert((k + 1) * cap == k * cap + cap) by (nonlinear_arith);
    assert((k + 1) * cap <= d * cap) by (nonlinear_arith)
        requires
            k + 1 <= d,
            0 <= cap,
    ;
    assert(0 <= k * cap) by (nonlinear_arith)
        requires
            0 <= k,
            0 <= cap,
    ;
}

proof fn lemma_day_limit(m: int, n: int)
    requires
        0 <= m,
        0 <= n,
    ensures
        day_limit(m, n) == 2 * m + 2 * (m * n),
        0 <= m * n,
{
    assert(2 * m * (n + 1) == 2 * m + 2 * (m * n)) by (nonlinear_arith);
    assert(0 <= m * n) by (nonlinear_arith)
        requires
            0 <= m,
            0 <= n,
    ;
}

/// The numbers of invoices that name `shift`: the eligible ones, and the
/// others.
pub fn count_billed(invoices: &Vec<Invoice>, shift: &String) -> (r: (usize, usize))
    ensures
        r.0 == billed(invoice_rows(invoices@), shift@, true),
        r.1 == billed(invoice_rows(invoices@), shift@, false),
        r.0 + r.1 <= invoices.len(),
{
    let mut taught: usize = 0;
    let mut no_shows: usize = 0;
    let ghost all = invoice_rows(invoices@);
    let mut i: usize = 0;
    assert(all.take(0) =~= Seq::<BillingRow>::empty());
    while i < invoices.len()
        invariant
            i <= invoices.len(),
            all == invoice_rows(invoices@),
            taught == billed(all.take(i as int), shift@, true),
            no_shows == billed(all.take(i as int), shift@, false),
            taught + no_shows <= i,
        decreases invoices.len() - i,
    {
        assert(all.take(i as int + 1).drop_last() =~= all.take(i as int));
        assert(all.take(i as int + 1).last() == invoice_row(invoices@[i as int]));
        if invoices[i].shift == *shift {
            if invoices[i].eligible {
                taught = taught + 1;
            } else {
                no_shows = no_shows + 1;
            }
        }
        i = i + 1;
    }
    assert(all.take(invoices.len() as int) =~= all);
    (taught, no_shows)
}

/// The efficiency of `teacher` on `day`.
pub fn day_efficiency(
    schedules: &Vec<Schedule>,
    invoices: &Vec<Invoice>,
    teacher: &String,
    day: CalendarDate,
) -> (r: EfficiencyDay)
    requires
        day_limit(schedules.len() as int, invoices.len() as int) <= i64::MAX,
    ensures
        r@ == (DayView {
            date: day,
            figures: day_figures(
                schedule_views(schedules@),
                invoice_rows(invoices@),
                teacher@,
                day,
            ),
        }),
        0 <= r.scheduled,
        0 <= r.taught,
        0 <= r.no_shows,
        r.scheduled + r.taught + r.no_shows <= day_limit(
            schedules.len() as int,
            invoices.len() as int,
        ),
{
    let ghost m = schedules.len() as int;
    let ghost n = invoices.len() as int;
    let ghost all = schedule_views(schedules@);
    let ghost rows = invoice_rows(invoices@);
    let mut sessions: i64 = 0;
    let mut taught: i64 = 0;
    let mut no_shows: i64 = 0;
    let mut i: usize = 0;
    proof {
        lemma_day_limit(m, n);
        assert(all.take(0) =~= Seq::<ScheduleView>::empty());
        assert(0 * n == 0) by (nonlinear_arith);
    }
    while i < schedules.len()
        invariant
            i <= schedules.len(),
            m == schedules.len(),
            n == invoices.len(),
            all == schedule_views(schedules@),
            rows == invoice_rows(invoices@),
            day_limit(m, n) == 2 * m + 2 * (m * n),
            day_limit(m, n) <= i64::MAX,
            0 <= m * n,
            sessions == schedules_on(all.take(i as int), teacher@, day),
            taught == billed_on(all.take(i as int), rows, teacher@, day, true),
            no_shows == billed_on(all.take(i as int), rows, teacher@, day, false),
            sessions <= i,
            taught + no_shows <= i * n,
            0 <= i * n <= m * n,
        decreases schedules.len() - i,
    {
        let row = &schedules[i];
        assert(all.take(i as int + 1).drop_last() =~= all.take(i as int));
        assert(all.take(i as int + 1).last() == row@);
        proof {
            lemma_scale(i as int, m, n);
        }
        if row.teacher_name == *teacher && row.start_date.date == day {
            let (t, s) = count_billed(invoices, &row.shift);
            sessions = sessions + 1;
            taught = taught + t as i64;
            no_shows = no_shows + s as i64;
        }
        i = i + 1;
    }
    assert(all.take(schedules.len() as int) =~= all);
    let scheduled: i64 = 2 * sessions;
    EfficiencyDay {
        date: day,
        scheduled,
        taught,
        no_shows,
        variance: taught - scheduled - no_shows,
        teacher_name: teacher.clone(),
    }
}

/// The days from `first` to `last`, both included.
pub fn report_days(first: CalendarDate, last: CalendarDate) -> (days: Vec<CalendarDate>)
    requires
        first.well_formed(),
        last.well_formed(),
    ensures
        days@ == days_through(first, last),
        forall|i: int| 0 <= i < days.len() ==> (#[trigger] days[i]).well_formed(),
{
    let mut days: Vec<CalendarDate> = Vec::new();
    if !first.is_not_after(&last) {
        return days;
    }
    let mut current = first;
    loop
        invariant_except_break
            current.well_formed(),
            last.well_formed(),
            current.not_after(&last),
            days@ + days_through(current, last) == days_through(first, last),
        invariant
            forall|i: int| 0 <= i < days.len() ==> (#[trigger] days[i]).well_formed(),
        ensures
            days@ == days_through(first, last),
            forall|i: int| 0 <= i < days.len() ==> (#[trigger] days[i]).well_formed(),
        decreases last.ordinal() - current.ordinal(),
    {
        let ghost before = days@;
        days.push(current);
        if current == last {
            assert(days@ =~= before + seq![current]);
            break;
        }
        proof {
            lemma_successor_between(current, last);
        }
        assert(days_through(current, last) == seq![current] + days_through(
            current.successor(),
            last,
        ));
        assert(days@ + days_through(current.successor(), last) =~= before + days_through(
            current,
            last,
        ));
        match current.next_day() {
            Some(next) => {
                current = next;
            },
            None => {
                assert(false);
                break;
            },
        }
    }
    days
}

/// The efficiency of `teacher` on each of `days`, appended to `out`, and the
/// sums over the days.
pub fn teacher_efficiency(
    schedules: &Vec<Schedule>,
    invoices: &Vec<Invoice>,
    teacher: &String,
    days: &Vec<CalendarDate>,
    out: &mut Vec<EfficiencyDay>,
) -> (summary: EfficiencySummary)
    requires
        report_fits(schedules.len() as int, invoices.len() as int, days.len() as int),
    ensures
        day_views(final(out)@) == day_views(old(out)@) + teacher_days(
            schedule_views(schedules@),
            invoice_rows(invoices@),
            teacher@,
            days@,
        ),
        summary@ == summed(
            teacher_days(schedule_views(schedules@), invoice_rows(invoices@), teacher@, days@),
            teacher@,
        ),
{
    let ghost all = schedule_views(schedules@);
    let ghost rows = invoice_rows(invoices@);
    let ghost base = day_views(out@);
    let ghost cap = day_limit(schedules.len() as int, invoices.len() as int);
    let ghost d = days.len() as int;
    let mut scheduled: i64 = 0;
    let mut taught: i64 = 0;
    let mut no_shows: i64 = 0;
    let mut variance: i64 = 0;
    let mut k: usize = 0;
    proof {
        lemma_day_limit(schedules.len() as int, invoices.len() as int);
        assert(days@.take(0) =~= Seq::<CalendarDate>::empty());
        assert(day_views(out@) =~= base + teacher_days(all, rows, teacher@, days@.take(0)));
        assert(0 * cap == 0) by (nonlinear_arith);
    }
    while k < days.len()
        invariant
            k <= days.len(),
            d == days.len(),
            all == schedule_views(schedules@),
            rows == invoice_rows(invoices@),
            cap == day_limit(schedules.len() as int, invoices.len() as int),
            0 <= cap,
            d * cap <= i64::MAX,
            day_views(out@) == base + teacher_days(all, rows, teacher@, days@.take(k as int)),
            (Figures { teacher_name: teacher@, scheduled: scheduled as int, taught: taught as int,
                no_shows: no_shows as int, variance: variance as int }) == summed(
                teacher_days(all, rows, teacher@, days@.take(k as int)),
                teacher@,
            ),
            0 <= scheduled,
            0 <= taught,
            0 <= no_shows,
            scheduled + taught + no_shows <= k * cap,
            -(k * cap) <= variance <= k * cap,
            0 <= k * cap <= d * cap,
        decreases days.len() - k,
    {
        proof {
            lemma_scale(k as int, d, cap);
            assert(cap <= d * cap);
            assert(days@.take(k as int + 1).drop_last() =~= days@.take(k as int));
            assert(days@.take(k as int + 1).last() == days@[k as int]);
        }
        let day = day_efficiency(schedules, invoices, teacher, days[k]);
        scheduled = scheduled + day.scheduled;
        taught = taught + day.taught;
        no_shows = no_shows + day.no_shows;
        variance = variance + day.variance;
        let ghost previous = day_views(out@);
        let ghost added = day@;
        out.push(day);
        assert(day_views(out@) =~= previous.push(added));
        assert(day_views(out@) =~= base + teacher_days(
            all,
            rows,
            teacher@,
            days@.take(k as int + 1),
        ));
        proof {
            let longer = teacher_days(all, rows, teacher@, days@.take(k as int + 1));
            let shorter = teacher_days(all, rows, teacher@, days@.take(k as int));
            assert(longer.drop_last() =~= shorter);
            assert(longer.last() == added);
        }
        k = k + 1;
    }
    assert(days@.take(days.len() as int) =~= days@);
    EfficiencySummary { teacher_name: teacher.clone(), scheduled, taught, no_shows, variance }
}

/// The names of the teachers of `schedules`, one for each schedule.
fn schedule_teachers(schedules: &Vec<Schedule>) -> (names: Vec<String>)
    ensures
        texts(names@) == teacher_names(schedule_views(schedules@)),
{
    let mut names: Vec<String> = Vec::new();
    let mut i: usize = 0;
    while i < schedules.len()
        invariant
            i <= schedules.len(),
            texts(names@) == teacher_names(schedule_views(schedules@)).take(i as int),
        decreases schedules.len() - i,
    {
        let ghost previous = texts(names@);
        names.push(schedules[i].teacher_name.clone());
        assert(texts(names@) =~= previous.push(schedules@[i as int].teacher_name@));
        assert(teacher_names(schedule_views(schedules@)).take(i as int + 1) =~= teacher_names(
            schedule_views(schedules@),
        ).take(i as int).push(schedules@[i as int].teacher_name@));
        i = i + 1;
    }
    assert(teacher_names(schedule_views(schedules@)).take(schedules.len() as int)
        =~= teacher_names(schedule_views(schedules@)));
    names
}

/// The teachers of a report: the teachers of its schedules, each once, at
/// the first occurrence.
pub open spec fn report_teachers(schedules: Seq<ScheduleView>) -> Seq<Seq<char>> {
    distinct(teacher_names(schedules))
}

/// The days of a report's table: those of the window where there is a
/// teacher, none where there is none.
pub open spec fn table_days(schedules: Seq<ScheduleView>, days: Seq<CalendarDate>) -> Seq<
    CalendarDate,
> {
    if report_teachers(schedules).len() > 0 {
        days
    } else {
        Seq::empty()
    }
}

/// The efficiency of every teacher of `schedules` on each of `days`.
///
/// The teachers stand in the order in which the schedules first name them;
/// the day figures stand teacher by teacher, in the order of the days; the
/// summaries stand in the order of the teachers.
pub fn efficiency_table(
    schedules: &Vec<Schedule>,
    invoices: &Vec<Invoice>,
    days: &Vec<CalendarDate>,
    shift_group: &String,
) -> (table: EfficiencyTable)
    requires
        report_fits(schedules.len() as int, invoices.len() as int, days.len() as int),
    ensures
        table.shift_group@ == shift_group@,
        texts(table.table_teachers@) == report_teachers(schedule_views(schedules@)),
        day_views(table.table_days_efficiencies@) == all_days(
            schedule_views(schedules@),
            invoice_rows(invoices@),
            report_teachers(schedule_views(schedules@)),
            days@,
        ),
        table.table_days@ == table_days(schedule_views(schedules@), days@),
        summary_views(table.table_summary@) == all_summaries(
            schedule_views(schedules@),
            invoice_rows(invoices@),
            report_teachers(schedule_views(schedules@)),
            days@,
        ),
{
    let names = schedule_teachers(schedules);
    let teachers = distinct_texts(&names);
    let ghost all = schedule_views(schedules@);
    let ghost rows = invoice_rows(invoices@);
    let ghost who = texts(teachers@);
    let mut day_rows: Vec<EfficiencyDay> = Vec::new();
    let mut summaries: Vec<EfficiencySummary> = Vec::new();
    let mut i: usize = 0;
    assert(who.take(0) =~= Seq::<Seq<char>>::empty());
    assert(day_views(day_rows@) =~= Seq::<DayView>::empty());
    assert(summary_views(summaries@) =~= Seq::<Figures>::empty());
    while i < teachers.len()
        invariant
            i <= teachers.len(),
            who == texts(teachers@),
            all == schedule_views(schedules@),
            rows == invoice_rows(invoices@),
            report_fits(schedules.len() as int, invoices.len() as int, days.len() as int),
            day_views(day_rows@) == all_days(all, rows, who.take(i as int), days@),
            summary_views(summaries@) == all_summaries(all, rows, who.take(i as int), days@),
        decreases teachers.len() - i,
    {
        assert(who.take(i as int + 1).drop_last() =~= who.take(i as int));
        assert(who.take(i as int + 1).last() == teachers@[i as int]@);
        let summary = teacher_efficiency(schedules, invoices, &teachers[i], days, &mut day_rows);
        let ghost previous = summary_views(summaries@);
        let ghost added = summary@;
        summaries.push(summary);
        assert(summary_views(summaries@) =~= previous.push(added));
        i = i + 1;
    }
    assert(who.take(teachers.len() as int) =~= who);
    let shown_days: Vec<CalendarDate> = if teachers.len() > 0 {
        days.clone()
    } else {
        Vec::new()
    };
    EfficiencyTable {
        shift_group: shift_group.clone(),
        table_teachers: teachers,
        table_days_efficiencies: day_rows,
        table_days: shown_days,
        table_summary: summaries,
    }
}

/// The efficiency table of a report, or nothing where its figures might not
/// fit in 64 bits.
pub fn checked_efficiency_table(
    schedules: &Vec<Schedule>,
    invoices: &Vec<Invoice>,
    days: &Vec<CalendarDate>,
    shift_group: &String,
) -> (r: Option<EfficiencyTable>)
    ensures
        r is Some <==> report_fits(
            schedules.len() as int,
            invoices.len() as int,
            days.len() as int,
        ),
        r matches Some(table) ==> {
            &&& table.shift_group@ == shift_group@
            &&& texts(table.table_teachers@) == report_teachers(schedule_views(schedules@))
            &&& day_views(table.table_days_efficiencies@) == all_days(
                schedule_views(schedules@),
                invoice_rows(invoices@),
                report_teachers(schedule_views(schedules@)),
                days@,
            )
            &&& table.table_days@ == table_days(schedule_views(schedules@), days@)
            &&& summary_views(table.table_summary@) == all_summaries(
                schedule_views(schedules@),
                invoice_rows(invoices@),
                report_teachers(schedule_views(schedules@)),
                days@,
            )
        },
{
    if report_fits_in(schedules.len(), invoices.len(), days.len()) {
        Some(efficiency_table(schedules, invoices, days, shift_group))
    } else {
        None
    }
}

/// A percentage as a fraction: `hundredfold / scheduled`.
#[derive(Clone, Copy, Debug, PartialEq, Eq, Structural)]
pub struct Ratio {
    pub hundredfold: i128,
    pub scheduled: i64,
}

impl EfficiencySummary {
    /// The percentage variance, a hundred times what was taught less what
    /// was scheduled, over what was scheduled; none where nothing was
    /// scheduled.
    pub fn percentage_variance(&self) -> (r: Option<Ratio>)
        ensures
            match r {
                Some(ratio) => self.scheduled != 0 && ratio.scheduled == self.scheduled
                    && ratio.hundredfold == (self.taught - self.scheduled) * 100,
                None => self.scheduled == 0,
            },
    {
        if self.scheduled == 0 {
            None
        } else {
            let difference: i128 = self.taught as i128 - self.scheduled as i128;
            Some(Ratio { hundredfold: difference * 100, scheduled: self.scheduled })
        }
    }
}

} // verus!
