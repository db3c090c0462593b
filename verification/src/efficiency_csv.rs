//! The efficiency table as delimited text.
//!
//! The text has a header with one block of five columns for each day and a
//! block for the totals, one line for each teacher, the teachers in lexical
//! order, and a last line with the sums of every day and of the report.
//! Percentages are texts that the caller supplies, one for each summary and
//! one for the report.

use crate::billing::BillingRow;
use crate::calendar::CalendarDate;
use crate::efficiency::{
    all_days, all_summaries, checked_efficiency_table, day_views, invoice_rows, report_fits,
    report_teachers, summary_views, table_days, DayView, EfficiencyDay, EfficiencySummary,
    EfficiencyTable, Figures,
};
use crate::persist::Invoice;
use crate::schedule::{schedule_views, Schedule, ScheduleView};
use crate::lookup::{first_match, lemma_first_match_is, lemma_first_match_none};
use crate::sorting::sorted;
use crate::text::{
    decimal, push_decimal, push_text, sort_texts, text_of, text_order, texts,
};
use vstd::prelude::*;

verus! {

/// Four sums.
pub struct Sums {
    pub scheduled: int,
    pub taught: int,
    pub no_shows: int,
    pub variance: int,
}

/// The four figures.
pub open spec fn sums_of(f: Figures) -> Sums {
    Sums { scheduled: f.scheduled, taught: f.taught, no_shows: f.no_shows, variance: f.variance }
}

/// No sums yet.
pub open spec fn no_sums() -> Sums {
    Sums { scheduled: 0, taught: 0, no_shows: 0, variance: 0 }
}

/// The sums with four figures added.
pub open spec fn sums_with(s: Sums, f: Figures) -> Sums {
    Sums {
        scheduled: s.scheduled + f.scheduled,
        taught: s.taught + f.taught,
        no_shows: s.no_shows + f.no_shows,
        variance: s.variance + f.variance,
    }
}

/// Two blank-led cells and four numbers: `,,s,t,n,v`.
pub open spec fn cells(s: Sums) -> Seq<char> {
    ",,"@ + decimal(s.scheduled) + ","@ + decimal(s.taught) + ","@ + decimal(s.no_shows) + ","@
        + decimal(s.variance)
}

/// The header block of every day, one after the other.
pub open spec fn header_days(day_texts: Seq<Seq<char>>) -> Seq<char>
    decreases day_texts.len(),
{
    if day_texts.len() == 0 {
        Seq::empty()
    } else {
        header_days(day_texts.drop_last()) + day_texts.last()
            + ",scheduled,taught,no_shows,variance,"@
    }
}

/// The header line.
pub open spec fn header(day_texts: Seq<Seq<char>>) -> Seq<char> {
    "teacher,"@ + header_days(day_texts)
        + "total,scheduled,taught,no_shows,variance,percentage_variance\n"@
}

/// The cells of the days of `teacher`, in the order of the table.
pub open spec fn teacher_cells(days: Seq<DayView>, teacher: Seq<char>) -> Seq<char>
    decreases days.len(),
{
    if days.len() == 0 {
        Seq::empty()
    } else if days.last().figures.teacher_name == teacher {
        teacher_cells(days.drop_last(), teacher) + cells(sums_of(days.last().figures))
    } else {
        teacher_cells(days.drop_last(), teacher)
    }
}

/// The condition of being figures of `teacher`.
pub open spec fn figures_of(teacher: Seq<char>) -> spec_fn(Figures) -> bool {
    |f: Figures| f.teacher_name == teacher
}

/// The text at `i`, or no text where there is none.
pub open spec fn text_at(list: Seq<Seq<char>>, i: int) -> Seq<char> {
    if 0 <= i < list.len() {
        list[i]
    } else {
        Seq::empty()
    }
}

/// The cells of the first summary of `teacher`, with its percentage; no
/// cells where the teacher has no summary.
pub open spec fn summary_cells(
    summaries: Seq<Figures>,
    percentages: Seq<Seq<char>>,
    teacher: Seq<char>,
) -> Seq<char> {
    match first_match(summaries, figures_of(teacher)) {
        Some(i) => cells(sums_of(summaries[i])) + ","@ + text_at(percentages, i),
        None => Seq::empty(),
    }
}

/// The line of one teacher.
pub open spec fn teacher_line(
    days: Seq<DayView>,
    summaries: Seq<Figures>,
    percentages: Seq<Seq<char>>,
    teacher: Seq<char>,
) -> Seq<char> {
    teacher + teacher_cells(days, teacher) + summary_cells(summaries, percentages, teacher)
        + "\n"@
}

/// The lines of the teachers, in the order given.
pub open spec fn teacher_lines(
    days: Seq<DayView>,
    summaries: Seq<Figures>,
    percentages: Seq<Seq<char>>,
    teachers: Seq<Seq<char>>,
) -> Seq<char>
    decreases teachers.len(),
{
    if teachers.len() == 0 {
        Seq::empty()
    } else {
        teacher_lines(days, summaries, percentages, teachers.drop_last()) + teacher_line(
            days,
            summaries,
            percentages,
            teachers.last(),
        )
    }
}

/// The sums of the figures of all teachers on `day`.
pub open spec fn day_sums(days: Seq<DayView>, day: CalendarDate) -> Sums
    decreases days.len(),
{
    if days.len() == 0 {
        no_sums()
    } else if days.last().date == day {
        sums_with(day_sums(days.drop_last(), day), days.last().figures)
    } else {
        day_sums(days.drop_last(), day)
    }
}

/// The sums of all summaries.
pub open spec fn grand_sums(summaries: Seq<Figures>) -> Sums
    decreases summaries.len(),
{
    if summaries.len() == 0 {
        no_sums()
    } else {
        sums_with(grand_sums(summaries.drop_last()), summaries.last())
    }
}

/// The cells of the sums of every day of the table.
pub open spec fn total_days(days: Seq<DayView>, shown: Seq<CalendarDate>) -> Seq<char>
    decreases shown.len(),
{
    if shown.len() == 0 {
        Seq::empty()
    } else {
        total_days(days, shown.drop_last()) + cells(day_sums(days, shown.last()))
    }
}

/// The last line: the sums of every day, the sums of the report and its
/// percentage.
pub open spec fn total_line(
    days: Seq<DayView>,
    shown: Seq<CalendarDate>,
    summaries: Seq<Figures>,
    total_percentage: Seq<char>,
) -> Seq<char> {
    "total"@ + total_days(days, shown) + cells(grand_sums(summaries)) + ","@ + total_percentage
}

/// The whole text of the table.
pub open spec fn efficiency_csv(
    teachers: Seq<Seq<char>>,
    days: Seq<DayView>,
    shown: Seq<CalendarDate>,
    summaries: Seq<Figures>,
    day_texts: Seq<Seq<char>>,
    percentages: Seq<Seq<char>>,
    total_percentage: Seq<char>,
) -> Seq<char> {
    header(day_texts) + teacher_lines(
        days,
        summaries,
        percentages,
        sorted(teachers, text_order()),
    ) + total_line(days, shown, summaries, total_percentage)
}

/// Four running sums that cannot overflow before the vector they run over
/// has been walked through.
struct Running {
    scheduled: i128,
    taught: i128,
    no_shows: i128,
    variance: i128,
}

impl Running {
    spec fn sums(&self) -> Sums {
        Sums {
            scheduled: self.scheduled as int,
            taught: self.taught as int,
            no_shows: self.no_shows as int,
            variance: self.variance as int,
        }
    }

    /// Every sum is within `n` times the range of a 64-bit number.
    spec fn within(&self, n: int) -> bool {
        &&& -n * 0x8000_0000_0000_0000 <= self.scheduled <= n * 0x8000_0000_0000_0000
        &&& -n * 0x8000_0000_0000_0000 <= self.taught <= n * 0x8000_0000_0000_0000
        &&& -n * 0x8000_0000_0000_0000 <= self.no_shows <= n * 0x8000_0000_0000_0000
        &&& -n * 0x8000_0000_0000_0000 <= self.variance <= n * 0x8000_0000_0000_0000
    }

    fn new() -> (r: Running)
        ensures
            r.sums() == no_sums(),
            r.within(0),
    {
        Running { scheduled: 0, taught: 0, no_shows: 0, variance: 0 }
    }

    fn add(&mut self, scheduled: i64, taught: i64, no_shows: i64, variance: i64, Ghost(n): Ghost<int>)
        requires
            old(self).within(n),
            0 <= n < 0x1_0000_0000_0000_0000,
        ensures
            final(self).within(n + 1),
            final(self).sums() == (Sums {
                scheduled: old(self).scheduled + scheduled,
                taught: old(self).taught + taught,
                no_shows: old(self).no_shows + no_shows,
                variance: old(self).variance + variance,
            }),
    {
        self.scheduled = self.scheduled + scheduled as i128;
        self.taught = self.taught + taught as i128;
        self.no_shows = self.no_shows + no_shows as i128;
        self.variance = self.variance + variance as i128;
    }
}

fn push_cells(out: &mut Vec<char>, scheduled: i128, taught: i128, no_shows: i128, variance: i128)
    ensures
        final(out)@ == old(out)@ + cells(
            Sums {
                scheduled: scheduled as int,
                taught: taught as int,
                no_shows: no_shows as int,
                variance: variance as int,
            },
        ),
{
    push_text(out, ",,");
    push_decimal(out, scheduled);
    push_text(out, ",");
    push_decimal(out, taught);
    push_text(out, ",");
    push_decimal(out, no_shows);
    push_text(out, ",");
    push_decimal(out, variance);
    assert(out@ =~= old(out)@ + cells(
        Sums {
            scheduled: scheduled as int,
            taught: taught as int,
            no_shows: no_shows as int,
            variance: variance as int,
        },
    ));
}

fn push_header(out: &mut Vec<char>, day_texts: &Vec<String>)
    ensures
        final(out)@ == old(out)@ + header(texts(day_texts@)),
{
    push_text(out, "teacher,");
    let ghost start = out@;
    let ghost all = texts(day_texts@);
    let mut i: usize = 0;
    assert(all.take(0) =~= Seq::<Seq<char>>::empty());
    assert(out@ =~= start + header_days(all.take(0)));
    while i < day_texts.len()
        invariant
            i <= day_texts.len(),
            all == texts(day_texts@),
            out@ == start + header_days(all.take(i as int)),
        decreases day_texts.len() - i,
    {
        assert(all.take(i as int + 1).drop_last() =~= all.take(i as int));
        assert(all.take(i as int + 1).last() == day_texts@[i as int]@);
        push_text(out, day_texts[i].as_str());
        push_text(out, ",scheduled,taught,no_shows,variance,");
        assert(out@ =~= start + header_days(all.take(i as int + 1)));
        i = i + 1;
    }
    assert(all.take(day_texts.len() as int) =~= all);
    push_text(out, "total,scheduled,taught,no_shows,variance,percentage_variance\n");
    assert(out@ =~= old(out)@ + header(all));
}

fn push_teacher_cells(out: &mut Vec<char>, days: &Vec<EfficiencyDay>, teacher: &String)
    ensures
        final(out)@ == old(out)@ + teacher_cells(day_views(days@), teacher@),
{
    let ghost all = day_views(days@);
    let mut i: usize = 0;
    assert(all.take(0) =~= Seq::<DayView>::empty());
    assert(out@ =~= old(out)@ + teacher_cells(all.take(0), teacher@));
    while i < days.len()
        invariant
            i <= days.len(),
            all == day_views(days@),
            out@ == old(out)@ + teacher_cells(all.take(i as int), teacher@),
        decreases days.len() - i,
    {
        let day = &days[i];
        assert(all.take(i as int + 1).drop_last() =~= all.take(i as int));
        assert(all.take(i as int + 1).last() == day@);
        if day.teacher_name == *teacher {
            push_cells(
                out,
                day.scheduled as i128,
                day.taught as i128,
                day.no_shows as i128,
                day.variance as i128,
            );
            assert(out@ =~= old(out)@ + teacher_cells(all.take(i as int + 1), teacher@));
        }
        i = i + 1;
    }
    assert(all.take(days.len() as int) =~= all);
}

/// The position of the first summary of `teacher`.
fn find_summary(summaries: &Vec<EfficiencySummary>, teacher: &String) -> (r: Option<usize>)
    ensures
        match r {
            Some(i) => i < summaries.len() && first_match(
                summary_views(summaries@),
                figures_of(teacher@),
            ) == Some(i as int),
            None => first_match(summary_views(summaries@), figures_of(teacher@)) is None,
        },
{
    let ghost all = summary_views(summaries@);
    let mut i: usize = 0;
    while i < summaries.len()
        invariant
            i <= summaries.len(),
            all == summary_views(summaries@),
            forall|j: int| 0 <= j < i ==> !figures_of(teacher@)(#[trigger] all[j]),
        decreases summaries.len() - i,
    {
        assert(all[i as int] == summaries@[i as int]@);
        if summaries[i].teacher_name == *teacher {
            proof {
                lemma_first_match_is(all, figures_of(teacher@), i as int);
            }
            return Some(i);
        }
        i = i + 1;
    }
    proof {
        lemma_first_match_none(all, figures_of(teacher@));
    }
    None
}

fn push_summary_cells(
    out: &mut Vec<char>,
    summaries: &Vec<EfficiencySummary>,
    percentages: &Vec<String>,
    teacher: &String,
)
    ensures
        final(out)@ == old(out)@ + summary_cells(
            summary_views(summaries@),
            texts(percentages@),
            teacher@,
        ),
{
    match find_summary(summaries, teacher) {
        Some(i) => {
            let summary = &summaries[i];
            assert(summary_views(summaries@)[i as int] == summary@);
            push_cells(
                out,
                summary.scheduled as i128,
                summary.taught as i128,
                summary.no_shows as i128,
                summary.variance as i128,
            );
            push_text(out, ",");
            if i < percentages.len() {
                push_text(out, percentages[i].as_str());
            }
            assert(out@ =~= old(out)@ + summary_cells(
                summary_views(summaries@),
                texts(percentages@),
                teacher@,
            ));
        },
        None => {
            assert(out@ =~= old(out)@ + Seq::<char>::empty());
        },
    }
}

fn push_teacher_lines(
    out: &mut Vec<char>,
    table: &EfficiencyTable,
    percentages: &Vec<String>,
    teachers: &Vec<String>,
)
    ensures
        final(out)@ == old(out)@ + teacher_lines(
            day_views(table.table_days_efficiencies@),
            summary_views(table.table_summary@),
            texts(percentages@),
            texts(teachers@),
        ),
{
    let ghost days = day_views(table.table_days_efficiencies@);
    let ghost summaries = summary_views(table.table_summary@);
    let ghost shares = texts(percentages@);
    let ghost all = texts(teachers@);
    let mut i: usize = 0;
    assert(all.take(0) =~= Seq::<Seq<char>>::empty());
    assert(out@ =~= old(out)@ + teacher_lines(days, summaries, shares, all.take(0)));
    while i < teachers.len()
        invariant
            i <= teachers.len(),
            days == day_views(table.table_days_efficiencies@),
            summaries == summary_views(table.table_summary@),
            shares == texts(percentages@),
            all == texts(teachers@),
            out@ == old(out)@ + teacher_lines(days, summaries, shares, all.take(i as int)),
        decreases teachers.len() - i,
    {
        assert(all.take(i as int + 1).drop_last() =~= all.take(i as int));
        assert(all.take(i as int + 1).last() == teachers@[i as int]@);
        let teacher = &teachers[i];
        push_text(out, teacher.as_str());
        push_teacher_cells(out, &table.table_days_efficiencies, teacher);
        push_summary_cells(out, &table.table_summary, percentages, teacher);
        push_text(out, "\n");
        assert(out@ =~= old(out)@ + teacher_lines(days, summaries, shares, all.take(i as int + 1)));
        i = i + 1;
    }
    assert(all.take(teachers.len() as int) =~= all);
}

fn sum_day(days: &Vec<EfficiencyDay>, day: CalendarDate) -> (r: Running)
    ensures
        r.sums() == day_sums(day_views(days@), day),
{
    let ghost all = day_views(days@);
    let mut sums = Running::new();
    let mut i: usize = 0;
    assert(all.take(0) =~= Seq::<DayView>::empty());
    while i < days.len()
        invariant
            i <= days.len(),
            all == day_views(days@),
            sums.within(i as int),
            sums.sums() == day_sums(all.take(i as int), day),
        decreases days.len() - i,
    {
        let row = &days[i];
        assert(all.take(i as int + 1).drop_last() =~= all.take(i as int));
        assert(all.take(i as int + 1).last() == row@);
        if row.date == day {
            sums.add(row.scheduled, row.taught, row.no_shows, row.variance, Ghost(i as int));
        }
        i = i + 1;
    }
    assert(all.take(days.len() as int) =~= all);
    sums
}

fn sum_summaries(summaries: &Vec<EfficiencySummary>) -> (r: Running)
    ensures
        r.sums() == grand_sums(summary_views(summaries@)),
{
    let ghost all = summary_views(summaries@);
    let mut sums = Running::new();
    let mut i: usize = 0;
    assert(all.take(0) =~= Seq::<Figures>::empty());
    while i < summaries.len()
        invariant
            i <= summaries.len(),
            all == summary_views(summaries@),
            sums.within(i as int),
            sums.sums() == grand_sums(all.take(i as int)),
        decreases summaries.len() - i,
    {
        let row = &summaries[i];
        assert(all.take(i as int + 1).drop_last() =~= all.take(i as int));
        assert(all.take(i as int + 1).last() == row@);
        sums.add(row.scheduled, row.taught, row.no_shows, row.variance, Ghost(i as int));
        i = i + 1;
    }
    assert(all.take(summaries.len() as int) =~= all);
    sums
}

fn push_total_line(out: &mut Vec<char>, table: &EfficiencyTable, total_percentage: &str)
    ensures
        final(out)@ == old(out)@ + total_line(
            day_views(table.table_days_efficiencies@),
            table.table_days@,
            summary_views(table.table_summary@),
            total_percentage@,
        ),
{
    let ghost days = day_views(table.table_days_efficiencies@);
    let ghost shown = table.table_days@;
    push_text(out, "total");
    let ghost start = out@;
    let mut i: usize = 0;
    assert(shown.take(0) =~= Seq::<CalendarDate>::empty());
    assert(out@ =~= start + total_days(days, shown.take(0)));
    while i < table.table_days.len()
        invariant
            i <= table.table_days.len(),
            days == day_views(table.table_days_efficiencies@),
            shown == table.table_days@,
            out@ == start + total_days(days, shown.take(i as int)),
        decreases table.table_days.len() - i,
    {
        assert(shown.take(i as int + 1).drop_last() =~= shown.take(i as int));
        assert(shown.take(i as int + 1).last() == shown[i as int]);
        let sums = sum_day(&table.table_days_efficiencies, table.table_days[i]);
        push_cells(out, sums.scheduled, sums.taught, sums.no_shows, sums.variance);
        assert(out@ =~= start + total_days(days, shown.take(i as int + 1)));
        i = i + 1;
    }
    assert(shown.take(table.table_days.len() as int) =~= shown);
    let grand = sum_summaries(&table.table_summary);
    push_cells(out, grand.scheduled, grand.taught, grand.no_shows, grand.variance);
    push_text(out, ",");
    push_text(out, total_percentage);
    assert(out@ =~= old(out)@ + total_line(
        days,
        shown,
        summary_views(table.table_summary@),
        total_percentage@,
    ));
}

/// Renders the table with the texts of its days and of its percentages.
///
/// `day_texts` heads the blocks of the days; `percentages` holds one text
/// for each summary, at the position of the summary, a missing one being
/// left blank; `total_percentage` ends the last line.
pub fn render_efficiency_csv(
    table: &EfficiencyTable,
    day_texts: &Vec<String>,
    percentages: &Vec<String>,
    total_percentage: &str,
) -> (text: String)
    ensures
        text@ == efficiency_csv(
            texts(table.table_teachers@),
            day_views(table.table_days_efficiencies@),
            table.table_days@,
            summary_views(table.table_summary@),
            texts(day_texts@),
            texts(percentages@),
            total_percentage@,
        ),
{
    let mut out: Vec<char> = Vec::new();
    push_header(&mut out, day_texts);
    let teachers = sort_texts(&table.table_teachers);
    push_teacher_lines(&mut out, table, percentages, &teachers);
    push_total_line(&mut out, table, total_percentage);
    assert(out@ =~= efficiency_csv(
        texts(table.table_teachers@),
        day_views(table.table_days_efficiencies@),
        table.table_days@,
        summary_views(table.table_summary@),
        texts(day_texts@),
        texts(percentages@),
        total_percentage@,
    ));
    text_of(&out)
}

/// The texts of the days, where every day can be printed.
pub open spec fn printed_days(days: Seq<CalendarDate>) -> Option<Seq<Seq<char>>>
    decreases days.len(),
{
    if days.len() == 0 {
        Some(Seq::empty())
    } else {
        match (printed_days(days.drop_last()), days.last().text()) {
            (Some(head), Some(text)) => Some(head.push(text)),
            _ => None,
        }
    }
}

/// Prints the days of a table; nothing where one of them cannot be printed.
pub fn print_days(days: &Vec<CalendarDate>) -> (r: Option<Vec<String>>)
    ensures
        match r {
            Some(list) => printed_days(days@) == Some(texts(list@)),
            None => printed_days(days@) is None,
        },
{
    let mut list: Vec<String> = Vec::new();
    let mut i: usize = 0;
    assert(days@.take(0) =~= Seq::<CalendarDate>::empty());
    assert(texts(list@) =~= Seq::<Seq<char>>::empty());
    while i < days.len()
        invariant
            i <= days.len(),
            printed_days(days@.take(i as int)) == Some(texts(list@)),
        decreases days.len() - i,
    {
        assert(days@.take(i as int + 1).drop_last() =~= days@.take(i as int));
        assert(days@.take(i as int + 1).last() == days@[i as int]);
        match days[i].to_text() {
            Some(text) => {
                let ghost previous = texts(list@);
                let ghost added = text@;
                list.push(text);
                assert(texts(list@) =~= previous.push(added));
            },
            None => {
                proof {
                    lemma_unprintable_stays(days@, i as int + 1);
                }
                return None;
            },
        }
        i = i + 1;
    }
    assert(days@.take(days.len() as int) =~= days@);
    Some(list)
}

/// Days that cannot all be printed cannot be printed with more days after
/// them.
pub proof fn lemma_unprintable_stays(days: Seq<CalendarDate>, n: int)
    requires
        0 <= n <= days.len(),
        printed_days(days.take(n)) is None,
    ensures
        printed_days(days) is None,
    decreases days.len() - n,
{
    if n < days.len() {
        assert(days.take(n + 1).drop_last() =~= days.take(n));
        lemma_unprintable_stays(days, n + 1);
    } else {
        assert(days.take(n) =~= days);
    }
}

/// Renders the table as delimited text, printing its days as `chrono`
/// prints them; nothing where a day cannot be printed.
pub fn generate_efficiency_report(
    table: &EfficiencyTable,
    percentages: &Vec<String>,
    total_percentage: &str,
) -> (r: Option<String>)
    ensures
        match (r, printed_days(table.table_days@)) {
            (Some(text), Some(day_texts)) => text@ == efficiency_csv(
                texts(table.table_teachers@),
                day_views(table.table_days_efficiencies@),
                table.table_days@,
                summary_views(table.table_summary@),
                day_texts,
                texts(percentages@),
                total_percentage@,
            ),
            (None, None) => true,
            _ => false,
        },
{
    match print_days(&table.table_days) {
        Some(day_texts) => Some(
            render_efficiency_csv(table, &day_texts, percentages, total_percentage),
        ),
        None => None,
    }
}

/// Why there is no efficiency report.
#[derive(Clone, Copy, Debug, PartialEq, Eq, Structural)]
pub enum ReportError {
    /// The figures might not fit in 64 bits.
    TooLarge,
    /// A day of the report cannot be printed.
    UnprintableDay,
}

/// The text of the efficiency report of the schedules and invoices over the
/// days; nothing where a day cannot be printed.
pub open spec fn efficiency_report_text(
    schedules: Seq<ScheduleView>,
    invoices: Seq<BillingRow>,
    days: Seq<CalendarDate>,
    percentages: Seq<Seq<char>>,
    total_percentage: Seq<char>,
) -> Option<Seq<char>> {
    let teachers = report_teachers(schedules);
    match printed_days(table_days(schedules, days)) {
        Some(day_texts) => Some(
            efficiency_csv(
                teachers,
                all_days(schedules, invoices, teachers, days),
                table_days(schedules, days),
                all_summaries(schedules, invoices, teachers, days),
                day_texts,
                percentages,
                total_percentage,
            ),
        ),
        None => None,
    }
}

/// Computes the efficiency of every teacher of `schedules` on each of `days`
/// and renders it as delimited text.
///
/// The figures are those of the efficiency table; `percentages` holds one
/// text for each teacher, in the order in which the schedules first name the
/// teachers, and `total_percentage` the text for the report.
pub fn efficiency_report(
    schedules: &Vec<Schedule>,
    invoices: &Vec<Invoice>,
    days: &Vec<CalendarDate>,
    shift_group: &String,
    percentages: &Vec<String>,
    total_percentage: &str,
) -> (r: Result<String, ReportError>)
    ensures
        match r {
            Ok(text) => {
                &&& report_fits(schedules.len() as int, invoices.len() as int, days.len() as int)
                &&& efficiency_report_text(
                    schedule_views(schedules@),
                    invoice_rows(invoices@),
                    days@,
                    texts(percentages@),
                    total_percentage@,
                ) == Some(text@)
            },
            Err(ReportError::TooLarge) => !report_fits(
                schedules.len() as int,
                invoices.len() as int,
                days.len() as int,
            ),
            Err(ReportError::UnprintableDay) => {
                &&& report_fits(schedules.len() as int, invoices.len() as int, days.len() as int)
                &&& efficiency_report_text(
                    schedule_views(schedules@),
                    invoice_rows(invoices@),
                    days@,
                    texts(percentages@),
                    total_percentage@,
                ) is None
            },
        },
{
    match checked_efficiency_table(schedules, invoices, days, shift_group) {
        Some(table) => match generate_efficiency_report(&table, percentages, total_percentage) {
            Some(text) => Ok(text),
            None => Err(ReportError::UnprintableDay),
        },
        None => Err(ReportError::TooLarge),
    }
}

} // verus!
