//! The consolidated report: every schedule of a window on a line of its own,
//! with a summary of each teacher written beside the first lines.
//!
//! The schedules stand in the order of a key made of the day, the teacher and
//! the time of the start, in lower case. The summary of the teacher at
//! position `i`, the teachers in lexical order, is written at the end of line
//! `i`, and the totals at the end of the line after the last teacher. Where
//! there are fewer schedules than that takes, the summaries go on beside
//! empty cells.

use crate::calendar::optional_string;
use crate::schedule::{schedule_views, Schedule, ScheduleView};
use crate::sorting::{lemma_sorted_maps, rank_order, sorted, stable_sort, Ranked};
use crate::text::{
    chars_of, digits, distinct, distinct_texts, lowercase, lowercase_of, push_digits, push_text,
    sort_texts, text_is, text_le, text_of, text_order, text_precedes, texts,
};
use vstd::prelude::*;

verus! {

/// A schedule with the texts that the report shows and sorts by.
#[derive(Debug)]
pub struct ReportLine {
    pub schedule: Schedule,
    pub key: Vec<char>,
    pub start_text: String,
    pub end_text: String,
}

/// What a [`ReportLine`] holds.
pub struct LineView {
    pub schedule: ScheduleView,
    pub key: Seq<char>,
    pub start_text: Seq<char>,
    pub end_text: Seq<char>,
}

impl View for ReportLine {
    type V = LineView;

    open spec fn view(&self) -> LineView {
        LineView {
            schedule: self.schedule@,
            key: self.key@,
            start_text: self.start_text@,
            end_text: self.end_text@,
        }
    }
}

/// The lines of a vector.
pub open spec fn line_views(lines: Seq<ReportLine>) -> Seq<LineView> {
    lines.map_values(|l: ReportLine| l@)
}

/// The order of the report: by key, lexically.
pub open spec fn key_order() -> spec_fn(LineView, LineView) -> bool {
    |a: LineView, b: LineView| text_le(a.key, b.key)
}

impl Ranked for ReportLine {
    open spec fn comparable(&self) -> bool {
        true
    }

    open spec fn precedes(&self, other: &Self) -> bool {
        text_le(self.key@, other.key@)
    }

    fn comes_first(&self, other: &Self) -> (r: bool) {
        text_precedes(&self.key, &other.key)
    }
}

/// The key of a schedule before it is put in lower case: the day of its
/// start, the teacher, the time of its start, with hyphens between.
pub open spec fn raw_key(day: Seq<char>, teacher: Seq<char>, time: Seq<char>) -> Seq<char> {
    day + seq!['-'] + teacher + seq!['-'] + time
}

/// The line of a schedule, where its start and end can be printed.
pub open spec fn line_of(s: ScheduleView) -> Option<LineView> {
    match (s.start_date.date.text(), s.start_date.time_text(), s.end_date.text()) {
        (Some(day), Some(time), Some(end)) => Some(
            LineView {
                schedule: s,
                key: lowercase_of(raw_key(day, s.teacher_name, time)),
                start_text: day + seq![' '] + time,
                end_text: end,
            },
        ),
        _ => None,
    }
}

/// The lines of the schedules, where each can be printed.
pub open spec fn lines_of(schedules: Seq<ScheduleView>) -> Option<Seq<LineView>>
    decreases schedules.len(),
{
    if schedules.len() == 0 {
        Some(Seq::empty())
    } else {
        match (lines_of(schedules.drop_last()), line_of(schedules.last())) {
            (Some(head), Some(line)) => Some(head.push(line)),
            _ => None,
        }
    }
}

/// Prints the start and the end of a schedule and makes its key; nothing
/// where one of them cannot be printed.
pub fn report_line(schedule: &Schedule) -> (r: Option<ReportLine>)
    ensures
        match r {
            Some(line) => line_of(schedule@) == Some(line@),
            None => line_of(schedule@) is None,
        },
{
    let day = schedule.start_date.date.to_text();
    let time = schedule.start_date.time_to_text();
    let end = schedule.end_date.to_text();
    match (day, time, end) {
        (Some(day), Some(time), Some(end_text)) => {
            let mut raw: Vec<char> = Vec::new();
            push_text(&mut raw, day.as_str());
            raw.push('-');
            push_text(&mut raw, schedule.teacher_name.as_str());
            raw.push('-');
            push_text(&mut raw, time.as_str());
            assert(raw@ =~= raw_key(day@, schedule.teacher_name@, time@));
            let raw_text = text_of(&raw);
            let key = chars_of(lowercase(raw_text.as_str()).as_str());
            let mut start: Vec<char> = Vec::new();
            push_text(&mut start, day.as_str());
            start.push(' ');
            push_text(&mut start, time.as_str());
            assert(start@ =~= day@ + seq![' '] + time@);
            Some(
                ReportLine {
                    schedule: schedule.clone(),
                    key,
                    start_text: text_of(&start),
                    end_text,
                },
            )
        },
        _ => None,
    }
}

/// Schedules that cannot all be printed cannot be printed with more
/// schedules after them.
pub proof fn lemma_unprintable_lines_stay(schedules: Seq<ScheduleView>, n: int)
    requires
        0 <= n <= schedules.len(),
        lines_of(schedules.take(n)) is None,
    ensures
        lines_of(schedules) is None,
    decreases schedules.len() - n,
{
    if n < schedules.len() {
        assert(schedules.take(n + 1).drop_last() =~= schedules.take(n));
        lemma_unprintable_lines_stay(schedules, n + 1);
    } else {
        assert(schedules.take(n) =~= schedules);
    }
}

/// Makes the line of every schedule; nothing where one cannot be printed.
pub fn report_lines(schedules: &Vec<Schedule>) -> (r: Option<Vec<ReportLine>>)
    ensures
        match r {
            Some(lines) => lines_of(schedule_views(schedules@)) == Some(line_views(lines@)),
            None => lines_of(schedule_views(schedules@)) is None,
        },
{
    let ghost all = schedule_views(schedules@);
    let mut lines: Vec<ReportLine> = Vec::new();
    let mut i: usize = 0;
    assert(all.take(0) =~= Seq::<ScheduleView>::empty());
    assert(line_views(lines@) =~= Seq::<LineView>::empty());
    while i < schedules.len()
        invariant
            i <= schedules.len(),
            all == schedule_views(schedules@),
            lines_of(all.take(i as int)) == Some(line_views(lines@)),
        decreases schedules.len() - i,
    {
        assert(all.take(i as int + 1).drop_last() =~= all.take(i as int));
        assert(all.take(i as int + 1).last() == schedules@[i as int]@);
        match report_line(&schedules[i]) {
            Some(line) => {
                let ghost previous = line_views(lines@);
                let ghost added = line@;
                lines.push(line);
                assert(line_views(lines@) =~= previous.push(added));
            },
            None => {
                proof {
                    lemma_unprintable_lines_stay(all, i as int + 1);
                }
                return None;
            },
        }
        i = i + 1;
    }
    assert(all.take(schedules.len() as int) =~= all);
    Some(lines)
}

/// The header of the report.
pub open spec fn report_header() -> Seq<char> {
    "Teacher,Shift,Shift Type,Start Date,End Date,,,,Teacher,Scheduled,Picked Up,Dropped\n"@
}

/// The line of a schedule as it stands without a summary beside it.
pub open spec fn plain_line(l: LineView) -> Seq<char> {
    l.schedule.teacher_name + ","@ + l.schedule.shift + ","@ + l.schedule.shift_type + ","@
        + l.start_text + ","@ + l.end_text + ",,,,\n"@
}

/// `s` without its line feeds.
pub open spec fn without_line_feeds(s: Seq<char>) -> Seq<char>
    decreases s.len(),
{
    if s.len() == 0 {
        Seq::empty()
    } else if s.last() == '\n' {
        without_line_feeds(s.drop_last())
    } else {
        without_line_feeds(s.drop_last()).push(s.last())
    }
}

/// The text of a shift type that counts as picked up.
pub open spec fn is_picked_up(shift_type: Seq<char>) -> bool {
    shift_type == "Pickup"@ || shift_type == "Internal Pickup"@ || shift_type
        == "Dropped & Picked Up"@
}

/// The text of a shift type that counts as dropped.
pub open spec fn is_dropped(shift_type: Seq<char>) -> bool {
    !is_picked_up(shift_type) && shift_type == "Dropped"@
}

/// Three counts of the schedules of one teacher, or of all.
pub struct Counts {
    pub scheduled: nat,
    pub picked_up: nat,
    pub dropped: nat,
}

/// The counts of the schedules of `teacher`.
pub open spec fn teacher_counts(lines: Seq<LineView>, teacher: Seq<char>) -> Counts
    decreases lines.len(),
{
    if lines.len() == 0 {
        Counts { scheduled: 0, picked_up: 0, dropped: 0 }
    } else {
        let head = teacher_counts(lines.drop_last(), teacher);
        let last = lines.last().schedule;
        if last.teacher_name == teacher {
            Counts {
                scheduled: head.scheduled + 1,
                picked_up: if is_picked_up(last.shift_type) {
                    head.picked_up + 1
                } else {
                    head.picked_up
                },
                dropped: if is_dropped(last.shift_type) {
                    head.dropped + 1
                } else {
                    head.dropped
                },
            }
        } else {
            head
        }
    }
}

/// The sums of the counts of the teachers.
pub open spec fn total_counts(lines: Seq<LineView>, teachers: Seq<Seq<char>>) -> Counts
    decreases teachers.len(),
{
    if teachers.len() == 0 {
        Counts { scheduled: 0, picked_up: 0, dropped: 0 }
    } else {
        let head = total_counts(lines, teachers.drop_last());
        let last = teacher_counts(lines, teachers.last());
        Counts {
            scheduled: head.scheduled + last.scheduled,
            picked_up: head.picked_up + last.picked_up,
            dropped: head.dropped + last.dropped,
        }
    }
}

/// A name and three counts: `name,s,p,d` and a line feed.
pub open spec fn summary_text(name: Seq<char>, c: Counts) -> Seq<char> {
    name + ","@ + digits(c.scheduled) + ","@ + digits(c.picked_up) + ","@ + digits(c.dropped)
        + "\n"@
}

/// The names of the teachers of the lines.
pub open spec fn line_teachers(lines: Seq<LineView>) -> Seq<Seq<char>> {
    lines.map_values(|l: LineView| l.schedule.teacher_name)
}

/// The teachers of the report, each once, in lexical order.
pub open spec fn summary_teachers(lines: Seq<LineView>) -> Seq<Seq<char>> {
    sorted(distinct(line_teachers(lines)), text_order())
}

/// The cells of a line that has no schedule.
pub open spec fn empty_cells() -> Seq<char> {
    ",,,,,,,,"@
}

/// The schedule cells of line `i` where a summary stands beside them: those
/// of the schedule without its line feeds, or empty cells where there is no
/// schedule for the line.
pub open spec fn schedule_cells(lines: Seq<LineView>, i: int) -> Seq<char> {
    if 0 <= i < lines.len() {
        without_line_feeds(plain_line(lines[i]))
    } else {
        empty_cells()
    }
}

/// Line `i` of the report: the schedule, and beside it the summary of
/// teacher `i`, or the totals on the line after the last teacher.
pub open spec fn report_line_text(lines: Seq<LineView>, teachers: Seq<Seq<char>>, i: int) -> Seq<
    char,
> {
    if i < teachers.len() {
        schedule_cells(lines, i) + summary_text(teachers[i], teacher_counts(lines, teachers[i]))
    } else if i == teachers.len() {
        schedule_cells(lines, i) + summary_text("Total"@, total_counts(lines, teachers))
    } else {
        plain_line(lines[i])
    }
}

/// The first `n` lines of the report.
pub open spec fn report_body(lines: Seq<LineView>, teachers: Seq<Seq<char>>, n: int) -> Seq<char>
    decreases n,
{
    if n <= 0 {
        Seq::empty()
    } else {
        report_body(lines, teachers, n - 1) + report_line_text(lines, teachers, n - 1)
    }
}

/// The number of lines below the header: one for each schedule, and at
/// least one for each teacher and one for the totals.
pub open spec fn report_length(lines: Seq<LineView>, teachers: Seq<Seq<char>>) -> int {
    if lines.len() > teachers.len() {
        lines.len() as int
    } else {
        teachers.len() as int + 1
    }
}

/// The text of the report for lines already in order: the header, and under
/// it every line.
pub open spec fn report_text(lines: Seq<LineView>) -> Seq<char> {
    let teachers = summary_teachers(lines);
    report_header() + report_body(lines, teachers, report_length(lines, teachers))
}

/// The text of the consolidated report of `lines`.
pub open spec fn consolidated_text(lines: Seq<LineView>) -> Seq<char> {
    report_text(sorted(lines, key_order()))
}

fn push_plain_line(out: &mut Vec<char>, line: &ReportLine)
    ensures
        final(out)@ == old(out)@ + plain_line(line@),
{
    push_text(out, line.schedule.teacher_name.as_str());
    push_text(out, ",");
    push_text(out, line.schedule.shift.as_str());
    push_text(out, ",");
    push_text(out, line.schedule.shift_type.as_str());
    push_text(out, ",");
    push_text(out, line.start_text.as_str());
    push_text(out, ",");
    push_text(out, line.end_text.as_str());
    push_text(out, ",,,,\n");
    assert(out@ =~= old(out)@ + plain_line(line@));
}

fn push_without_line_feeds(out: &mut Vec<char>, s: &Vec<char>)
    ensures
        final(out)@ == old(out)@ + without_line_feeds(s@),
{
    let mut i: usize = 0;
    assert(s@.take(0) =~= Seq::<char>::empty());
    assert(out@ =~= old(out)@ + without_line_feeds(s@.take(0)));
    while i < s.len()
        invariant
            i <= s.len(),
            out@ == old(out)@ + without_line_feeds(s@.take(i as int)),
        decreases s.len() - i,
    {
        assert(s@.take(i as int + 1).drop_last() =~= s@.take(i as int));
        assert(s@.take(i as int + 1).last() == s@[i as int]);
        if s[i] != '\n' {
            out.push(s[i]);
            assert(out@ =~= old(out)@ + without_line_feeds(s@.take(i as int + 1)));
        }
        i = i + 1;
    }
    assert(s@.take(s.len() as int) =~= s@);
}

/// Three counts in machine numbers.
struct Tallies {
    scheduled: u128,
    picked_up: u128,
    dropped: u128,
}

impl Tallies {
    spec fn counts(&self) -> Counts {
        Counts {
            scheduled: self.scheduled as nat,
            picked_up: self.picked_up as nat,
            dropped: self.dropped as nat,
        }
    }

    spec fn within(&self, n: int) -> bool {
        self.scheduled <= n && self.picked_up <= n && self.dropped <= n
    }
}

fn count_teacher(lines: &Vec<ReportLine>, teacher: &String) -> (r: Tallies)
    ensures
        r.counts() == teacher_counts(line_views(lines@), teacher@),
        r.within(lines.len() as int),
{
    let ghost all = line_views(lines@);
    let mut tallies = Tallies { scheduled: 0, picked_up: 0, dropped: 0 };
    let mut i: usize = 0;
    assert(all.take(0) =~= Seq::<LineView>::empty());
    while i < lines.len()
        invariant
            i <= lines.len(),
            all == line_views(lines@),
            tallies.counts() == teacher_counts(all.take(i as int), teacher@),
            tallies.within(i as int),
        decreases lines.len() - i,
    {
        let schedule = &lines[i].schedule;
        assert(all.take(i as int + 1).drop_last() =~= all.take(i as int));
        assert(all.take(i as int + 1).last() == lines@[i as int]@);
        if schedule.teacher_name == *teacher {
            tallies.scheduled = tallies.scheduled + 1;
            let kind = &schedule.shift_type;
            if text_is(kind, "Pickup") || text_is(kind, "Internal Pickup") || text_is(
                kind,
                "Dropped & Picked Up",
            ) {
                tallies.picked_up = tallies.picked_up + 1;
            } else if text_is(kind, "Dropped") {
                tallies.dropped = tallies.dropped + 1;
            }
        }
        i = i + 1;
    }
    assert(all.take(lines.len() as int) =~= all);
    tallies
}

fn push_summary(out: &mut Vec<char>, name: &str, tallies: &Tallies)
    ensures
        final(out)@ == old(out)@ + summary_text(name@, tallies.counts()),
{
    push_text(out, name);
    push_text(out, ",");
    push_digits(out, tallies.scheduled);
    push_text(out, ",");
    push_digits(out, tallies.picked_up);
    push_text(out, ",");
    push_digits(out, tallies.dropped);
    push_text(out, "\n");
    assert(out@ =~= old(out)@ + summary_text(name@, tallies.counts()));
}

fn count_all(lines: &Vec<ReportLine>, teachers: &Vec<String>) -> (r: Tallies)
    ensures
        r.counts() == total_counts(line_views(lines@), texts(teachers@)),
{
    let ghost all = texts(teachers@);
    let ghost rows = line_views(lines@);
    let mut totals = Tallies { scheduled: 0, picked_up: 0, dropped: 0 };
    let mut i: usize = 0;
    assert(all.take(0) =~= Seq::<Seq<char>>::empty());
    while i < teachers.len()
        invariant
            i <= teachers.len(),
            all == texts(teachers@),
            rows == line_views(lines@),
            totals.counts() == total_counts(rows, all.take(i as int)),
            totals.within(i * 0x1_0000_0000_0000_0000),
        decreases teachers.len() - i,
    {
        assert(all.take(i as int + 1).drop_last() =~= all.take(i as int));
        assert(all.take(i as int + 1).last() == teachers@[i as int]@);
        let one = count_teacher(lines, &teachers[i]);
        totals.scheduled = totals.scheduled + one.scheduled;
        totals.picked_up = totals.picked_up + one.picked_up;
        totals.dropped = totals.dropped + one.dropped;
        i = i + 1;
    }
    assert(all.take(teachers.len() as int) =~= all);
    totals
}

fn line_teacher_names(lines: &Vec<ReportLine>) -> (names: Vec<String>)
    ensures
        texts(names@) == line_teachers(line_views(lines@)),
{
    let ghost all = line_teachers(line_views(lines@));
    let mut names: Vec<String> = Vec::new();
    let mut i: usize = 0;
    while i < lines.len()
        invariant
            i <= lines.len(),
            all == line_teachers(line_views(lines@)),
            texts(names@) == all.take(i as int),
        decreases lines.len() - i,
    {
        let ghost previous = texts(names@);
        names.push(lines[i].schedule.teacher_name.clone());
        assert(texts(names@) =~= previous.push(lines@[i as int].schedule.teacher_name@));
        assert(all.take(i as int + 1) =~= all.take(i as int).push(
            lines@[i as int].schedule.teacher_name@,
        ));
        i = i + 1;
    }
    assert(all.take(lines.len() as int) =~= all);
    names
}

/// Renders lines that are already in order.
fn render_in_order(lines: &Vec<ReportLine>) -> (out: Vec<char>)
    ensures
        out@ == report_text(line_views(lines@)),
{
    let ghost rows = line_views(lines@);
    let names = line_teacher_names(lines);
    let unique = distinct_texts(&names);
    let teachers = sort_texts(&unique);
    let ghost who = texts(teachers@);
    proof {
        crate::sorting::lemma_sorted_len(distinct(line_teachers(rows)), text_order());
    }
    let totals = count_all(lines, &teachers);
    let mut out: Vec<char> = Vec::new();
    push_text(
        &mut out,
        "Teacher,Shift,Shift Type,Start Date,End Date,,,,Teacher,Scheduled,Picked Up,Dropped\n",
    );
    let ghost start = out@;
    let mut i: usize = 0;
    assert(out@ =~= start + report_body(rows, who, 0));
    while i < lines.len()
        invariant
            i <= lines.len(),
            rows == line_views(lines@),
            who == texts(teachers@),
            totals.counts() == total_counts(rows, who),
            out@ == start + report_body(rows, who, i as int),
        decreases lines.len() - i,
    {
        assert(rows[i as int] == lines@[i as int]@);
        if i <= teachers.len() {
            let mut plain: Vec<char> = Vec::new();
            push_plain_line(&mut plain, &lines[i]);
            assert(plain@ =~= plain_line(lines@[i as int]@));
            push_without_line_feeds(&mut out, &plain);
            if i < teachers.len() {
                assert(who[i as int] == teachers@[i as int]@);
                let one = count_teacher(lines, &teachers[i]);
                push_summary(&mut out, teachers[i].as_str(), &one);
            } else {
                push_summary(&mut out, "Total", &totals);
            }
        } else {
            push_plain_line(&mut out, &lines[i]);
        }
        assert(out@ =~= start + report_body(rows, who, i as int + 1));
        i = i + 1;
    }
    if lines.len() <= teachers.len() {
        let mut k: usize = lines.len();
        while k < teachers.len()
            invariant
                lines.len() <= k <= teachers.len(),
                rows == line_views(lines@),
                who == texts(teachers@),
                out@ == start + report_body(rows, who, k as int),
            decreases teachers.len() - k,
        {
            assert(who[k as int] == teachers@[k as int]@);
            push_text(&mut out, ",,,,,,,,");
            let one = count_teacher(lines, &teachers[k]);
            push_summary(&mut out, teachers[k].as_str(), &one);
            assert(out@ =~= start + report_body(rows, who, k as int + 1));
            k = k + 1;
        }
        push_text(&mut out, ",,,,,,,,");
        push_summary(&mut out, "Total", &totals);
        assert(out@ =~= start + report_body(rows, who, teachers.len() as int + 1));
    }
    out
}

/// Renders the consolidated report of `lines`.
///
/// The lines are put in the order of their keys, lines with equal keys
/// keeping their order. Under the header stands one line for each schedule;
/// the summary of each teacher and the totals stand beside the first of
/// them, and beside empty cells where the schedules run out.
pub fn consolidated_csv(lines: Vec<ReportLine>) -> (r: String)
    ensures
        r@ == consolidated_text(line_views(lines@)),
{
    let ghost unsorted = lines@;
    let in_order = stable_sort(lines);
    proof {
        assert forall|a: ReportLine, b: ReportLine| #[trigger]
            rank_order::<ReportLine>()(a, b) == key_order()(a@, b@) by {}
        lemma_sorted_maps(unsorted, |l: ReportLine| l@, rank_order::<ReportLine>(), key_order());
    }
    text_of(&render_in_order(&in_order))
}

/// Renders the consolidated report of `schedules`; nothing where a start or
/// an end cannot be printed, and in no other case.
pub fn generate_consolidated_report(schedules: &Vec<Schedule>) -> (r: Option<String>)
    ensures
        optional_string(r) == (match lines_of(schedule_views(schedules@)) {
            Some(lines) => Some(consolidated_text(lines)),
            None => None,
        }),
{
    match report_lines(schedules) {
        Some(lines) => Some(consolidated_csv(lines)),
        None => None,
    }
}

} // verus!
