//! Stored schedules as they are read back, with the name of their teacher,
//! and the selection of those that fall in a window.

use crate::calendar::{CalendarDate, Timestamp};
use crate::sorting::{
    lemma_sorted_is_ordered_permutation, lemma_sorted_maps, ordered, rank_order, sorted,
    stable_sort, total, transitive, Ranked,
};
use crate::text::{
    chars_of, lemma_text_le_antisymmetric, lemma_text_le_total, lemma_text_le_transitive, text_le,
    text_precedes,
};
use vstd::prelude::*;

verus! {

/// A stored schedule with the name of its teacher.
#[derive(Debug)]
pub struct Schedule {
    pub id: i32,
    pub start_date: Timestamp,
    pub end_date: Timestamp,
    pub teacher_name: String,
    pub shift_group: String,
    pub shift: String,
    pub shift_type: String,
}

/// What a [`Schedule`] holds.
pub struct ScheduleView {
    pub id: int,
    pub start_date: Timestamp,
    pub end_date: Timestamp,
    pub teacher_name: Seq<char>,
    pub shift_group: Seq<char>,
    pub shift: Seq<char>,
    pub shift_type: Seq<char>,
}

impl View for Schedule {
    type V = ScheduleView;

    open spec fn view(&self) -> ScheduleView {
        ScheduleView {
            id: self.id as int,
            start_date: self.start_date,
            end_date: self.end_date,
            teacher_name: self.teacher_name@,
            shift_group: self.shift_group@,
            shift: self.shift@,
            shift_type: self.shift_type@,
        }
    }
}

impl Clone for Schedule {
    fn clone(&self) -> (r: Self)
        ensures
            r@ == self@,
    {
        Schedule {
            id: self.id,
            start_date: self.start_date,
            end_date: self.end_date,
            teacher_name: self.teacher_name.clone(),
            shift_group: self.shift_group.clone(),
            shift: self.shift.clone(),
            shift_type: self.shift_type.clone(),
        }
    }
}

/// The schedules of a vector.
pub open spec fn schedule_views(rows: Seq<Schedule>) -> Seq<ScheduleView> {
    rows.map_values(|s: Schedule| s@)
}

/// Every schedule starts and ends at a second that exists.
pub open spec fn schedules_well_formed(rows: Seq<ScheduleView>) -> bool {
    forall|i: int|
        0 <= i < rows.len() ==> (#[trigger] rows[i]).start_date.well_formed()
            && rows[i].end_date.well_formed()
}

/// The first second of a day.
pub open spec fn day_start(day: CalendarDate) -> Timestamp {
    Timestamp { date: day, hour: 0, minute: 0, second: 0 }
}

/// The last second of a day.
pub open spec fn day_end(day: CalendarDate) -> Timestamp {
    Timestamp { date: day, hour: 23, minute: 59, second: 59 }
}

/// The schedule belongs to `group`, starts at `from` or later and ends at
/// `to` or earlier.
pub open spec fn lies_within(s: ScheduleView, from: Timestamp, to: Timestamp, group: Seq<char>)
    -> bool {
    &&& s.shift_group == group
    &&& from.not_after(&s.start_date)
    &&& s.end_date.not_after(&to)
}

/// The schedule belongs to `group` and starts at `from` or later and at `to`
/// or earlier.
pub open spec fn starts_within(s: ScheduleView, from: Timestamp, to: Timestamp, group: Seq<char>)
    -> bool {
    &&& s.shift_group == group
    &&& from.not_after(&s.start_date)
    &&& s.start_date.not_after(&to)
}

/// The schedules that lie within the window, or with `by_start` those that
/// start within it, in order.
pub open spec fn selected(
    rows: Seq<ScheduleView>,
    from: Timestamp,
    to: Timestamp,
    group: Seq<char>,
    by_start: bool,
) -> Seq<ScheduleView>
    decreases rows.len(),
{
    if rows.len() == 0 {
        Seq::empty()
    } else {
        let head = selected(rows.drop_last(), from, to, group, by_start);
        let chosen = if by_start {
            starts_within(rows.last(), from, to, group)
        } else {
            lies_within(rows.last(), from, to, group)
        };
        if chosen {
            head.push(rows.last())
        } else {
            head
        }
    }
}

/// Selects the schedules of `group` in a window of time: those that start at
/// `from` or later and end at `to` or earlier, or with `by_start` those that
/// start between the two.
pub fn select_schedules(
    rows: &Vec<Schedule>,
    from: &Timestamp,
    to: &Timestamp,
    group: &String,
    by_start: bool,
) -> (out: Vec<Schedule>)
    requires
        schedules_well_formed(schedule_views(rows@)),
        from.well_formed(),
        to.well_formed(),
    ensures
        schedule_views(out@) == selected(schedule_views(rows@), *from, *to, group@, by_start),
        schedules_well_formed(schedule_views(out@)),
{
    let mut out: Vec<Schedule> = Vec::new();
    let ghost all = schedule_views(rows@);
    let mut i: usize = 0;
    assert(all.take(0) =~= Seq::<ScheduleView>::empty());
    assert(schedule_views(out@) =~= Seq::<ScheduleView>::empty());
    while i < rows.len()
        invariant
            i <= rows.len(),
            all == schedule_views(rows@),
            schedules_well_formed(all),
            from.well_formed(),
            to.well_formed(),
            schedule_views(out@) == selected(all.take(i as int), *from, *to, group@, by_start),
            schedules_well_formed(schedule_views(out@)),
        decreases rows.len() - i,
    {
        let row = &rows[i];
        assert(all.take(i as int + 1).drop_last() =~= all.take(i as int));
        assert(all.take(i as int + 1).last() == row@);
        assert(all[i as int] == row@);
        let in_group = row.shift_group == *group;
        let late_enough = from.is_not_after(&row.start_date);
        let early_enough = if by_start {
            row.start_date.is_not_after(to)
        } else {
            row.end_date.is_not_after(to)
        };
        if in_group && late_enough && early_enough {
            let ghost previous = schedule_views(out@);
            out.push(row.clone());
            assert(schedule_views(out@) =~= previous.push(row@));
        }
        i = i + 1;
    }
    assert(all.take(rows.len() as int) =~= all);
    out
}

/// Selects the schedules of `group` that start on `first` or later and end
/// on `last` or earlier, whatever the time of day.
pub fn schedules_for_report(
    rows: &Vec<Schedule>,
    first: CalendarDate,
    last: CalendarDate,
    group: &String,
) -> (out: Vec<Schedule>)
    requires
        schedules_well_formed(schedule_views(rows@)),
        first.well_formed(),
        last.well_formed(),
    ensures
        schedule_views(out@) == selected(
            schedule_views(rows@),
            day_start(first),
            day_end(last),
            group@,
            false,
        ),
        schedules_well_formed(schedule_views(out@)),
{
    let from = Timestamp { date: first, hour: 0, minute: 0, second: 0 };
    let to = Timestamp { date: last, hour: 23, minute: 59, second: 59 };
    select_schedules(rows, &from, &to, group, false)
}

/// The order of a listing: by teacher, lexically, then by start.
pub open spec fn listing_le(a: ScheduleView, b: ScheduleView) -> bool {
    if a.teacher_name != b.teacher_name {
        text_le(a.teacher_name, b.teacher_name)
    } else {
        a.start_date.not_after(&b.start_date)
    }
}

/// [`listing_le`] as a relation.
pub open spec fn listing_order() -> spec_fn(ScheduleView, ScheduleView) -> bool {
    |a: ScheduleView, b: ScheduleView| listing_le(a, b)
}

/// The order of a listing is total and transitive.
pub proof fn lemma_listing_order_is_total_preorder()
    ensures
        total(listing_order()),
        transitive(listing_order()),
{
    assert forall|a: ScheduleView, b: ScheduleView| #[trigger]
        listing_order()(a, b) || listing_order()(b, a) by {
        lemma_text_le_total(a.teacher_name, b.teacher_name);
    }
    assert forall|a: ScheduleView, b: ScheduleView, c: ScheduleView| #[trigger]
        listing_order()(a, b) && #[trigger] listing_order()(b, c) implies listing_order()(
        a,
        c,
    ) by {
        let (ta, tb, tc) = (a.teacher_name, b.teacher_name, c.teacher_name);
        if ta != tb && tb != tc {
            lemma_text_le_transitive(ta, tb, tc);
            if ta == tc {
                lemma_text_le_antisymmetric(ta, tb);
            }
        }
    }
}

/// A schedule with the characters of its teacher's name at hand, for
/// sorting.
struct Listed {
    schedule: Schedule,
    teacher: Vec<char>,
}

impl Ranked for Listed {
    closed spec fn comparable(&self) -> bool {
        &&& self.teacher@ == self.schedule.teacher_name@
        &&& self.schedule.start_date.well_formed()
    }

    closed spec fn precedes(&self, other: &Self) -> bool {
        listing_le(self.schedule@, other.schedule@)
    }

    fn comes_first(&self, other: &Self) -> (r: bool) {
        if self.schedule.teacher_name != other.schedule.teacher_name {
            text_precedes(&self.teacher, &other.teacher)
        } else {
            self.schedule.start_date.is_not_after(&other.schedule.start_date)
        }
    }
}

spec fn listed_views(items: Seq<Listed>) -> Seq<ScheduleView> {
    items.map_values(|l: Listed| l.schedule@)
}

/// Puts schedules in the order of a listing: by teacher, then by start,
/// schedules of one teacher with one start keeping their order.
pub fn sort_for_listing(rows: &Vec<Schedule>) -> (out: Vec<Schedule>)
    requires
        schedules_well_formed(schedule_views(rows@)),
    ensures
        schedule_views(out@) == sorted(schedule_views(rows@), listing_order()),
        ordered(schedule_views(out@), listing_order()),
        schedule_views(out@).to_multiset() == schedule_views(rows@).to_multiset(),
        schedules_well_formed(schedule_views(out@)),
{
    let ghost all = schedule_views(rows@);
    let mut items: Vec<Listed> = Vec::new();
    let mut i: usize = 0;
    while i < rows.len()
        invariant
            i <= rows.len(),
            all == schedule_views(rows@),
            schedules_well_formed(all),
            listed_views(items@) == all.take(i as int),
            forall|j: int| 0 <= j < items.len() ==> (#[trigger] items[j]).comparable(),
        decreases rows.len() - i,
    {
        let ghost previous = listed_views(items@);
        assert(all[i as int] == rows@[i as int]@);
        let item = Listed {
            schedule: rows[i].clone(),
            teacher: chars_of(rows[i].teacher_name.as_str()),
        };
        items.push(item);
        assert(listed_views(items@) =~= previous.push(rows@[i as int]@));
        assert(all.take(i as int + 1) =~= all.take(i as int).push(rows@[i as int]@));
        i = i + 1;
    }
    assert(all.take(rows.len() as int) =~= all);
    let ghost unsorted = items@;
    let in_order = stable_sort(items);
    proof {
        assert forall|a: Listed, b: Listed| #[trigger]
            rank_order::<Listed>()(a, b) == listing_order()(a.schedule@, b.schedule@) by {}
        lemma_sorted_maps(
            unsorted,
            |l: Listed| l.schedule@,
            rank_order::<Listed>(),
            listing_order(),
        );
        lemma_listing_order_is_total_preorder();
        lemma_sorted_is_ordered_permutation(all, listing_order());
    }
    let ghost target = listed_views(in_order@);
    let mut out: Vec<Schedule> = Vec::new();
    let mut k: usize = 0;
    while k < in_order.len()
        invariant
            k <= in_order.len(),
            target == listed_views(in_order@),
            schedule_views(out@) == target.take(k as int),
        decreases in_order.len() - k,
    {
        let ghost previous = schedule_views(out@);
        out.push(in_order[k].schedule.clone());
        assert(schedule_views(out@) =~= previous.push(in_order@[k as int].schedule@));
        assert(target.take(k as int + 1) =~= target.take(k as int).push(
            in_order@[k as int].schedule@,
        ));
        k = k + 1;
    }
    assert(target.take(in_order.len() as int) =~= target);
    proof {
        lemma_members_well_formed(all, schedule_views(out@));
    }
    out
}

/// Schedules that are among well-formed schedules are well formed.
pub proof fn lemma_members_well_formed(all: Seq<ScheduleView>, some: Seq<ScheduleView>)
    requires
        schedules_well_formed(all),
        some.to_multiset() == all.to_multiset(),
    ensures
        schedules_well_formed(some),
{
    broadcast use vstd::seq_lib::group_to_multiset_ensures;

    assert forall|i: int| 0 <= i < some.len() implies (#[trigger] some[i]).start_date.well_formed()
        && some[i].end_date.well_formed() by {
        assert(some.contains(some[i]));
        assert(some.to_multiset().count(some[i]) > 0);
        assert(all.contains(some[i]));
        let j = choose|j: int| 0 <= j < all.len() && all[j] == some[i];
        assert(all[j].start_date.well_formed());
    }
}

} // verus!
