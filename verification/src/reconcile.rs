//! Reconciliation of two roster snapshots.
//!
//! Every row of the later snapshot whose shift group also occurs in the
//! earlier one is a pickup, an internal pickup or unchanged; every row of the
//! earlier snapshot whose shift group also occurs in the later one is dropped,
//! dropped and picked up, or silently kept. The classified rows are sorted by
//! shift group, teacher and start, and those that start on the reporting day
//! are returned.

use crate::calendar::{
    roster_day, roster_day_outcome, roster_instant, roster_instant_outcome, Timestamp,
};
use crate::roster::{roster, snapshot_for_day, rows_touching, DialogueRow, RosterRow};
use crate::sorting::{sorted, stable_sort, rank_order, lemma_sorted_maps, Ranked};
use crate::text::{chars_of, text_is, text_le, text_precedes};
use vstd::prelude::*;

verus! {

/// How a shift changed between the two snapshots.
#[derive(Clone, Copy, Debug, PartialEq, Eq, Structural)]
pub enum ChangeKind {
    /// In the later snapshot only.
    Pickup,
    /// In both snapshots, with another teacher in the later one; said of the
    /// later row.
    InternalPickup,
    /// In the earlier snapshot only.
    Dropped,
    /// In both snapshots, with another teacher in the later one; said of the
    /// earlier row.
    DroppedAndPickedUp,
    /// In both snapshots with the same teacher.
    Unchanged,
}

impl ChangeKind {
    /// The text under which the kind is stored and shown.
    pub open spec fn label_text(&self) -> Seq<char> {
        match self {
            ChangeKind::Pickup => "Pickup"@,
            ChangeKind::InternalPickup => "Internal Pickup"@,
            ChangeKind::Dropped => "Dropped"@,
            ChangeKind::DroppedAndPickedUp => "Dropped & Picked Up"@,
            ChangeKind::Unchanged => "-"@,
        }
    }

    /// The text under which the kind is stored and shown.
    pub fn label(&self) -> (r: &'static str)
        ensures
            r@ == self.label_text(),
    {
        match self {
            ChangeKind::Pickup => "Pickup",
            ChangeKind::InternalPickup => "Internal Pickup",
            ChangeKind::Dropped => "Dropped",
            ChangeKind::DroppedAndPickedUp => "Dropped & Picked Up",
            ChangeKind::Unchanged => "-",
        }
    }

    /// The kind that is stored under `text`, if there is one.
    pub fn from_label(text: &String) -> (r: Option<ChangeKind>)
        ensures
            match r {
                Some(kind) => kind.label_text() == text@,
                None => forall|kind: ChangeKind| #[trigger] kind.label_text() != text@,
            },
    {
        if text_is(text, "Pickup") {
            Some(ChangeKind::Pickup)
        } else if text_is(text, "Internal Pickup") {
            Some(ChangeKind::InternalPickup)
        } else if text_is(text, "Dropped") {
            Some(ChangeKind::Dropped)
        } else if text_is(text, "Dropped & Picked Up") {
            Some(ChangeKind::DroppedAndPickedUp)
        } else if text_is(text, "-") {
            Some(ChangeKind::Unchanged)
        } else {
            None
        }
    }
}

/// A roster row with the change it stands for.
#[derive(Debug)]
pub struct DialogueConsolidatedRow {
    pub shift_group: String,
    pub shift: String,
    pub shift_type: ChangeKind,
    pub teacher_name: String,
    pub start_date: String,
    pub end_date: String,
}

/// What a [`DialogueConsolidatedRow`] holds.
pub struct ReconciledShift {
    pub row: RosterRow,
    pub kind: ChangeKind,
}

impl View for DialogueConsolidatedRow {
    type V = ReconciledShift;

    open spec fn view(&self) -> ReconciledShift {
        ReconciledShift {
            row: RosterRow {
                shift_group: self.shift_group@,
                shift: self.shift@,
                teacher_name: self.teacher_name@,
                start_date: self.start_date@,
                end_date: self.end_date@,
            },
            kind: self.shift_type,
        }
    }
}

impl Clone for DialogueConsolidatedRow {
    fn clone(&self) -> (r: Self)
        ensures
            r@ == self@,
    {
        DialogueConsolidatedRow {
            shift_group: self.shift_group.clone(),
            shift: self.shift.clone(),
            shift_type: self.shift_type,
            teacher_name: self.teacher_name.clone(),
            start_date: self.start_date.clone(),
            end_date: self.end_date.clone(),
        }
    }
}

/// The reconciled shifts of a vector.
pub open spec fn shifts(rows: Seq<DialogueConsolidatedRow>) -> Seq<ReconciledShift> {
    rows.map_values(|r: DialogueConsolidatedRow| r@)
}

/// Some row of `rows` belongs to `group`.
pub open spec fn has_group(rows: Seq<RosterRow>, group: Seq<char>) -> bool {
    exists|i: int| 0 <= i < rows.len() && (#[trigger] rows[i]).shift_group == group
}

/// The teacher on the first row of `rows` that carries `shift` in `group`.
pub open spec fn holder(rows: Seq<RosterRow>, group: Seq<char>, shift: Seq<char>) -> Option<
    Seq<char>,
>
    decreases rows.len(),
{
    if rows.len() == 0 {
        None
    } else if rows[0].shift_group == group && rows[0].shift == shift {
        Some(rows[0].teacher_name)
    } else {
        holder(rows.drop_first(), group, shift)
    }
}

/// The change that row `r` stands for, given the other snapshot.
///
/// `later` says that `r` is of the later snapshot and `other` the earlier
/// one. A row whose shift group does not occur in the other snapshot stands
/// for nothing, and so does a row of the earlier snapshot whose shift has
/// kept its teacher.
pub open spec fn row_kind(other: Seq<RosterRow>, r: RosterRow, later: bool) -> Option<ChangeKind> {
    if !has_group(other, r.shift_group) {
        None
    } else {
        match holder(other, r.shift_group, r.shift) {
            None => Some(
                if later {
                    ChangeKind::Pickup
                } else {
                    ChangeKind::Dropped
                },
            ),
            Some(teacher) => if teacher != r.teacher_name {
                Some(
                    if later {
                        ChangeKind::InternalPickup
                    } else {
                        ChangeKind::DroppedAndPickedUp
                    },
                )
            } else if later {
                Some(ChangeKind::Unchanged)
            } else {
                None
            },
        }
    }
}

/// The rows of `rows` that stand for `kind`, in order, each with its kind.
pub open spec fn tagged(rows: Seq<RosterRow>, other: Seq<RosterRow>, later: bool, kind: ChangeKind)
    -> Seq<ReconciledShift>
    decreases rows.len(),
{
    if rows.len() == 0 {
        Seq::empty()
    } else if row_kind(other, rows.last(), later) == Some(kind) {
        tagged(rows.drop_last(), other, later, kind).push(
            ReconciledShift { row: rows.last(), kind },
        )
    } else {
        tagged(rows.drop_last(), other, later, kind)
    }
}

/// All classified rows: pickups, internal pickups, dropped, dropped and
/// picked up, unchanged.
pub open spec fn classified(before: Seq<RosterRow>, after: Seq<RosterRow>) -> Seq<ReconciledShift> {
    tagged(after, before, true, ChangeKind::Pickup) + tagged(
        after,
        before,
        true,
        ChangeKind::InternalPickup,
    ) + tagged(before, after, false, ChangeKind::Dropped) + tagged(
        before,
        after,
        false,
        ChangeKind::DroppedAndPickedUp,
    ) + tagged(after, before, true, ChangeKind::Unchanged)
}

/// Whether some row of `rows` belongs to `group`.
pub fn group_present(rows: &Vec<DialogueRow>, group: &String) -> (r: bool)
    ensures
        r == has_group(roster(rows@), group@),
{
    let mut i: usize = 0;
    while i < rows.len()
        invariant
            i <= rows.len(),
            forall|j: int| 0 <= j < i ==> (#[trigger] roster(rows@)[j]).shift_group != group@,
        decreases rows.len() - i,
    {
        if rows[i].shift_group == *group {
            assert(roster(rows@)[i as int].shift_group == group@);
            return true;
        }
        i = i + 1;
    }
    false
}

/// The first row of `rows` that carries `shift` in `group`.
pub fn find_holder(rows: &Vec<DialogueRow>, group: &String, shift: &String) -> (r: Option<usize>)
    ensures
        match r {
            Some(i) => i < rows.len() && holder(roster(rows@), group@, shift@) == Some(
                rows[i as int].teacher_name@,
            ),
            None => holder(roster(rows@), group@, shift@) is None,
        },
{
    let mut i: usize = 0;
    let ghost all = roster(rows@);
    assert(all.skip(0) =~= all);
    while i < rows.len()
        invariant
            i <= rows.len(),
            all == roster(rows@),
            holder(all, group@, shift@) == holder(all.skip(i as int), group@, shift@),
        decreases rows.len() - i,
    {
        let ghost tail = all.skip(i as int);
        assert(tail[0] == rows@[i as int]@);
        if rows[i].shift_group == *group && rows[i].shift == *shift {
            return Some(i);
        }
        assert(tail.drop_first() =~= all.skip(i as int + 1));
        i = i + 1;
    }
    None
}

/// The change that `row` stands for, given the other snapshot.
pub fn classify_row(other: &Vec<DialogueRow>, row: &DialogueRow, later: bool) -> (r: Option<
    ChangeKind,
>)
    ensures
        r == row_kind(roster(other@), row@, later),
{
    if !group_present(other, &row.shift_group) {
        return None;
    }
    match find_holder(other, &row.shift_group, &row.shift) {
        None => Some(
            if later {
                ChangeKind::Pickup
            } else {
                ChangeKind::Dropped
            },
        ),
        Some(i) => {
            if other[i].teacher_name != row.teacher_name {
                Some(
                    if later {
                        ChangeKind::InternalPickup
                    } else {
                        ChangeKind::DroppedAndPickedUp
                    },
                )
            } else if later {
                Some(ChangeKind::Unchanged)
            } else {
                None
            }
        },
    }
}

/// Appends to `out` the rows of `rows` that stand for `kind`.
fn collect_tagged(
    rows: &Vec<DialogueRow>,
    other: &Vec<DialogueRow>,
    later: bool,
    kind: ChangeKind,
    out: &mut Vec<DialogueConsolidatedRow>,
)
    ensures
        shifts(final(out)@) == shifts(old(out)@) + tagged(
            roster(rows@),
            roster(other@),
            later,
            kind,
        ),
{
    let ghost all = roster(rows@);
    let ghost base = shifts(out@);
    let mut i: usize = 0;
    assert(all.take(0) =~= Seq::<RosterRow>::empty());
    assert(shifts(out@) =~= base + tagged(all.take(0), roster(other@), later, kind));
    while i < rows.len()
        invariant
            i <= rows.len(),
            all == roster(rows@),
            shifts(out@) == base + tagged(all.take(i as int), roster(other@), later, kind),
        decreases rows.len() - i,
    {
        let row = &rows[i];
        assert(all.take(i as int + 1).drop_last() =~= all.take(i as int));
        assert(all.take(i as int + 1).last() == row@);
        let found = classify_row(other, row, later);
        if found == Some(kind) {
            let ghost previous = shifts(out@);
            let entry = DialogueConsolidatedRow {
                shift_group: row.shift_group.clone(),
                shift: row.shift.clone(),
                shift_type: kind,
                teacher_name: row.teacher_name.clone(),
                start_date: row.start_date.clone(),
                end_date: row.end_date.clone(),
            };
            assert(entry@ == ReconciledShift { row: row@, kind });
            out.push(entry);
            assert(shifts(out@) =~= previous.push(ReconciledShift { row: row@, kind }));
            assert(shifts(out@) =~= base + tagged(
                all.take(i as int + 1),
                roster(other@),
                later,
                kind,
            ));
        }
        i = i + 1;
    }
    assert(all.take(rows.len() as int) =~= all);
}

/// Classifies the rows of two snapshots.
///
/// The result holds, in this order: the later rows that are pickups, the
/// later rows that are internal pickups, the earlier rows that were dropped,
/// the earlier rows that were dropped and picked up, and the later rows that
/// are unchanged; each run in the order of its snapshot.
pub fn classify(before: &Vec<DialogueRow>, after: &Vec<DialogueRow>) -> (out: Vec<
    DialogueConsolidatedRow,
>)
    ensures
        shifts(out@) == classified(roster(before@), roster(after@)),
{
    let mut out: Vec<DialogueConsolidatedRow> = Vec::new();
    assert(shifts(out@) =~= Seq::<ReconciledShift>::empty());
    collect_tagged(after, before, true, ChangeKind::Pickup, &mut out);
    collect_tagged(after, before, true, ChangeKind::InternalPickup, &mut out);
    collect_tagged(before, after, false, ChangeKind::Dropped, &mut out);
    collect_tagged(before, after, false, ChangeKind::DroppedAndPickedUp, &mut out);
    collect_tagged(after, before, true, ChangeKind::Unchanged, &mut out);
    assert(shifts(out@) =~= classified(roster(before@), roster(after@)));
    out
}

/// A reconciled shift with the instant at which it starts.
pub struct DatedRow {
    pub shift: ReconciledShift,
    pub start: Timestamp,
}

/// The shifts of `s` whose start can be read, each with its start.
pub open spec fn dated(s: Seq<ReconciledShift>) -> Seq<DatedRow>
    decreases s.len(),
{
    if s.len() == 0 {
        Seq::empty()
    } else {
        match roster_instant_outcome(s.last().row.start_date) {
            Ok(start) => dated(s.drop_last()).push(DatedRow { shift: s.last(), start }),
            Err(_) => dated(s.drop_last()),
        }
    }
}

/// The order of the report: by shift group, then by teacher, both lexically,
/// then by start.
pub open spec fn dated_le(a: DatedRow, b: DatedRow) -> bool {
    if a.shift.row.shift_group != b.shift.row.shift_group {
        text_le(a.shift.row.shift_group, b.shift.row.shift_group)
    } else if a.shift.row.teacher_name != b.shift.row.teacher_name {
        text_le(a.shift.row.teacher_name, b.shift.row.teacher_name)
    } else {
        a.start.not_after(&b.start)
    }
}

/// [`dated_le`] as a relation.
pub open spec fn dated_order() -> spec_fn(DatedRow, DatedRow) -> bool {
    |a: DatedRow, b: DatedRow| dated_le(a, b)
}

/// The shift starts on `day`, going by the date part of its start.
pub open spec fn starts_on(shift: ReconciledShift, day: Timestamp) -> bool {
    match roster_day_outcome(shift.row.start_date) {
        Ok(start) => start.same_day(&day),
        Err(_) => false,
    }
}

/// The shifts of `s` that start on `day`, in order.
pub open spec fn kept_for_day(s: Seq<DatedRow>, day: Timestamp) -> Seq<ReconciledShift>
    decreases s.len(),
{
    if s.len() == 0 {
        Seq::empty()
    } else if starts_on(s.last().shift, day) {
        kept_for_day(s.drop_last(), day).push(s.last().shift)
    } else {
        kept_for_day(s.drop_last(), day)
    }
}

/// The reconciliation of two snapshots for a reporting day.
pub open spec fn reconciled(before: Seq<RosterRow>, after: Seq<RosterRow>, day: Timestamp) -> Seq<
    ReconciledShift,
> {
    kept_for_day(sorted(dated(classified(before, after)), dated_order()), day)
}

/// A classified row with what it is sorted by.
struct DatedShift {
    row: DialogueConsolidatedRow,
    group: Vec<char>,
    teacher: Vec<char>,
    start: Timestamp,
}

impl View for DatedShift {
    type V = DatedRow;

    closed spec fn view(&self) -> DatedRow {
        DatedRow { shift: self.row@, start: self.start }
    }
}

/// The dated rows of a vector.
spec fn dated_rows(items: Seq<DatedShift>) -> Seq<DatedRow> {
    items.map_values(|d: DatedShift| d@)
}

impl Ranked for DatedShift {
    closed spec fn comparable(&self) -> bool {
        &&& self.group@ == self.row.shift_group@
        &&& self.teacher@ == self.row.teacher_name@
        &&& self.start.well_formed()
    }

    closed spec fn precedes(&self, other: &Self) -> bool {
        dated_le(self@, other@)
    }

    fn comes_first(&self, other: &Self) -> (r: bool) {
        if self.row.shift_group != other.row.shift_group {
            text_precedes(&self.group, &other.group)
        } else if self.row.teacher_name != other.row.teacher_name {
            text_precedes(&self.teacher, &other.teacher)
        } else {
            self.start.is_not_after(&other.start)
        }
    }
}

/// Reads the start of every classified row, leaving out those whose start
/// cannot be read.
fn date_rows(rows: &Vec<DialogueConsolidatedRow>) -> (out: Vec<DatedShift>)
    ensures
        dated_rows(out@) == dated(shifts(rows@)),
        forall|i: int| 0 <= i < out.len() ==> (#[trigger] out[i]).comparable(),
{
    let mut out: Vec<DatedShift> = Vec::new();
    let ghost all = shifts(rows@);
    let mut i: usize = 0;
    assert(all.take(0) =~= Seq::<ReconciledShift>::empty());
    assert(dated_rows(out@) =~= Seq::<DatedRow>::empty());
    while i < rows.len()
        invariant
            i <= rows.len(),
            all == shifts(rows@),
            dated_rows(out@) == dated(all.take(i as int)),
            forall|j: int| 0 <= j < out.len() ==> (#[trigger] out[j]).comparable(),
        decreases rows.len() - i,
    {
        let row = &rows[i];
        assert(all.take(i as int + 1).drop_last() =~= all.take(i as int));
        assert(all.take(i as int + 1).last() == row@);
        match roster_instant(row.start_date.as_str()) {
            Ok(start) => {
                let ghost previous = dated_rows(out@);
                let entry = DatedShift {
                    row: row.clone(),
                    group: chars_of(row.shift_group.as_str()),
                    teacher: chars_of(row.teacher_name.as_str()),
                    start,
                };
                assert(entry@ == DatedRow { shift: row@, start });
                out.push(entry);
                assert(dated_rows(out@) =~= previous.push(DatedRow { shift: row@, start }));
            },
            Err(_) => {},
        }
        i = i + 1;
    }
    assert(all.take(rows.len() as int) =~= all);
    out
}

/// Whether the row starts on `day`, going by the date part of its start.
pub fn row_starts_on(row: &DialogueConsolidatedRow, day: &Timestamp) -> (r: bool)
    ensures
        r == starts_on(row@, *day),
{
    match roster_day(row.start_date.as_str()) {
        Ok(start) => start.same_calendar_day(day),
        Err(_) => false,
    }
}

/// Keeps the rows that start on `day`.
fn keep_for_day(items: &Vec<DatedShift>, day: &Timestamp) -> (out: Vec<DialogueConsolidatedRow>)
    ensures
        shifts(out@) == kept_for_day(dated_rows(items@), *day),
{
    let mut out: Vec<DialogueConsolidatedRow> = Vec::new();
    let ghost all = dated_rows(items@);
    let mut i: usize = 0;
    assert(all.take(0) =~= Seq::<DatedRow>::empty());
    assert(shifts(out@) =~= Seq::<ReconciledShift>::empty());
    while i < items.len()
        invariant
            i <= items.len(),
            all == dated_rows(items@),
            shifts(out@) == kept_for_day(all.take(i as int), *day),
        decreases items.len() - i,
    {
        assert(all.take(i as int + 1).drop_last() =~= all.take(i as int));
        assert(all.take(i as int + 1).last() == items@[i as int]@);
        if row_starts_on(&items[i].row, day) {
            let ghost previous = shifts(out@);
            out.push(items[i].row.clone());
            assert(shifts(out@) =~= previous.push(items@[i as int].row@));
        }
        i = i + 1;
    }
    assert(all.take(items.len() as int) =~= all);
    out
}

/// Every shift kept for a day starts on that day.
pub proof fn lemma_kept_start_on_day(s: Seq<DatedRow>, day: Timestamp)
    ensures
        forall|i: int|
            0 <= i < kept_for_day(s, day).len() ==> starts_on(
                #[trigger] kept_for_day(s, day)[i],
                day,
            ),
    decreases s.len(),
{
    if s.len() > 0 {
        lemma_kept_start_on_day(s.drop_last(), day);
        let kept = kept_for_day(s, day);
        let head = kept_for_day(s.drop_last(), day);
        assert forall|i: int| 0 <= i < kept.len() implies starts_on(#[trigger] kept[i], day) by {
            if i < head.len() {
                assert(kept[i] == head[i]);
            }
        }
    }
}

/// Reconciles two snapshots for a reporting day.
///
/// The rows are classified, those whose start cannot be read are left out,
/// the others are sorted by shift group, teacher and start, rows that tie
/// keeping the order of the classification, and the rows that start on `day`
/// are returned.
pub fn reconcile(before: &Vec<DialogueRow>, after: &Vec<DialogueRow>, day: &Timestamp) -> (out:
    Vec<DialogueConsolidatedRow>)
    ensures
        shifts(out@) == reconciled(roster(before@), roster(after@), *day),
        forall|i: int| 0 <= i < out.len() ==> starts_on(#[trigger] shifts(out@)[i], *day),
{
    let rows = classify(before, after);
    let items = date_rows(&rows);
    let ghost unsorted = items@;
    let in_order = stable_sort(items);
    proof {
        assert forall|a: DatedShift, b: DatedShift| #[trigger]
            rank_order::<DatedShift>()(a, b) == dated_order()(a@, b@) by {}
        lemma_sorted_maps(
            unsorted,
            |d: DatedShift| d@,
            rank_order::<DatedShift>(),
            dated_order(),
        );
        lemma_kept_start_on_day(dated_rows(in_order@), *day);
    }
    keep_for_day(&in_order, day)
}

/// Reconciles two whole snapshots for a reporting day: of each snapshot only
/// the rows that start or end on `day` take part.
pub fn reconcile_snapshots(before: &Vec<DialogueRow>, after: &Vec<DialogueRow>, day: &Timestamp)
    -> (out: Vec<DialogueConsolidatedRow>)
    ensures
        shifts(out@) == reconciled(
            rows_touching(roster(before@), *day),
            rows_touching(roster(after@), *day),
            *day,
        ),
        forall|i: int| 0 <= i < out.len() ==> starts_on(#[trigger] shifts(out@)[i], *day),
{
    let earlier = snapshot_for_day(before, day);
    let later = snapshot_for_day(after, day);
    reconcile(&earlier, &later, day)
}

} // verus!
