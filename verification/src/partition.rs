//! The classification of two snapshots is a partition.
//!
//! Where no snapshot carries a shift twice in one shift group, and the group
//! occurs in both snapshots, every shift of the group is classified in one
//! way only: dropped, picked up or unchanged once, or, where its teacher has
//! changed, once as an internal pickup and once as dropped and picked up.

use crate::reconcile::{
    classified, has_group, holder, row_kind, tagged, ChangeKind, ReconciledShift,
};
use crate::roster::RosterRow;
use vstd::prelude::*;

verus! {

/// The row carries `shift` in `group`.
pub open spec fn in_slot(r: RosterRow, group: Seq<char>, shift: Seq<char>) -> bool {
    r.shift_group == group && r.shift == shift
}

/// No two rows carry the same shift in the same shift group.
pub open spec fn unique_slots(rows: Seq<RosterRow>) -> bool {
    forall|i: int, j: int|
        #![trigger rows[i], rows[j]]
        0 <= i < j < rows.len() ==> !in_slot(rows[i], rows[j].shift_group, rows[j].shift)
}

/// No row carries `shift` in `group`.
pub open spec fn slot_empty(rows: Seq<RosterRow>, group: Seq<char>, shift: Seq<char>) -> bool {
    forall|i: int| 0 <= i < rows.len() ==> !in_slot(#[trigger] rows[i], group, shift)
}

/// The number of classified rows that carry `shift` in `group` with `kind`.
pub open spec fn occurrences(
    out: Seq<ReconciledShift>,
    group: Seq<char>,
    shift: Seq<char>,
    kind: ChangeKind,
) -> nat
    decreases out.len(),
{
    if out.len() == 0 {
        0
    } else if in_slot(out.last().row, group, shift) && out.last().kind == kind {
        occurrences(out.drop_last(), group, shift, kind) + 1
    } else {
        occurrences(out.drop_last(), group, shift, kind)
    }
}

/// How often a shift is classified in each way.
pub struct KindCounts {
    pub pickup: nat,
    pub internal_pickup: nat,
    pub dropped: nat,
    pub dropped_and_picked_up: nat,
    pub unchanged: nat,
}

/// How often `shift` of `group` is classified in each way.
pub open spec fn kind_counts(out: Seq<ReconciledShift>, group: Seq<char>, shift: Seq<char>)
    -> KindCounts {
    KindCounts {
        pickup: occurrences(out, group, shift, ChangeKind::Pickup),
        internal_pickup: occurrences(out, group, shift, ChangeKind::InternalPickup),
        dropped: occurrences(out, group, shift, ChangeKind::Dropped),
        dropped_and_picked_up: occurrences(out, group, shift, ChangeKind::DroppedAndPickedUp),
        unchanged: occurrences(out, group, shift, ChangeKind::Unchanged),
    }
}

/// The counts of a shift that is classified once, as `kind`, or with `kind`
/// absent not at all.
pub open spec fn once(kind: Option<ChangeKind>) -> KindCounts {
    KindCounts {
        pickup: if kind == Some(ChangeKind::Pickup) {
            1
        } else {
            0
        },
        internal_pickup: if kind == Some(ChangeKind::InternalPickup) {
            1
        } else {
            0
        },
        dropped: if kind == Some(ChangeKind::Dropped) {
            1
        } else {
            0
        },
        dropped_and_picked_up: if kind == Some(ChangeKind::DroppedAndPickedUp) {
            1
        } else {
            0
        },
        unchanged: if kind == Some(ChangeKind::Unchanged) {
            1
        } else {
            0
        },
    }
}

/// The counts of a shift whose teacher has changed: one internal pickup, one
/// dropped and picked up.
pub open spec fn reassigned() -> KindCounts {
    KindCounts { pickup: 0, internal_pickup: 1, dropped: 0, dropped_and_picked_up: 1, unchanged: 0 }
}

/// The counts that the two snapshots call for, by the teachers that hold the
/// shift in each.
pub open spec fn expected_counts(earlier: Option<Seq<char>>, later: Option<Seq<char>>)
    -> KindCounts {
    match (earlier, later) {
        (None, None) => once(None),
        (Some(_), None) => once(Some(ChangeKind::Dropped)),
        (None, Some(_)) => once(Some(ChangeKind::Pickup)),
        (Some(was), Some(is)) => if was == is {
            once(Some(ChangeKind::Unchanged))
        } else {
            reassigned()
        },
    }
}

/// The occurrences in two sequences one after the other add up.
pub proof fn lemma_occurrences_add(
    a: Seq<ReconciledShift>,
    b: Seq<ReconciledShift>,
    group: Seq<char>,
    shift: Seq<char>,
    kind: ChangeKind,
)
    ensures
        occurrences(a + b, group, shift, kind) == occurrences(a, group, shift, kind) + occurrences(
            b,
            group,
            shift,
            kind,
        ),
    decreases b.len(),
{
    if b.len() == 0 {
        assert(a + b =~= a);
    } else {
        lemma_occurrences_add(a, b.drop_last(), group, shift, kind);
        assert((a + b).drop_last() =~= a + b.drop_last());
        assert((a + b).last() == b.last());
    }
}

/// Where no row carries the shift, no tagged row does.
pub proof fn lemma_tagged_absent(
    rows: Seq<RosterRow>,
    other: Seq<RosterRow>,
    later: bool,
    kind: ChangeKind,
    group: Seq<char>,
    shift: Seq<char>,
    wanted: ChangeKind,
)
    requires
        slot_empty(rows, group, shift),
    ensures
        occurrences(tagged(rows, other, later, kind), group, shift, wanted) == 0,
    decreases rows.len(),
{
    if rows.len() > 0 {
        let head = rows.drop_last();
        assert forall|i: int| 0 <= i < head.len() implies !in_slot(
            #[trigger] head[i],
            group,
            shift,
        ) by {
            assert(head[i] == rows[i]);
        }
        lemma_tagged_absent(head, other, later, kind, group, shift, wanted);
        assert(!in_slot(rows[rows.len() - 1], group, shift));
        if row_kind(other, rows.last(), later) == Some(kind) {
            let out = tagged(rows, other, later, kind);
            assert(out.drop_last() =~= tagged(head, other, later, kind));
        }
    }
}

/// Where row `i` alone carries its shift, the tagged rows hold that shift
/// once if row `i` stands for the kind they are tagged with, and not at all
/// if it does not.
pub proof fn lemma_tagged_single(
    rows: Seq<RosterRow>,
    other: Seq<RosterRow>,
    later: bool,
    kind: ChangeKind,
    i: int,
    wanted: ChangeKind,
)
    requires
        unique_slots(rows),
        0 <= i < rows.len(),
    ensures
        occurrences(
            tagged(rows, other, later, kind),
            rows[i].shift_group,
            rows[i].shift,
            wanted,
        ) == (if wanted == kind && row_kind(other, rows[i], later) == Some(kind) {
            1nat
        } else {
            0nat
        }),
    decreases rows.len(),
{
    let group = rows[i].shift_group;
    let shift = rows[i].shift;
    let head = rows.drop_last();
    let out = tagged(rows, other, later, kind);
    let qualifies = row_kind(other, rows.last(), later) == Some(kind);
    if qualifies {
        assert(out.drop_last() =~= tagged(head, other, later, kind));
    }
    if i == rows.len() - 1 {
        assert forall|j: int| 0 <= j < head.len() implies !in_slot(
            #[trigger] head[j],
            group,
            shift,
        ) by {
            assert(head[j] == rows[j]);
            assert(!in_slot(rows[j], rows[i].shift_group, rows[i].shift));
        }
        lemma_tagged_absent(head, other, later, kind, group, shift, wanted);
    } else {
        assert forall|a: int, b: int|
            #![trigger head[a], head[b]]
            0 <= a < b < head.len() implies !in_slot(head[a], head[b].shift_group, head[b].shift) by {
            assert(head[a] == rows[a]);
            assert(head[b] == rows[b]);
        }
        assert(head[i] == rows[i]);
        lemma_tagged_single(head, other, later, kind, i, wanted);
        let last = rows.len() - 1;
        assert(!in_slot(rows[i], rows[last].shift_group, rows[last].shift));
    }
}

/// Where row `i` alone carries its shift, it is the holder of that shift.
pub proof fn lemma_single_holder(rows: Seq<RosterRow>, i: int)
    requires
        unique_slots(rows),
        0 <= i < rows.len(),
    ensures
        holder(rows, rows[i].shift_group, rows[i].shift) == Some(rows[i].teacher_name),
    decreases i,
{
    if i > 0 {
        let rest = rows.drop_first();
        assert forall|a: int, b: int|
            #![trigger rest[a], rest[b]]
            0 <= a < b < rest.len() implies !in_slot(rest[a], rest[b].shift_group, rest[b].shift) by {
            assert(rest[a] == rows[a + 1]);
            assert(rest[b] == rows[b + 1]);
        }
        assert(rest[i - 1] == rows[i]);
        lemma_single_holder(rest, i - 1);
        assert(!in_slot(rows[0], rows[i].shift_group, rows[i].shift));
    }
}

/// A shift has a holder exactly where some row carries it.
pub proof fn lemma_holder_or_empty(rows: Seq<RosterRow>, group: Seq<char>, shift: Seq<char>)
    ensures
        match holder(rows, group, shift) {
            Some(_) => exists|i: int| 0 <= i < rows.len() && in_slot(#[trigger] rows[i], group, shift),
            None => slot_empty(rows, group, shift),
        },
    decreases rows.len(),
{
    if rows.len() > 0 {
        if in_slot(rows[0], group, shift) {
        } else {
            let rest = rows.drop_first();
            lemma_holder_or_empty(rest, group, shift);
            match holder(rest, group, shift) {
                Some(_) => {
                    let i = choose|i: int|
                        0 <= i < rest.len() && in_slot(#[trigger] rest[i], group, shift);
                    assert(rows[i + 1] == rest[i]);
                },
                None => {
                    assert forall|i: int| 0 <= i < rows.len() implies !in_slot(
                        #[trigger] rows[i],
                        group,
                        shift,
                    ) by {
                        if i > 0 {
                            assert(rest[i - 1] == rows[i]);
                        }
                    }
                },
            }
        }
    }
}

/// The occurrences of a shift among the rows tagged from one snapshot.
proof fn lemma_tagged_counts(
    rows: Seq<RosterRow>,
    other: Seq<RosterRow>,
    later: bool,
    kind: ChangeKind,
    group: Seq<char>,
    shift: Seq<char>,
    wanted: ChangeKind,
)
    requires
        unique_slots(rows),
        has_group(other, group),
    ensures
        occurrences(tagged(rows, other, later, kind), group, shift, wanted) == (match holder(
            rows,
            group,
            shift,
        ) {
            Some(teacher) => if wanted == kind && slot_kind(other, group, shift, teacher, later)
                == Some(kind) {
                1nat
            } else {
                0nat
            },
            None => 0nat,
        }),
{
    lemma_holder_or_empty(rows, group, shift);
    match holder(rows, group, shift) {
        Some(teacher) => {
            let i = choose|i: int| 0 <= i < rows.len() && in_slot(#[trigger] rows[i], group, shift);
            lemma_single_holder(rows, i);
            lemma_tagged_single(rows, other, later, kind, i, wanted);
        },
        None => {
            lemma_tagged_absent(rows, other, later, kind, group, shift, wanted);
        },
    }
}

/// The change that a row of `teacher` carrying `shift` in `group` stands
/// for, where the group occurs in the other snapshot.
pub open spec fn slot_kind(
    other: Seq<RosterRow>,
    group: Seq<char>,
    shift: Seq<char>,
    teacher: Seq<char>,
    later: bool,
) -> Option<ChangeKind> {
    match holder(other, group, shift) {
        None => Some(
            if later {
                ChangeKind::Pickup
            } else {
                ChangeKind::Dropped
            },
        ),
        Some(there) => if there != teacher {
            Some(
                if later {
                    ChangeKind::InternalPickup
                } else {
                    ChangeKind::DroppedAndPickedUp
                },
            )
        } else if later {
            Some(ChangeKind::Unchanged)
        } else {
            None
        },
    }
}

/// The occurrences of one kind among all classified rows.
proof fn lemma_classified_counts(
    before: Seq<RosterRow>,
    after: Seq<RosterRow>,
    group: Seq<char>,
    shift: Seq<char>,
    wanted: ChangeKind,
)
    requires
        unique_slots(before),
        unique_slots(after),
        has_group(before, group),
        has_group(after, group),
    ensures
        occurrences(classified(before, after), group, shift, wanted) == (match wanted {
            ChangeKind::Dropped | ChangeKind::DroppedAndPickedUp => match holder(
                before,
                group,
                shift,
            ) {
                Some(teacher) => if slot_kind(after, group, shift, teacher, false) == Some(wanted) {
                    1nat
                } else {
                    0nat
                },
                None => 0nat,
            },
            _ => match holder(after, group, shift) {
                Some(teacher) => if slot_kind(before, group, shift, teacher, true) == Some(wanted) {
                    1nat
                } else {
                    0nat
                },
                None => 0nat,
            },
        }),
{
    let a = tagged(after, before, true, ChangeKind::Pickup);
    let b = tagged(after, before, true, ChangeKind::InternalPickup);
    let c = tagged(before, after, false, ChangeKind::Dropped);
    let d = tagged(before, after, false, ChangeKind::DroppedAndPickedUp);
    let e = tagged(after, before, true, ChangeKind::Unchanged);
    lemma_occurrences_add(a + b + c + d, e, group, shift, wanted);
    lemma_occurrences_add(a + b + c, d, group, shift, wanted);
    lemma_occurrences_add(a + b, c, group, shift, wanted);
    lemma_occurrences_add(a, b, group, shift, wanted);
    lemma_tagged_counts(after, before, true, ChangeKind::Pickup, group, shift, wanted);
    lemma_tagged_counts(after, before, true, ChangeKind::InternalPickup, group, shift, wanted);
    lemma_tagged_counts(before, after, false, ChangeKind::Dropped, group, shift, wanted);
    lemma_tagged_counts(before, after, false, ChangeKind::DroppedAndPickedUp, group, shift, wanted);
    lemma_tagged_counts(after, before, true, ChangeKind::Unchanged, group, shift, wanted);
}

/// Completeness of the partition: where no snapshot carries a shift twice in
/// one shift group and `group` occurs in both, a shift of the group that only
/// the earlier snapshot carries is dropped once, one that only the later
/// carries is picked up once, one that both carry with one teacher is
/// unchanged once, and one that both carry with different teachers is once
/// an internal pickup and once dropped and picked up; and it is classified
/// in no other way.
pub proof fn lemma_classification_is_partition(
    before: Seq<RosterRow>,
    after: Seq<RosterRow>,
    group: Seq<char>,
    shift: Seq<char>,
)
    requires
        unique_slots(before),
        unique_slots(after),
        has_group(before, group),
        has_group(after, group),
    ensures
        kind_counts(classified(before, after), group, shift) == expected_counts(
            holder(before, group, shift),
            holder(after, group, shift),
        ),
{
    lemma_classified_counts(before, after, group, shift, ChangeKind::Pickup);
    lemma_classified_counts(before, after, group, shift, ChangeKind::InternalPickup);
    lemma_classified_counts(before, after, group, shift, ChangeKind::Dropped);
    lemma_classified_counts(before, after, group, shift, ChangeKind::DroppedAndPickedUp);
    lemma_classified_counts(before, after, group, shift, ChangeKind::Unchanged);
}

/// A shift group that one of the snapshots lacks gives no classified row.
pub proof fn lemma_lone_group_is_silent(
    before: Seq<RosterRow>,
    after: Seq<RosterRow>,
    group: Seq<char>,
    shift: Seq<char>,
    kind: ChangeKind,
)
    requires
        !has_group(before, group) || !has_group(after, group),
    ensures
        occurrences(classified(before, after), group, shift, kind) == 0,
{
    let a = tagged(after, before, true, ChangeKind::Pickup);
    let b = tagged(after, before, true, ChangeKind::InternalPickup);
    let c = tagged(before, after, false, ChangeKind::Dropped);
    let d = tagged(before, after, false, ChangeKind::DroppedAndPickedUp);
    let e = tagged(after, before, true, ChangeKind::Unchanged);
    lemma_occurrences_add(a + b + c + d, e, group, shift, kind);
    lemma_occurrences_add(a + b + c, d, group, shift, kind);
    lemma_occurrences_add(a + b, c, group, shift, kind);
    lemma_occurrences_add(a, b, group, shift, kind);
    lemma_tagged_silent(after, before, true, ChangeKind::Pickup, group, shift, kind);
    lemma_tagged_silent(after, before, true, ChangeKind::InternalPickup, group, shift, kind);
    lemma_tagged_silent(before, after, false, ChangeKind::Dropped, group, shift, kind);
    lemma_tagged_silent(before, after, false, ChangeKind::DroppedAndPickedUp, group, shift, kind);
    lemma_tagged_silent(after, before, true, ChangeKind::Unchanged, group, shift, kind);
}

/// Rows tagged against a snapshot hold no row of a group that the snapshot
/// or the rows lack.
proof fn lemma_tagged_silent(
    rows: Seq<RosterRow>,
    other: Seq<RosterRow>,
    later: bool,
    kind: ChangeKind,
    group: Seq<char>,
    shift: Seq<char>,
    wanted: ChangeKind,
)
    requires
        !has_group(rows, group) || !has_group(other, group),
    ensures
        occurrences(tagged(rows, other, later, kind), group, shift, wanted) == 0,
    decreases rows.len(),
{
    if rows.len() > 0 {
        let head = rows.drop_last();
        if has_group(head, group) {
            let i = choose|i: int| 0 <= i < head.len() && (#[trigger] head[i]).shift_group == group;
            assert(rows[i] == head[i]);
            assert(has_group(rows, group));
        }
        lemma_tagged_silent(head, other, later, kind, group, shift, wanted);
        if row_kind(other, rows.last(), later) == Some(kind) {
            let out = tagged(rows, other, later, kind);
            assert(out.drop_last() =~= tagged(head, other, later, kind));
            if rows.last().shift_group == group {
                assert(rows[rows.len() - 1].shift_group == group);
                assert(has_group(rows, group));
            }
        }
    }
}

} // verus!
