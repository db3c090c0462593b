//! The order of a reconciliation.
//!
//! Reconciled rows come sorted by shift group, then by teacher, then by
//! start; the order is total and transitive, so the sorted arrangement is in
//! order from each row to every later one.

use crate::calendar::{roster_instant_outcome, Timestamp};
use crate::reconcile::{
    classified, dated, dated_le, dated_order, kept_for_day, reconciled, DatedRow, ReconciledShift,
};
use crate::roster::RosterRow;
use crate::sorting::{lemma_sorted_is_ordered_permutation, ordered, sorted, total, transitive};
use crate::text::{lemma_text_le_antisymmetric, lemma_text_le_total, lemma_text_le_transitive};
use vstd::prelude::*;

verus! {

/// The start of a shift as it is read for sorting; midnight of no day where
/// it cannot be read.
pub open spec fn start_of(shift: ReconciledShift) -> Timestamp {
    roster_instant_outcome(shift.row.start_date)->Ok_0
}

/// The shift with the start it is sorted by.
pub open spec fn with_start(shift: ReconciledShift) -> DatedRow {
    DatedRow { shift, start: start_of(shift) }
}

/// The order of the report on reconciled shifts.
pub open spec fn shift_order() -> spec_fn(ReconciledShift, ReconciledShift) -> bool {
    |a: ReconciledShift, b: ReconciledShift| dated_le(with_start(a), with_start(b))
}

/// The order of the report is total and transitive.
pub proof fn lemma_dated_order_is_total_preorder()
    ensures
        total(dated_order()),
        transitive(dated_order()),
{
    assert forall|a: DatedRow, b: DatedRow| #[trigger]
        dated_order()(a, b) || dated_order()(b, a) by {
        lemma_text_le_total(a.shift.row.shift_group, b.shift.row.shift_group);
        lemma_text_le_total(a.shift.row.teacher_name, b.shift.row.teacher_name);
    }
    assert forall|a: DatedRow, b: DatedRow, c: DatedRow| #[trigger]
        dated_order()(a, b) && #[trigger] dated_order()(b, c) implies dated_order()(a, c) by {
        lemma_dated_le_transitive(a, b, c);
    }
}

/// The order of the report is transitive.
pub proof fn lemma_dated_le_transitive(a: DatedRow, b: DatedRow, c: DatedRow)
    requires
        dated_le(a, b),
        dated_le(b, c),
    ensures
        dated_le(a, c),
{
    let (ga, gb, gc) = (a.shift.row.shift_group, b.shift.row.shift_group, c.shift.row.shift_group);
    let (ta, tb, tc) = (a.shift.row.teacher_name, b.shift.row.teacher_name, c.shift.row.teacher_name);
    if ga != gb || gb != gc {
        if ga != gb && gb != gc {
            lemma_text_le_transitive(ga, gb, gc);
            if ga == gc {
                lemma_text_le_antisymmetric(ga, gb);
            }
        }
    } else if ta != tb || tb != tc {
        if ta != tb && tb != tc {
            lemma_text_le_transitive(ta, tb, tc);
            if ta == tc {
                lemma_text_le_antisymmetric(ta, tb);
            }
        }
    }
}

/// Every dated row carries the start that its shift is read with.
pub proof fn lemma_dated_starts(s: Seq<ReconciledShift>)
    ensures
        forall|i: int| 0 <= i < dated(s).len() ==> #[trigger] dated(s)[i] == with_start(dated(s)[i].shift),
    decreases s.len(),
{
    if s.len() > 0 {
        lemma_dated_starts(s.drop_last());
        let out = dated(s);
        let head = dated(s.drop_last());
        assert forall|i: int| 0 <= i < out.len() implies #[trigger] out[i] == with_start(
            out[i].shift,
        ) by {
            if i < head.len() {
                assert(out[i] == head[i]);
            }
        }
    }
}

/// Some dated row of `s` holds `shift`.
pub open spec fn comes_from(s: Seq<DatedRow>, shift: ReconciledShift) -> bool {
    exists|j: int| 0 <= j < s.len() && (#[trigger] s[j]).shift == shift
}

/// The rows kept for a day come from the dated rows, in their order.
pub proof fn lemma_kept_in_order(s: Seq<DatedRow>, day: Timestamp)
    requires
        ordered(s, dated_order()),
        forall|i: int| 0 <= i < s.len() ==> #[trigger] s[i] == with_start(s[i].shift),
    ensures
        ordered(kept_for_day(s, day), shift_order()),
        forall|i: int|
            #![trigger kept_for_day(s, day)[i]]
            0 <= i < kept_for_day(s, day).len() ==> comes_from(s, kept_for_day(s, day)[i]),
    decreases s.len(),
{
    if s.len() > 0 {
        let head = s.drop_last();
        let kept = kept_for_day(s, day);
        let before = kept_for_day(head, day);
        assert forall|i: int, j: int| #![trigger head[i], head[j]] 0 <= i < j
            < head.len() implies dated_order()(head[i], head[j]) by {
            assert(head[i] == s[i]);
            assert(head[j] == s[j]);
        }
        assert forall|i: int| 0 <= i < head.len() implies #[trigger] head[i] == with_start(
            head[i].shift,
        ) by {
            assert(head[i] == s[i]);
        }
        lemma_kept_in_order(head, day);
        let n = s.len() - 1;
        assert forall|i: int| #![trigger kept[i]] 0 <= i < kept.len() implies comes_from(
            s,
            kept[i],
        ) by {
            if i < before.len() {
                assert(kept[i] == before[i]);
                assert(comes_from(head, before[i]));
                let j = choose|j: int| 0 <= j < head.len() && (#[trigger] head[j]).shift == before[i];
                assert(s[j].shift == kept[i]);
            } else {
                assert(s[n].shift == kept[i]);
            }
        }
        assert forall|i: int, j: int| #![trigger kept[i], kept[j]] 0 <= i < j
            < kept.len() implies shift_order()(kept[i], kept[j]) by {
            if j < before.len() {
                assert(kept[i] == before[i]);
                assert(kept[j] == before[j]);
            } else {
                assert(kept[i] == before[i]);
                assert(comes_from(head, before[i]));
                let k = choose|k: int| 0 <= k < head.len() && (#[trigger] head[k]).shift == before[i];
                assert(head[k] == s[k]);
                assert(dated_order()(s[k], s[n]));
                assert(s[k] == with_start(s[k].shift));
                assert(s[n] == with_start(s[n].shift));
            }
        }
    }
}

/// A reconciliation is in the order of the report: each of its rows may
/// stand before every later one, by shift group, then teacher, then start.
pub proof fn lemma_reconciled_in_order(before: Seq<RosterRow>, after: Seq<RosterRow>, day: Timestamp)
    ensures
        ordered(reconciled(before, after, day), shift_order()),
{
    broadcast use vstd::seq_lib::group_to_multiset_ensures;

    let unsorted = dated(classified(before, after));
    let in_order = sorted(unsorted, dated_order());
    lemma_dated_order_is_total_preorder();
    lemma_sorted_is_ordered_permutation(unsorted, dated_order());
    lemma_dated_starts(classified(before, after));
    assert forall|i: int| 0 <= i < in_order.len() implies #[trigger] in_order[i] == with_start(
        in_order[i].shift,
    ) by {
        assert(in_order.contains(in_order[i]));
        assert(in_order.to_multiset().count(in_order[i]) > 0);
        assert(unsorted.contains(in_order[i]));
        let j = choose|j: int| 0 <= j < unsorted.len() && unsorted[j] == in_order[i];
        assert(unsorted[j] == with_start(unsorted[j].shift));
    }
    lemma_kept_in_order(in_order, day);
}

} // verus!
