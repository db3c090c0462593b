//! Persisting a batch a second time.
//!
//! What a batch has stored it finds again: the second run inserts nothing,
//! skips every schedule entry and updates every billing row, and it leaves
//! the whole store as it was. Where a batch names one activity more than
//! once, the last row that names it has the say in both runs.

use crate::billing::BillingRow;
use crate::lookup::{
    first_match, lemma_first_match, lemma_first_match_alike, lemma_first_match_push,
    lemma_first_match_same_answers,
};
use crate::persist::{
    activity_of, draft_key, entries_applied, entry_applied, invoices_applied, invoices_with,
    keyed, named, persisted, same_activity, teacher_id_for, zero_tally, ScheduleDraft, StoreState,
    Tally,
};
use vstd::prelude::*;

verus! {

/// The entry's teacher is stored, and so is its schedule under that teacher.
pub open spec fn entry_settled(store: StoreState, entry: ScheduleDraft) -> bool {
    &&& first_match(store.teachers, named(entry.teacher_name)) is Some
    &&& first_match(
        store.schedules,
        keyed(draft_key(entry, teacher_id_for(store.teachers, entry.teacher_name))),
    ) is Some
}

/// The row's activity is stored.
pub open spec fn invoice_present(invoices: Seq<BillingRow>, row: BillingRow) -> bool {
    first_match(invoices, activity_of(row)) is Some
}

/// Every row's activity is stored.
pub open spec fn all_present(invoices: Seq<BillingRow>, rows: Seq<BillingRow>) -> bool {
    forall|k: int| 0 <= k < rows.len() ==> invoice_present(invoices, #[trigger] rows[k])
}

/// The eligibility of the last of `rows` that is the activity of `a`.
pub open spec fn last_say(rows: Seq<BillingRow>, a: BillingRow) -> Option<bool>
    decreases rows.len(),
{
    if rows.len() == 0 {
        None
    } else if same_activity(rows.last(), a) {
        Some(rows.last().eligible)
    } else {
        last_say(rows.drop_last(), a)
    }
}

/// The invoice at `j` is the first stored invoice of its activity: the one
/// that an upsert of the activity finds.
pub open spec fn leads(invoices: Seq<BillingRow>, j: int) -> bool {
    first_match(invoices, activity_of(invoices[j])) == Some(j)
}

/// The eligibility of the invoice at `j` once `rows` have had their say:
/// that of the last row of its activity where it leads and there is such a
/// row, and else its own.
pub open spec fn said(invoices: Seq<BillingRow>, rows: Seq<BillingRow>, j: int) -> bool {
    if leads(invoices, j) {
        match last_say(rows, invoices[j]) {
            Some(eligible) => eligible,
            None => invoices[j].eligible,
        }
    } else {
        invoices[j].eligible
    }
}

/// The invoices once `rows` have had their say.
pub open spec fn overwritten(invoices: Seq<BillingRow>, rows: Seq<BillingRow>) -> Seq<BillingRow> {
    Seq::new(
        invoices.len(),
        |j: int| BillingRow { eligible: said(invoices, rows, j), ..invoices[j] },
    )
}

/// `rows` have nothing left to say: every invoice holds what they would
/// write.
pub open spec fn settled_by(invoices: Seq<BillingRow>, rows: Seq<BillingRow>) -> bool {
    forall|j: int|
        0 <= j < invoices.len() ==> #[trigger] said(invoices, rows, j) == invoices[j].eligible
}

/// No two invoices are the same activity.
pub open spec fn unique_activities(invoices: Seq<BillingRow>) -> bool {
    forall|i: int, j: int|
        #![trigger invoices[i], invoices[j]]
        0 <= i < j < invoices.len() ==> !same_activity(invoices[i], invoices[j])
}

/// The tally with `n` more schedule entries skipped, teacher and schedule.
pub open spec fn with_skipped_entries(t: Tally, n: nat) -> Tally {
    Tally { skipped_teachers: t.skipped_teachers + n, skipped_shifts: t.skipped_shifts + n, ..t }
}

/// The tally with `n` more invoices updated.
pub open spec fn with_updated_invoices(t: Tally, n: nat) -> Tally {
    Tally { updated_invoices: t.updated_invoices + n, ..t }
}

/// The upsert of a settled entry changes nothing and counts two skips.
pub proof fn lemma_settled_entry_is_skipped(store: StoreState, tally: Tally, entry: ScheduleDraft)
    requires
        entry_settled(store, entry),
    ensures
        entry_applied((store, tally), entry) == (store, with_skipped_entries(tally, 1)),
{
}

/// After its upsert an entry is settled.
pub proof fn lemma_entry_settles(store: StoreState, tally: Tally, entry: ScheduleDraft)
    ensures
        entry_settled(entry_applied((store, tally), entry).0, entry),
{
    let name = entry.teacher_name;
    let key = draft_key(entry, teacher_id_for(store.teachers, name));
    let after = entry_applied((store, tally), entry).0;
    lemma_first_match(store.teachers, named(name));
    lemma_first_match_push(store.teachers, named(name), name);
    assert(teacher_id_for(after.teachers, name) == teacher_id_for(store.teachers, name));
    lemma_first_match_push(store.schedules, keyed(key), key);
}

/// A settled entry stays settled through the upsert of another entry.
pub proof fn lemma_settled_entry_stays(
    store: StoreState,
    tally: Tally,
    entry: ScheduleDraft,
    other: ScheduleDraft,
)
    requires
        entry_settled(store, entry),
    ensures
        entry_settled(entry_applied((store, tally), other).0, entry),
{
    let name = entry.teacher_name;
    let key = draft_key(entry, teacher_id_for(store.teachers, name));
    let other_key = draft_key(other, teacher_id_for(store.teachers, other.teacher_name));
    lemma_first_match_push(store.teachers, named(name), other.teacher_name);
    lemma_first_match_push(store.schedules, keyed(key), other_key);
}

/// A settled entry stays settled through the upsert of any entries.
pub proof fn lemma_settled_entry_survives(
    state: (StoreState, Tally),
    entries: Seq<ScheduleDraft>,
    entry: ScheduleDraft,
)
    requires
        entry_settled(state.0, entry),
    ensures
        entry_settled(entries_applied(state, entries).0, entry),
    decreases entries.len(),
{
    if entries.len() > 0 {
        lemma_settled_entry_survives(state, entries.drop_last(), entry);
        let before = entries_applied(state, entries.drop_last());
        lemma_settled_entry_stays(before.0, before.1, entry, entries.last());
    }
}

/// After the upsert of a batch each of its entries is settled.
pub proof fn lemma_entries_settle(state: (StoreState, Tally), entries: Seq<ScheduleDraft>)
    ensures
        forall|k: int|
            0 <= k < entries.len() ==> entry_settled(
                entries_applied(state, entries).0,
                #[trigger] entries[k],
            ),
    decreases entries.len(),
{
    if entries.len() > 0 {
        let head = entries.drop_last();
        let before = entries_applied(state, head);
        lemma_entries_settle(state, head);
        lemma_entry_settles(before.0, before.1, entries.last());
        assert forall|k: int| 0 <= k < entries.len() implies entry_settled(
            entries_applied(state, entries).0,
            #[trigger] entries[k],
        ) by {
            if k < head.len() {
                assert(head[k] == entries[k]);
                lemma_settled_entry_stays(before.0, before.1, entries[k], entries.last());
            }
        }
    }
}

/// The upsert of settled entries changes nothing and skips each of them.
pub proof fn lemma_settled_entries_are_skipped(
    store: StoreState,
    tally: Tally,
    entries: Seq<ScheduleDraft>,
)
    requires
        forall|k: int| 0 <= k < entries.len() ==> entry_settled(store, #[trigger] entries[k]),
    ensures
        entries_applied((store, tally), entries) == (
            store,
            with_skipped_entries(tally, entries.len()),
        ),
    decreases entries.len(),
{
    if entries.len() > 0 {
        let head = entries.drop_last();
        assert forall|k: int| 0 <= k < head.len() implies entry_settled(
            store,
            #[trigger] head[k],
        ) by {
            assert(head[k] == entries[k]);
        }
        lemma_settled_entries_are_skipped(store, tally, head);
        assert(entry_settled(store, entries[entries.len() - 1]));
        lemma_settled_entry_is_skipped(
            store,
            with_skipped_entries(tally, head.len()),
            entries.last(),
        );
    }
}

/// The upsert of a billing row leaves as many invoices or one more, and
/// changes at most the eligibility of a stored one.
pub proof fn lemma_invoice_upsert_keeps_activities(invoices: Seq<BillingRow>, row: BillingRow)
    ensures
        invoices_with(invoices, row).len() >= invoices.len(),
        forall|j: int|
            0 <= j < invoices.len() ==> same_activity(
                #[trigger] invoices_with(invoices, row)[j],
                invoices[j],
            ),
{
    lemma_first_match(invoices, activity_of(row));
}

/// The upsert of a billing row leaves no activity stored twice where none
/// was.
pub proof fn lemma_invoice_upsert_keeps_unique(invoices: Seq<BillingRow>, row: BillingRow)
    requires
        unique_activities(invoices),
    ensures
        unique_activities(invoices_with(invoices, row)),
{
    lemma_first_match(invoices, activity_of(row));
    let after = invoices_with(invoices, row);
    assert forall|i: int, j: int| #![trigger after[i], after[j]] 0 <= i < j
        < after.len() implies !same_activity(after[i], after[j]) by {
        if j < invoices.len() {
            assert(!same_activity(invoices[i], invoices[j]));
        } else {
            assert(!activity_of(row)(invoices[i]));
        }
    }
}

/// The upsert of billing rows leaves no activity stored twice where none
/// was.
pub proof fn lemma_invoices_stay_unique(state: (StoreState, Tally), rows: Seq<BillingRow>)
    requires
        unique_activities(state.0.invoices),
    ensures
        unique_activities(invoices_applied(state, rows).0.invoices),
    decreases rows.len(),
{
    if rows.len() > 0 {
        lemma_invoices_stay_unique(state, rows.drop_last());
        lemma_invoice_upsert_keeps_unique(
            invoices_applied(state, rows.drop_last()).0.invoices,
            rows.last(),
        );
    }
}

/// Rows that are the same activity are found at the same place.
pub proof fn lemma_same_activity_same_place(invoices: Seq<BillingRow>, a: BillingRow, b: BillingRow)
    requires
        same_activity(a, b),
    ensures
        first_match(invoices, activity_of(a)) == first_match(invoices, activity_of(b)),
{
    lemma_first_match_same_answers(invoices, activity_of(a), activity_of(b));
}

/// Rows that are the same activity hear the same last say.
pub proof fn lemma_same_activity_same_say(rows: Seq<BillingRow>, a: BillingRow, b: BillingRow)
    requires
        same_activity(a, b),
    ensures
        last_say(rows, a) == last_say(rows, b),
    decreases rows.len(),
{
    if rows.len() > 0 {
        lemma_same_activity_same_say(rows.drop_last(), a, b);
    }
}

/// Invoices that differ in eligibility alone are found at the same places.
pub proof fn lemma_same_activities_same_places(
    invoices: Seq<BillingRow>,
    other: Seq<BillingRow>,
    row: BillingRow,
)
    requires
        invoices.len() == other.len(),
        forall|j: int| 0 <= j < invoices.len() ==> same_activity(#[trigger] invoices[j], other[j]),
    ensures
        first_match(invoices, activity_of(row)) == first_match(other, activity_of(row)),
{
    assert forall|j: int| 0 <= j < invoices.len() implies activity_of(row)(
        #[trigger] invoices[j],
    ) == activity_of(row)(other[j]) by {
        assert(same_activity(invoices[j], other[j]));
    }
    lemma_first_match_alike(invoices, other, activity_of(row));
}

/// After its upsert a billing row is present.
pub proof fn lemma_invoice_settles(invoices: Seq<BillingRow>, row: BillingRow)
    ensures
        invoice_present(invoices_with(invoices, row), row),
{
    lemma_first_match(invoices, activity_of(row));
    lemma_invoice_upsert_keeps_activities(invoices, row);
    match first_match(invoices, activity_of(row)) {
        Some(i) => {
            lemma_same_activities_same_places(invoices_with(invoices, row), invoices, row);
        },
        None => {
            lemma_first_match_push(invoices, activity_of(row), row);
        },
    }
}

/// A present billing row stays present through the upsert of another row.
pub proof fn lemma_present_invoice_stays(
    invoices: Seq<BillingRow>,
    row: BillingRow,
    other: BillingRow,
)
    requires
        invoice_present(invoices, row),
    ensures
        invoice_present(invoices_with(invoices, other), row),
{
    lemma_first_match(invoices, activity_of(other));
    lemma_invoice_upsert_keeps_activities(invoices, other);
    match first_match(invoices, activity_of(other)) {
        Some(i) => {
            lemma_same_activities_same_places(invoices_with(invoices, other), invoices, row);
        },
        None => {
            lemma_first_match_push(invoices, activity_of(row), other);
        },
    }
}

/// After the upsert of a batch each of its billing rows is present.
pub proof fn lemma_invoices_settle(state: (StoreState, Tally), rows: Seq<BillingRow>)
    ensures
        all_present(invoices_applied(state, rows).0.invoices, rows),
    decreases rows.len(),
{
    if rows.len() > 0 {
        let head = rows.drop_last();
        let before = invoices_applied(state, head);
        lemma_invoices_settle(state, head);
        lemma_invoice_settles(before.0.invoices, rows.last());
        assert forall|k: int| 0 <= k < rows.len() implies invoice_present(
            invoices_applied(state, rows).0.invoices,
            #[trigger] rows[k],
        ) by {
            if k < head.len() {
                assert(head[k] == rows[k]);
                lemma_present_invoice_stays(before.0.invoices, rows[k], rows.last());
            }
        }
    }
}

/// Where rows have nothing left to say, the upsert of one more row leaves
/// nothing to say for them and the row together.
pub proof fn lemma_upsert_settles(invoices: Seq<BillingRow>, rows: Seq<BillingRow>)
    requires
        rows.len() > 0,
        settled_by(invoices, rows.drop_last()),
    ensures
        settled_by(invoices_with(invoices, rows.last()), rows),
{
    let head = rows.drop_last();
    let last = rows.last();
    let after = invoices_with(invoices, last);
    lemma_first_match(invoices, activity_of(last));
    lemma_invoice_upsert_keeps_activities(invoices, last);
    assert forall|j: int| 0 <= j < after.len() implies #[trigger] said(after, rows, j)
        == after[j].eligible by {
        if j < invoices.len() {
            assert(same_activity(after[j], invoices[j]));
            assert(said(invoices, head, j) == invoices[j].eligible);
            lemma_same_activity_same_place(after, after[j], invoices[j]);
            lemma_same_activity_same_say(head, after[j], invoices[j]);
            match first_match(invoices, activity_of(last)) {
                Some(i) => {
                    lemma_same_activities_same_places(after, invoices, invoices[j]);
                    if same_activity(last, after[j]) {
                        lemma_same_activity_same_place(invoices, invoices[j], last);
                    } else {
                        assert(j != i);
                    }
                },
                None => {
                    lemma_first_match(invoices, activity_of(invoices[j]));
                    lemma_first_match_push(invoices, activity_of(invoices[j]), last);
                    assert(!activity_of(last)(invoices[j]));
                },
            }
        }
    }
}

/// After the upsert of a batch its rows have nothing left to say, whatever
/// the invoices were.
pub proof fn lemma_invoices_are_settled(state: (StoreState, Tally), rows: Seq<BillingRow>)
    ensures
        settled_by(invoices_applied(state, rows).0.invoices, rows),
    decreases rows.len(),
{
    if rows.len() > 0 {
        lemma_invoices_are_settled(state, rows.drop_last());
        lemma_upsert_settles(invoices_applied(state, rows.drop_last()).0.invoices, rows);
    }
}

/// The upsert of rows that are all present updates each of them, inserts
/// none, and leaves the invoices as the rows' last say has them.
pub proof fn lemma_present_invoices_are_overwritten(
    store: StoreState,
    tally: Tally,
    rows: Seq<BillingRow>,
)
    requires
        all_present(store.invoices, rows),
    ensures
        invoices_applied((store, tally), rows).1 == with_updated_invoices(tally, rows.len()),
        invoices_applied((store, tally), rows).0.teachers == store.teachers,
        invoices_applied((store, tally), rows).0.schedules == store.schedules,
        invoices_applied((store, tally), rows).0.invoices == overwritten(store.invoices, rows),
    decreases rows.len(),
{
    let stored = store.invoices;
    if rows.len() == 0 {
        assert(overwritten(stored, rows) =~= stored);
    } else {
        let head = rows.drop_last();
        let last = rows.last();
        assert forall|k: int| 0 <= k < head.len() implies invoice_present(
            stored,
            #[trigger] head[k],
        ) by {
            assert(head[k] == rows[k]);
        }
        lemma_present_invoices_are_overwritten(store, tally, head);
        let before = overwritten(stored, head);
        assert(invoice_present(stored, rows[rows.len() - 1]));
        lemma_first_match(stored, activity_of(last));
        let i = first_match(stored, activity_of(last))->0;
        lemma_same_activities_same_places(before, stored, last);
        let after = invoices_with(before, last);
        lemma_same_activity_same_place(stored, stored[i], last);
        assert forall|j: int| 0 <= j < stored.len() implies #[trigger] after[j] == overwritten(
            stored,
            rows,
        )[j] by {
            if j != i {
                if same_activity(last, stored[j]) {
                    lemma_same_activity_same_place(stored, stored[j], last);
                }
            }
        }
        assert(after =~= overwritten(stored, rows));
    }
}

/// Where rows have nothing left to say, their say leaves the invoices as
/// they are.
pub proof fn lemma_settled_is_unchanged(invoices: Seq<BillingRow>, rows: Seq<BillingRow>)
    requires
        settled_by(invoices, rows),
    ensures
        overwritten(invoices, rows) == invoices,
{
    assert forall|j: int| 0 <= j < invoices.len() implies overwritten(invoices, rows)[j]
        == invoices[j] by {
        assert(said(invoices, rows, j) == invoices[j].eligible);
    }
    assert(overwritten(invoices, rows) =~= invoices);
}

/// Persisting one batch twice: the second run inserts no teacher, no
/// schedule and no invoice, skips every schedule entry and its teacher, and
/// updates every billing row.
pub proof fn lemma_second_run_inserts_nothing(
    store: StoreState,
    entries: Seq<ScheduleDraft>,
    rows: Seq<BillingRow>,
)
    ensures
        ({
            let first = persisted(store, entries, rows);
            let second = persisted(first.0, entries, rows);
            &&& second.1.inserted_teachers == 0
            &&& second.1.inserted_shifts == 0
            &&& second.1.inserted_invoices == 0
            &&& second.1.skipped_teachers == entries.len()
            &&& second.1.skipped_shifts == entries.len()
            &&& second.1.updated_invoices == rows.len()
            &&& second.1.skipped_invoices == 0
        }),
{
    lemma_second_run(store, entries, rows);
}

/// Persisting one batch twice: the second run leaves the whole store as the
/// first left it: the same teachers, the same schedules, and the same
/// invoices with the same eligibility.
pub proof fn lemma_second_run_changes_nothing(
    store: StoreState,
    entries: Seq<ScheduleDraft>,
    rows: Seq<BillingRow>,
)
    ensures
        persisted(persisted(store, entries, rows).0, entries, rows).0 == persisted(
            store,
            entries,
            rows,
        ).0,
{
    lemma_second_run(store, entries, rows);
}

/// Persisting a batch leaves no activity stored twice where none was.
pub proof fn lemma_persisting_keeps_activities_unique(
    store: StoreState,
    entries: Seq<ScheduleDraft>,
    rows: Seq<BillingRow>,
)
    requires
        unique_activities(store.invoices),
    ensures
        unique_activities(persisted(store, entries, rows).0.invoices),
{
    let billed = invoices_applied((store, zero_tally()), rows);
    lemma_invoices_stay_unique((store, zero_tally()), rows);
    lemma_entries_keep_invoices(billed, entries);
}

proof fn lemma_second_run(store: StoreState, entries: Seq<ScheduleDraft>, rows: Seq<BillingRow>)
    ensures
        ({
            let first = persisted(store, entries, rows);
            let second = persisted(first.0, entries, rows);
            &&& second.0 == first.0
            &&& second.1 == with_skipped_entries(
                with_updated_invoices(zero_tally(), rows.len()),
                entries.len(),
            )
        }),
{
    let billed = invoices_applied((store, zero_tally()), rows);
    let first = entries_applied(billed, entries);
    lemma_invoices_settle((store, zero_tally()), rows);
    lemma_invoices_are_settled((store, zero_tally()), rows);
    lemma_entries_keep_invoices(billed, entries);
    lemma_entries_settle(billed, entries);
    lemma_present_invoices_are_overwritten(first.0, zero_tally(), rows);
    lemma_settled_is_unchanged(first.0.invoices, rows);
    let rebilled = invoices_applied((first.0, zero_tally()), rows);
    assert(rebilled.0 == first.0);
    assert forall|k: int| 0 <= k < entries.len() implies entry_settled(
        rebilled.0,
        #[trigger] entries[k],
    ) by {}
    lemma_settled_entries_are_skipped(rebilled.0, rebilled.1, entries);
}

/// The upsert of schedule entries leaves the invoices alone.
pub proof fn lemma_entries_keep_invoices(state: (StoreState, Tally), entries: Seq<ScheduleDraft>)
    ensures
        entries_applied(state, entries).0.invoices == state.0.invoices,
    decreases entries.len(),
{
    if entries.len() > 0 {
        lemma_entries_keep_invoices(state, entries.drop_last());
    }
}

} // verus!
