//! Upserts of teachers, schedules and invoices, and their bookkeeping.
//!
//! The tables are modelled as sequences in insertion order, a row's id being
//! its position counted from one. A teacher is found by name, a schedule by
//! its whole key, an invoice by teacher, shift, start and end. Persisting a
//! batch upserts its invoices and then its schedule entries, and counts what
//! was inserted, updated and skipped.

use crate::billing::{billing, BillingRow, InvoicingRow};
use crate::calendar::{roster_instant, roster_instant_outcome, MalformedDate, Timestamp};
use crate::lookup::{
    first_match, lemma_first_match, lemma_first_match_is, lemma_first_match_none,
};
use crate::reconcile::{shifts, ChangeKind, DialogueConsolidatedRow, ReconciledShift};
use vstd::prelude::*;

verus! {

/// What an upsert did.
#[derive(Clone, Copy, Debug, PartialEq, Eq, Structural)]
pub enum UpsertOutcome {
    /// The row was not there and was written.
    Inserted,
    /// The row was there and was changed.
    Updated,
    /// Nothing was written.
    Skipped,
}

/// The table that an upsert went to.
#[derive(Clone, Copy, Debug, PartialEq, Eq, Structural)]
pub enum Table {
    Teachers,
    Shifts,
    Invoices,
}

/// The counters of one batch.
#[derive(Clone, Copy, Debug, PartialEq, Eq, Structural)]
pub struct PersistSummary {
    pub inserted_teachers: u64,
    pub skipped_teachers: u64,
    pub inserted_shifts: u64,
    pub skipped_shifts: u64,
    pub inserted_invoices: u64,
    pub updated_invoices: u64,
    pub skipped_invoices: u64,
}

/// The counters of one batch, as numbers without a bound.
pub struct Tally {
    pub inserted_teachers: nat,
    pub skipped_teachers: nat,
    pub inserted_shifts: nat,
    pub skipped_shifts: nat,
    pub inserted_invoices: nat,
    pub updated_invoices: nat,
    pub skipped_invoices: nat,
}

impl View for PersistSummary {
    type V = Tally;

    open spec fn view(&self) -> Tally {
        Tally {
            inserted_teachers: self.inserted_teachers as nat,
            skipped_teachers: self.skipped_teachers as nat,
            inserted_shifts: self.inserted_shifts as nat,
            skipped_shifts: self.skipped_shifts as nat,
            inserted_invoices: self.inserted_invoices as nat,
            updated_invoices: self.updated_invoices as nat,
            skipped_invoices: self.skipped_invoices as nat,
        }
    }
}

/// The tally of a batch that has done nothing yet.
pub open spec fn zero_tally() -> Tally {
    Tally {
        inserted_teachers: 0,
        skipped_teachers: 0,
        inserted_shifts: 0,
        skipped_shifts: 0,
        inserted_invoices: 0,
        updated_invoices: 0,
        skipped_invoices: 0,
    }
}

impl Tally {
    /// The number of upserts counted.
    pub open spec fn total(&self) -> nat {
        self.inserted_teachers + self.skipped_teachers + self.inserted_shifts + self.skipped_shifts
            + self.inserted_invoices + self.updated_invoices + self.skipped_invoices
    }
}

/// The tally with one more upsert counted. Teachers and schedules are never
/// updated, so an update of either is not counted.
pub open spec fn counted(t: Tally, table: Table, outcome: UpsertOutcome) -> Tally {
    match (table, outcome) {
        (Table::Teachers, UpsertOutcome::Inserted) => Tally {
            inserted_teachers: t.inserted_teachers + 1,
            ..t
        },
        (Table::Teachers, UpsertOutcome::Skipped) => Tally {
            skipped_teachers: t.skipped_teachers + 1,
            ..t
        },
        (Table::Shifts, UpsertOutcome::Inserted) => Tally {
            inserted_shifts: t.inserted_shifts + 1,
            ..t
        },
        (Table::Shifts, UpsertOutcome::Skipped) => Tally {
            skipped_shifts: t.skipped_shifts + 1,
            ..t
        },
        (Table::Invoices, UpsertOutcome::Inserted) => Tally {
            inserted_invoices: t.inserted_invoices + 1,
            ..t
        },
        (Table::Invoices, UpsertOutcome::Updated) => Tally {
            updated_invoices: t.updated_invoices + 1,
            ..t
        },
        (Table::Invoices, UpsertOutcome::Skipped) => Tally {
            skipped_invoices: t.skipped_invoices + 1,
            ..t
        },
        _ => t,
    }
}

impl PersistSummary {
    /// The summary of a batch that has done nothing yet.
    pub fn new() -> (r: PersistSummary)
        ensures
            r@ == zero_tally(),
    {
        PersistSummary {
            inserted_teachers: 0,
            skipped_teachers: 0,
            inserted_shifts: 0,
            skipped_shifts: 0,
            inserted_invoices: 0,
            updated_invoices: 0,
            skipped_invoices: 0,
        }
    }

    /// Whether one more upsert can be counted.
    pub fn can_count(&self) -> (r: bool)
        ensures
            r == (self@.total() < u64::MAX),
    {
        let total: u128 = self.inserted_teachers as u128 + self.skipped_teachers as u128
            + self.inserted_shifts as u128 + self.skipped_shifts as u128
            + self.inserted_invoices as u128 + self.updated_invoices as u128
            + self.skipped_invoices as u128;
        total < 0xffff_ffff_ffff_ffff
    }

    /// Counts one upsert.
    pub fn count(&mut self, table: Table, outcome: UpsertOutcome)
        requires
            old(self)@.total() < u64::MAX,
        ensures
            final(self)@ == counted(old(self)@, table, outcome),
            final(self)@.total() <= old(self)@.total() + 1,
    {
        match (table, outcome) {
            (Table::Teachers, UpsertOutcome::Inserted) => {
                self.inserted_teachers = self.inserted_teachers + 1;
            },
            (Table::Teachers, UpsertOutcome::Skipped) => {
                self.skipped_teachers = self.skipped_teachers + 1;
            },
            (Table::Shifts, UpsertOutcome::Inserted) => {
                self.inserted_shifts = self.inserted_shifts + 1;
            },
            (Table::Shifts, UpsertOutcome::Skipped) => {
                self.skipped_shifts = self.skipped_shifts + 1;
            },
            (Table::Invoices, UpsertOutcome::Inserted) => {
                self.inserted_invoices = self.inserted_invoices + 1;
            },
            (Table::Invoices, UpsertOutcome::Updated) => {
                self.updated_invoices = self.updated_invoices + 1;
            },
            (Table::Invoices, UpsertOutcome::Skipped) => {
                self.skipped_invoices = self.skipped_invoices + 1;
            },
            _ => {},
        }
    }
}

/// A reconciled shift ready to be stored: its start and end are timestamps.
#[derive(Debug)]
pub struct ScheduleEntry {
    pub teacher_name: String,
    pub start_date: Timestamp,
    pub end_date: Timestamp,
    pub shift: String,
    pub shift_type: ChangeKind,
    pub shift_group: String,
}

/// What a [`ScheduleEntry`] holds.
pub struct ScheduleDraft {
    pub teacher_name: Seq<char>,
    pub start_date: Timestamp,
    pub end_date: Timestamp,
    pub shift: Seq<char>,
    pub shift_type: ChangeKind,
    pub shift_group: Seq<char>,
}

impl View for ScheduleEntry {
    type V = ScheduleDraft;

    open spec fn view(&self) -> ScheduleDraft {
        ScheduleDraft {
            teacher_name: self.teacher_name@,
            start_date: self.start_date,
            end_date: self.end_date,
            shift: self.shift@,
            shift_type: self.shift_type,
            shift_group: self.shift_group@,
        }
    }
}

/// The drafts of a vector of entries.
pub open spec fn drafts(entries: Seq<ScheduleEntry>) -> Seq<ScheduleDraft> {
    entries.map_values(|e: ScheduleEntry| e@)
}

/// The draft that a reconciled shift stands for, where its start and end can
/// both be read.
pub open spec fn draft_of(shift: ReconciledShift) -> Result<ScheduleDraft, MalformedDate> {
    match (
        roster_instant_outcome(shift.row.start_date),
        roster_instant_outcome(shift.row.end_date),
    ) {
        (Ok(start), Ok(end)) => Ok(
            ScheduleDraft {
                teacher_name: shift.row.teacher_name,
                start_date: start,
                end_date: end,
                shift: shift.row.shift,
                shift_type: shift.kind,
                shift_group: shift.row.shift_group,
            },
        ),
        _ => Err(MalformedDate {  }),
    }
}

/// The drafts of the shifts whose dates can be read, in order.
pub open spec fn readable_drafts(s: Seq<ReconciledShift>) -> Seq<ScheduleDraft>
    decreases s.len(),
{
    if s.len() == 0 {
        Seq::empty()
    } else {
        match draft_of(s.last()) {
            Ok(draft) => readable_drafts(s.drop_last()).push(draft),
            Err(_) => readable_drafts(s.drop_last()),
        }
    }
}

/// The number of shifts with a date that cannot be read.
pub open spec fn unreadable_shifts(s: Seq<ReconciledShift>) -> nat
    decreases s.len(),
{
    if s.len() == 0 {
        0
    } else if draft_of(s.last()) is Err {
        unreadable_shifts(s.drop_last()) + 1
    } else {
        unreadable_shifts(s.drop_last())
    }
}

/// Reads the start and the end of a reconciled row.
pub fn schedule_entry(row: &DialogueConsolidatedRow) -> (r: Result<ScheduleEntry, MalformedDate>)
    ensures
        match r {
            Ok(entry) => draft_of(row@) == Ok::<ScheduleDraft, MalformedDate>(entry@),
            Err(_) => draft_of(row@) is Err,
        },
{
    let start = roster_instant(row.start_date.as_str());
    let end = roster_instant(row.end_date.as_str());
    match (start, end) {
        (Ok(start_date), Ok(end_date)) => Ok(
            ScheduleEntry {
                teacher_name: row.teacher_name.clone(),
                start_date,
                end_date,
                shift: row.shift.clone(),
                shift_type: row.shift_type,
                shift_group: row.shift_group.clone(),
            },
        ),
        _ => Err(MalformedDate {  }),
    }
}

/// The entries of a batch, and the number of rows left out because a date
/// could not be read.
pub struct ScheduleBatch {
    pub entries: Vec<ScheduleEntry>,
    pub malformed_date: usize,
}

/// Reads the dates of every reconciled row; rows with a date that cannot be
/// read are counted and left out.
pub fn schedule_entries(rows: &Vec<DialogueConsolidatedRow>) -> (batch: ScheduleBatch)
    ensures
        drafts(batch.entries@) == readable_drafts(shifts(rows@)),
        batch.malformed_date == unreadable_shifts(shifts(rows@)),
        batch.entries.len() <= rows.len(),
{
    let mut entries: Vec<ScheduleEntry> = Vec::new();
    let mut malformed_date: usize = 0;
    let ghost all = shifts(rows@);
    let mut i: usize = 0;
    assert(all.take(0) =~= Seq::<ReconciledShift>::empty());
    assert(drafts(entries@) =~= Seq::<ScheduleDraft>::empty());
    while i < rows.len()
        invariant
            i <= rows.len(),
            all == shifts(rows@),
            drafts(entries@) == readable_drafts(all.take(i as int)),
            malformed_date == unreadable_shifts(all.take(i as int)),
            malformed_date <= i,
            entries.len() <= i,
        decreases rows.len() - i,
    {
        assert(all.take(i as int + 1).drop_last() =~= all.take(i as int));
        assert(all.take(i as int + 1).last() == rows@[i as int]@);
        match schedule_entry(&rows[i]) {
            Ok(entry) => {
                let ghost previous = drafts(entries@);
                let ghost added = entry@;
                entries.push(entry);
                assert(drafts(entries@) =~= previous.push(added));
            },
            Err(_) => {
                malformed_date = malformed_date + 1;
            },
        }
        i = i + 1;
    }
    assert(all.take(rows.len() as int) =~= all);
    ScheduleBatch { entries, malformed_date }
}

/// A stored teacher.
#[derive(Debug)]
pub struct Teacher {
    pub id: i32,
    pub name: String,
}

/// A stored schedule row.
#[derive(Debug)]
pub struct ScheduleRecord {
    pub id: i32,
    pub teacher_id: i32,
    pub start_date: Timestamp,
    pub end_date: Timestamp,
    pub shift: String,
    pub shift_type: ChangeKind,
    pub shift_group: String,
}

/// A stored billing row.
#[derive(Debug)]
pub struct Invoice {
    pub id: i32,
    pub teacher_name: String,
    pub eligible: bool,
    pub activity_start: Timestamp,
    pub activity_end: Timestamp,
    pub shift: String,
}

/// What identifies a schedule row.
pub struct ScheduleKey {
    pub teacher_id: int,
    pub start_date: Timestamp,
    pub end_date: Timestamp,
    pub shift: Seq<char>,
    pub shift_type: ChangeKind,
    pub shift_group: Seq<char>,
}

/// The three tables: teachers by name, schedules by key, invoices as billing
/// rows, each in insertion order.
pub struct StoreState {
    pub teachers: Seq<Seq<char>>,
    pub schedules: Seq<ScheduleKey>,
    pub invoices: Seq<BillingRow>,
}

/// The three tables, held in memory.
pub struct Store {
    teachers: Vec<Teacher>,
    schedules: Vec<ScheduleRecord>,
    invoices: Vec<Invoice>,
}

/// The key of a stored schedule row.
pub open spec fn record_key(r: ScheduleRecord) -> ScheduleKey {
    ScheduleKey {
        teacher_id: r.teacher_id as int,
        start_date: r.start_date,
        end_date: r.end_date,
        shift: r.shift@,
        shift_type: r.shift_type,
        shift_group: r.shift_group@,
    }
}

/// The billing row of a stored invoice.
pub open spec fn invoice_row(i: Invoice) -> BillingRow {
    BillingRow {
        teacher_name: i.teacher_name@,
        eligible: i.eligible,
        activity_start: i.activity_start,
        activity_end: i.activity_end,
        shift: i.shift@,
    }
}

/// The key under which a draft is stored for a teacher.
pub open spec fn draft_key(d: ScheduleDraft, teacher_id: int) -> ScheduleKey {
    ScheduleKey {
        teacher_id,
        start_date: d.start_date,
        end_date: d.end_date,
        shift: d.shift,
        shift_type: d.shift_type,
        shift_group: d.shift_group,
    }
}

/// The condition of being the teacher `name`.
pub open spec fn named(name: Seq<char>) -> spec_fn(Seq<char>) -> bool {
    |t: Seq<char>| t == name
}

/// The condition of being the schedule `key`.
pub open spec fn keyed(key: ScheduleKey) -> spec_fn(ScheduleKey) -> bool {
    |k: ScheduleKey| k == key
}

/// Two billing rows are the same activity: teacher, shift, start and end
/// agree.
pub open spec fn same_activity(a: BillingRow, b: BillingRow) -> bool {
    &&& a.teacher_name == b.teacher_name
    &&& a.shift == b.shift
    &&& a.activity_start == b.activity_start
    &&& a.activity_end == b.activity_end
}

/// The condition of being the activity of `row`.
pub open spec fn activity_of(row: BillingRow) -> spec_fn(BillingRow) -> bool {
    |r: BillingRow| same_activity(r, row)
}

/// The id of the teacher `name` once upserted: that of the stored teacher,
/// or the next free one.
pub open spec fn teacher_id_for(teachers: Seq<Seq<char>>, name: Seq<char>) -> int {
    match first_match(teachers, named(name)) {
        Some(i) => i + 1,
        None => teachers.len() as int + 1,
    }
}

/// The teachers after the upsert of `name`.
pub open spec fn teachers_with(teachers: Seq<Seq<char>>, name: Seq<char>) -> Seq<Seq<char>> {
    if first_match(teachers, named(name)) is Some {
        teachers
    } else {
        teachers.push(name)
    }
}

/// The schedules after the upsert of `key`.
pub open spec fn schedules_with(schedules: Seq<ScheduleKey>, key: ScheduleKey) -> Seq<ScheduleKey> {
    if first_match(schedules, keyed(key)) is Some {
        schedules
    } else {
        schedules.push(key)
    }
}

/// The invoices after the upsert of `row`: the stored activity takes the
/// eligibility of `row`, or `row` is added.
pub open spec fn invoices_with(invoices: Seq<BillingRow>, row: BillingRow) -> Seq<BillingRow> {
    match first_match(invoices, activity_of(row)) {
        Some(i) => invoices.update(i, BillingRow { eligible: row.eligible, ..invoices[i] }),
        None => invoices.push(row),
    }
}

/// What a lookup makes of an upsert that never updates.
pub open spec fn found_outcome(found: bool) -> UpsertOutcome {
    if found {
        UpsertOutcome::Skipped
    } else {
        UpsertOutcome::Inserted
    }
}

/// The store and the tally after the upsert of one schedule entry: its
/// teacher first, then the schedule under the teacher's id.
pub open spec fn entry_applied(state: (StoreState, Tally), entry: ScheduleDraft) -> (
    StoreState,
    Tally,
) {
    let (store, tally) = state;
    let teacher_found = first_match(store.teachers, named(entry.teacher_name)) is Some;
    let key = draft_key(entry, teacher_id_for(store.teachers, entry.teacher_name));
    let schedule_found = first_match(store.schedules, keyed(key)) is Some;
    (
        StoreState {
            teachers: teachers_with(store.teachers, entry.teacher_name),
            schedules: schedules_with(store.schedules, key),
            invoices: store.invoices,
        },
        counted(
            counted(tally, Table::Teachers, found_outcome(teacher_found)),
            Table::Shifts,
            found_outcome(schedule_found),
        ),
    )
}

/// The store and the tally after the upsert of each entry in turn.
pub open spec fn entries_applied(state: (StoreState, Tally), entries: Seq<ScheduleDraft>) -> (
    StoreState,
    Tally,
)
    decreases entries.len(),
{
    if entries.len() == 0 {
        state
    } else {
        entry_applied(entries_applied(state, entries.drop_last()), entries.last())
    }
}

/// The store and the tally after the upsert of one billing row.
pub open spec fn invoice_applied(state: (StoreState, Tally), row: BillingRow) -> (StoreState, Tally) {
    let (store, tally) = state;
    let found = first_match(store.invoices, activity_of(row)) is Some;
    (
        StoreState {
            teachers: store.teachers,
            schedules: store.schedules,
            invoices: invoices_with(store.invoices, row),
        },
        counted(
            tally,
            Table::Invoices,
            if found {
                UpsertOutcome::Updated
            } else {
                UpsertOutcome::Inserted
            },
        ),
    )
}

/// The store and the tally after the upsert of each billing row in turn.
pub open spec fn invoices_applied(state: (StoreState, Tally), rows: Seq<BillingRow>) -> (
    StoreState,
    Tally,
)
    decreases rows.len(),
{
    if rows.len() == 0 {
        state
    } else {
        invoice_applied(invoices_applied(state, rows.drop_last()), rows.last())
    }
}

/// The store and the tally after a batch: the billing rows first, then the
/// schedule entries.
pub open spec fn persisted(store: StoreState, entries: Seq<ScheduleDraft>, rows: Seq<BillingRow>)
    -> (StoreState, Tally) {
    entries_applied(invoices_applied((store, zero_tally()), rows), entries)
}

impl View for Store {
    type V = StoreState;

    closed spec fn view(&self) -> StoreState {
        StoreState {
            teachers: self.teachers@.map_values(|t: Teacher| t.name@),
            schedules: self.schedules@.map_values(|r: ScheduleRecord| record_key(r)),
            invoices: self.invoices@.map_values(|i: Invoice| invoice_row(i)),
        }
    }
}

impl Store {
    /// Every row's id is its position counted from one, and every table is
    /// short enough for its ids to fit.
    pub closed spec fn well_formed(&self) -> bool {
        &&& self.teachers.len() <= i32::MAX
        &&& self.schedules.len() <= i32::MAX
        &&& self.invoices.len() <= i32::MAX
        &&& forall|i: int| 0 <= i < self.teachers.len() ==> (#[trigger] self.teachers[i]).id == i + 1
        &&& forall|i: int|
            0 <= i < self.schedules.len() ==> (#[trigger] self.schedules[i]).id == i + 1
        &&& forall|i: int| 0 <= i < self.invoices.len() ==> (#[trigger] self.invoices[i]).id == i + 1
    }

    /// A store with three empty tables.
    pub fn new() -> (r: Store)
        ensures
            r.well_formed(),
            r@.teachers.len() == 0,
            r@.schedules.len() == 0,
            r@.invoices.len() == 0,
    {
        Store { teachers: Vec::new(), schedules: Vec::new(), invoices: Vec::new() }
    }

    /// The stored teachers, in insertion order.
    pub fn teachers(&self) -> (r: &Vec<Teacher>)
        ensures
            r@.map_values(|t: Teacher| t.name@) == self@.teachers,
            r.len() == self@.teachers.len(),
    {
        &self.teachers
    }

    /// The stored schedule rows, in insertion order.
    pub fn schedules(&self) -> (r: &Vec<ScheduleRecord>)
        ensures
            r@.map_values(|r: ScheduleRecord| record_key(r)) == self@.schedules,
            r.len() == self@.schedules.len(),
    {
        &self.schedules
    }

    /// The stored invoices, in insertion order.
    pub fn invoices(&self) -> (r: &Vec<Invoice>)
        ensures
            r@.map_values(|i: Invoice| invoice_row(i)) == self@.invoices,
            r.len() == self@.invoices.len(),
    {
        &self.invoices
    }

    /// In a well-formed store every table is short enough for its ids.
    pub proof fn lemma_sizes(&self)
        requires
            self.well_formed(),
        ensures
            self@.teachers.len() <= i32::MAX,
            self@.schedules.len() <= i32::MAX,
            self@.invoices.len() <= i32::MAX,
    {
    }

    /// The position of the teacher `name`.
    fn find_teacher(&self, name: &String) -> (r: Option<usize>)
        ensures
            match r {
                Some(i) => first_match(self@.teachers, named(name@)) == Some(i as int) && i
                    < self.teachers.len(),
                None => first_match(self@.teachers, named(name@)) is None,
            },
    {
        let mut i: usize = 0;
        while i < self.teachers.len()
            invariant
                i <= self.teachers.len(),
                forall|j: int| 0 <= j < i ==> !named(name@)(#[trigger] self@.teachers[j]),
            decreases self.teachers.len() - i,
        {
            if self.teachers[i].name == *name {
                proof {
                    assert(named(name@)(self@.teachers[i as int]));
                    lemma_first_match_is(self@.teachers, named(name@), i as int);
                }
                return Some(i);
            }
            i = i + 1;
        }
        proof {
            lemma_first_match_none(self@.teachers, named(name@));
        }
        None
    }

    /// The position of the schedule of `entry` under `teacher_id`.
    fn find_schedule(&self, entry: &ScheduleEntry, teacher_id: i32) -> (r: Option<usize>)
        ensures
            match r {
                Some(i) => first_match(self@.schedules, keyed(draft_key(entry@, teacher_id as int)))
                    == Some(i as int),
                None => first_match(self@.schedules, keyed(draft_key(entry@, teacher_id as int)))
                    is None,
            },
    {
        let ghost key = draft_key(entry@, teacher_id as int);
        let mut i: usize = 0;
        while i < self.schedules.len()
            invariant
                i <= self.schedules.len(),
                key == draft_key(entry@, teacher_id as int),
                forall|j: int| 0 <= j < i ==> !keyed(key)(#[trigger] self@.schedules[j]),
            decreases self.schedules.len() - i,
        {
            let r = &self.schedules[i];
            if r.teacher_id == teacher_id && r.start_date == entry.start_date && r.end_date
                == entry.end_date && r.shift == entry.shift && r.shift_type == entry.shift_type
                && r.shift_group == entry.shift_group {
                proof {
                    assert(self@.schedules[i as int] == record_key(*r));
                    assert(record_key(*r) == key);
                    lemma_first_match_is(self@.schedules, keyed(key), i as int);
                }
                return Some(i);
            }
            assert(self@.schedules[i as int] == record_key(*r));
            assert(record_key(*r) != key);
            i = i + 1;
        }
        proof {
            lemma_first_match_none(self@.schedules, keyed(key));
        }
        None
    }

    /// The position of the invoice for the activity of `row`.
    fn find_invoice(&self, row: &InvoicingRow) -> (r: Option<usize>)
        ensures
            match r {
                Some(i) => first_match(self@.invoices, activity_of(row@)) == Some(i as int) && i
                    < self.invoices.len(),
                None => first_match(self@.invoices, activity_of(row@)) is None,
            },
    {
        let mut i: usize = 0;
        while i < self.invoices.len()
            invariant
                i <= self.invoices.len(),
                forall|j: int| 0 <= j < i ==> !activity_of(row@)(#[trigger] self@.invoices[j]),
            decreases self.invoices.len() - i,
        {
            let stored = &self.invoices[i];
            assert(self@.invoices[i as int] == invoice_row(*stored));
            if stored.teacher_name == row.teacher_name && stored.shift == row.shift
                && stored.activity_start == row.activity_start && stored.activity_end
                == row.activity_end {
                proof {
                    assert(activity_of(row@)(self@.invoices[i as int]));
                    lemma_first_match_is(self@.invoices, activity_of(row@), i as int);
                }
                return Some(i);
            }
            i = i + 1;
        }
        proof {
            lemma_first_match_none(self@.invoices, activity_of(row@));
        }
        None
    }

    /// Looks the teacher up by exact name and inserts it where it is absent;
    /// a stored teacher is never changed. Returns the teacher's id.
    pub fn upsert_teacher(&mut self, name: &String) -> (r: (i32, UpsertOutcome))
        requires
            old(self).well_formed(),
            old(self)@.teachers.len() < i32::MAX,
        ensures
            final(self).well_formed(),
            final(self)@.teachers == teachers_with(old(self)@.teachers, name@),
            final(self)@.schedules == old(self)@.schedules,
            final(self)@.invoices == old(self)@.invoices,
            r.0 == teacher_id_for(old(self)@.teachers, name@),
            r.1 == found_outcome(first_match(old(self)@.teachers, named(name@)) is Some),
    {
        match self.find_teacher(name) {
            Some(i) => (self.teachers[i].id, UpsertOutcome::Skipped),
            None => {
                let id: i32 = (self.teachers.len() + 1) as i32;
                self.teachers.push(Teacher { id, name: name.clone() });
                assert(self@.teachers =~= old(self)@.teachers.push(name@));
                (id, UpsertOutcome::Inserted)
            },
        }
    }

    /// Looks the schedule up by its whole key and inserts it where it is
    /// absent; a stored schedule is never changed.
    pub fn upsert_schedule(&mut self, entry: &ScheduleEntry, teacher_id: i32) -> (r: UpsertOutcome)
        requires
            old(self).well_formed(),
            old(self)@.schedules.len() < i32::MAX,
        ensures
            final(self).well_formed(),
            final(self)@.schedules == schedules_with(
                old(self)@.schedules,
                draft_key(entry@, teacher_id as int),
            ),
            final(self)@.teachers == old(self)@.teachers,
            final(self)@.invoices == old(self)@.invoices,
            r == found_outcome(
                first_match(old(self)@.schedules, keyed(draft_key(entry@, teacher_id as int)))
                    is Some,
            ),
    {
        match self.find_schedule(entry, teacher_id) {
            Some(_) => UpsertOutcome::Skipped,
            None => {
                let id: i32 = (self.schedules.len() + 1) as i32;
                let record = ScheduleRecord {
                    id,
                    teacher_id,
                    start_date: entry.start_date,
                    end_date: entry.end_date,
                    shift: entry.shift.clone(),
                    shift_type: entry.shift_type,
                    shift_group: entry.shift_group.clone(),
                };
                assert(record_key(record) == draft_key(entry@, teacher_id as int));
                self.schedules.push(record);
                assert(self@.schedules =~= old(self)@.schedules.push(
                    draft_key(entry@, teacher_id as int),
                ));
                UpsertOutcome::Inserted
            },
        }
    }

    /// Looks the invoice up by teacher, shift, start and end; where it is
    /// stored only its eligibility is set, where it is absent the row is
    /// inserted.
    pub fn upsert_invoice(&mut self, row: &InvoicingRow) -> (r: UpsertOutcome)
        requires
            old(self).well_formed(),
            old(self)@.invoices.len() < i32::MAX,
        ensures
            final(self).well_formed(),
            final(self)@.invoices == invoices_with(old(self)@.invoices, row@),
            final(self)@.teachers == old(self)@.teachers,
            final(self)@.schedules == old(self)@.schedules,
            r == (if first_match(old(self)@.invoices, activity_of(row@)) is Some {
                UpsertOutcome::Updated
            } else {
                UpsertOutcome::Inserted
            }),
    {
        match self.find_invoice(row) {
            Some(i) => {
                let ghost stored = invoice_row(self.invoices[i as int]);
                let old_invoice = self.invoices.remove(i);
                let updated = Invoice {
                    id: old_invoice.id,
                    teacher_name: old_invoice.teacher_name,
                    eligible: row.eligible,
                    activity_start: old_invoice.activity_start,
                    activity_end: old_invoice.activity_end,
                    shift: old_invoice.shift,
                };
                assert(invoice_row(updated) == BillingRow { eligible: row.eligible, ..stored });
                self.invoices.insert(i, updated);
                assert(self.invoices@ =~= old(self).invoices@.update(i as int, updated));
                assert(self@.invoices =~= old(self)@.invoices.update(
                    i as int,
                    BillingRow { eligible: row.eligible, ..stored },
                ));
                UpsertOutcome::Updated
            },
            None => {
                let id: i32 = (self.invoices.len() + 1) as i32;
                let invoice = Invoice {
                    id,
                    teacher_name: row.teacher_name.clone(),
                    eligible: row.eligible,
                    activity_start: row.activity_start,
                    activity_end: row.activity_end,
                    shift: row.shift.clone(),
                };
                assert(invoice_row(invoice) == row@);
                self.invoices.push(invoice);
                assert(self@.invoices =~= old(self)@.invoices.push(row@));
                UpsertOutcome::Inserted
            },
        }
    }
}

/// Persists a batch: every billing row is upserted, then every schedule
/// entry, its teacher first and the schedule under the teacher's id.
pub fn persist(store: &mut Store, entries: &Vec<ScheduleEntry>, rows: &Vec<InvoicingRow>) -> (summary:
    PersistSummary)
    requires
        old(store).well_formed(),
        old(store)@.teachers.len() + entries.len() <= i32::MAX,
        old(store)@.schedules.len() + entries.len() <= i32::MAX,
        old(store)@.invoices.len() + rows.len() <= i32::MAX,
    ensures
        final(store).well_formed(),
        (final(store)@, summary@) == persisted(old(store)@, drafts(entries@), billing(rows@)),
{
    let mut summary = PersistSummary::new();
    let ghost start = (store@, summary@);
    let ghost all_rows = billing(rows@);
    let mut i: usize = 0;
    assert(all_rows.take(0) =~= Seq::<BillingRow>::empty());
    while i < rows.len()
        invariant
            i <= rows.len(),
            store.well_formed(),
            all_rows == billing(rows@),
            (store@, summary@) == invoices_applied(start, all_rows.take(i as int)),
            store@.invoices.len() <= start.0.invoices.len() + i,
            start.0.invoices.len() + rows.len() <= i32::MAX,
            store@.teachers == start.0.teachers,
            store@.schedules == start.0.schedules,
            summary@.total() <= i,
        decreases rows.len() - i,
    {
        assert(all_rows.take(i as int + 1).drop_last() =~= all_rows.take(i as int));
        assert(all_rows.take(i as int + 1).last() == rows@[i as int]@);
        proof {
            lemma_first_match(store@.invoices, activity_of(rows@[i as int]@));
        }
        let outcome = store.upsert_invoice(&rows[i]);
        summary.count(Table::Invoices, outcome);
        i = i + 1;
    }
    assert(all_rows.take(rows.len() as int) =~= all_rows);
    let ghost middle = (store@, summary@);
    let ghost all_entries = drafts(entries@);
    let mut k: usize = 0;
    assert(all_entries.take(0) =~= Seq::<ScheduleDraft>::empty());
    while k < entries.len()
        invariant
            k <= entries.len(),
            i == rows.len(),
            i <= i32::MAX,
            entries.len() <= i32::MAX,
            store.well_formed(),
            all_entries == drafts(entries@),
            (store@, summary@) == entries_applied(middle, all_entries.take(k as int)),
            store@.teachers.len() <= middle.0.teachers.len() + k,
            store@.schedules.len() <= middle.0.schedules.len() + k,
            middle.0.teachers.len() + entries.len() <= i32::MAX,
            middle.0.schedules.len() + entries.len() <= i32::MAX,
            summary@.total() <= i + 2 * k,
        decreases entries.len() - k,
    {
        assert(all_entries.take(k as int + 1).drop_last() =~= all_entries.take(k as int));
        assert(all_entries.take(k as int + 1).last() == entries@[k as int]@);
        let entry = &entries[k];
        let (teacher_id, teacher_outcome) = store.upsert_teacher(&entry.teacher_name);
        summary.count(Table::Teachers, teacher_outcome);
        let schedule_outcome = store.upsert_schedule(entry, teacher_id);
        summary.count(Table::Shifts, schedule_outcome);
        k = k + 1;
    }
    assert(all_entries.take(entries.len() as int) =~= all_entries);
    summary
}

} // verus!
