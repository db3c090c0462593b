//! Roster rows and the mapping of a sheet of cells onto them.
//!
//! A sheet is a grid of cell texts. Its first rows are a title block and its
//! last rows a summary block; between them every row binds fixed columns to
//! the fields of a roster row, a blank cell standing for the value above it.

use crate::calendar::{roster_day, roster_day_outcome, Timestamp};
use crate::text::texts;
use vstd::prelude::*;

verus! {

/// One shift assignment as it stands in a roster snapshot.
#[derive(Debug)]
pub struct DialogueRow {
    pub shift_group: String,
    pub shift: String,
    pub teacher_name: String,
    pub start_date: String,
    pub end_date: String,
}

/// What a [`DialogueRow`] holds, as texts.
pub struct RosterRow {
    pub shift_group: Seq<char>,
    pub shift: Seq<char>,
    pub teacher_name: Seq<char>,
    pub start_date: Seq<char>,
    pub end_date: Seq<char>,
}

impl View for DialogueRow {
    type V = RosterRow;

    open spec fn view(&self) -> RosterRow {
        RosterRow {
            shift_group: self.shift_group@,
            shift: self.shift@,
            teacher_name: self.teacher_name@,
            start_date: self.start_date@,
            end_date: self.end_date@,
        }
    }
}

impl Clone for DialogueRow {
    fn clone(&self) -> (r: Self)
        ensures
            r@ == self@,
    {
        DialogueRow {
            shift_group: self.shift_group.clone(),
            shift: self.shift.clone(),
            teacher_name: self.teacher_name.clone(),
            start_date: self.start_date.clone(),
            end_date: self.end_date.clone(),
        }
    }
}

/// The rows of a vector, as texts.
pub open spec fn roster(rows: Seq<DialogueRow>) -> Seq<RosterRow> {
    rows.map_values(|r: DialogueRow| r@)
}

/// The cell texts of a grid.
pub open spec fn cells(grid: Seq<Vec<String>>) -> Seq<Seq<Seq<char>>> {
    grid.map_values(|row: Vec<String>| texts(row@))
}

/// How many rows of a sheet are title block and how many summary block.
#[derive(Clone, Copy, Debug, PartialEq, Eq, Structural)]
pub struct TemplateLayout {
    pub header_rows: usize,
    pub footer_rows: usize,
}

/// Column of the shift group.
pub const SHIFT_GROUP_COLUMN: usize = 0;

/// Column of the teacher's name.
pub const TEACHER_COLUMN: usize = 1;

/// Column of the start of the shift.
pub const START_COLUMN: usize = 4;

/// Column of the end of the shift.
pub const END_COLUMN: usize = 5;

/// Column of the shift's label.
pub const SHIFT_COLUMN: usize = 6;

/// Number of cells a row needs for every bound column to exist.
pub const ROSTER_WIDTH: usize = 7;

impl TemplateLayout {
    /// The layout of the roster export: ten title rows, three summary rows.
    pub fn roster_export() -> (r: TemplateLayout)
        ensures
            r.header_rows == 10,
            r.footer_rows == 3,
    {
        TemplateLayout { header_rows: 10, footer_rows: 3 }
    }
}

/// The rows of a sheet between its title block and its summary block; none
/// where the sheet is shorter than the two blocks together.
pub open spec fn sheet_body<A>(grid: Seq<A>, layout: TemplateLayout) -> Seq<A> {
    if layout.header_rows + layout.footer_rows <= grid.len() {
        grid.subrange(layout.header_rows as int, grid.len() - layout.footer_rows)
    } else {
        Seq::empty()
    }
}

/// A cell's value where it has one, the value above it where it is blank.
pub open spec fn inherit(above: Seq<char>, cell: Seq<char>) -> Seq<char> {
    if cell.len() > 0 {
        cell
    } else {
        above
    }
}

/// The row with every field blank: what stands above the first row.
pub open spec fn blank_row() -> RosterRow {
    RosterRow {
        shift_group: Seq::empty(),
        shift: Seq::empty(),
        teacher_name: Seq::empty(),
        start_date: Seq::empty(),
        end_date: Seq::empty(),
    }
}

/// The row that `line` stands for below `above`.
pub open spec fn carried(above: RosterRow, line: Seq<Seq<char>>) -> RosterRow {
    RosterRow {
        shift_group: inherit(above.shift_group, line[SHIFT_GROUP_COLUMN as int]),
        shift: inherit(above.shift, line[SHIFT_COLUMN as int]),
        teacher_name: inherit(above.teacher_name, line[TEACHER_COLUMN as int]),
        start_date: inherit(above.start_date, line[START_COLUMN as int]),
        end_date: inherit(above.end_date, line[END_COLUMN as int]),
    }
}

/// A line has a cell for every bound column.
pub open spec fn wide_enough(line: Seq<Seq<char>>) -> bool {
    line.len() >= ROSTER_WIDTH
}

/// The last row mapped from `lines`; lines that are too short leave it as it
/// was.
pub open spec fn last_seen(lines: Seq<Seq<Seq<char>>>) -> RosterRow
    decreases lines.len(),
{
    if lines.len() == 0 {
        blank_row()
    } else if wide_enough(lines.last()) {
        carried(last_seen(lines.drop_last()), lines.last())
    } else {
        last_seen(lines.drop_last())
    }
}

/// The rows mapped from `lines`, one for each line that is wide enough.
pub open spec fn mapped_rows(lines: Seq<Seq<Seq<char>>>) -> Seq<RosterRow>
    decreases lines.len(),
{
    if lines.len() == 0 {
        Seq::empty()
    } else if wide_enough(lines.last()) {
        mapped_rows(lines.drop_last()).push(last_seen(lines))
    } else {
        mapped_rows(lines.drop_last())
    }
}

/// The number of lines that are too short to be mapped.
pub open spec fn short_lines(lines: Seq<Seq<Seq<char>>>) -> nat
    decreases lines.len(),
{
    if lines.len() == 0 {
        0
    } else if wide_enough(lines.last()) {
        short_lines(lines.drop_last())
    } else {
        short_lines(lines.drop_last()) + 1
    }
}

/// The rows mapped from one sheet, and the number of lines left out because
/// a bound column was missing.
pub struct RosterSheet {
    pub rows: Vec<DialogueRow>,
    pub missing_column: usize,
}

/// The value of a cell, or the value above it where the cell is blank.
fn inherit_cell(above: String, cell: &String) -> (r: String)
    ensures
        r@ == inherit(above@, cell@),
{
    if cell.as_str().is_empty() {
        above
    } else {
        cell.clone()
    }
}

/// Maps the body of a sheet onto roster rows.
///
/// The first `layout.header_rows` and the last `layout.footer_rows` lines are
/// left out. Of the others, each line with at least seven cells gives one
/// row, in order, a blank cell taking the value of the last line above it
/// that had one; each shorter line is counted and otherwise ignored.
pub fn map_roster_sheet(grid: &Vec<Vec<String>>, layout: TemplateLayout) -> (sheet: RosterSheet)
    ensures
        roster(sheet.rows@) == mapped_rows(sheet_body(cells(grid@), layout)),
        sheet.missing_column == short_lines(sheet_body(cells(grid@), layout)),
{
    let mut rows: Vec<DialogueRow> = Vec::new();
    let mut missing_column: usize = 0;
    let total: usize = grid.len();
    if layout.header_rows > total || layout.footer_rows > total - layout.header_rows {
        assert(roster(rows@) =~= Seq::<RosterRow>::empty());
        return RosterSheet { rows, missing_column };
    }
    let end: usize = total - layout.footer_rows;
    let ghost lines = sheet_body(cells(grid@), layout);
    let mut state = DialogueRow {
        shift_group: String::new(),
        shift: String::new(),
        teacher_name: String::new(),
        start_date: String::new(),
        end_date: String::new(),
    };
    let mut i: usize = layout.header_rows;
    assert(lines.take(0) =~= Seq::<Seq<Seq<char>>>::empty());
    assert(roster(rows@) =~= Seq::<RosterRow>::empty());
    while i < end
        invariant
            layout.header_rows <= i <= end,
            end == grid.len() - layout.footer_rows,
            end <= grid.len(),
            lines == sheet_body(cells(grid@), layout),
            lines.len() == end - layout.header_rows,
            state@ == last_seen(lines.take(i - layout.header_rows)),
            roster(rows@) == mapped_rows(lines.take(i - layout.header_rows)),
            missing_column == short_lines(lines.take(i - layout.header_rows)),
            missing_column <= i - layout.header_rows,
        decreases end - i,
    {
        let line = &grid[i];
        let ghost k = i - layout.header_rows;
        let ghost seen = lines.take(k);
        let ghost next = lines.take(k + 1);
        assert(next.drop_last() =~= seen);
        assert(next.last() == lines[k]);
        assert(lines[k] == texts(line@));
        if line.len() >= ROSTER_WIDTH {
            state =
            DialogueRow {
                shift_group: inherit_cell(state.shift_group, &line[SHIFT_GROUP_COLUMN]),
                shift: inherit_cell(state.shift, &line[SHIFT_COLUMN]),
                teacher_name: inherit_cell(state.teacher_name, &line[TEACHER_COLUMN]),
                start_date: inherit_cell(state.start_date, &line[START_COLUMN]),
                end_date: inherit_cell(state.end_date, &line[END_COLUMN]),
            };
            let ghost before = roster(rows@);
            rows.push(state.clone());
            assert(roster(rows@) =~= before.push(state@));
        } else {
            missing_column = missing_column + 1;
        }
        i = i + 1;
    }
    assert(lines.take(lines.len() as int) =~= lines);
    RosterSheet { rows, missing_column }
}

/// A row is kept for `day`: both its dates can be read, and it starts or ends
/// on that day.
pub open spec fn touches_day(row: RosterRow, day: Timestamp) -> bool {
    match (roster_day_outcome(row.start_date), roster_day_outcome(row.end_date)) {
        (Ok(start), Ok(end)) => start.same_day(&day) || end.same_day(&day),
        _ => false,
    }
}

/// The rows of `rows` that are kept for `day`, in order.
pub open spec fn rows_touching(rows: Seq<RosterRow>, day: Timestamp) -> Seq<RosterRow>
    decreases rows.len(),
{
    if rows.len() == 0 {
        Seq::empty()
    } else if touches_day(rows.last(), day) {
        rows_touching(rows.drop_last(), day).push(rows.last())
    } else {
        rows_touching(rows.drop_last(), day)
    }
}

/// Whether a row starts or ends on `day`; a row with a date that cannot be
/// read does neither.
pub fn row_touches_day(row: &DialogueRow, day: &Timestamp) -> (r: bool)
    ensures
        r == touches_day(row@, *day),
{
    match roster_day(row.start_date.as_str()) {
        Ok(start) => match roster_day(row.end_date.as_str()) {
            Ok(end) => start.same_calendar_day(day) || end.same_calendar_day(day),
            Err(_) => false,
        },
        Err(_) => false,
    }
}

/// Keeps the rows of a snapshot that start or end on the reporting day.
pub fn snapshot_for_day(rows: &Vec<DialogueRow>, day: &Timestamp) -> (kept: Vec<DialogueRow>)
    ensures
        roster(kept@) == rows_touching(roster(rows@), *day),
{
    let mut kept: Vec<DialogueRow> = Vec::new();
    let mut i: usize = 0;
    let ghost all = roster(rows@);
    assert(all.take(0) =~= Seq::<RosterRow>::empty());
    assert(roster(kept@) =~= Seq::<RosterRow>::empty());
    while i < rows.len()
        invariant
            i <= rows.len(),
            all == roster(rows@),
            roster(kept@) == rows_touching(all.take(i as int), *day),
        decreases rows.len() - i,
    {
        assert(all.take(i as int + 1).drop_last() =~= all.take(i as int));
        assert(all.take(i as int + 1).last() == rows@[i as int]@);
        if row_touches_day(&rows[i], day) {
            let ghost before = roster(kept@);
            kept.push(rows[i].clone());
            assert(roster(kept@) =~= before.push(rows@[i as int]@));
        }
        i = i + 1;
    }
    assert(all.take(rows.len() as int) =~= all);
    kept
}

/// The field of a row that is bound to `column`.
pub open spec fn field_at(row: RosterRow, column: int) -> Seq<char> {
    if column == SHIFT_GROUP_COLUMN {
        row.shift_group
    } else if column == TEACHER_COLUMN {
        row.teacher_name
    } else if column == START_COLUMN {
        row.start_date
    } else if column == END_COLUMN {
        row.end_date
    } else {
        row.shift
    }
}

/// `column` is bound to a field.
pub open spec fn is_bound(column: int) -> bool {
    column == SHIFT_GROUP_COLUMN || column == TEACHER_COLUMN || column == START_COLUMN || column
        == END_COLUMN || column == SHIFT_COLUMN
}

/// Every line has a cell for every bound column.
pub open spec fn all_wide(lines: Seq<Seq<Seq<char>>>) -> bool {
    forall|k: int| 0 <= k < lines.len() ==> wide_enough(#[trigger] lines[k])
}

/// Where every line is wide enough, every line gives a row, and the row of a
/// line is what was last seen at that line.
pub proof fn lemma_rows_follow_lines(lines: Seq<Seq<Seq<char>>>)
    requires
        all_wide(lines),
    ensures
        mapped_rows(lines).len() == lines.len(),
        short_lines(lines) == 0,
        forall|k: int|
            0 <= k < lines.len() ==> #[trigger] mapped_rows(lines)[k] == last_seen(
                lines.take(k + 1),
            ),
    decreases lines.len(),
{
    if lines.len() > 0 {
        let head = lines.drop_last();
        assert forall|k: int| 0 <= k < head.len() implies wide_enough(#[trigger] head[k]) by {
            assert(head[k] == lines[k]);
        }
        lemma_rows_follow_lines(head);
        assert(wide_enough(lines[lines.len() - 1]));
        assert forall|k: int| 0 <= k < lines.len() implies #[trigger] mapped_rows(lines)[k]
            == last_seen(lines.take(k + 1)) by {
            if k < head.len() {
                assert(mapped_rows(lines)[k] == mapped_rows(head)[k]);
                assert(head.take(k + 1) =~= lines.take(k + 1));
            } else {
                assert(lines.take(k + 1) =~= lines);
            }
        }
    }
}

/// Carry-forward: in a sheet whose lines are all wide enough, the row of line
/// `j` has in a bound column the value of line `i`, where line `i` has a
/// value there and every line after it up to `j` is blank there.
pub proof fn lemma_blank_cells_inherit(
    lines: Seq<Seq<Seq<char>>>,
    column: int,
    i: int,
    j: int,
)
    requires
        all_wide(lines),
        is_bound(column),
        0 <= i <= j < lines.len(),
        lines[i][column].len() > 0,
        forall|k: int| i < k <= j ==> (#[trigger] lines[k])[column].len() == 0,
    ensures
        mapped_rows(lines).len() == lines.len(),
        field_at(mapped_rows(lines)[j], column) == lines[i][column],
    decreases j - i,
{
    lemma_rows_follow_lines(lines);
    let upto = lines.take(j + 1);
    assert(upto.last() == lines[j]);
    assert(wide_enough(lines[j]));
    assert(mapped_rows(lines)[j] == last_seen(upto));
    if i < j {
        lemma_blank_cells_inherit(lines, column, i, j - 1);
        assert(upto.drop_last() =~= lines.take(j));
        assert(mapped_rows(lines)[j - 1] == last_seen(lines.take(j)));
        assert(lines[j][column].len() == 0);
    }
}

} // verus!
