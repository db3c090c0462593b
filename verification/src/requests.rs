//! What a caller asks for: the configuration, the reporting day of an upload
//! with the places where its files are staged, and the range of a schedule
//! listing.

use crate::calendar::{parse, parse_outcome, reporting_day, reporting_day_outcome};
use crate::calendar::{CalendarDate, DateFormat, MalformedDate, Timestamp};
use crate::schedule::{
    day_end, day_start, listing_order, schedule_views, schedules_well_formed, select_schedules,
    selected, sort_for_listing, Schedule, ScheduleView,
};
use crate::sorting::{ordered, sorted};
use crate::text::{distinct, distinct_texts, texts};
use vstd::prelude::*;
use vstd::string::StringExecFns;

verus! {

/// The configuration of the service.
#[derive(Clone, Debug)]
pub struct Config {
    pub database_url: String,
}

/// Why there is no configuration.
#[derive(Clone, Copy, Debug, PartialEq, Eq, Structural)]
pub enum ConfigError {
    /// The environment file could not be loaded.
    EnvironmentNotLoaded,
    /// The environment names no database.
    DatabaseUrlMissing,
}

impl Config {
    /// The configuration that the environment gives: the environment file
    /// must have been loaded, and the database must be named.
    pub fn init(environment_loaded: bool, database_url: Option<String>) -> (r: Result<
        Config,
        ConfigError,
    >)
        ensures
            match r {
                Ok(config) => environment_loaded && database_url == Some(config.database_url),
                Err(ConfigError::EnvironmentNotLoaded) => !environment_loaded,
                Err(ConfigError::DatabaseUrlMissing) => environment_loaded && database_url is None,
            },
    {
        if !environment_loaded {
            return Err(ConfigError::EnvironmentNotLoaded);
        }
        match database_url {
            Some(url) => Ok(Config { database_url: url }),
            None => Err(ConfigError::DatabaseUrlMissing),
        }
    }
}

/// The upload of one reporting day's files.
#[derive(Debug)]
pub struct UploadAndProcessQuery {
    pub date: String,
}

/// The directory under which every upload is staged.
pub open spec fn staging_root() -> Seq<char> {
    "temp/"@
}

/// The staged name of the earlier roster snapshot.
pub open spec fn first_roster_name() -> Seq<char> {
    "dialogue-1.xlsx"@
}

/// The staged name of the later roster snapshot.
pub open spec fn second_roster_name() -> Seq<char> {
    "dialogue-2.xlsx"@
}

/// The staged name of the billing export.
pub open spec fn billing_export_name() -> Seq<char> {
    "invoicing-report.csv"@
}

/// The three files of an upload.
#[derive(Clone, Copy, Debug, PartialEq, Eq, Structural)]
pub enum StagedFile {
    FirstRoster,
    SecondRoster,
    BillingExport,
}

impl StagedFile {
    /// The name under which the file is staged.
    pub open spec fn name_text(&self) -> Seq<char> {
        match self {
            StagedFile::FirstRoster => first_roster_name(),
            StagedFile::SecondRoster => second_roster_name(),
            StagedFile::BillingExport => billing_export_name(),
        }
    }

    /// The name under which the file is staged.
    pub fn name(&self) -> (r: &'static str)
        ensures
            r@ == self.name_text(),
    {
        match self {
            StagedFile::FirstRoster => "dialogue-1.xlsx",
            StagedFile::SecondRoster => "dialogue-2.xlsx",
            StagedFile::BillingExport => "invoicing-report.csv",
        }
    }
}

impl UploadAndProcessQuery {
    /// The reporting day, at midnight.
    pub fn reporting_day(&self) -> (r: Result<Timestamp, MalformedDate>)
        ensures
            r == reporting_day_outcome(self.date@),
            r is Ok ==> r->Ok_0.well_formed(),
    {
        reporting_day(self.date.as_str())
    }

    /// The directory in which the files of this day are staged.
    pub fn staging_directory(&self) -> (r: String)
        ensures
            r@ == staging_root() + self.date@,
    {
        let mut path = "temp/".to_owned();
        path.append(self.date.as_str());
        path
    }

    /// The place where the file `name` of this day is staged.
    pub fn staged_path(&self, name: &str) -> (r: String)
        ensures
            r@ == staging_root() + self.date@ + seq!['/'] + name@,
    {
        let mut path = self.staging_directory();
        path.append("/");
        path.append(name);
        proof {
            reveal_strlit("/");
            assert("/"@ =~= seq!['/']);
        }
        path
    }

    /// The place where one of the three files of this day is staged.
    pub fn staged_file(&self, file: StagedFile) -> (r: String)
        ensures
            r@ == staging_root() + self.date@ + seq!['/'] + file.name_text(),
    {
        self.staged_path(file.name())
    }
}

/// The range of a schedule listing, as the caller wrote it.
#[derive(Debug)]
pub struct GetSchedulesParams {
    pub start_date: String,
    pub end_date: String,
    pub shift_group: String,
}

/// Which bound of a schedule listing cannot be read.
#[derive(Clone, Copy, Debug, PartialEq, Eq, Structural)]
pub enum RangeError {
    StartDate,
    EndDate,
}

impl RangeError {
    /// The message for the caller.
    pub open spec fn message_text(&self) -> Seq<char> {
        match self {
            RangeError::StartDate => "Error parsing start_date"@,
            RangeError::EndDate => "Error parsing end_date"@,
        }
    }

    /// The message for the caller.
    pub fn message(&self) -> (r: &'static str)
        ensures
            r@ == self.message_text(),
    {
        match self {
            RangeError::StartDate => "Error parsing start_date",
            RangeError::EndDate => "Error parsing end_date",
        }
    }
}

/// The two bounds of a schedule listing, where both can be read; else the
/// first that cannot.
pub open spec fn range_outcome(start: Seq<char>, end: Seq<char>) -> Result<
    (Timestamp, Timestamp),
    RangeError,
> {
    match parse_outcome(start, DateFormat::IsoSeconds24) {
        Ok(from) => match parse_outcome(end, DateFormat::IsoSeconds24) {
            Ok(to) => Ok((from, to)),
            Err(_) => Err(RangeError::EndDate),
        },
        Err(_) => Err(RangeError::StartDate),
    }
}

impl GetSchedulesParams {
    /// Reads the two bounds, each as `YYYY-MM-DD HH:MM:SS`. The start is
    /// read first, and the end only where the start can be read.
    pub fn range(&self) -> (r: Result<(Timestamp, Timestamp), RangeError>)
        ensures
            r == range_outcome(self.start_date@, self.end_date@),
            r is Ok ==> r->Ok_0.0.well_formed() && r->Ok_0.1.well_formed(),
    {
        match parse(self.start_date.as_str(), DateFormat::IsoSeconds24) {
            Ok(from) => match parse(self.end_date.as_str(), DateFormat::IsoSeconds24) {
                Ok(to) => Ok((from, to)),
                Err(_) => Err(RangeError::EndDate),
            },
            Err(_) => Err(RangeError::StartDate),
        }
    }
}

/// The window of an efficiency report: the schedules of a shift group from
/// the first second of one day to the last second of another.
#[derive(Debug)]
pub struct EfficiencyReportParams {
    pub start_date: CalendarDate,
    pub end_date: CalendarDate,
    pub shift_group: String,
}

/// The window of a consolidated report.
#[derive(Debug)]
pub struct ConsolidatedReportParams {
    pub start_date: CalendarDate,
    pub end_date: CalendarDate,
    pub shift_group: String,
}

/// The first second of `first` and the last second of `last`.
pub fn day_window(first: CalendarDate, last: CalendarDate) -> (r: (Timestamp, Timestamp))
    ensures
        r.0 == day_start(first),
        r.1 == day_end(last),
        first.well_formed() && last.well_formed() ==> r.0.well_formed() && r.1.well_formed(),
{
    (
        Timestamp { date: first, hour: 0, minute: 0, second: 0 },
        Timestamp { date: last, hour: 23, minute: 59, second: 59 },
    )
}

impl EfficiencyReportParams {
    /// The first and the last second of the window.
    pub fn window(&self) -> (r: (Timestamp, Timestamp))
        ensures
            r.0 == day_start(self.start_date),
            r.1 == day_end(self.end_date),
    {
        day_window(self.start_date, self.end_date)
    }
}

impl ConsolidatedReportParams {
    /// The first and the last second of the window.
    pub fn window(&self) -> (r: (Timestamp, Timestamp))
        ensures
            r.0 == day_start(self.start_date),
            r.1 == day_end(self.end_date),
    {
        day_window(self.start_date, self.end_date)
    }
}

/// The schedules of a listing: those of the group among `stored` that start
/// within the bounds, by teacher and then by start; or the bound that cannot
/// be read.
pub open spec fn listing(
    start: Seq<char>,
    end: Seq<char>,
    group: Seq<char>,
    stored: Seq<ScheduleView>,
) -> Result<Seq<ScheduleView>, RangeError> {
    match range_outcome(start, end) {
        Ok((from, to)) => Ok(sorted(selected(stored, from, to, group, true), listing_order())),
        Err(error) => Err(error),
    }
}

/// Lists the schedules of a shift group that start within the bounds of
/// `params`, both bounds included, by teacher and then by start.
pub fn get_schedules(params: &GetSchedulesParams, stored: &Vec<Schedule>) -> (r: Result<
    Vec<Schedule>,
    RangeError,
>)
    requires
        schedules_well_formed(schedule_views(stored@)),
    ensures
        match r {
            Ok(listed) => listing(
                params.start_date@,
                params.end_date@,
                params.shift_group@,
                schedule_views(stored@),
            ) == Ok::<Seq<ScheduleView>, RangeError>(schedule_views(listed@)) && ordered(
                schedule_views(listed@),
                listing_order(),
            ),
            Err(error) => listing(
                params.start_date@,
                params.end_date@,
                params.shift_group@,
                schedule_views(stored@),
            ) == Err::<Seq<ScheduleView>, RangeError>(error),
        },
{
    match params.range() {
        Ok((from, to)) => {
            let chosen = select_schedules(stored, &from, &to, &params.shift_group, true);
            Ok(sort_for_listing(&chosen))
        },
        Err(error) => Err(error),
    }
}

/// A shift group that has schedules.
#[derive(Debug)]
pub struct ShiftGroup {
    pub shift_group: String,
}

/// The names of a vector of shift groups.
pub open spec fn group_names(groups: Seq<ShiftGroup>) -> Seq<Seq<char>> {
    groups.map_values(|g: ShiftGroup| g.shift_group@)
}

/// The shift groups among `names`, each once, at its first occurrence.
pub fn get_shift_groups(names: &Vec<String>) -> (out: Vec<ShiftGroup>)
    ensures
        group_names(out@) == distinct(texts(names@)),
{
    let unique = distinct_texts(names);
    let mut out: Vec<ShiftGroup> = Vec::new();
    let mut i: usize = 0;
    while i < unique.len()
        invariant
            i <= unique.len(),
            group_names(out@) == texts(unique@).take(i as int),
        decreases unique.len() - i,
    {
        let ghost previous = group_names(out@);
        out.push(ShiftGroup { shift_group: unique[i].clone() });
        assert(group_names(out@) =~= previous.push(unique@[i as int]@));
        assert(texts(unique@).take(i as int + 1) =~= texts(unique@).take(i as int).push(
            unique@[i as int]@,
        ));
        i = i + 1;
    }
    assert(texts(unique@).take(unique.len() as int) =~= texts(unique@));
    out
}

} // verus!
