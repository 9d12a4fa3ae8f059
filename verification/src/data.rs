//! The ways of listing a store, the failures of its operations, and the
//! order of the steps in which the data file is read and replaced.

use crate::date_time::representable;
use crate::impls::{strictly_ascending, text_of};
use crate::laws::texts_single_line;
use crate::models::{entries_of_text, is_listing_by_day, rows_view, ContentView, ListingRow};
use crate::text::{decimal_text, push_decimal};
use vstd::prelude::*;
use vstd::string::StringExecFns;

verus! {

/// How a listing is laid out.
#[derive(Clone, Copy, Debug, PartialEq, Eq, Structural)]
pub enum DisplayMode {
    /// One line per memo, by ascending id.
    Sorted,
    /// Newest first, under a heading for each calendar day.
    GroupByDate,
}

/// A listing of the memos, for showing.
#[derive(Debug)]
pub enum Listing {
    /// The text form: one line per memo, by ascending id.
    Sorted(String),
    /// Rows from the largest id down, each day under its heading.
    GroupByDate(Vec<ListingRow>),
}

/// The rule of the line grammar that a line breaks.
#[derive(Clone, Copy, Debug, PartialEq, Eq, Structural)]
pub enum LineRule {
    /// What stands before the first colon is no unsigned number.
    Id,
    /// The line has no colon.
    Separator,
    /// Behind the colon there are fewer than three fields: date, time, text.
    Fields,
    /// Date and time are not a date and time in the fixed format.
    DateTime,
}

/// Why an operation on a store or on its file failed.
#[derive(Debug)]
pub enum MemoError {
    /// There is no file at the path.
    FileNotFound(String),
    /// Reading, writing or renaming failed. Holds what the system said.
    IoError(String),
    /// The id is already in use.
    DuplicateId(u32),
    /// No memo has the id.
    NotFound(u32),
    /// A line of the text form breaks a rule of the grammar. Holds the rule
    /// and the line.
    MalformedLine(LineRule, String),
    /// The clock shows a time that the text form cannot hold.
    InvalidDateTime,
}

/// A [`MemoError`] with its text as a sequence of characters.
pub enum ErrorView {
    FileNotFound(Seq<char>),
    IoError(Seq<char>),
    DuplicateId(u32),
    NotFound(u32),
    MalformedLine(LineRule, Seq<char>),
    InvalidDateTime,
}

impl View for MemoError {
    type V = ErrorView;

    open spec fn view(&self) -> ErrorView {
        match self {
            MemoError::FileNotFound(path) => ErrorView::FileNotFound(path@),
            MemoError::IoError(cause) => ErrorView::IoError(cause@),
            MemoError::DuplicateId(id) => ErrorView::DuplicateId(*id),
            MemoError::NotFound(id) => ErrorView::NotFound(*id),
            MemoError::MalformedLine(rule, line) => ErrorView::MalformedLine(*rule, line@),
            MemoError::InvalidDateTime => ErrorView::InvalidDateTime,
        }
    }
}

/// What is said of a broken rule.
pub open spec fn rule_text(rule: LineRule) -> Seq<char> {
    match rule {
        LineRule::Id => "Invalid id in line '"@,
        LineRule::Separator => "Missing content in line '"@,
        LineRule::Fields => "Expected a date, a time and a text in line '"@,
        LineRule::DateTime => "Invalid date time in line '"@,
    }
}

/// The message of a failure.
pub open spec fn message_text(e: ErrorView) -> Seq<char> {
    match e {
        ErrorView::FileNotFound(path) => "File '"@ + path + "' not found"@,
        ErrorView::IoError(cause) => cause,
        ErrorView::DuplicateId(id) => "Id '"@ + decimal_text(id as nat) + "' already exists"@,
        ErrorView::NotFound(id) => "Id '"@ + decimal_text(id as nat) + "' not found"@,
        ErrorView::MalformedLine(rule, line) => rule_text(rule) + line + "'"@,
        ErrorView::InvalidDateTime => "The current time is outside the years 0 to 9999"@,
    }
}

impl MemoError {
    /// A message for the user, which names the id or the line.
    pub fn message(&self) -> (r: String)
        ensures
            r@ == message_text(self@),
    {
        match self {
            MemoError::FileNotFound(path) => {
                let mut out = String::from_str("File '");
                out.append(path.as_str());
                out.append("' not found");
                out
            },
            MemoError::IoError(cause) => cause.clone(),
            MemoError::DuplicateId(id) => {
                let mut out = String::from_str("Id '");
                push_decimal(&mut out, *id);
                out.append("' already exists");
                out
            },
            MemoError::NotFound(id) => {
                let mut out = String::from_str("Id '");
                push_decimal(&mut out, *id);
                out.append("' not found");
                out
            },
            MemoError::MalformedLine(rule, line) => {
                let mut out = String::from_str(
                    match rule {
                        LineRule::Id => "Invalid id in line '",
                        LineRule::Separator => "Missing content in line '",
                        LineRule::Fields => "Expected a date, a time and a text in line '",
                        LineRule::DateTime => "Invalid date time in line '",
                    },
                );
                out.append(line.as_str());
                out.append("'");
                out
            },
            MemoError::InvalidDateTime => String::from_str(
                "The current time is outside the years 0 to 9999",
            ),
        }
    }
}

/// What is done to the data file as a whole.
#[derive(Clone, Copy, Debug, PartialEq, Eq, Structural)]
pub enum FileJob {
    /// Its content is read.
    Read,
    /// Its content is replaced.
    Write,
}

/// One step of a job: one action on the file system.
#[derive(Clone, Copy, Debug, PartialEq, Eq, Structural)]
pub enum FileStep {
    /// Look whether the data file is there.
    Find,
    /// Read the whole data file.
    Fetch,
    /// Create the temporary file beside the data file.
    CreateTemp,
    /// Write the new content to the temporary file.
    FillTemp,
    /// Rename the temporary file to the data file. Nothing else changes the
    /// data file.
    Replace,
}

/// Where a job stands after a step.
#[derive(Clone, Copy, Debug, PartialEq, Eq, Structural)]
pub enum Progress {
    /// The step is to be done next.
    Next(FileStep),
    /// The job is done.
    Done,
    /// The step failed, and the job with it.
    Failed(FileStep),
}

/// The step that follows a step that went well; `None` at the end of the job.
pub open spec fn step_after(job: FileJob, step: FileStep) -> Option<FileStep> {
    match (job, step) {
        (FileJob::Read, FileStep::Find) => Some(FileStep::Fetch),
        (FileJob::Write, FileStep::Find) => Some(FileStep::CreateTemp),
        (FileJob::Write, FileStep::CreateTemp) => Some(FileStep::FillTemp),
        (FileJob::Write, FileStep::FillTemp) => Some(FileStep::Replace),
        _ => None,
    }
}

/// Where a job stands after a step that went well (`ok`) or failed.
pub open spec fn progress_after(job: FileJob, step: FileStep, ok: bool) -> Progress {
    if !ok {
        Progress::Failed(step)
    } else {
        match step_after(job, step) {
            Some(next) => Progress::Next(next),
            None => Progress::Done,
        }
    }
}

/// The steps that are done from `step` on, where `ok` says of each step
/// whether it goes well. `limit` bounds their number.
pub open spec fn steps_from(
    job: FileJob,
    step: FileStep,
    ok: spec_fn(FileStep) -> bool,
    limit: nat,
) -> Seq<FileStep>
    decreases limit,
{
    if limit == 0 {
        Seq::empty()
    } else {
        match progress_after(job, step, ok(step)) {
            Progress::Next(next) => seq![step] + steps_from(job, next, ok, (limit - 1) as nat),
            _ => seq![step],
        }
    }
}

/// The steps that are done of a job, in order. No job has more than four.
pub open spec fn steps_done(job: FileJob, ok: spec_fn(FileStep) -> bool) -> Seq<FileStep> {
    steps_from(job, FileStep::Find, ok, 4)
}

/// The path as it is named in a message.
pub open spec fn path_text(file_path: Option<&str>) -> Seq<char> {
    match file_path {
        Some(path) => path@,
        None => "unknown path"@,
    }
}

/// The step that every job starts with.
pub fn first_step() -> (r: FileStep)
    ensures
        r == FileStep::Find,
{
    FileStep::Find
}

/// Where the job stands after `step` went well (`ok`) or failed.
pub fn advance(job: FileJob, step: FileStep, ok: bool) -> (r: Progress)
    ensures
        r == progress_after(job, step, ok),
{
    if !ok {
        return Progress::Failed(step);
    }
    match job {
        FileJob::Read => match step {
            FileStep::Find => Progress::Next(FileStep::Fetch),
            _ => Progress::Done,
        },
        FileJob::Write => match step {
            FileStep::Find => Progress::Next(FileStep::CreateTemp),
            FileStep::CreateTemp => Progress::Next(FileStep::FillTemp),
            FileStep::FillTemp => Progress::Next(FileStep::Replace),
            _ => Progress::Done,
        },
    }
}

/// Whether the file is there, as a result: its absence is a failure that
/// names the path, where the path can be named.
pub fn file_exist(exists: bool, file_path: Option<&str>) -> (r: Result<bool, MemoError>)
    ensures
        match r {
            Ok(found) => exists && found,
            Err(e) => !exists && e@ == ErrorView::FileNotFound(path_text(file_path)),
        },
{
    if exists {
        Ok(true)
    } else {
        Err(
            MemoError::FileNotFound(
                String::from_str(
                    match file_path {
                        Some(path) => path,
                        None => "unknown path",
                    },
                ),
            ),
        )
    }
}

/// The failure of a job at a step: that the file was not found, for the
/// step that looks for it; else what the system said.
pub fn failure_at(step: FileStep, file_path: Option<&str>, cause: &str) -> (r: MemoError)
    ensures
        r@ == (if step == FileStep::Find {
            ErrorView::FileNotFound(path_text(file_path))
        } else {
            ErrorView::IoError(cause@)
        }),
{
    match step {
        FileStep::Find => MemoError::FileNotFound(
            String::from_str(
                match file_path {
                    Some(path) => path,
                    None => "unknown path",
                },
            ),
        ),
        _ => MemoError::IoError(String::from_str(cause)),
    }
}

/// What a file of memos can do, once its text has been read: hold memos
/// under ids, and give the text to write back.
pub trait DataFile {
    /// The memos held, each under its id.
    spec fn memos(&self) -> Map<u32, ContentView>;

    /// Replaces the memos by those of a text. Fails, and changes nothing,
    /// where a line of the text breaks the grammar. The text of every memo
    /// read is a single line.
    fn load(&mut self, data: String) -> (r: Result<(), MemoError>)
        ensures
            match entries_of_text(data@) {
                Ok(m) => r is Ok && final(self).memos() == m,
                Err(e) => r matches Err(x) && x@ == e && final(self).memos() == old(self).memos(),
            },
            r is Ok ==> texts_single_line(final(self).memos()),
    ;

    /// The ids of all memos, in ascending order.
    fn sorted_ids(&self) -> (r: Vec<u32>)
        ensures
            strictly_ascending(r@),
            forall|id: u32| r@.contains(id) <==> self.memos().contains_key(id),
    ;

    /// Adds a memo with the given id and text, written now. Fails, and changes
    /// nothing, where the id is in use, and where the clock shows a time that
    /// a timestamp cannot hold.
    fn add(&mut self, id: u32, name: &str) -> (r: Result<(), MemoError>)
        ensures
            old(self).memos().contains_key(id) ==> (r matches Err(e) && e@
                == ErrorView::DuplicateId(id) && final(self).memos() == old(self).memos()),
            !old(self).memos().contains_key(id) ==> match r {
                Ok(_) => {
                    &&& final(self).memos().contains_key(id)
                    &&& final(self).memos()[id].text == name@
                    &&& representable(final(self).memos()[id].date_time)
                    &&& final(self).memos() == old(self).memos().insert(
                        id,
                        final(self).memos()[id],
                    )
                },
                Err(e) => e@ == ErrorView::InvalidDateTime && final(self).memos() == old(
                    self,
                ).memos(),
            },
    ;

    /// Removes the memo with the given id. Fails, and changes nothing, where
    /// there is none.
    fn remove(&mut self, id: u32) -> (r: Result<(), MemoError>)
        ensures
            old(self).memos().contains_key(id) ==> (r is Ok && final(self).memos() == old(
                self,
            ).memos().remove(id)),
            !old(self).memos().contains_key(id) ==> (r matches Err(e) && e@ == ErrorView::NotFound(
                id,
            ) && final(self).memos() == old(self).memos()),
    ;

    /// The listing of the memos in the given layout.
    fn display(&self, mode: DisplayMode) -> (r: Listing)
        ensures
            match mode {
                DisplayMode::Sorted => r matches Listing::Sorted(text) && text@ == text_of(
                    self.memos(),
                ),
                DisplayMode::GroupByDate => r matches Listing::GroupByDate(rows)
                    && is_listing_by_day(self.memos(), rows_view(rows@)),
            },
    ;

    /// The text form: one line per memo, by ascending id. Where every text is
    /// a single line, reading the text form gives the memos again.
    fn to_text(&self) -> (r: String)
        ensures
            r@ == text_of(self.memos()),
            texts_single_line(self.memos()) ==> entries_of_text(r@) == Ok::<
                Map<u32, ContentView>,
                ErrorView,
            >(self.memos()),
    ;
}

} // verus!
