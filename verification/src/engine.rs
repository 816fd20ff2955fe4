//! The engine: the files of a folder, and the sort that copies them into
//! folders by year and month.

use crate::date::{date_at_offset, get_file_metadata, is_date_text, Timestamp};
use crate::model::{
    error_text, found_text, lemma_step_keeps_wf, sorted_text, Action, Phase, SortError, SortEvent,
    SortModel,
};
use crate::place::{
    bucket_folder_of, line_of, log_of, log_path_of, name_of, sorted_folder_of, target_of,
};
use crate::scan::{
    get_files, has_media_extension, lemma_scan_keeps_media_only, media_files, ScanError,
};
use crate::text::decimal_text;
use vstd::prelude::*;

verus! {

/// What the engine asks of the shell. The shell does it and reports back with
/// the event named here; after `Finished`, `Aborted`, `Failed` and `Nothing`
/// there is nothing to report.
#[derive(Debug, PartialEq, Eq)]
pub enum SortAction {
    /// Read the creation time of the file; answer with `Created`.
    ReadCreated { path: String },
    /// Is there a folder at this path that can be read? Answer with `Exists`.
    ProbeFolder { path: String },
    /// Make this one folder; answer with `Done`.
    CreateFolder { path: String },
    /// Make an empty file; answer with `Done`.
    CreateFile { path: String },
    /// Is there a file at this path? Answer with `Exists`.
    ProbeFile { path: String },
    /// Copy the file; answer with `Done`.
    Copy { from: String, to: String },
    /// Make this folder and those above it that are missing; answer with `Done`.
    CreateFolders { path: String },
    /// Write the text to the file; answer with `Done`.
    WriteFile { path: String, text: String },
    /// The sort is complete.
    Finished,
    /// The folder `sorted` is there already: nothing was done.
    Aborted,
    /// The sort stopped with an error.
    Failed(SortError),
    /// The event was not waited for: nothing changed.
    Nothing,
}

impl View for SortAction {
    type V = Action;

    open spec fn view(&self) -> Action {
        match self {
            SortAction::ReadCreated { path } => Action::ReadCreated { path: path@ },
            SortAction::ProbeFolder { path } => Action::ProbeFolder { path: path@ },
            SortAction::CreateFolder { path } => Action::CreateFolder { path: path@ },
            SortAction::CreateFile { path } => Action::CreateFile { path: path@ },
            SortAction::ProbeFile { path } => Action::ProbeFile { path: path@ },
            SortAction::Copy { from, to } => Action::Copy { from: from@, to: to@ },
            SortAction::CreateFolders { path } => Action::CreateFolders { path: path@ },
            SortAction::WriteFile { path, text } => Action::WriteFile { path: path@, text: text@ },
            SortAction::Finished => Action::Finished,
            SortAction::Aborted => Action::Aborted,
            SortAction::Failed(error) => Action::Failed(*error),
            SortAction::Nothing => Action::Nothing,
        }
    }
}

impl SortError {
    /// The error in words.
    pub fn message(&self) -> (text: String)
        ensures
            text@ == error_text(*self),
    {
        match self {
            SortError::CreateFolder => String::from_str("Could not create dir"),
            SortError::CreateLog => String::from_str("Could not create file"),
            SortError::CreateFolders => String::from_str("Could not create directory"),
            SortError::Copy => String::from_str("Still can't copy"),
            SortError::WriteLog => String::from_str("Could not write to log file"),
        }
    }
}

/// The dates are there for every file, each in the form of a date.
spec fn dated(m: SortModel) -> bool {
    &&& m.dates.len() == m.files.len()
    &&& forall|i: int| 0 <= i < m.dates.len() ==> is_date_text(#[trigger] m.dates[i])
}

/// The folder that is scanned first: `Pictures` in the user's home.
pub open spec fn pictures_folder(home: Seq<char>) -> Seq<char> {
    home + "/Pictures"@
}

/// The media files of a folder, and the state of the sort that copies them
/// into `sorted` below it.
pub struct PycSort {
    files: Vec<String>,
    folder: String,
    num_files: usize,
    progress: usize,
    status: String,
    phase: Phase,
    dates: Vec<String>,
    report: Vec<String>,
}

impl View for PycSort {
    type V = SortModel;

    closed spec fn view(&self) -> SortModel {
        SortModel {
            files: self.files.deep_view(),
            folder: self.folder@,
            num_files: self.num_files as nat,
            progress: self.progress as nat,
            status: self.status@,
            phase: self.phase,
            dates: self.dates.deep_view(),
            report: self.report.deep_view(),
        }
    }
}

/// The folder `Pictures` in the given home folder.
pub fn default_folder(home: &str) -> (folder: String)
    ensures
        folder@ == pictures_folder(home@),
{
    let mut folder = String::from_str(home);
    folder.append("/Pictures");
    folder
}

impl PycSort {
    /// The engine for a folder and the files that a scan found in it.
    fn scanned(folder: String, files: Vec<String>, progress: usize, status: String) -> (engine:
        PycSort)
        requires
            forall|i: int|
                0 <= i < files.deep_view().len() ==> has_media_extension(
                    #[trigger] files.deep_view()[i],
                ),
        ensures
            engine@ == (SortModel {
                progress: progress as nat,
                status: status@,
                ..SortModel::scanned(folder@, files.deep_view())
            }),
            engine@.wf(),
    {
        let engine = PycSort {
            num_files: files.len(),
            progress,
            status,
            files,
            folder,
            phase: Phase::Idle,
            dates: Vec::new(),
            report: Vec::new(),
        };
        proof {
            assert(engine.dates.deep_view() =~= Seq::empty());
            assert(engine.report.deep_view() =~= Seq::empty());
        }
        engine
    }

    /// The engine for the folder `Pictures` in the user's home, given what a
    /// walk through that folder found. Fails where the folder could not be
    /// read.
    pub fn new(home: &str, listing: Option<&Vec<String>>) -> (made: Result<PycSort, ScanError>)
        ensures
            made.is_ok() == listing.is_some(),
            made matches Err(error) ==> error == ScanError::Unreadable,
            made matches Ok(engine) ==> {
                &&& engine@ == SortModel::scanned(
                    pictures_folder(home@),
                    media_files(listing.unwrap().deep_view()),
                )
                &&& engine@.wf()
            },
    {
        match get_files(listing) {
            Ok(files) => {
                proof {
                    lemma_scan_keeps_media_only(listing.unwrap().deep_view());
                }
                Ok(PycSort::scanned(default_folder(home), files, 0, sorted_status(0)))
            },
            Err(error) => Err(error),
        }
    }

    /// Turns to another folder, given what a walk through it found. A sort
    /// that was under way is given up; the progress stays as it was. Where the
    /// folder could not be read this fails, and nothing changes.
    pub fn change_folder(&mut self, folder: String, listing: Option<&Vec<String>>) -> (changed:
        Result<(), ScanError>)
        ensures
            changed.is_ok() == listing.is_some(),
            changed matches Err(error) ==> error == ScanError::Unreadable && *final(self) == *old(
                self,
            ),
            changed is Ok ==> {
                &&& final(self)@ == (SortModel {
                    progress: old(self)@.progress,
                    ..SortModel::scanned(folder@, media_files(listing.unwrap().deep_view()))
                })
                &&& final(self)@.wf()
            },
    {
        match get_files(listing) {
            Ok(files) => {
                proof {
                    lemma_scan_keeps_media_only(listing.unwrap().deep_view());
                }
                *self = PycSort::scanned(folder, files, self.progress, sorted_status(0));
                Ok(())
            },
            Err(error) => Err(error),
        }
    }

    /// Scans the same folder again, given what a walk through it found. A
    /// sort that was under way is given up, and the progress starts again.
    /// Where the folder could not be read this fails, and nothing changes.
    pub fn rescan_folder(&mut self, listing: Option<&Vec<String>>) -> (scanned: Result<
        (),
        ScanError,
    >)
        ensures
            scanned.is_ok() == listing.is_some(),
            scanned matches Err(error) ==> error == ScanError::Unreadable && *final(self) == *old(
                self,
            ),
            scanned is Ok ==> {
                &&& final(self)@ == (SortModel {
                    status: old(self)@.status,
                    ..SortModel::scanned(
                        old(self)@.folder,
                        media_files(listing.unwrap().deep_view()),
                    )
                })
                &&& final(self)@.wf()
            },
    {
        match get_files(listing) {
            Ok(files) => {
                proof {
                    lemma_scan_keeps_media_only(listing.unwrap().deep_view());
                }
                self.num_files = files.len();
                self.files = files;
                self.progress = 0;
                self.phase = Phase::Idle;
                self.dates = Vec::new();
                self.report = Vec::new();
                proof {
                    assert(self.dates.deep_view() =~= Seq::empty());
                    assert(self.report.deep_view() =~= Seq::empty());
                }
                Ok(())
            },
            Err(error) => Err(error),
        }
    }

    /// The media files that the last scan found.
    pub fn files(&self) -> (files: &Vec<String>)
        ensures
            files.deep_view() == self@.files,
    {
        &self.files
    }

    /// The folder that was scanned, and that a sort works in.
    pub fn folder(&self) -> (folder: &String)
        ensures
            folder@ == self@.folder,
    {
        &self.folder
    }

    /// How many media files the last scan found.
    pub fn num_files(&self) -> (n: usize)
        ensures
            n == self@.num_files,
    {
        self.num_files
    }

    /// How many files of the current pass are done. As a part of
    /// `num_files` it is the progress of the sort.
    pub fn progress(&self) -> (n: usize)
        ensures
            n == self@.progress,
    {
        self.progress
    }

    /// What the engine is doing or has done, in words for the user.
    pub fn status(&self) -> (status: &String)
        ensures
            status@ == self@.status,
    {
        &self.status
    }

    /// What the engine is waiting for.
    pub fn phase(&self) -> (phase: Phase)
        ensures
            phase == self@.phase,
    {
        self.phase
    }

    /// The transcript of the sort so far, a line for each file copied.
    pub fn report(&self) -> (report: &Vec<String>)
        ensures
            report.deep_view() == self@.report,
    {
        &self.report
    }

    /// The copying pass begins.
    fn check(&mut self) -> (action: SortAction)
        ensures
            (final(self)@, action@) == old(self)@.check(),
    {
        self.progress = 0;
        self.status = String::from_str("Sorting Files");
        self.phase = Phase::CheckingSorted;
        SortAction::ProbeFolder { path: sorted_folder_of(self.folder.as_str()) }
    }

    /// The sort stops with an error.
    fn failed(&mut self, error: SortError) -> (action: SortAction)
        ensures
            (final(self)@, action@) == old(self)@.failed(error),
    {
        self.phase = Phase::Idle;
        self.status = error.message();
        SortAction::Failed(error)
    }

    /// A sort begins.
    fn begin(&mut self) -> (action: SortAction)
        ensures
            (final(self)@, action@) == old(self)@.begin(),
    {
        self.progress = 0;
        self.status = String::from_str("Gathering Metadata");
        self.dates = Vec::new();
        self.report = Vec::new();
        proof {
            assert(self.dates.deep_view() =~= Seq::empty());
            assert(self.report.deep_view() =~= Seq::empty());
        }
        if self.files.len() == 0 {
            self.check()
        } else {
            self.phase = Phase::Gathering;
            SortAction::ReadCreated { path: self.files[0].clone() }
        }
    }

    /// The creation time of the next file is known: its date is noted.
    fn gathered(&mut self, created: Option<Timestamp>, offset: Option<i32>) -> (action:
        SortAction)
        requires
            old(self)@.wf(),
            old(self)@.phase is Gathering,
        ensures
            (final(self)@, action@) == old(self)@.gathered(date_at_offset(created, offset)),
            is_date_text(date_at_offset(created, offset)),
    {
        let date = get_file_metadata(created, offset);
        let ghost text = date@;
        self.dates.push(date);
        self.progress = self.progress + 1;
        proof {
            assert(self.dates.deep_view() =~= old(self).dates.deep_view().push(text));
        }
        if self.dates.len() >= self.files.len() {
            self.check()
        } else {
            SortAction::ReadCreated { path: self.files[self.dates.len()].clone() }
        }
    }

    /// One of the two destinations of the file that is being placed.
    fn current_target(&self, alternate: bool) -> (to: String)
        requires
            dated(self@),
            self@.report.len() < self@.files.len(),
        ensures
            to@ == self@.current_target(alternate),
    {
        let i = self.report.len();
        assert(is_date_text(self@.dates[i as int]));
        target_of(self.folder.as_str(), self.files[i].as_str(), self.dates[i].as_str(), alternate)
    }

    /// The copy of the file that is being placed.
    fn copy_action(&self, alternate: bool) -> (action: SortAction)
        requires
            dated(self@),
            self@.report.len() < self@.files.len(),
        ensures
            action@ == self@.copy_action(alternate),
    {
        SortAction::Copy {
            from: self.files[self.report.len()].clone(),
            to: self.current_target(alternate),
        }
    }

    /// The engine turns to the next file, or writes the log.
    fn next_file(&mut self) -> (action: SortAction)
        requires
            dated(old(self)@),
        ensures
            (final(self)@, action@) == old(self)@.next_file(),
    {
        if self.report.len() >= self.files.len() {
            self.phase = Phase::WritingLog;
            SortAction::WriteFile {
                path: log_path_of(self.folder.as_str()),
                text: log_of(&self.report),
            }
        } else {
            let path = self.current_target(false);
            self.phase = Phase::Probing;
            SortAction::ProbeFile { path }
        }
    }

    /// The file was copied: it gets its line in the transcript.
    fn copied(&mut self, alternate: bool) -> (action: SortAction)
        requires
            dated(old(self)@),
            old(self)@.report.len() < old(self)@.files.len(),
            old(self)@.progress == old(self)@.report.len(),
        ensures
            (final(self)@, action@) == old(self)@.copied(alternate),
    {
        let to = self.current_target(alternate);
        let total = self.files.len();
        assert(self.progress < total);
        let line = line_of(self.files[self.report.len()].as_str(), to.as_str());
        let ghost text = line@;
        self.status = line.clone();
        self.report.push(line);
        self.progress = self.progress + 1;
        proof {
            assert(self.report.deep_view() =~= old(self).report.deep_view().push(text));
        }
        self.next_file()
    }

    /// The placing of one file: the probe of its destination, the copy, and
    /// after a copy that failed the making of the folders and a second copy.
    fn copy_file(&mut self, event: SortEvent) -> (action: SortAction)
        requires
            old(self)@.wf(),
        ensures
            (final(self)@, action@) == old(self)@.place(event),
    {
        match (self.phase, event) {
            (Phase::Probing, SortEvent::Exists(taken)) => {
                let action = self.copy_action(taken);
                self.phase = Phase::Copying { alternate: taken };
                action
            },
            (Phase::Copying { alternate }, SortEvent::Done(ok)) => {
                if ok {
                    self.copied(alternate)
                } else {
                    let i = self.report.len();
                    assert(is_date_text(self@.dates[i as int]));
                    let path = bucket_folder_of(self.folder.as_str(), self.dates[i].as_str());
                    self.phase = Phase::MakingFolders { alternate };
                    SortAction::CreateFolders { path }
                }
            },
            (Phase::MakingFolders { alternate }, SortEvent::Done(ok)) => {
                if ok {
                    let action = self.copy_action(alternate);
                    self.phase = Phase::Retrying { alternate };
                    action
                } else {
                    self.failed(SortError::CreateFolders)
                }
            },
            (Phase::Retrying { alternate }, SortEvent::Done(ok)) => {
                if ok {
                    self.copied(alternate)
                } else {
                    self.failed(SortError::Copy)
                }
            },
            _ => SortAction::Nothing,
        }
    }

    /// One step of the sort. The shell starts a sort with `Start`, does what
    /// the action that comes back asks for, and reports the outcome with the
    /// next call, until the action is `Finished`, `Aborted` or `Failed`.
    ///
    /// The dates of the files are gathered first. Then the folder `sorted` is
    /// looked for: if it is there the sort ends with `Aborted`, and nothing
    /// was written. Else the folder and the log file are made, and the files
    /// are copied one by one, each into the folder of its year and month:
    /// under its own name, or under its second name where a file of that name
    /// is there. A copy that fails is tried once more after the folders for it
    /// were made; a second failure ends the sort, and what was copied before
    /// stays. At the end the transcript is written to the log file.
    ///
    /// The second destination is not probed: a file that is there is
    /// replaced. Files of one name from folders of one name, created in the
    /// same month, share it, and the later copy replaces the earlier one.
    pub fn sort_files(&mut self, event: SortEvent) -> (action: SortAction)
        requires
            old(self)@.wf(),
        ensures
            final(self)@.wf(),
            (final(self)@, action@) == old(self)@.step(event),
    {
        let action = match (self.phase, event) {
            (Phase::Idle, SortEvent::Start) => self.begin(),
            (Phase::Gathering, SortEvent::Created(created, offset)) => self.gathered(
                created,
                offset,
            ),
            (Phase::CheckingSorted, SortEvent::Exists(found)) => {
                if found {
                    self.phase = Phase::Idle;
                    self.status = String::from_str(
                        "Please delete or rename the existing `sorted` folder and rescan before sorting again",
                    );
                    SortAction::Aborted
                } else {
                    self.phase = Phase::CreatingSorted;
                    SortAction::CreateFolder { path: sorted_folder_of(self.folder.as_str()) }
                }
            },
            (Phase::CreatingSorted, SortEvent::Done(ok)) => {
                if ok {
                    self.phase = Phase::CreatingLog;
                    SortAction::CreateFile { path: log_path_of(self.folder.as_str()) }
                } else {
                    self.failed(SortError::CreateFolder)
                }
            },
            (Phase::CreatingLog, SortEvent::Done(ok)) => {
                if ok {
                    self.next_file()
                } else {
                    self.failed(SortError::CreateLog)
                }
            },
            (Phase::WritingLog, SortEvent::Done(ok)) => {
                if ok {
                    self.phase = Phase::Idle;
                    self.status = sorted_status(self.num_files);
                    SortAction::Finished
                } else {
                    self.failed(SortError::WriteLog)
                }
            },
            _ => self.copy_file(event),
        };
        proof {
            lemma_step_keeps_wf(old(self)@, event);
        }
        action
    }

    /// The line that tells how many files were found, and in which folder.
    pub fn found(&self) -> (text: String)
        ensures
            text@ == found_text(self@.num_files, self@.folder),
    {
        let mut text = String::from_str("Found ");
        text.append(decimal_text(self.num_files).as_str());
        text.append(" pictures/videos in ");
        text.append(name_of(self.folder.as_str()).as_str());
        text
    }
}

/// The status after `n` files were sorted.
pub fn sorted_status(n: usize) -> (text: String)
    ensures
        text@ == sorted_text(n as nat),
{
    let mut text = String::from_str("Sorted ");
    text.append(decimal_text(n).as_str());
    text.append(" pictures/videos");
    text
}

} // verus!
