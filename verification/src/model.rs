//! The sort as a state machine: what the engine asks of the file system, and
//! what it does with each answer.

use crate::date::{date_at_offset, is_date_text, Timestamp};
use crate::place::{
    bucket_folder, file_name, lemma_alternate_differs, log_path, log_text, sorted_folder, target,
    transcript_line,
};
use crate::scan::has_media_extension;
use crate::text::decimal;
use vstd::prelude::*;

verus! {

/// What the engine is waiting for.
#[derive(Clone, Copy, Debug, PartialEq, Eq)]
pub enum Phase {
    /// No sort is under way.
    Idle,
    /// The creation time of the next file.
    Gathering,
    /// Whether the folder `sorted` is there already.
    CheckingSorted,
    /// The making of the folder `sorted`.
    CreatingSorted,
    /// The making of the empty log file.
    CreatingLog,
    /// Whether the destination of the next file is taken.
    Probing,
    /// The first attempt to copy the file, to its second destination if
    /// `alternate` is set.
    Copying { alternate: bool },
    /// The making of the folders that the destination lies in.
    MakingFolders { alternate: bool },
    /// The second attempt to copy the file.
    Retrying { alternate: bool },
    /// The writing of the transcript to the log file.
    WritingLog,
}

/// What the shell reports to the engine.
#[derive(Clone, Copy, Debug, PartialEq, Eq)]
pub enum SortEvent {
    /// The user asked for a sort.
    Start,
    /// The creation time of the file that was asked about, if the file system
    /// gave one, and the seconds by which the local clock was ahead of UTC at
    /// that time, if they are known.
    Created(Option<Timestamp>, Option<i32>),
    /// Whether what was probed is there.
    Exists(bool),
    /// Whether what was to be done succeeded.
    Done(bool),
}

/// Why a sort stopped before its end.
#[derive(Clone, Copy, Debug, PartialEq, Eq)]
pub enum SortError {
    /// The folder `sorted` could not be made.
    CreateFolder,
    /// The log file could not be made.
    CreateLog,
    /// A copy failed, and the folders for its destination could not be made.
    CreateFolders,
    /// A copy failed again after the folders for its destination were made.
    Copy,
    /// The transcript could not be written to the log file.
    WriteLog,
}

/// What the engine asks of the shell, over character sequences.
pub enum Action {
    ReadCreated { path: Seq<char> },
    ProbeFolder { path: Seq<char> },
    CreateFolder { path: Seq<char> },
    CreateFile { path: Seq<char> },
    ProbeFile { path: Seq<char> },
    Copy { from: Seq<char>, to: Seq<char> },
    CreateFolders { path: Seq<char> },
    WriteFile { path: Seq<char>, text: Seq<char> },
    Finished,
    Aborted,
    Failed(SortError),
    Nothing,
}

/// The state of the engine, over character sequences.
pub struct SortModel {
    pub files: Seq<Seq<char>>,
    pub folder: Seq<char>,
    pub num_files: nat,
    pub progress: nat,
    pub status: Seq<char>,
    pub phase: Phase,
    pub dates: Seq<Seq<char>>,
    pub report: Seq<Seq<char>>,
}

pub open spec fn gathering_text() -> Seq<char> {
    "Gathering Metadata"@
}

pub open spec fn sorting_text() -> Seq<char> {
    "Sorting Files"@
}

pub open spec fn abort_text() -> Seq<char> {
    "Please delete or rename the existing `sorted` folder and rescan before sorting again"@
}

/// The status after `n` files were sorted.
pub open spec fn sorted_text(n: nat) -> Seq<char> {
    "Sorted "@ + decimal(n) + " pictures/videos"@
}

/// The line that tells how many files were found, and in which folder.
pub open spec fn found_text(n: nat, folder: Seq<char>) -> Seq<char> {
    "Found "@ + decimal(n) + " pictures/videos in "@ + file_name(folder)
}

pub open spec fn error_text(error: SortError) -> Seq<char> {
    match error {
        SortError::CreateFolder => "Could not create dir"@,
        SortError::CreateLog => "Could not create file"@,
        SortError::CreateFolders => "Could not create directory"@,
        SortError::Copy => "Still can't copy"@,
        SortError::WriteLog => "Could not write to log file"@,
    }
}

/// The date that the event brings has the form of a date. So it is with
/// every event that the engine has taken: its date is the sentinel, or one
/// that the calendar wrote.
pub open spec fn brings_a_date(event: SortEvent) -> bool {
    match event {
        SortEvent::Created(created, offset) => is_date_text(date_at_offset(created, offset)),
        _ => true,
    }
}

/// The action changes what is on disk.
pub open spec fn is_write(action: Action) -> bool {
    action is CreateFolder || action is CreateFile || action is Copy || action is CreateFolders
        || action is WriteFile
}

/// The phases of the copying pass, from the check for `sorted` to the writing
/// of the log.
pub open spec fn in_copy_pass(phase: Phase) -> bool {
    !(phase is Idle) && !(phase is Gathering)
}

/// The phases in which nothing has been written yet, and nothing will be
/// before the check for `sorted` has been answered.
pub open spec fn before_guard(phase: Phase) -> bool {
    phase is Idle || phase is Gathering || phase is CheckingSorted
}

impl SortModel {
    /// The file that is being placed: the first without a line in the
    /// transcript.
    pub open spec fn current(self) -> int {
        self.report.len() as int
    }

    /// One of the two destinations of the file that is being placed.
    pub open spec fn current_target(self, alternate: bool) -> Seq<char> {
        target(self.folder, self.files[self.current()], self.dates[self.current()], alternate)
    }

    /// The line of the transcript for file `i`, copied to one of its two
    /// destinations.
    pub open spec fn line_at(self, i: int, alternate: bool) -> Seq<char> {
        transcript_line(
            self.files[i],
            target(self.folder, self.files[i], self.dates[i], alternate),
        )
    }

    /// What holds of the state in every phase.
    pub open spec fn wf(self) -> bool {
        &&& self.num_files == self.files.len()
        &&& forall|i: int| 0 <= i < self.files.len() ==> has_media_extension(#[trigger] self.files[i])
        &&& self.dates.len() <= self.files.len()
        &&& forall|i: int| 0 <= i < self.dates.len() ==> is_date_text(#[trigger] self.dates[i])
        &&& self.report.len() <= self.dates.len()
        &&& forall|i: int|
            0 <= i < self.report.len() ==> #[trigger] self.report[i] == self.line_at(i, false)
                || self.report[i] == self.line_at(i, true)
        &&& match self.phase {
            Phase::Idle => true,
            Phase::Gathering => {
                &&& self.dates.len() < self.files.len()
                &&& self.report.len() == 0
                &&& self.progress == self.dates.len()
            },
            Phase::CheckingSorted | Phase::CreatingSorted | Phase::CreatingLog => {
                &&& self.dates.len() == self.files.len()
                &&& self.report.len() == 0
                &&& self.progress == 0
            },
            Phase::Probing
            | Phase::Copying { .. }
            | Phase::MakingFolders { .. }
            | Phase::Retrying { .. } => {
                &&& self.dates.len() == self.files.len()
                &&& self.report.len() < self.files.len()
                &&& self.progress == self.report.len()
            },
            Phase::WritingLog => {
                &&& self.dates.len() == self.files.len()
                &&& self.report.len() == self.files.len()
                &&& self.progress == self.files.len()
            },
        }
    }

    /// The state that a scan of `folder` leaves: nothing sorted, no sort under
    /// way.
    pub open spec fn scanned(folder: Seq<char>, files: Seq<Seq<char>>) -> SortModel {
        SortModel {
            files,
            folder,
            num_files: files.len(),
            progress: 0,
            status: sorted_text(0),
            phase: Phase::Idle,
            dates: Seq::empty(),
            report: Seq::empty(),
        }
    }

    /// The copying pass begins: the engine asks whether `sorted` is there.
    pub open spec fn check(self) -> (SortModel, Action) {
        (
            SortModel { progress: 0, status: sorting_text(), phase: Phase::CheckingSorted, ..self },
            Action::ProbeFolder { path: sorted_folder(self.folder) },
        )
    }

    /// A sort begins: the engine asks for the creation time of the first file,
    /// or goes on to the copying pass where there is no file.
    pub open spec fn begin(self) -> (SortModel, Action) {
        let fresh = SortModel {
            progress: 0,
            status: gathering_text(),
            dates: Seq::empty(),
            report: Seq::empty(),
            ..self
        };
        if self.files.len() == 0 {
            fresh.check()
        } else {
            (
                SortModel { phase: Phase::Gathering, ..fresh },
                Action::ReadCreated { path: self.files[0] },
            )
        }
    }

    /// The date of one more file is known.
    pub open spec fn gathered(self, date: Seq<char>) -> (SortModel, Action) {
        let more = SortModel {
            dates: self.dates.push(date),
            progress: self.progress + 1,
            ..self
        };
        if more.dates.len() >= self.files.len() {
            more.check()
        } else {
            (more, Action::ReadCreated { path: self.files[more.dates.len() as int] })
        }
    }

    /// The engine turns to the next file without a line in the transcript, or
    /// writes the log where every file has one.
    pub open spec fn next_file(self) -> (SortModel, Action) {
        if self.report.len() >= self.files.len() {
            (
                SortModel { phase: Phase::WritingLog, ..self },
                Action::WriteFile { path: log_path(self.folder), text: log_text(self.report) },
            )
        } else {
            (
                SortModel { phase: Phase::Probing, ..self },
                Action::ProbeFile { path: self.current_target(false) },
            )
        }
    }

    /// The file was copied: it gets its line in the transcript.
    pub open spec fn copied(self, alternate: bool) -> (SortModel, Action) {
        let line = transcript_line(self.files[self.current()], self.current_target(alternate));
        SortModel {
            report: self.report.push(line),
            progress: self.progress + 1,
            status: line,
            ..self
        }.next_file()
    }

    /// The sort stops with an error.
    pub open spec fn failed(self, error: SortError) -> (SortModel, Action) {
        (
            SortModel { phase: Phase::Idle, status: error_text(error), ..self },
            Action::Failed(error),
        )
    }

    /// The copy of the current file, to one of its destinations.
    pub open spec fn copy_action(self, alternate: bool) -> Action {
        Action::Copy { from: self.files[self.current()], to: self.current_target(alternate) }
    }

    /// What the engine does with an answer while it places a file.
    pub open spec fn place(self, event: SortEvent) -> (SortModel, Action) {
        match (self.phase, event) {
            (Phase::Probing, SortEvent::Exists(taken)) => (
                SortModel { phase: Phase::Copying { alternate: taken }, ..self },
                self.copy_action(taken),
            ),
            (Phase::Copying { alternate }, SortEvent::Done(ok)) => if ok {
                self.copied(alternate)
            } else {
                (
                    SortModel { phase: Phase::MakingFolders { alternate }, ..self },
                    Action::CreateFolders {
                        path: bucket_folder(self.folder, self.dates[self.current()]),
                    },
                )
            },
            (Phase::MakingFolders { alternate }, SortEvent::Done(ok)) => if ok {
                (
                    SortModel { phase: Phase::Retrying { alternate }, ..self },
                    self.copy_action(alternate),
                )
            } else {
                self.failed(SortError::CreateFolders)
            },
            (Phase::Retrying { alternate }, SortEvent::Done(ok)) => if ok {
                self.copied(alternate)
            } else {
                self.failed(SortError::Copy)
            },
            _ => (self, Action::Nothing),
        }
    }

    /// What the engine does with an event: the next state, and what it asks of
    /// the shell. An event that the phase does not wait for changes nothing.
    pub open spec fn step(self, event: SortEvent) -> (SortModel, Action) {
        match (self.phase, event) {
            (Phase::Idle, SortEvent::Start) => self.begin(),
            (Phase::Gathering, SortEvent::Created(created, offset)) => self.gathered(
                date_at_offset(created, offset),
            ),
            (Phase::CheckingSorted, SortEvent::Exists(found)) => if found {
                (SortModel { phase: Phase::Idle, status: abort_text(), ..self }, Action::Aborted)
            } else {
                (
                    SortModel { phase: Phase::CreatingSorted, ..self },
                    Action::CreateFolder { path: sorted_folder(self.folder) },
                )
            },
            (Phase::CreatingSorted, SortEvent::Done(ok)) => if ok {
                (
                    SortModel { phase: Phase::CreatingLog, ..self },
                    Action::CreateFile { path: log_path(self.folder) },
                )
            } else {
                self.failed(SortError::CreateFolder)
            },
            (Phase::CreatingLog, SortEvent::Done(ok)) => if ok {
                self.next_file()
            } else {
                self.failed(SortError::CreateLog)
            },
            (Phase::WritingLog, SortEvent::Done(ok)) => if ok {
                (
                    SortModel { phase: Phase::Idle, status: sorted_text(self.num_files), ..self },
                    Action::Finished,
                )
            } else {
                self.failed(SortError::WriteLog)
            },
            _ => self.place(event),
        }
    }

    /// The states and actions of a run over a list of events.
    pub open spec fn run(self, events: Seq<SortEvent>) -> (SortModel, Seq<Action>)
        decreases events.len(),
    {
        if events.len() == 0 {
            (self, Seq::empty())
        } else {
            let (before, actions) = self.run(events.drop_last());
            let (after, action) = before.step(events.last());
            (after, actions.push(action))
        }
    }
}

/// Every step keeps the state well formed, the files and the folder as they
/// were, provided that a date which is gathered has the form of one.
pub proof fn lemma_step_keeps_wf(m: SortModel, event: SortEvent)
    requires
        m.wf(),
        m.phase is Gathering ==> brings_a_date(event),
    ensures
        m.step(event).0.wf(),
        m.step(event).0.files == m.files,
        m.step(event).0.folder == m.folder,
        m.step(event).0.num_files == m.num_files,
{
}

/// The guard against sorting twice: where the folder `sorted` is found, the
/// sort ends at once, with the status that tells the user to move it away.
pub proof fn lemma_guard_aborts(m: SortModel)
    requires
        m.phase is CheckingSorted,
    ensures
        m.step(SortEvent::Exists(true)) == (
            SortModel { phase: Phase::Idle, status: abort_text(), ..m },
            Action::Aborted,
        ),
{
}

/// A sort of a folder whose `sorted` is there writes nothing. From a state in
/// which nothing was written yet, and over any events among which no probe is
/// answered with "not there", no action of the engine changes what is on
/// disk, and the engine does not get past the check for `sorted`.
pub proof fn lemma_nothing_written_before_guard(m: SortModel, events: Seq<SortEvent>)
    requires
        before_guard(m.phase),
        forall|i: int| 0 <= i < events.len() ==> events[i] != SortEvent::Exists(false),
    ensures
        before_guard(m.run(events).0.phase),
        m.run(events).1.len() == events.len(),
        forall|j: int| 0 <= j < events.len() ==> !is_write(#[trigger] m.run(events).1[j]),
    decreases events.len(),
{
    if events.len() > 0 {
        let head = events.drop_last();
        assert forall|i: int| 0 <= i < head.len() implies head[i] != SortEvent::Exists(false) by {
            assert(head[i] == events[i]);
        }
        lemma_nothing_written_before_guard(m, head);
        assert(events.last() == events[events.len() - 1]);
    }
}

/// The state after the request to sort and the creation times of the first
/// `k` files: the engine gathers on, or checks for `sorted` when all are in.
proof fn lemma_gathering(m: SortModel, events: Seq<SortEvent>, k: int)
    requires
        m.wf(),
        m.phase is Idle,
        0 <= k <= m.files.len(),
        k < events.len(),
        events[0] == SortEvent::Start,
        forall|i: int| 1 <= i <= k ==> (#[trigger] events[i]) is Created && brings_a_date(events[i]),
    ensures
        ({
            let after = m.run(events.take(k + 1)).0;
            &&& after.wf()
            &&& after.files == m.files
            &&& after.folder == m.folder
            &&& k < m.files.len() ==> after.phase is Gathering && after.dates.len() == k
            &&& k == m.files.len() ==> after.phase is CheckingSorted
        }),
    decreases k,
{
    let upto = events.take(k + 1);
    assert(upto.last() == events[k]);
    if k == 0 {
        assert(upto.drop_last() =~= Seq::<SortEvent>::empty());
        assert(m.run(upto.drop_last()).0 == m);
        lemma_step_keeps_wf(m, SortEvent::Start);
    } else {
        lemma_gathering(m, events, k - 1);
        assert(upto.drop_last() =~= events.take(k));
        let before = m.run(events.take(k)).0;
        lemma_step_keeps_wf(before, events[k]);
    }
}

/// A whole sort of a folder whose `sorted` is there: the request to sort, the
/// creation time of every file, and the answer that `sorted` was found. The
/// sort ends with `Aborted` and the status that tells the user what to do;
/// none of its actions changes what is on disk.
pub proof fn lemma_sort_aborts_where_sorted_exists(m: SortModel, events: Seq<SortEvent>)
    requires
        m.wf(),
        m.phase is Idle,
        events.len() == m.files.len() + 2,
        events[0] == SortEvent::Start,
        forall|i: int|
            1 <= i <= m.files.len() ==> (#[trigger] events[i]) is Created && brings_a_date(events[i]),
        events.last() == SortEvent::Exists(true),
    ensures
        ({
            let (after, actions) = m.run(events);
            &&& actions.len() == events.len()
            &&& actions.last() == Action::Aborted
            &&& forall|j: int| 0 <= j < actions.len() ==> !is_write(#[trigger] actions[j])
            &&& after.phase is Idle
            &&& after.status == abort_text()
            &&& after.files == m.files
            &&& after.folder == m.folder
        }),
{
    let n = m.files.len() as int;
    lemma_gathering(m, events, n);
    assert(events.drop_last() =~= events.take(n + 1));
    assert forall|i: int| 0 <= i < events.len() implies events[i] != SortEvent::Exists(false) by {
        if 1 <= i <= n {
            assert(events[i] is Created);
        }
    }
    lemma_nothing_written_before_guard(m, events);
}

/// A destination that is taken is left alone: the engine asks for a copy to
/// the path that it probed only where nothing was found there; else the copy
/// goes to the second destination, which is another path.
pub proof fn lemma_taken_destination_is_left_alone(m: SortModel, taken: bool)
    requires
        m.phase is Probing,
    ensures
        m.step(SortEvent::Exists(taken)).1 == (Action::Copy {
            from: m.files[m.current()],
            to: m.current_target(taken),
        }),
        taken ==> m.current_target(taken) != m.current_target(false),
{
    lemma_alternate_differs(m.folder, m.files[m.current()], m.dates[m.current()]);
}

/// A sort that finishes has written one line for each file, in the order of
/// the files; each line names the file and one of its two destinations. The
/// progress is then complete, and the status counts the files.
pub proof fn lemma_finished_transcript_complete(m: SortModel, event: SortEvent)
    requires
        m.wf(),
        m.step(event).1 is Finished,
    ensures
        ({
            let after = m.step(event).0;
            &&& after.report == m.report
            &&& after.report.len() == after.files.len()
            &&& after.progress == after.num_files
            &&& after.status == sorted_text(after.num_files)
            &&& forall|i: int|
                0 <= i < after.files.len() ==> #[trigger] after.report[i] == after.line_at(i, false)
                    || after.report[i] == after.line_at(i, true)
        }),
{
    let after = m.step(event).0;
    assert forall|i: int| 0 <= i < after.files.len() implies #[trigger] after.report[i]
        == after.line_at(i, false) || after.report[i] == after.line_at(i, true) by {
        assert(m.report[i] == m.line_at(i, false) || m.report[i] == m.line_at(i, true));
    }
}

/// The log that is written holds the whole transcript: the engine asks for it
/// only when every file has its line.
pub proof fn lemma_log_holds_transcript(m: SortModel, event: SortEvent)
    requires
        m.wf(),
        m.step(event).1 is WriteFile,
    ensures
        ({
            let (after, action) = m.step(event);
            &&& after.report.len() == m.files.len()
            &&& action == Action::WriteFile { path: log_path(m.folder), text: log_text(after.report) }
        }),
{
}

/// While the engine waits for the outcome of a copy, the copy that it asked
/// for is that of the current file to the destination that the phase names.
pub proof fn lemma_awaited_copy(m: SortModel, event: SortEvent)
    requires
        !(m.step(event).1 is Nothing),
    ensures
        ({
            let (after, action) = m.step(event);
            forall|alternate: bool|
                after.phase == (Phase::Copying { alternate }) || after.phase == (Phase::Retrying {
                    alternate,
                }) ==> action == #[trigger] after.copy_action(alternate)
        }),
{
}

/// A line enters the transcript only when a copy is reported to have
/// succeeded; it names the current file and the destination of the copy that
/// was waited for.
pub proof fn lemma_line_follows_copy(m: SortModel, event: SortEvent)
    requires
        m.wf(),
        m.step(event).0.report.len() > m.report.len(),
    ensures
        event == SortEvent::Done(true),
        exists|alternate: bool|
            {
                &&& (m.phase == Phase::Copying { alternate } || m.phase == Phase::Retrying {
                    alternate,
                })
                &&& m.step(event).0.report == m.report.push(
                    #[trigger] transcript_line(m.files[m.current()], m.current_target(alternate)),
                )
            },
{
    match m.phase {
        Phase::Copying { alternate } => {
            assert(m.step(event).0.report == m.report.push(
                transcript_line(m.files[m.current()], m.current_target(alternate)),
            ));
        },
        Phase::Retrying { alternate } => {
            assert(m.step(event).0.report == m.report.push(
                transcript_line(m.files[m.current()], m.current_target(alternate)),
            ));
        },
        _ => {},
    }
}

/// During the copying pass the progress never falls, rises by one file at
/// most in a step, and stays within the number of files.
pub proof fn lemma_progress_rises(m: SortModel, event: SortEvent)
    requires
        m.wf(),
        in_copy_pass(m.phase),
    ensures
        m.progress <= m.step(event).0.progress <= m.progress + 1,
        m.step(event).0.progress <= m.num_files,
{
}

/// Over any run of events that starts in the copying pass and holds no new
/// request to sort, the progress at the end is no less than at the start.
pub proof fn lemma_progress_never_falls(m: SortModel, events: Seq<SortEvent>)
    requires
        m.wf(),
        in_copy_pass(m.phase),
        forall|i: int| 0 <= i < events.len() ==> events[i] != SortEvent::Start,
    ensures
        m.run(events).0.wf(),
        !(m.run(events).0.phase is Gathering),
        m.run(events).0.num_files == m.num_files,
        m.progress <= m.run(events).0.progress <= m.num_files,
    decreases events.len(),
{
    if events.len() > 0 {
        let head = events.drop_last();
        assert forall|i: int| 0 <= i < head.len() implies head[i] != SortEvent::Start by {
            assert(head[i] == events[i]);
        }
        lemma_progress_never_falls(m, head);
        let before = m.run(head).0;
        assert(events.last() == events[events.len() - 1]);
        assert(m.run(events).0 == before.step(events.last()).0);
        lemma_step_keeps_wf(before, events.last());
        if in_copy_pass(before.phase) {
            lemma_progress_rises(before, events.last());
        } else {
            assert(before.step(events.last()).0 == before);
        }
    }
}

} // verus!
