//! What a sort leaves on disk, if the file system does what it is asked to do.
//!
//! The engine sees the disk only through the answers of the shell. Here the
//! files on disk are a map from paths to bytes, `answers` says what an honest
//! file system may answer to each action and how the files change with it,
//! and the laws follow a whole sort through the disks that it passes.

use crate::date::date_bucket;
use crate::model::{brings_a_date, lemma_step_keeps_wf, Action, Phase, SortEvent, SortModel};
use crate::place::{bucket_folder, log_path, log_text, sorted_folder, target, transcript_line};
use vstd::prelude::*;

verus! {

/// The path lies below the folder.
pub open spec fn below(folder: Seq<char>, path: Seq<char>) -> bool {
    path.len() > folder.len() && path.take(folder.len() + 1 as int) == folder + "/"@
}

/// No file lies below the folder.
pub open spec fn nothing_below(files: Map<Seq<char>, Seq<u8>>, folder: Seq<char>) -> bool {
    forall|file: Seq<char>| files.dom().contains(file) ==> !(#[trigger] below(folder, file))
}

/// What an honest file system may answer to an action, and what the files are
/// afterwards. Reading and probing change nothing, and a probe tells what is
/// there; where a folder is not there, no file lies below it. An action that
/// fails changes nothing. A copy that succeeds leaves the bytes of the source
/// at the destination and all other files as they were; making or writing a
/// file changes that file alone; making folders changes no file. To the
/// actions that end a sort there is no answer.
pub open spec fn answers(
    before: Map<Seq<char>, Seq<u8>>,
    action: Action,
    event: SortEvent,
    after: Map<Seq<char>, Seq<u8>>,
) -> bool {
    match action {
        Action::ReadCreated { .. } => event is Created && after == before,
        Action::ProbeFolder { path } => {
            &&& event is Exists
            &&& after == before
            &&& event == SortEvent::Exists(false) ==> nothing_below(before, path)
        },
        Action::ProbeFile { path } => event == SortEvent::Exists(before.dom().contains(path))
            && after == before,
        Action::CreateFolder { .. } | Action::CreateFolders { .. } => event is Done && after
            == before,
        Action::CreateFile { path } | Action::WriteFile { path, .. } => {
            &&& event is Done
            &&& event == SortEvent::Done(false) ==> after == before
            &&& event == SortEvent::Done(true) ==> after.dom().contains(path) && after.remove(path)
                == before.remove(path)
        },
        Action::Copy { from, to } => {
            &&& event is Done
            &&& event == SortEvent::Done(false) ==> after == before
            &&& event == SortEvent::Done(true) ==> before.dom().contains(from) && after
                == before.insert(to, before[from])
        },
        Action::Finished | Action::Aborted | Action::Failed(_) | Action::Nothing => false,
    }
}

/// A sort on an honest file system: the first event is the request to sort,
/// each later event answers the action that the engine asked for last, and
/// `disks[k]` holds the files as they are when event `k` is reported.
pub open spec fn honest_sort(
    m: SortModel,
    events: Seq<SortEvent>,
    disks: Seq<Map<Seq<char>, Seq<u8>>>,
) -> bool {
    &&& events.len() == disks.len()
    &&& events.len() >= 1
    &&& events[0] == SortEvent::Start
    &&& forall|k: int|
        1 <= k < events.len() ==> answers(
            disks[k - 1],
            (#[trigger] m.run(events.take(k))).1.last(),
            events[k],
            disks[k],
        )
}

/// The destination that line `i` of the transcript names.
pub open spec fn logged_destination(m: SortModel, i: int) -> Seq<char> {
    m.report[i].skip(m.files[i].len() + 4 as int)
}

/// The transcript names no destination twice.
pub open spec fn destinations_differ(m: SortModel) -> bool {
    forall|i: int, j: int|
        0 <= i < j < m.report.len() ==> #[trigger] logged_destination(m, i)
            != #[trigger] logged_destination(m, j)
}

/// The action that the engine waits for in a phase; none while it is idle.
pub open spec fn pending(m: SortModel) -> Action {
    match m.phase {
        Phase::Idle => Action::Nothing,
        Phase::Gathering => Action::ReadCreated { path: m.files[m.dates.len() as int] },
        Phase::CheckingSorted => Action::ProbeFolder { path: sorted_folder(m.folder) },
        Phase::CreatingSorted => Action::CreateFolder { path: sorted_folder(m.folder) },
        Phase::CreatingLog => Action::CreateFile { path: log_path(m.folder) },
        Phase::Probing => Action::ProbeFile { path: m.current_target(false) },
        Phase::Copying { alternate } | Phase::Retrying { alternate } => m.copy_action(alternate),
        Phase::MakingFolders { .. } => Action::CreateFolders {
            path: bucket_folder(m.folder, m.dates[m.current()]),
        },
        Phase::WritingLog => Action::WriteFile {
            path: log_path(m.folder),
            text: log_text(m.report),
        },
    }
}

/// Every file that is to be sorted is on disk.
pub open spec fn sources_there(m: SortModel, files: Map<Seq<char>, Seq<u8>>) -> bool {
    forall|i: int| 0 <= i < m.files.len() ==> files.dom().contains(#[trigger] m.files[i])
}

/// The files as they are once the check for `sorted` has found nothing:
/// nothing lay below `sorted` at the start, every file outside it is as it
/// was, and, if the files to be sorted were there at the start and the
/// transcript names no destination twice, each destination that it names
/// holds the bytes that its source had at the start.
pub open spec fn copies_hold(
    m: SortModel,
    disk: Map<Seq<char>, Seq<u8>>,
    start: Map<Seq<char>, Seq<u8>>,
) -> bool {
    &&& nothing_below(start, sorted_folder(m.folder))
    &&& forall|file: Seq<char>|
        !(#[trigger] below(sorted_folder(m.folder), file)) ==> disk.dom().contains(file)
            == start.dom().contains(file) && (start.dom().contains(file) ==> disk[file]
            == start[file])
    &&& destinations_differ(m) && sources_there(m, start) ==> forall|i: int|
        0 <= i < m.report.len() ==> disk.dom().contains(#[trigger] logged_destination(m, i))
            && disk[logged_destination(m, i)] == start[m.files[i]]
}

/// What holds of the state, the action that is waited for and the files,
/// after every event of an honest sort.
pub open spec fn on_course(
    m: SortModel,
    action: Action,
    disk: Map<Seq<char>, Seq<u8>>,
    start: Map<Seq<char>, Seq<u8>>,
) -> bool {
    match m.phase {
        Phase::Idle => {
            &&& action is Aborted ==> disk == start
            &&& action is Finished ==> m.report.len() == m.files.len() && copies_hold(
                m,
                disk,
                start,
            )
        },
        Phase::Gathering | Phase::CheckingSorted => action == pending(m) && disk == start,
        _ => action == pending(m) && copies_hold(m, disk, start),
    }
}

/// Both destinations of a file lie below `sorted`, and so does the log.
pub proof fn lemma_written_below_sorted(
    root: Seq<char>,
    file: Seq<char>,
    date: Seq<char>,
    alternate: bool,
)
    ensures
        below(sorted_folder(root), target(root, file, date, alternate)),
        below(sorted_folder(root), log_path(root)),
{
    reveal_strlit("/");
    reveal_strlit("/sort_log.txt");
    let s = sorted_folder(root);
    assert(target(root, file, date, alternate).take(s.len() + 1 as int) =~= s + "/"@);
    assert(log_path(root).take(s.len() + 1 as int) =~= s + "/"@);
}

/// No destination of a file is the log.
pub proof fn lemma_destination_is_not_the_log(
    root: Seq<char>,
    file: Seq<char>,
    date: Seq<char>,
    alternate: bool,
)
    requires
        date.len() >= 7,
    ensures
        target(root, file, date, alternate) != log_path(root),
{
    reveal_strlit("/");
    reveal_strlit("/sort_log.txt");
    let s = sorted_folder(root);
    let to = target(root, file, date, alternate);
    assert(date_bucket(date).len() == 7);
    assert(to[s.len() + 8 as int] == '/');
    assert(log_path(root)[s.len() + 8 as int] == 'g');
}

/// A line of the transcript names the destination that the copy went to.
pub proof fn lemma_logged_destination(m: SortModel, i: int)
    requires
        m.wf(),
        0 <= i < m.report.len(),
    ensures
        logged_destination(m, i) == target(m.folder, m.files[i], m.dates[i], false)
            || logged_destination(m, i) == target(m.folder, m.files[i], m.dates[i], true),
{
    reveal_strlit(" -> ");
    let file = m.files[i];
    if m.report[i] == m.line_at(i, false) {
        let to = target(m.folder, file, m.dates[i], false);
        assert(transcript_line(file, to).skip(file.len() + 4 as int) =~= to);
    } else {
        let to = target(m.folder, file, m.dates[i], true);
        assert(m.report[i] == m.line_at(i, true));
        assert(transcript_line(file, to).skip(file.len() + 4 as int) =~= to);
    }
}

/// Where one file alone was changed, every other file is as it was.
proof fn lemma_other_files_stay(
    before: Map<Seq<char>, Seq<u8>>,
    after: Map<Seq<char>, Seq<u8>>,
    changed: Seq<char>,
    file: Seq<char>,
)
    requires
        after.remove(changed) == before.remove(changed),
        file != changed,
    ensures
        after.dom().contains(file) == before.dom().contains(file),
        before.dom().contains(file) ==> after[file] == before[file],
{
    assert(after.remove(changed).dom().contains(file) == after.dom().contains(file));
    assert(before.remove(changed).dom().contains(file) == before.dom().contains(file));
    if before.dom().contains(file) {
        assert(after.remove(changed)[file] == after[file]);
        assert(before.remove(changed)[file] == before[file]);
    }
}

/// States with the same files and the same transcript name the same
/// destinations.
proof fn lemma_same_destinations(m: SortModel, next: SortModel)
    requires
        next.report == m.report,
        next.files == m.files,
    ensures
        forall|i: int| #[trigger] logged_destination(next, i) == logged_destination(m, i),
        destinations_differ(next) == destinations_differ(m),
{
    assert forall|i: int| #[trigger] logged_destination(next, i) == logged_destination(m, i) by {}
    if destinations_differ(m) {
        assert forall|i: int, j: int| 0 <= i < j < next.report.len() implies #[trigger]
            logged_destination(next, i) != #[trigger] logged_destination(next, j) by {
            assert(logged_destination(m, i) != logged_destination(m, j));
        }
    }
    if destinations_differ(next) {
        assert forall|i: int, j: int| 0 <= i < j < m.report.len() implies #[trigger]
            logged_destination(m, i) != #[trigger] logged_destination(m, j) by {
            assert(logged_destination(next, i) != logged_destination(next, j));
        }
    }
}

/// A copy that succeeded leaves every destination of the transcript, the new
/// one too, with the bytes of its source.
proof fn lemma_copy_keeps_copies(
    m: SortModel,
    alternate: bool,
    before: Map<Seq<char>, Seq<u8>>,
    after: Map<Seq<char>, Seq<u8>>,
    start: Map<Seq<char>, Seq<u8>>,
)
    requires
        m.wf(),
        m.phase == (Phase::Copying { alternate }) || m.phase == (Phase::Retrying { alternate }),
        copies_hold(m, before, start),
        before.dom().contains(m.files[m.current()]),
        after == before.insert(m.current_target(alternate), before[m.files[m.current()]]),
    ensures
        copies_hold(m.copied(alternate).0, after, start),
{
    reveal_strlit(" -> ");
    let next = m.copied(alternate).0;
    let at = m.current();
    let from = m.files[at];
    let to = m.current_target(alternate);
    let sorted = sorted_folder(m.folder);
    lemma_written_below_sorted(m.folder, from, m.dates[at], alternate);
    assert(next.report == m.report.push(transcript_line(from, to)));
    assert(next.files == m.files && next.folder == m.folder);
    assert(logged_destination(next, at) =~= to);
    assert forall|i: int| 0 <= i < at implies logged_destination(next, i) == logged_destination(
        m,
        i,
    ) by {
        assert(next.report[i] == m.report[i]);
    }
    assert forall|file: Seq<char>| !(#[trigger] below(sorted, file)) implies after.dom().contains(
        file,
    ) == start.dom().contains(file) && (start.dom().contains(file) ==> after[file]
        == start[file]) by {
        assert(file != to);
    }
    if destinations_differ(next) && sources_there(next, start) {
        assert(sources_there(m, start));
        assert(start.dom().contains(m.files[at]));
        assert(!below(sorted, from));
        assert(destinations_differ(m)) by {
            assert forall|i: int, j: int| 0 <= i < j < m.report.len() implies #[trigger]
                logged_destination(m, i) != #[trigger] logged_destination(m, j) by {
                assert(logged_destination(next, i) != logged_destination(next, j));
            }
        }
        assert forall|i: int| 0 <= i < next.report.len() implies after.dom().contains(
            #[trigger] logged_destination(next, i),
        ) && after[logged_destination(next, i)] == start[next.files[i]] by {
            if i < at {
                assert(logged_destination(next, i) != logged_destination(next, at));
                assert(before.dom().contains(logged_destination(m, i)));
            }
        }
    }
}

/// Each event of an honest sort keeps it on course.
proof fn lemma_step_on_course(
    m: SortModel,
    action: Action,
    event: SortEvent,
    before: Map<Seq<char>, Seq<u8>>,
    after: Map<Seq<char>, Seq<u8>>,
    start: Map<Seq<char>, Seq<u8>>,
)
    requires
        m.wf(),
        brings_a_date(event),
        on_course(m, action, before, start),
        answers(before, action, event, after),
    ensures
        on_course(m.step(event).0, m.step(event).1, after, start),
{
    let (next, asked) = m.step(event);
    let sorted = sorted_folder(m.folder);
    lemma_step_keeps_wf(m, event);
    match m.phase {
        Phase::Idle => {
            assert(asked is Nothing);
        },
        Phase::Gathering => {
            assert(after == before);
        },
        Phase::CheckingSorted => {
            assert(after == before);
            if event == SortEvent::Exists(false) {
                assert(nothing_below(before, sorted));
                assert(next.report.len() == 0);
                assert(copies_hold(next, after, start));
            }
        },
        Phase::CreatingSorted => {
            assert(after == before);
            lemma_same_destinations(m, next);
            assert(on_course(next, asked, after, start));
        },
        Phase::Probing => {
            assert(after == before);
            lemma_same_destinations(m, next);
            assert(on_course(next, asked, after, start));
        },
        Phase::MakingFolders { .. } => {
            assert(after == before);
            lemma_same_destinations(m, next);
            assert(on_course(next, asked, after, start));
        },
        Phase::CreatingLog | Phase::WritingLog => {
            lemma_written_below_sorted(m.folder, m.folder, m.folder, false);
            lemma_same_destinations(m, next);
            if event == SortEvent::Done(true) {
                let log = log_path(m.folder);
                assert forall|file: Seq<char>| !(#[trigger] below(sorted, file)) implies after.dom().contains(
                    file,
                ) == start.dom().contains(file) && (start.dom().contains(file) ==> after[file]
                    == start[file]) by {
                    assert(file != log);
                    lemma_other_files_stay(before, after, log, file);
                }
                if destinations_differ(next) && sources_there(next, start) {
                    assert(sources_there(m, start));
                    assert forall|i: int| 0 <= i < next.report.len() implies after.dom().contains(
                        #[trigger] logged_destination(next, i),
                    ) && after[logged_destination(next, i)] == start[next.files[i]] by {
                        lemma_logged_destination(m, i);
                        lemma_destination_is_not_the_log(m.folder, m.files[i], m.dates[i], false);
                        lemma_destination_is_not_the_log(m.folder, m.files[i], m.dates[i], true);
                        assert(logged_destination(next, i) == logged_destination(m, i));
                        assert(before.dom().contains(logged_destination(m, i)));
                        lemma_other_files_stay(before, after, log, logged_destination(m, i));
                    }
                }
                assert(copies_hold(next, after, start));
            }
            assert(on_course(next, asked, after, start));
        },
        Phase::Copying { alternate } | Phase::Retrying { alternate } => {
            if event == SortEvent::Done(true) {
                lemma_copy_keeps_copies(m, alternate, before, after, start);
                lemma_same_destinations(m.copied(alternate).0, next);
                assert(copies_hold(next, after, start));
            } else {
                assert(after == before);
                lemma_same_destinations(m, next);
            }
            assert(on_course(next, asked, after, start));
        },
    }
}

/// The state, the last action and the files after the first `k` events of an
/// honest sort.
proof fn lemma_sort_on_course(
    m: SortModel,
    events: Seq<SortEvent>,
    disks: Seq<Map<Seq<char>, Seq<u8>>>,
    k: int,
)
    requires
        m.wf(),
        m.phase is Idle,
        honest_sort(m, events, disks),
        forall|i: int| 0 <= i < events.len() ==> brings_a_date(#[trigger] events[i]),
        1 <= k <= events.len(),
    ensures
        ({
            let (state, actions) = m.run(events.take(k));
            &&& actions.len() == k
            &&& state.wf()
            &&& state.files == m.files
            &&& on_course(state, actions.last(), disks[k - 1], disks[0])
        }),
    decreases k,
{
    let upto = events.take(k);
    assert(upto.last() == events[k - 1]);
    if k == 1 {
        assert(upto.drop_last() =~= Seq::<SortEvent>::empty());
        assert(m.run(upto.drop_last()) == (m, Seq::<Action>::empty()));
        lemma_step_keeps_wf(m, SortEvent::Start);
    } else {
        lemma_sort_on_course(m, events, disks, k - 1);
        assert(upto.drop_last() =~= events.take(k - 1));
        let (state, actions) = m.run(events.take(k - 1));
        assert(answers(disks[k - 2], actions.last(), events[k - 1], disks[k - 1]));
        lemma_step_on_course(state, actions.last(), events[k - 1], disks[k - 2], disks[k - 1], disks[0]);
        lemma_step_keeps_wf(state, events[k - 1]);
    }
}

/// A sort that finishes on an honest file system leaves each file where the
/// transcript says, with the bytes that the file had at the start, provided
/// that every file was there at the start and that the transcript names no
/// destination twice. Without the last condition a later copy may have
/// replaced an earlier one: a second destination is not probed.
pub proof fn lemma_copies_hold_the_sources(
    m: SortModel,
    events: Seq<SortEvent>,
    disks: Seq<Map<Seq<char>, Seq<u8>>>,
)
    requires
        m.wf(),
        m.phase is Idle,
        honest_sort(m, events, disks),
        forall|i: int| 0 <= i < events.len() ==> brings_a_date(#[trigger] events[i]),
        sources_there(m, disks[0]),
        m.run(events).1.last() is Finished,
        destinations_differ(m.run(events).0),
    ensures
        ({
            let done = m.run(events).0;
            &&& done.files == m.files
            &&& done.report.len() == m.files.len()
            &&& forall|i: int|
                0 <= i < m.files.len() ==> {
                    &&& done.report[i] == transcript_line(
                        m.files[i],
                        #[trigger] logged_destination(done, i),
                    )
                    &&& disks.last().dom().contains(logged_destination(done, i))
                    &&& disks.last()[logged_destination(done, i)] == disks[0][m.files[i]]
                }
        }),
{
    let n = events.len() as int;
    lemma_sort_on_course(m, events, disks, n);
    assert(events.take(n) =~= events);
    let done = m.run(events).0;
    assert forall|i: int| 0 <= i < m.files.len() implies done.report[i] == transcript_line(
        m.files[i],
        #[trigger] logged_destination(done, i),
    ) by {
        reveal_strlit(" -> ");
        lemma_logged_destination(done, i);
        assert(done.report[i] == done.line_at(i, false) || done.report[i] == done.line_at(i, true));
    }
}

/// A sort that ends because `sorted` is there leaves every file as it was.
pub proof fn lemma_abort_leaves_the_disk(
    m: SortModel,
    events: Seq<SortEvent>,
    disks: Seq<Map<Seq<char>, Seq<u8>>>,
)
    requires
        m.wf(),
        m.phase is Idle,
        honest_sort(m, events, disks),
        forall|i: int| 0 <= i < events.len() ==> brings_a_date(#[trigger] events[i]),
        m.run(events).1.last() is Aborted,
    ensures
        disks.last() == disks[0],
{
    let n = events.len() as int;
    lemma_sort_on_course(m, events, disks, n);
    assert(events.take(n) =~= events);
}

} // verus!
