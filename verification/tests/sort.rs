use pycsort::{Phase, PycSort, ScanError, SortAction, SortError, SortEvent, Timestamp};
use std::collections::{BTreeMap, BTreeSet};

const MAY_10: i64 = 1_620_648_000;
const MAY_11: i64 = 1_620_734_400;
const DEC_15: i64 = 945_259_200;

const ABORT: &str =
    "Please delete or rename the existing `sorted` folder and rescan before sorting again";

/// A file system in memory, which does what the engine asks for.
#[derive(Default)]
struct Disk {
    files: BTreeMap<String, String>,
    folders: BTreeSet<String>,
    created: BTreeMap<String, i64>,
    refused: BTreeSet<String>,
    writes: usize,
    asked: Vec<String>,
    /// By how many seconds the local clock is ahead of UTC.
    offset: i32,
}

fn parent(path: &str) -> String {
    match path.rfind('/') {
        Some(cut) => path[..cut].to_string(),
        None => String::new(),
    }
}

impl Disk {
    fn with_files(root: &str, files: &[(&str, &str, i64)]) -> Disk {
        let mut disk = Disk::default();
        disk.make_folders(root);
        for (path, content, created) in files {
            disk.make_folders(&parent(path));
            disk.files.insert(path.to_string(), content.to_string());
            disk.created.insert(path.to_string(), *created);
        }
        disk
    }

    fn make_folders(&mut self, path: &str) {
        let mut at = path.to_string();
        while !at.is_empty() {
            self.folders.insert(at.clone());
            at = parent(&at);
        }
    }

    fn listing(&self) -> Vec<String> {
        self.files.keys().cloned().collect()
    }

    fn refuse(&mut self, what: &str) {
        self.refused.insert(what.to_string());
    }

    /// Does what the action asks for; `None` where the sort is over.
    fn perform(&mut self, action: &SortAction) -> Option<SortEvent> {
        self.asked.push(format!("{:?}", action));
        let refused = |disk: &Disk, what: &str| disk.refused.contains(what);
        match action {
            SortAction::ReadCreated { path } => Some(SortEvent::Created(
                self.created.get(path).map(|&secs| Timestamp { secs, nanos: 0 }),
                Some(self.offset),
            )),
            SortAction::ProbeFolder { path } => Some(SortEvent::Exists(self.folders.contains(path))),
            SortAction::ProbeFile { path } => Some(SortEvent::Exists(self.files.contains_key(path))),
            SortAction::CreateFolder { path } => {
                let ok = !refused(self, "create_folder")
                    && self.folders.contains(&parent(path))
                    && !self.folders.contains(path);
                if ok {
                    self.writes += 1;
                    self.folders.insert(path.clone());
                }
                Some(SortEvent::Done(ok))
            }
            SortAction::CreateFile { path } => {
                let ok = !refused(self, "create_file") && self.folders.contains(&parent(path));
                if ok {
                    self.writes += 1;
                    self.files.insert(path.clone(), String::new());
                }
                Some(SortEvent::Done(ok))
            }
            SortAction::Copy { from, to } => {
                let ok = !refused(self, "copy")
                    && self.files.contains_key(from)
                    && self.folders.contains(&parent(to));
                if ok {
                    self.writes += 1;
                    let content = self.files[from].clone();
                    self.files.insert(to.clone(), content);
                }
                Some(SortEvent::Done(ok))
            }
            SortAction::CreateFolders { path } => {
                let ok = !refused(self, "create_folders");
                if ok {
                    self.writes += 1;
                    self.make_folders(path);
                }
                Some(SortEvent::Done(ok))
            }
            SortAction::WriteFile { path, text } => {
                let ok = !refused(self, "write_file") && self.files.contains_key(path);
                if ok {
                    self.writes += 1;
                    self.files.insert(path.clone(), text.clone());
                }
                Some(SortEvent::Done(ok))
            }
            SortAction::Finished
            | SortAction::Aborted
            | SortAction::Failed(_)
            | SortAction::Nothing => None,
        }
    }
}

/// Runs a sort to its end; gives the last action and the progress after every step.
fn sort(engine: &mut PycSort, disk: &mut Disk) -> (SortAction, Vec<(Phase, usize)>) {
    let mut trail = Vec::new();
    let mut action = engine.sort_files(SortEvent::Start);
    loop {
        trail.push((engine.phase(), engine.progress()));
        match disk.perform(&action) {
            Some(event) => action = engine.sort_files(event),
            None => return (action, trail),
        }
    }
}

fn engine_for(root: &str, disk: &Disk) -> PycSort {
    let mut engine = PycSort::new("/home/me", Some(&Vec::new())).unwrap();
    engine.change_folder(root.to_string(), Some(&disk.listing())).unwrap();
    engine
}

#[test]
fn new_engine_looks_at_pictures_in_home() {
    let entries = vec![
        "/home/me/Pictures/a.jpg".to_string(),
        "/home/me/Pictures/notes.txt".to_string(),
        "/home/me/Pictures/sub/b.mkv".to_string(),
    ];
    let engine = PycSort::new("/home/me", Some(&entries)).unwrap();
    assert_eq!(engine.folder(), "/home/me/Pictures");
    assert_eq!(pycsort::engine::default_folder("/home/me"), "/home/me/Pictures");
    assert_eq!(
        engine.files(),
        &vec!["/home/me/Pictures/a.jpg".to_string(), "/home/me/Pictures/sub/b.mkv".to_string()]
    );
    assert_eq!(engine.num_files(), 2);
    assert_eq!(engine.progress(), 0);
    assert_eq!(engine.status(), "Sorted 0 pictures/videos");
    assert_eq!(engine.phase(), Phase::Idle);
    assert!(engine.report().is_empty());
    assert_eq!(engine.found(), "Found 2 pictures/videos in Pictures");
}

#[test]
fn folder_that_cannot_be_read_changes_nothing() {
    assert!(matches!(PycSort::new("/home/me", None), Err(ScanError::Unreadable)));
    let root = "/root";
    let mut disk = Disk::with_files(root, &[("/root/a.jpg", "A", MAY_10)]);
    let mut engine = engine_for(root, &disk);
    sort(&mut engine, &mut disk);
    assert_eq!(engine.change_folder("/gone".to_string(), None), Err(ScanError::Unreadable));
    assert_eq!(engine.rescan_folder(None), Err(ScanError::Unreadable));
    assert_eq!(engine.folder(), "/root");
    assert_eq!(engine.files(), &vec!["/root/a.jpg".to_string()]);
    assert_eq!(engine.num_files(), 1);
    assert_eq!(engine.progress(), 1);
    assert_eq!(engine.status(), "Sorted 1 pictures/videos");
    assert_eq!(engine.report().len(), 1);
}

#[test]
fn change_folder_takes_the_new_listing() {
    let mut engine =
        PycSort::new("/home/me", Some(&vec!["/home/me/Pictures/a.jpg".to_string()])).unwrap();
    let card =
        vec!["/mnt/card/x.png".to_string(), "/mnt/card/y.gif".to_string(), "/mnt/card/z".to_string()];
    assert_eq!(engine.change_folder("/mnt/card".to_string(), Some(&card)), Ok(()));
    assert_eq!(engine.folder(), "/mnt/card");
    assert_eq!(engine.num_files(), 2);
    assert_eq!(engine.status(), "Sorted 0 pictures/videos");
    assert_eq!(engine.found(), "Found 2 pictures/videos in card");
}

#[test]
fn change_folder_keeps_the_progress_and_rescan_resets_it() {
    let root = "/root";
    let mut disk = Disk::with_files(root, &[("/root/a.jpg", "A", MAY_10), ("/root/b.jpg", "B", MAY_10)]);
    let mut engine = engine_for(root, &disk);
    let (last, _) = sort(&mut engine, &mut disk);
    assert_eq!(last, SortAction::Finished);
    assert_eq!(engine.progress(), 2);
    engine.change_folder("/other".to_string(), Some(&vec!["/other/c.png".to_string()])).unwrap();
    assert_eq!(engine.progress(), 2);
    assert_eq!(engine.status(), "Sorted 0 pictures/videos");
    assert!(engine.report().is_empty());
    let other = vec!["/other/c.png".to_string(), "/other/d.png".to_string()];
    assert_eq!(engine.rescan_folder(Some(&other)), Ok(()));
    assert_eq!(engine.progress(), 0);
    assert_eq!(engine.num_files(), 2);
    assert_eq!(engine.folder(), "/other");
    assert_eq!(engine.status(), "Sorted 0 pictures/videos");
}

#[test]
fn rescan_keeps_folder_and_status() {
    let root = "/root";
    let mut disk = Disk::with_files(root, &[("/root/a.jpg", "A", MAY_10)]);
    let mut engine = engine_for(root, &disk);
    sort(&mut engine, &mut disk);
    assert_eq!(engine.status(), "Sorted 1 pictures/videos");
    engine.rescan_folder(Some(&disk.listing())).unwrap();
    assert_eq!(engine.folder(), "/root");
    assert_eq!(engine.status(), "Sorted 1 pictures/videos");
    assert_eq!(engine.files(), &vec!["/root/a.jpg".to_string(), "/root/sorted/2021/05/a.jpg".to_string()]);
    assert_eq!(engine.phase(), Phase::Idle);
}

#[test]
fn sorts_into_year_and_month() {
    let root = "/root";
    let mut disk = Disk::with_files(
        root,
        &[("/root/img1.jpg", "picture", MAY_10), ("/root/clip1.mp4", "video", MAY_11)],
    );
    let mut engine = engine_for(root, &disk);
    assert_eq!(engine.files(), &vec!["/root/img1.jpg".to_string(), "/root/clip1.mp4".to_string()]);
    let (last, _) = sort(&mut engine, &mut disk);
    assert_eq!(last, SortAction::Finished);
    assert_eq!(disk.files["/root/sorted/2021/05/img1.jpg"], "picture");
    assert_eq!(disk.files["/root/sorted/2021/05/clip1.mp4"], "video");
    assert_eq!(
        disk.files["/root/sorted/sort_log.txt"],
        "/root/img1.jpg -> /root/sorted/2021/05/img1.jpg\n\
         /root/clip1.mp4 -> /root/sorted/2021/05/clip1.mp4\n"
    );
    assert_eq!(disk.files["/root/sorted/sort_log.txt"].lines().count(), 2);
    assert_eq!(engine.status(), "Sorted 2 pictures/videos");
    assert_eq!(engine.phase(), Phase::Idle);
    assert_eq!(disk.files["/root/img1.jpg"], "picture");
    assert_eq!(disk.files["/root/clip1.mp4"], "video");
}

#[test]
fn asks_for_each_step_in_turn() {
    let root = "/root";
    let disk = Disk::with_files(root, &[("/root/a/img1.jpg", "picture", MAY_10)]);
    let mut engine = engine_for(root, &disk);
    let p = |s: &str| s.to_string();
    assert_eq!(
        engine.sort_files(SortEvent::Start),
        SortAction::ReadCreated { path: p("/root/a/img1.jpg") }
    );
    assert_eq!(engine.status(), "Gathering Metadata");
    assert_eq!(engine.phase(), Phase::Gathering);
    assert_eq!(
        engine.sort_files(SortEvent::Created(Some(Timestamp { secs: MAY_10, nanos: 0 }), Some(0))),
        SortAction::ProbeFolder { path: p("/root/sorted") }
    );
    assert_eq!(engine.status(), "Sorting Files");
    assert_eq!(engine.progress(), 0);
    assert_eq!(
        engine.sort_files(SortEvent::Exists(false)),
        SortAction::CreateFolder { path: p("/root/sorted") }
    );
    assert_eq!(
        engine.sort_files(SortEvent::Done(true)),
        SortAction::CreateFile { path: p("/root/sorted/sort_log.txt") }
    );
    assert_eq!(
        engine.sort_files(SortEvent::Done(true)),
        SortAction::ProbeFile { path: p("/root/sorted/2021/05/img1.jpg") }
    );
    assert_eq!(engine.phase(), Phase::Probing);
    assert_eq!(
        engine.sort_files(SortEvent::Exists(false)),
        SortAction::Copy { from: p("/root/a/img1.jpg"), to: p("/root/sorted/2021/05/img1.jpg") }
    );
    assert_eq!(engine.phase(), Phase::Copying { alternate: false });
    assert_eq!(
        engine.sort_files(SortEvent::Done(false)),
        SortAction::CreateFolders { path: p("/root/sorted/2021/05") }
    );
    assert_eq!(engine.phase(), Phase::MakingFolders { alternate: false });
    assert_eq!(
        engine.sort_files(SortEvent::Done(true)),
        SortAction::Copy { from: p("/root/a/img1.jpg"), to: p("/root/sorted/2021/05/img1.jpg") }
    );
    assert_eq!(engine.phase(), Phase::Retrying { alternate: false });
    assert!(engine.report().is_empty());
    assert_eq!(
        engine.sort_files(SortEvent::Done(true)),
        SortAction::WriteFile {
            path: p("/root/sorted/sort_log.txt"),
            text: p("/root/a/img1.jpg -> /root/sorted/2021/05/img1.jpg\n"),
        }
    );
    assert_eq!(engine.status(), "/root/a/img1.jpg -> /root/sorted/2021/05/img1.jpg");
    assert_eq!(engine.report(), &vec![p("/root/a/img1.jpg -> /root/sorted/2021/05/img1.jpg")]);
    assert_eq!(engine.progress(), 1);
    assert_eq!(engine.sort_files(SortEvent::Done(true)), SortAction::Finished);
    assert_eq!(engine.status(), "Sorted 1 pictures/videos");
}

#[test]
fn same_name_from_two_folders_gets_two_paths() {
    let root = "/root";
    let mut disk = Disk::with_files(
        root,
        &[("/root/a/photo.jpg", "from a", MAY_10), ("/root/b/photo.jpg", "from b", MAY_10)],
    );
    let mut engine = engine_for(root, &disk);
    let (last, _) = sort(&mut engine, &mut disk);
    assert_eq!(last, SortAction::Finished);
    assert_eq!(disk.files["/root/sorted/2021/05/photo.jpg"], "from a");
    assert_eq!(disk.files["/root/sorted/2021/05/photo (_b).jpg"], "from b");
    assert_eq!(
        engine.report(),
        &vec![
            "/root/a/photo.jpg -> /root/sorted/2021/05/photo.jpg".to_string(),
            "/root/b/photo.jpg -> /root/sorted/2021/05/photo (_b).jpg".to_string(),
        ]
    );
}

#[test]
fn same_name_in_other_months_needs_no_second_name() {
    let root = "/root";
    let mut disk = Disk::with_files(
        root,
        &[("/root/a/photo.jpg", "spring", MAY_10), ("/root/b/photo.jpg", "winter", DEC_15)],
    );
    let mut engine = engine_for(root, &disk);
    sort(&mut engine, &mut disk);
    assert_eq!(disk.files["/root/sorted/2021/05/photo.jpg"], "spring");
    assert_eq!(disk.files["/root/sorted/1999/12/photo.jpg"], "winter");
}

#[test]
fn file_without_creation_time_goes_to_1970() {
    let root = "/root";
    let mut disk = Disk::with_files(root, &[("/root/old.gif", "gif", MAY_10)]);
    disk.created.clear();
    let mut engine = engine_for(root, &disk);
    let (last, _) = sort(&mut engine, &mut disk);
    assert_eq!(last, SortAction::Finished);
    assert_eq!(disk.files["/root/sorted/1970/01/old.gif"], "gif");
}

#[test]
fn existing_sorted_folder_stops_the_sort_before_any_write() {
    let root = "/root";
    let mut disk = Disk::with_files(root, &[("/root/img1.jpg", "picture", MAY_10)]);
    let mut engine = engine_for(root, &disk);
    let (first, _) = sort(&mut engine, &mut disk);
    assert_eq!(first, SortAction::Finished);
    let files_after_first = disk.files.clone();
    let folders_after_first = disk.folders.clone();
    let writes_after_first = disk.writes;
    assert!(writes_after_first > 0);

    let (second, _) = sort(&mut engine, &mut disk);
    assert_eq!(second, SortAction::Aborted);
    assert_eq!(engine.status(), ABORT);
    assert_eq!(engine.phase(), Phase::Idle);
    assert_eq!(engine.progress(), 0);
    assert_eq!(disk.writes, writes_after_first);
    assert_eq!(disk.files, files_after_first);
    assert_eq!(disk.folders, folders_after_first);

    engine.rescan_folder(Some(&disk.listing())).unwrap();
    let (third, _) = sort(&mut engine, &mut disk);
    assert_eq!(third, SortAction::Aborted);
    assert_eq!(disk.writes, writes_after_first);
}

#[test]
fn transcript_has_a_line_for_each_file_and_copies_are_identical() {
    let root = "/data/pics";
    let mut disk = Disk::with_files(
        root,
        &[
            ("/data/pics/2020/a.jpg", "a-2020", DEC_15),
            ("/data/pics/2021/a.jpg", "a-2021", DEC_15),
            ("/data/pics/b.PNG", "b", MAY_10),
            ("/data/pics/deep/down/c.webm", "c", MAY_11),
            ("/data/pics/notes.txt", "no media", MAY_11),
        ],
    );
    let mut engine = engine_for(root, &disk);
    assert_eq!(engine.num_files(), 4);
    let (last, _) = sort(&mut engine, &mut disk);
    assert_eq!(last, SortAction::Finished);
    assert_eq!(engine.report().len(), engine.files().len());
    let log = disk.files["/data/pics/sorted/sort_log.txt"].clone();
    assert!(log.ends_with('\n'));
    let lines: Vec<&str> = log.lines().collect();
    assert_eq!(lines.len(), 4);
    let mut destinations = BTreeSet::new();
    for (i, line) in lines.iter().enumerate() {
        assert_eq!(*line, engine.report()[i]);
        let (from, to) = line.split_once(" -> ").unwrap();
        assert_eq!(from, engine.files()[i]);
        assert_eq!(disk.files[to], disk.files[from]);
        assert!(to.starts_with("/data/pics/sorted/"));
        assert!(destinations.insert(to.to_string()));
    }
    assert!(!disk.files.contains_key("/data/pics/sorted/2021/05/notes.txt"));
    assert_eq!(disk.files["/data/pics/sorted/1999/12/a (_2021).jpg"], "a-2021");
}

#[test]
fn progress_rises_to_the_number_of_files() {
    let root = "/root";
    let mut disk = Disk::with_files(
        root,
        &[
            ("/root/a.jpg", "a", MAY_10),
            ("/root/b.jpg", "b", MAY_10),
            ("/root/c.jpg", "c", DEC_15),
        ],
    );
    let mut engine = engine_for(root, &disk);
    let (last, trail) = sort(&mut engine, &mut disk);
    assert_eq!(last, SortAction::Finished);
    let total = engine.num_files();
    let gathering: Vec<usize> =
        trail.iter().filter(|(phase, _)| *phase == Phase::Gathering).map(|(_, n)| *n).collect();
    assert_eq!(gathering, vec![0, 1, 2]);
    let copying: Vec<f32> = trail
        .iter()
        .skip_while(|(phase, _)| *phase != Phase::CheckingSorted)
        .map(|(_, n)| *n as f32 / total as f32)
        .collect();
    assert_eq!(copying[0], 0.0);
    for pair in copying.windows(2) {
        assert!(pair[0] <= pair[1]);
        assert!(pair[1] <= 1.0);
    }
    assert_eq!(engine.progress(), total);
    assert_eq!(*copying.last().unwrap(), 1.0);
}

#[test]
fn no_files_gives_an_empty_log() {
    let root = "/root";
    let mut disk = Disk::with_files(root, &[("/root/notes.txt", "text", MAY_10)]);
    let mut engine = engine_for(root, &disk);
    assert_eq!(engine.num_files(), 0);
    assert_eq!(
        engine.sort_files(SortEvent::Start),
        SortAction::ProbeFolder { path: "/root/sorted".to_string() }
    );
    let mut action = engine.sort_files(SortEvent::Exists(false));
    while let Some(event) = disk.perform(&action) {
        action = engine.sort_files(event);
    }
    assert_eq!(action, SortAction::Finished);
    assert_eq!(disk.files["/root/sorted/sort_log.txt"], "");
    assert_eq!(engine.status(), "Sorted 0 pictures/videos");
}

#[test]
fn failure_to_make_sorted_is_an_error() {
    let root = "/root";
    let mut disk = Disk::with_files(root, &[("/root/a.jpg", "a", MAY_10)]);
    disk.refuse("create_folder");
    let mut engine = engine_for(root, &disk);
    let (last, _) = sort(&mut engine, &mut disk);
    assert_eq!(last, SortAction::Failed(SortError::CreateFolder));
    assert_eq!(engine.status(), "Could not create dir");
    assert_eq!(SortError::CreateFolder.message(), "Could not create dir");
    assert_eq!(engine.phase(), Phase::Idle);
    assert_eq!(disk.writes, 0);
}

#[test]
fn failure_to_make_the_log_is_an_error() {
    let root = "/root";
    let mut disk = Disk::with_files(root, &[("/root/a.jpg", "a", MAY_10)]);
    disk.refuse("create_file");
    let mut engine = engine_for(root, &disk);
    let (last, _) = sort(&mut engine, &mut disk);
    assert_eq!(last, SortAction::Failed(SortError::CreateLog));
    assert_eq!(engine.status(), "Could not create file");
    assert_eq!(SortError::CreateLog.message(), "Could not create file");
}

#[test]
fn failure_to_make_the_folders_is_an_error() {
    let root = "/root";
    let mut disk = Disk::with_files(root, &[("/root/a.jpg", "a", MAY_10)]);
    disk.refuse("create_folders");
    let mut engine = engine_for(root, &disk);
    let (last, _) = sort(&mut engine, &mut disk);
    assert_eq!(last, SortAction::Failed(SortError::CreateFolders));
    assert_eq!(engine.status(), "Could not create directory");
    assert_eq!(SortError::CreateFolders.message(), "Could not create directory");
    assert!(engine.report().is_empty());
}

#[test]
fn copy_that_fails_twice_is_an_error_and_earlier_copies_stay() {
    let root = "/root";
    let mut disk = Disk::with_files(
        root,
        &[("/root/a.jpg", "a", MAY_10), ("/root/b.jpg", "b", MAY_10), ("/root/c.jpg", "c", MAY_10)],
    );
    let mut engine = engine_for(root, &disk);
    let mut action = engine.sort_files(SortEvent::Start);
    while engine.report().len() < 1 {
        let event = disk.perform(&action).unwrap();
        action = engine.sort_files(event);
    }
    disk.refuse("copy");
    while let Some(event) = disk.perform(&action) {
        action = engine.sort_files(event);
    }
    assert_eq!(action, SortAction::Failed(SortError::Copy));
    assert_eq!(engine.status(), "Still can't copy");
    assert_eq!(SortError::Copy.message(), "Still can't copy");
    assert_eq!(engine.phase(), Phase::Idle);
    assert_eq!(engine.report(), &vec!["/root/a.jpg -> /root/sorted/2021/05/a.jpg".to_string()]);
    assert_eq!(engine.progress(), 1);
    assert_eq!(disk.files["/root/sorted/2021/05/a.jpg"], "a");
    assert!(!disk.files.contains_key("/root/sorted/2021/05/b.jpg"));
    assert!(!disk.files.contains_key("/root/sorted/2021/05/c.jpg"));
    assert_eq!(disk.files["/root/sorted/sort_log.txt"], "");
    assert!(!disk.asked.iter().any(|a| a.contains("c.jpg") && a.starts_with("Copy")));
}

#[test]
fn failure_to_write_the_log_is_an_error() {
    let root = "/root";
    let mut disk = Disk::with_files(root, &[("/root/a.jpg", "a", MAY_10)]);
    disk.refuse("write_file");
    let mut engine = engine_for(root, &disk);
    let (last, _) = sort(&mut engine, &mut disk);
    assert_eq!(last, SortAction::Failed(SortError::WriteLog));
    assert_eq!(engine.status(), "Could not write to log file");
    assert_eq!(SortError::WriteLog.message(), "Could not write to log file");
    assert_eq!(disk.files["/root/sorted/2021/05/a.jpg"], "a");
}

#[test]
fn event_that_is_not_waited_for_changes_nothing() {
    let root = "/root";
    let disk = Disk::with_files(root, &[("/root/a.jpg", "a", MAY_10)]);
    let mut engine = engine_for(root, &disk);
    assert_eq!(engine.sort_files(SortEvent::Done(true)), SortAction::Nothing);
    assert_eq!(engine.sort_files(SortEvent::Exists(false)), SortAction::Nothing);
    assert_eq!(engine.sort_files(SortEvent::Created(None, None)), SortAction::Nothing);
    assert_eq!(engine.phase(), Phase::Idle);
    assert_eq!(engine.status(), "Sorted 0 pictures/videos");
    engine.sort_files(SortEvent::Start);
    assert_eq!(engine.sort_files(SortEvent::Start), SortAction::Nothing);
    assert_eq!(engine.sort_files(SortEvent::Done(true)), SortAction::Nothing);
    assert_eq!(engine.phase(), Phase::Gathering);
    assert_eq!(engine.progress(), 0);
    assert_eq!(engine.status(), "Gathering Metadata");
}

#[test]
fn second_name_that_is_another_files_own_name_is_not_probed() {
    let root = "/root";
    let mut disk = Disk::with_files(
        root,
        &[
            ("/root/a/photo (_b).jpg", "named so", MAY_10),
            ("/root/a/photo.jpg", "from a", MAY_10),
            ("/root/b/photo.jpg", "from b", MAY_10),
        ],
    );
    let mut engine = engine_for(root, &disk);
    let (last, _) = sort(&mut engine, &mut disk);
    assert_eq!(last, SortAction::Finished);
    assert_eq!(disk.files["/root/sorted/2021/05/photo.jpg"], "from a");
    assert_eq!(disk.files["/root/sorted/2021/05/photo (_b).jpg"], "from b");
    assert_eq!(engine.report()[0], "/root/a/photo (_b).jpg -> /root/sorted/2021/05/photo (_b).jpg");
    assert_eq!(engine.report()[2], "/root/b/photo.jpg -> /root/sorted/2021/05/photo (_b).jpg");
}

#[test]
fn second_copy_from_a_folder_of_the_same_name_overwrites() {
    // Both files are `x/photo.jpg` to the engine: same name, same parent name.
    let root = "/root";
    let mut disk = Disk::with_files(
        root,
        &[
            ("/root/1/x/photo.jpg", "one", MAY_10),
            ("/root/2/x/photo.jpg", "two", MAY_10),
            ("/root/3/x/photo.jpg", "three", MAY_10),
        ],
    );
    let mut engine = engine_for(root, &disk);
    let (last, _) = sort(&mut engine, &mut disk);
    assert_eq!(last, SortAction::Finished);
    assert_eq!(disk.files["/root/sorted/2021/05/photo.jpg"], "one");
    assert_eq!(disk.files["/root/sorted/2021/05/photo (_x).jpg"], "three");
    assert_eq!(engine.report().len(), 3);
}

#[test]
fn files_go_to_the_month_of_the_local_clock() {
    // 31 December 2021, 23:30 UTC.
    let late = 1_640_993_400;
    let root = "/root";
    let mut disk = Disk::with_files(root, &[("/root/a.jpg", "a", late)]);
    disk.offset = 7_200;
    let mut engine = engine_for(root, &disk);
    sort(&mut engine, &mut disk);
    assert_eq!(disk.files["/root/sorted/2022/01/a.jpg"], "a");

    let mut disk = Disk::with_files(root, &[("/root/a.jpg", "a", late)]);
    disk.offset = -3_600;
    let mut engine = engine_for(root, &disk);
    sort(&mut engine, &mut disk);
    assert_eq!(disk.files["/root/sorted/2021/12/a.jpg"], "a");
}

#[test]
fn file_without_an_offset_goes_to_1970() {
    let root = "/root";
    let disk = Disk::with_files(root, &[("/root/a.jpg", "a", MAY_10)]);
    let mut engine = engine_for(root, &disk);
    engine.sort_files(SortEvent::Start);
    engine.sort_files(SortEvent::Created(Some(Timestamp { secs: MAY_10, nanos: 0 }), None));
    engine.sort_files(SortEvent::Exists(false));
    engine.sort_files(SortEvent::Done(true));
    assert_eq!(
        engine.sort_files(SortEvent::Done(true)),
        SortAction::ProbeFile { path: "/root/sorted/1970/01/a.jpg".to_string() }
    );
}
