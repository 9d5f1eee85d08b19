use rxsync::config::Config;
use rxsync::error::{RemoteCode, SyncError};
use rxsync::file_util::{content_checksum, Found, Kind};
use rxsync::plan::Task;
use rxsync::protocol::{Action, Event};
use rxsync::reconcile::{Reconciler, Stage};
use rxsync::sync;

fn strings(items: &[&str]) -> Vec<String> {
    items.iter().map(|s| s.to_string()).collect()
}

/// A local tree, a remote side and a stored manifest, all in memory.
struct World {
    directory: bool,
    stored: Option<Config>,
    ignore: Option<Vec<String>>,
    directories: Vec<String>,
    files: Vec<(String, Vec<u8>)>,
    remote_folders: Vec<String>,
    remote_files: Vec<(String, Vec<u8>)>,
    log: Vec<String>,
    fail_on: Option<(String, SyncError)>,
}

impl World {
    fn new(directory: bool) -> World {
        World {
            directory,
            stored: None,
            ignore: None,
            directories: Vec::new(),
            files: Vec::new(),
            remote_folders: Vec::new(),
            remote_files: Vec::new(),
            log: Vec::new(),
            fail_on: None,
        }
    }

    fn file(&mut self, path: &str, content: &[u8]) {
        self.files.retain(|(p, _)| p != path);
        self.files.push((path.to_string(), content.to_vec()));
    }

    fn perform(&mut self, action: &Action, run: &Reconciler) -> Event {
        let line = format!("{:?}", action);
        if let Some((wanted, err)) = &self.fail_on {
            if line.starts_with(wanted.as_str()) {
                self.log.push(format!("FAILED {}", line));
                return Event::Failed(*err);
            }
        }
        self.log.push(line);
        match action {
            Action::Inspect { .. } => Event::Kind { directory: self.directory },
            Action::EnsureManifest { .. } => {
                if self.stored.is_none() {
                    self.stored = Some(Config::new());
                }
                Event::Completed
            }
            Action::LoadManifest { .. } => match &self.stored {
                Some(c) => Event::Manifest(c.copy()),
                None => Event::Failed(SyncError::LocalIo),
            },
            Action::Connect => Event::Completed,
            Action::ReadIgnore { .. } => Event::IgnoreFile {
                present: self.ignore.is_some(),
                lines: self.ignore.clone().unwrap_or_default(),
            },
            Action::Walk { .. } => Event::Tree {
                directories: self.directories.clone(),
                found: self
                    .directories
                    .iter()
                    .skip(1)
                    .map(|d| Found { path: d.clone(), kind: Kind::Directory })
                    .chain(self.files.iter().map(|(p, _)| Found { path: p.clone(), kind: Kind::File }))
                    .collect(),
            },
            Action::CreateFolder { remote } => {
                if self.remote_folders.contains(remote) {
                    return Event::Failed(SyncError::RemoteOperation(RemoteCode::Sftp(4)));
                }
                self.remote_folders.push(remote.clone());
                Event::Completed
            }
            Action::RemoveFile { remote } => {
                let before = self.remote_files.len();
                self.remote_files.retain(|(p, _)| p != remote);
                if self.remote_files.len() == before {
                    return Event::Failed(SyncError::RemoteOperation(RemoteCode::Sftp(2)));
                }
                Event::Completed
            }
            Action::ReadLocal { path } => match self.files.iter().find(|(p, _)| p == path) {
                Some((_, content)) => Event::Content(content.clone()),
                None => Event::Failed(SyncError::LocalIo),
            },
            Action::SendFile { remote, .. } => {
                self.remote_files.retain(|(p, _)| p != remote);
                self.remote_files.push((remote.clone(), run.content().clone()));
                Event::Completed
            }
            Action::SaveManifest { .. } => {
                self.stored = Some(run.manifest().copy());
                Event::Completed
            }
            _ => Event::Failed(SyncError::UnexpectedEvent),
        }
    }

    /// Drives a run to its end and returns the stage it ends in.
    fn drive(&mut self, run: &mut Reconciler) -> Stage {
        let mut action = run.pending();
        let mut steps = 0;
        while !run.is_over() {
            let event = self.perform(&action, run);
            action = run.step(event);
            steps += 1;
            assert!(steps < 10_000);
        }
        match (&action, run.stage()) {
            (Action::Finish, Stage::Finished) => {}
            (Action::Abort(a), Stage::Stopped(b)) => assert_eq!(*a, b),
            other => panic!("the last action does not fit the stage: {:?}", other),
        }
        run.stage()
    }

    fn stored_file(&self, key: &str) -> Option<String> {
        self.stored.as_ref().unwrap().files.get(key).cloned()
    }

    fn sent(&self) -> Vec<&String> {
        self.log.iter().filter(|l| l.starts_with("SendFile")).collect()
    }
}

fn tree() -> World {
    let mut w = World::new(true);
    w.directories = strings(&["tree", "tree/sub", "tree/sub/deep"]);
    w.file("tree/a.txt", b"hi");
    w.file("tree/sub/b.txt", b"there");
    w.file("tree/sub/deep/c.txt", b"");
    w
}

#[test]
fn a_new_file_is_sent_and_recorded_with_its_checksum() {
    let mut w = World::new(true);
    w.directories = strings(&["tree"]);
    w.file("tree/a.txt", b"hi");
    let d = rxsync::plan::diff(&Config::new(), &strings(&["tree"]), &strings(&["tree/a.txt"]));
    assert_eq!(d.files_to_add, strings(&["tree/a.txt"]));
    assert_eq!(d.files_to_remove, Vec::<String>::new());
    let mut run = sync("tree", None);
    assert_eq!(w.drive(&mut run), Stage::Finished);
    assert_eq!(w.stored_file("tree/a.txt"), Some("20644050".to_string()));
    assert_eq!(w.stored_file("tree/a.txt"), Some(content_checksum(b"hi")));
    assert_eq!(w.remote_files, vec![("tree/a.txt".to_string(), b"hi".to_vec())]);
    assert!(w.stored.as_ref().unwrap().folders.contains_key("tree/"));
    assert!(w.stored.as_ref().unwrap().folders.contains_key("tree"));
}

#[test]
fn a_file_that_is_gone_is_removed_there_and_from_the_manifest() {
    let mut w = World::new(true);
    w.directories = strings(&["tree"]);
    w.file("tree/a.txt", b"hi");
    assert_eq!(w.drive(&mut sync("tree", None)), Stage::Finished);
    w.files.clear();
    w.log.clear();
    let d = rxsync::plan::diff(w.stored.as_ref().unwrap(), &strings(&["tree/", "tree"]), &Vec::new());
    assert_eq!(d.files_to_remove, strings(&["tree/a.txt"]));
    assert_eq!(w.drive(&mut sync("tree", None)), Stage::Finished);
    assert!(w.log.contains(&"RemoveFile { remote: \"tree/a.txt\" }".to_string()));
    assert!(w.remote_files.is_empty());
    assert_eq!(w.stored_file("tree/a.txt"), None);
    assert_eq!(w.stored.as_ref().unwrap().files.len(), 0);
}

#[test]
fn a_changed_file_is_sent_again_and_its_checksum_renewed() {
    let mut w = World::new(true);
    w.directories = strings(&["tree"]);
    w.file("tree/a.txt", b"hi");
    let mut stale = Config::new();
    stale.files.insert("tree/a.txt".to_string(), "12345".to_string());
    w.stored = Some(stale);
    w.remote_files.push(("tree/a.txt".to_string(), b"old".to_vec()));
    assert_eq!(w.drive(&mut sync("tree", None)), Stage::Finished);
    assert_eq!(w.sent().len(), 1);
    assert_eq!(w.stored_file("tree/a.txt"), Some("20644050".to_string()));
    assert_eq!(w.remote_files, vec![("tree/a.txt".to_string(), b"hi".to_vec())]);
    w.file("tree/a.txt", b"hi!");
    w.log.clear();
    assert_eq!(w.drive(&mut sync("tree", None)), Stage::Finished);
    assert_eq!(w.sent().len(), 1);
    assert_eq!(w.stored_file("tree/a.txt"), Some(content_checksum(b"hi!")));
}

#[test]
fn a_second_run_finds_nothing_to_do() {
    let mut w = tree();
    let mut first = sync("tree", Some("backup"));
    assert_eq!(w.drive(&mut first), Stage::Finished);
    assert_eq!(w.sent().len(), 3);
    assert_eq!(w.remote_files.len(), 3);
    let saves = w.log.iter().filter(|l| l.starts_with("SaveManifest")).count();
    assert_eq!(saves, 4 + 3);
    w.log.clear();
    let mut second = sync("tree", Some("backup"));
    assert_eq!(w.drive(&mut second), Stage::Finished);
    assert!(w.sent().is_empty());
    for line in &w.log {
        assert!(!line.starts_with("SaveManifest"), "{}", line);
        assert!(!line.starts_with("RemoveFile"), "{}", line);
    }
    let manifest = w.stored.as_ref().unwrap();
    let live_folders = strings(&["tree/", "tree", "tree/sub", "tree/sub/deep"]);
    let live_files = strings(&["tree/a.txt", "tree/sub/b.txt", "tree/sub/deep/c.txt"]);
    let d = rxsync::plan::diff(manifest, &live_folders, &live_files);
    assert!(d.folders_to_add.is_empty());
    assert!(d.folders_to_remove.is_empty());
    assert!(d.files_to_add.is_empty());
    assert!(d.files_to_remove.is_empty());
    for task in second.tasks() {
        match task {
            Task::Refresh { key, recorded, .. } => {
                let content = &w.files.iter().find(|(p, _)| p == key).unwrap().1;
                assert_eq!(recorded, &content_checksum(content));
            }
            Task::CreateFolder { record, remote, .. } => {
                assert!(!record);
                assert_eq!(remote, "backup");
            }
            other => panic!("nothing is to be changed, but {:?} is planned", other),
        }
    }
}

#[test]
fn folders_are_created_parents_first_and_before_any_file() {
    let mut w = tree();
    let mut run = sync("tree", Some("backup"));
    assert_eq!(w.drive(&mut run), Stage::Finished);
    let created: Vec<&String> = w.log.iter().filter(|l| l.starts_with("CreateFolder")).collect();
    assert_eq!(
        created,
        vec![
            "CreateFolder { remote: \"backup\" }",
            "CreateFolder { remote: \"backup/tree/\" }",
            "CreateFolder { remote: \"backup/tree\" }",
            "CreateFolder { remote: \"backup/tree/sub\" }",
            "CreateFolder { remote: \"backup/tree/sub/deep\" }",
        ]
    );
    let last_folder = w.log.iter().rposition(|l| l.starts_with("CreateFolder")).unwrap();
    let first_file = w.log.iter().position(|l| l.starts_with("ReadLocal")).unwrap();
    assert!(last_folder < first_file);
    let mut ranks = Vec::new();
    for task in run.tasks() {
        ranks.push(match task {
            Task::CreateFolder { .. } => 0,
            Task::RemoveFile { .. } => 1,
            Task::Upload { .. } => 2,
            Task::Refresh { .. } => 3,
        });
    }
    let mut sorted = ranks.clone();
    sorted.sort();
    assert_eq!(ranks, sorted);
}

#[test]
fn removals_come_before_uploads() {
    let mut w = tree();
    let mut had = Config::new();
    had.files.insert("tree/gone.txt".to_string(), "1".to_string());
    had.files.insert("tree/a.txt".to_string(), "20644050".to_string());
    w.stored = Some(had);
    w.remote_files.push(("tree/gone.txt".to_string(), Vec::new()));
    let mut run = sync("tree", None);
    assert_eq!(w.drive(&mut run), Stage::Finished);
    let removal = w.log.iter().position(|l| l.starts_with("RemoveFile")).unwrap();
    let upload = w.log.iter().position(|l| l.starts_with("SendFile")).unwrap();
    assert!(removal < upload);
    assert_eq!(w.sent().len(), 2);
    assert_eq!(w.stored.as_ref().unwrap().files.len(), 3);
}

#[test]
fn every_remote_change_is_followed_by_the_saving_of_the_manifest() {
    let mut w = tree();
    let mut had = Config::new();
    had.files.insert("tree/gone.txt".to_string(), "1".to_string());
    w.stored = Some(had);
    w.remote_files.push(("tree/gone.txt".to_string(), Vec::new()));
    assert_eq!(w.drive(&mut sync("tree", None)), Stage::Finished);
    for (i, line) in w.log.iter().enumerate() {
        if line.starts_with("CreateFolder") || line.starts_with("RemoveFile") || line.starts_with("SendFile") {
            assert!(w.log[i + 1].starts_with("SaveManifest { root: \"tree\" }"), "after {}", line);
        }
    }
}

#[test]
fn an_ignored_path_is_neither_sent_nor_created() {
    let mut w = tree();
    w.directories.push("tree/temp".to_string());
    w.file("tree/temp/x.txt", b"x");
    w.ignore = Some(strings(&["temp", "", "# nothing else"]));
    let mut run = sync("tree", None);
    assert_eq!(w.drive(&mut run), Stage::Finished);
    for line in &w.log {
        assert!(!line.contains("temp"), "{}", line);
    }
    assert_eq!(w.stored_file("tree/temp/x.txt"), None);
    assert!(!w.stored.as_ref().unwrap().folders.contains_key("tree/temp"));
    assert_eq!(w.sent().len(), 3);
}

#[test]
fn a_key_of_the_manifest_that_is_ignored_later_is_removed() {
    let mut w = tree();
    w.file("tree/temp/x.txt", b"x");
    assert_eq!(w.drive(&mut sync("tree", None)), Stage::Finished);
    assert!(w.stored_file("tree/temp/x.txt").is_some());
    w.ignore = Some(strings(&["temp"]));
    w.log.clear();
    assert_eq!(w.drive(&mut sync("tree", None)), Stage::Finished);
    assert!(w.log.contains(&"RemoveFile { remote: \"tree/temp/x.txt\" }".to_string()));
    assert_eq!(w.stored_file("tree/temp/x.txt"), None);
}

#[test]
fn without_an_ignore_file_nothing_is_filtered() {
    let mut w = tree();
    w.file("tree/temp/x.txt", b"x");
    w.ignore = None;
    assert_eq!(w.drive(&mut sync("tree", None)), Stage::Finished);
    assert_eq!(w.sent().len(), 4);
}

#[test]
fn the_metadata_files_are_never_sent() {
    let mut w = tree();
    w.file("tree/.xsync.toml", b"[folders]");
    w.file("tree/.xsyncignore", b"temp");
    assert_eq!(w.drive(&mut sync("tree", None)), Stage::Finished);
    assert_eq!(w.sent().len(), 3);
    assert_eq!(w.stored_file("tree/.xsync.toml"), None);
    assert_eq!(w.stored_file("tree/.xsyncignore"), None);
}

#[test]
fn a_folder_that_is_already_there_does_not_stop_the_run() {
    let mut w = tree();
    w.remote_folders = strings(&["tree", "tree/sub"]);
    assert_eq!(w.drive(&mut sync("tree", None)), Stage::Finished);
    assert!(w.stored.as_ref().unwrap().folders.contains_key("tree/sub"));
    assert_eq!(w.sent().len(), 3);
}

#[test]
fn any_other_failure_stops_the_run_and_keeps_what_was_done() {
    let mut w = tree();
    w.fail_on = Some((
        "SendFile { local: \"tree/sub/b.txt\"".to_string(),
        SyncError::RemoteOperation(RemoteCode::Session(-7)),
    ));
    let mut run = sync("tree", None);
    let stage = w.drive(&mut run);
    assert_eq!(stage, Stage::Stopped(SyncError::RemoteOperation(RemoteCode::Session(-7))));
    assert_eq!(w.stored_file("tree/a.txt"), Some("20644050".to_string()));
    assert_eq!(w.stored_file("tree/sub/b.txt"), None);
    assert_eq!(w.stored_file("tree/sub/deep/c.txt"), None);
    assert_eq!(run.position(), 5);
    w.fail_on = None;
    w.log.clear();
    assert_eq!(w.drive(&mut sync("tree", None)), Stage::Finished);
    assert_eq!(w.sent().len(), 2);
    assert_eq!(w.stored.as_ref().unwrap().files.len(), 3);
}

#[test]
fn a_failed_folder_creation_that_is_not_benign_stops_the_run() {
    for err in [
        SyncError::RemoteOperation(RemoteCode::Sftp(3)),
        SyncError::RemoteOperation(RemoteCode::Session(4)),
        SyncError::Connection,
    ] {
        let mut w = tree();
        w.fail_on = Some(("CreateFolder".to_string(), err));
        assert_eq!(w.drive(&mut sync("tree", None)), Stage::Stopped(err));
        assert_eq!(w.stored.as_ref().unwrap().folders.len(), 0);
    }
    assert!(rxsync::protocol::may_pass_over(SyncError::RemoteOperation(RemoteCode::Sftp(4))));
    assert!(!rxsync::protocol::may_pass_over(SyncError::RemoteOperation(RemoteCode::Sftp(2))));
    assert!(!rxsync::protocol::may_pass_over(SyncError::LocalIo));
}

#[test]
fn each_kind_of_failure_is_the_reason_the_run_gives() {
    let cases = [
        ("Inspect", SyncError::LocalIo),
        ("EnsureManifest", SyncError::LocalIo),
        ("LoadManifest", SyncError::ManifestParse),
        ("Connect", SyncError::Connection),
        ("ReadIgnore", SyncError::LocalIo),
        ("Walk", SyncError::LocalIo),
        ("ReadLocal", SyncError::LocalIo),
        ("SaveManifest", SyncError::LocalIo),
    ];
    for (action, err) in cases {
        let mut w = tree();
        w.fail_on = Some((action.to_string(), err));
        let mut run = sync("tree", None);
        assert_eq!(w.drive(&mut run), Stage::Stopped(err), "for {}", action);
        assert!(matches!(run.pending(), Action::Abort(e) if e == err));
        run.advance(Event::Completed);
        assert_eq!(run.stage(), Stage::Stopped(err));
    }
}

#[test]
fn an_event_that_answers_nothing_stops_the_run() {
    let mut run = sync("tree", None);
    assert!(matches!(run.pending(), Action::Inspect { path } if path == "tree"));
    let action = run.step(Event::Completed);
    assert!(matches!(action, Action::Abort(SyncError::UnexpectedEvent)));
    assert_eq!(run.stage(), Stage::Stopped(SyncError::UnexpectedEvent));
    let mut run = sync("tree", None);
    run.advance(Event::Kind { directory: true });
    assert_eq!(run.stage(), Stage::Ensuring);
    run.advance(Event::Listing(Vec::new()));
    assert_eq!(run.stage(), Stage::Stopped(SyncError::UnexpectedEvent));
}

#[test]
fn the_stages_of_a_directory_run_follow_one_another() {
    let mut run = Reconciler::new("tree", "");
    assert_eq!(run.stage(), Stage::Inspecting);
    assert!(matches!(run.step(Event::Kind { directory: true }), Action::EnsureManifest { root } if root == "tree"));
    assert!(matches!(run.step(Event::Completed), Action::LoadManifest { root } if root == "tree"));
    assert!(matches!(run.step(Event::Manifest(Config::new())), Action::Connect));
    assert!(matches!(run.step(Event::Completed), Action::ReadIgnore { root } if root == "tree"));
    let walk = run.step(Event::IgnoreFile { present: false, lines: Vec::new() });
    match walk {
        Action::Walk { directories, files } => {
            assert_eq!(directories, "tree/**");
            assert_eq!(files, "tree/**/*");
        }
        other => panic!("a walk is due, not {:?}", other),
    }
    let next = run.step(Event::Tree { directories: Vec::new(), found: Vec::new() });
    assert!(matches!(next, Action::CreateFolder { remote } if remote == "tree/"));
    assert!(matches!(run.step(Event::Completed), Action::SaveManifest { root } if root == "tree"));
    assert!(matches!(run.step(Event::Completed), Action::Finish));
    assert!(run.is_over());
    assert_eq!(run.position(), 1);
}

#[test]
fn a_single_file_is_sent_with_the_folders_that_lead_to_it() {
    let mut w = World::new(false);
    w.file("docs/notes/today.txt", b"hi");
    let mut run = sync("docs/notes/today.txt", Some("elixir"));
    assert_eq!(w.drive(&mut run), Stage::Finished);
    assert_eq!(
        w.log,
        strings(&[
            "Inspect { path: \"docs/notes/today.txt\" }",
            "EnsureManifest { root: \"docs/notes\" }",
            "LoadManifest { root: \"docs/notes\" }",
            "Connect",
            "CreateFolder { remote: \"elixir/docs/\" }",
            "SaveManifest { root: \"docs/notes\" }",
            "CreateFolder { remote: \"elixir/docs/notes/\" }",
            "SaveManifest { root: \"docs/notes\" }",
            "ReadLocal { path: \"docs/notes/today.txt\" }",
            "SendFile { local: \"docs/notes/today.txt\", remote: \"elixir/docs/notes/today.txt\" }",
            "SaveManifest { root: \"docs/notes\" }",
        ])
    );
    assert_eq!(w.stored_file("docs/notes/today.txt"), Some("20644050".to_string()));
    w.log.clear();
    let mut again = sync("docs/notes/today.txt", Some("elixir"));
    assert_eq!(w.drive(&mut again), Stage::Finished);
    assert!(w.sent().is_empty());
    w.file("docs/notes/today.txt", b"ho");
    assert_eq!(w.drive(&mut sync("docs/notes/today.txt", Some("elixir"))), Stage::Finished);
    assert_eq!(w.stored_file("docs/notes/today.txt"), Some(content_checksum(b"ho")));
}

#[test]
fn a_file_named_without_a_directory_keeps_its_manifest_in_the_current_one() {
    let mut w = World::new(false);
    w.file("test_sync_file", b"this is a test sync file");
    let mut run = sync("test_sync_file", None);
    assert_eq!(w.drive(&mut run), Stage::Finished);
    assert_eq!(
        w.log,
        strings(&[
            "Inspect { path: \"test_sync_file\" }",
            "EnsureManifest { root: \"./\" }",
            "LoadManifest { root: \"./\" }",
            "Connect",
            "ReadLocal { path: \"test_sync_file\" }",
            "SendFile { local: \"test_sync_file\", remote: \"test_sync_file\" }",
            "SaveManifest { root: \"./\" }",
        ])
    );
}

#[test]
fn a_source_that_names_nothing_in_a_directory_is_refused() {
    for source in ["", "/"] {
        let mut w = World::new(false);
        let mut run = sync(source, None);
        assert_eq!(w.drive(&mut run), Stage::Stopped(SyncError::InvalidSource));
        assert_eq!(w.log.len(), 1);
    }
}

#[test]
fn a_destination_of_the_manifest_is_not_created_again() {
    let mut w = tree();
    let mut had = Config::new();
    had.folders.insert("backup".to_string(), String::new());
    w.stored = Some(had);
    assert_eq!(w.drive(&mut sync("tree", Some("backup"))), Stage::Finished);
    assert!(!w.log.contains(&"CreateFolder { remote: \"backup\" }".to_string()));
    assert!(w.log.contains(&"CreateFolder { remote: \"backup/tree\" }".to_string()));
}
