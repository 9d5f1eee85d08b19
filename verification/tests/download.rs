use rxsync::config::Config;
use rxsync::error::{RemoteCode, SyncError};
use rxsync::file_util::{content_checksum, Found, Kind};
use rxsync::protocol::{Action, Event};
use rxsync::sftp::{Downloader, Phase};
use rxsync::{clone_dir, clone_file};

fn strings(items: &[&str]) -> Vec<String> {
    items.iter().map(|s| s.to_string()).collect()
}

/// A remote tree and a local side, both in memory.
struct Remote {
    listings: Vec<(String, Vec<(String, Kind)>)>,
    files: Vec<(String, Vec<u8>)>,
    stored: Option<Config>,
    log: Vec<String>,
    fail_on: Option<(String, SyncError)>,
}

impl Remote {
    fn new() -> Remote {
        Remote { listings: Vec::new(), files: Vec::new(), stored: None, log: Vec::new(), fail_on: None }
    }

    fn sample() -> Remote {
        let mut r = Remote::new();
        r.listings.push((
            "test_sync".to_string(),
            vec![
                ("test_sync/keep.txt".to_string(), Kind::File),
                ("test_sync/test2".to_string(), Kind::Directory),
                ("test_sync/last.txt".to_string(), Kind::Other),
            ],
        ));
        r.listings.push(("test_sync/test2".to_string(), vec![("test_sync/test2/test3".to_string(), Kind::Directory)]));
        r.listings.push((
            "test_sync/test2/test3".to_string(),
            vec![("test_sync/test2/test3/test_file".to_string(), Kind::File)],
        ));
        r.files.push(("test_sync/keep.txt".to_string(), b"keep".to_vec()));
        r.files.push(("test_sync/last.txt".to_string(), b"last".to_vec()));
        r.files.push(("test_sync/test2/test3/test_file".to_string(), b"hi".to_vec()));
        r
    }

    fn perform(&mut self, action: &Action, run: &Downloader) -> Event {
        let line = format!("{:?}", action);
        if let Some((wanted, err)) = &self.fail_on {
            if line.starts_with(wanted.as_str()) {
                self.log.push(format!("FAILED {}", line));
                return Event::Failed(*err);
            }
        }
        self.log.push(line);
        match action {
            Action::Connect | Action::CreateLocalFolder { .. } => Event::Completed,
            Action::EnsureManifest { .. } => {
                if self.stored.is_none() {
                    self.stored = Some(Config::new());
                }
                Event::Completed
            }
            Action::LoadManifest { .. } => match &self.stored {
                Some(c) => Event::Manifest(c.copy()),
                None => Event::Failed(SyncError::LocalIo),
            },
            Action::SaveManifest { .. } => {
                self.stored = Some(run.manifest().copy());
                Event::Completed
            }
            Action::ListRemote { remote } => match self.listings.iter().find(|(p, _)| p == remote) {
                Some((_, entries)) => Event::Listing(
                    entries.iter().map(|(p, k)| Found { path: p.clone(), kind: *k }).collect(),
                ),
                None => Event::Failed(SyncError::RemoteOperation(RemoteCode::Sftp(2))),
            },
            Action::Download { remote, .. } => match self.files.iter().find(|(p, _)| p == remote) {
                Some((_, content)) => Event::Content(content.clone()),
                None => Event::Failed(SyncError::RemoteOperation(RemoteCode::Session(-28))),
            },
            _ => Event::Failed(SyncError::UnexpectedEvent),
        }
    }

    fn drive(&mut self, run: &mut Downloader) -> Phase {
        let mut action = run.pending();
        let mut steps = 0;
        while !run.is_over() {
            let event = self.perform(&action, run);
            action = run.step(event);
            steps += 1;
            assert!(steps < 10_000);
        }
        match (&action, run.phase()) {
            (Action::Finish, Phase::Finished) => {}
            (Action::Abort(a), Phase::Stopped(b)) => assert_eq!(*a, b),
            other => panic!("the last action does not fit the phase: {:?}", other),
        }
        run.phase()
    }

    fn lines(&self, prefix: &str) -> Vec<String> {
        self.log.iter().filter(|l| l.starts_with(prefix)).cloned().collect()
    }
}

#[test]
fn a_tree_is_copied_folder_before_content_in_the_order_listed() {
    let mut r = Remote::sample();
    let mut run = clone_dir("test_sync", "test_sync_2");
    assert_eq!(r.drive(&mut run), Phase::Finished);
    assert_eq!(run.jobs_left(), 0);
    assert_eq!(
        r.lines("CreateLocalFolder"),
        strings(&[
            "CreateLocalFolder { path: \"test_sync_2/test_sync\" }",
            "CreateLocalFolder { path: \"test_sync_2/test_sync/test2\" }",
            "CreateLocalFolder { path: \"test_sync_2/test_sync/test2/test3\" }",
        ])
    );
    assert_eq!(
        r.lines("Download"),
        strings(&[
            "Download { remote: \"test_sync/keep.txt\", local: \"test_sync_2/test_sync/keep.txt\" }",
            "Download { remote: \"test_sync/test2/test3/test_file\", local: \"test_sync_2/test_sync/test2/test3/test_file\" }",
            "Download { remote: \"test_sync/last.txt\", local: \"test_sync_2/test_sync/last.txt\" }",
        ])
    );
    for (i, line) in r.log.iter().enumerate() {
        if line.starts_with("ListRemote") {
            let folder = line.trim_start_matches("ListRemote { remote: ").trim_end_matches(" }");
            let made = r.log.iter().position(|l| {
                l.starts_with("CreateLocalFolder") && l.ends_with(&format!("/{} }}", &folder[1..]))
            });
            assert!(made.unwrap() < i);
        }
    }
}

#[test]
fn what_is_copied_is_entered_into_the_manifest_of_the_destination() {
    let mut r = Remote::sample();
    assert_eq!(r.drive(&mut clone_dir("test_sync", "test_sync_2")), Phase::Finished);
    let manifest = r.stored.as_ref().unwrap();
    assert_eq!(manifest.folders.len(), 3);
    assert_eq!(manifest.folders.key_at(0), "test_sync");
    assert_eq!(manifest.folders.key_at(1), "test_sync/test2");
    assert_eq!(manifest.folders.key_at(2), "test_sync/test2/test3");
    assert_eq!(manifest.folders.get("test_sync"), Some(&String::new()));
    assert_eq!(manifest.files.len(), 3);
    assert_eq!(manifest.files.get("test_sync/keep.txt"), Some(&content_checksum(b"keep")));
    assert_eq!(manifest.files.get("test_sync/test2/test3/test_file"), Some(&"20644050".to_string()));
    for line in r.lines("SaveManifest").iter().chain(r.lines("LoadManifest").iter()) {
        assert!(line.ends_with("{ root: \"test_sync_2\" }"), "{}", line);
    }
    assert_eq!(r.lines("SaveManifest").len(), 6);
    assert_eq!(r.lines("EnsureManifest").len(), 3);
}

#[test]
fn a_local_folder_that_cannot_be_made_is_left_out_with_all_below_it() {
    let mut r = Remote::sample();
    r.fail_on = Some(("CreateLocalFolder { path: \"test_sync_2/test_sync/test2\" }".to_string(), SyncError::LocalIo));
    assert_eq!(r.drive(&mut clone_dir("test_sync", "test_sync_2")), Phase::Finished);
    assert_eq!(r.lines("Download").len(), 2);
    assert_eq!(r.lines("ListRemote"), strings(&["ListRemote { remote: \"test_sync\" }"]));
    let manifest = r.stored.as_ref().unwrap();
    assert_eq!(manifest.folders.len(), 1);
    assert_eq!(manifest.files.len(), 2);
}

#[test]
fn a_failure_of_the_transport_stops_the_copy() {
    let err = SyncError::RemoteOperation(RemoteCode::Session(-28));
    let mut r = Remote::sample();
    r.files.retain(|(p, _)| p != "test_sync/test2/test3/test_file");
    let mut run = clone_dir("test_sync", "test_sync_2");
    assert_eq!(r.drive(&mut run), Phase::Stopped(err));
    assert_eq!(run.jobs_left(), 2);
    assert_eq!(r.stored.as_ref().unwrap().files.len(), 1);
    for (action, err) in [
        ("Connect", SyncError::Connection),
        ("EnsureManifest", SyncError::LocalIo),
        ("LoadManifest", SyncError::ManifestParse),
        ("SaveManifest", SyncError::LocalIo),
        ("ListRemote", SyncError::RemoteOperation(RemoteCode::Sftp(3))),
    ] {
        let mut r = Remote::sample();
        r.fail_on = Some((action.to_string(), err));
        let mut run = clone_dir("test_sync", "test_sync_2");
        assert_eq!(r.drive(&mut run), Phase::Stopped(err), "for {}", action);
        run.advance(Event::Completed);
        assert_eq!(run.phase(), Phase::Stopped(err));
    }
}

#[test]
fn a_single_file_is_copied_to_the_path_given() {
    let mut r = Remote::new();
    r.files.push(("test_sync_file".to_string(), b"this is a test sync file".to_vec()));
    let mut run = clone_file("test_sync_file", "dummy_file", None);
    assert_eq!(r.drive(&mut run), Phase::Finished);
    assert_eq!(
        r.log,
        strings(&["Connect", "Download { remote: \"test_sync_file\", local: \"dummy_file\" }"])
    );
    assert!(r.stored.is_none());
}

#[test]
fn a_single_file_is_recorded_where_a_manifest_is_named() {
    let mut r = Remote::new();
    r.files.push(("test_sync_file".to_string(), b"hi".to_vec()));
    let mut had = Config::new();
    had.files.insert("other".to_string(), "9".to_string());
    r.stored = Some(had);
    let mut run = clone_file("test_sync_file", "dummy_file", Some("config_dest"));
    assert_eq!(r.drive(&mut run), Phase::Finished);
    assert_eq!(
        r.log,
        strings(&[
            "Connect",
            "Download { remote: \"test_sync_file\", local: \"dummy_file\" }",
            "LoadManifest { root: \"config_dest\" }",
            "SaveManifest { root: \"config_dest\" }",
        ])
    );
    let manifest = r.stored.as_ref().unwrap();
    assert_eq!(manifest.files.get("test_sync_file"), Some(&"20644050".to_string()));
    assert_eq!(manifest.files.get("other"), Some(&"9".to_string()));
    let mut r = Remote::new();
    r.files.push(("test_sync_file".to_string(), b"hi".to_vec()));
    let mut run = clone_file("test_sync_file", "dummy_file", Some("config_dest"));
    assert_eq!(r.drive(&mut run), Phase::Stopped(SyncError::LocalIo));
}

#[test]
fn an_event_that_answers_nothing_stops_the_copy() {
    let mut run = Downloader::for_folder("a", "b");
    assert_eq!(run.phase(), Phase::Connecting);
    assert!(matches!(run.step(Event::Completed), Action::CreateLocalFolder { path } if path == "b/a"));
    let action = run.step(Event::Content(Vec::new()));
    assert!(matches!(action, Action::Abort(SyncError::UnexpectedEvent)));
    let mut run = Downloader::for_file("a", "b", None);
    assert!(matches!(run.step(Event::Completed), Action::Download { .. }));
    run.advance(Event::Kind { directory: true });
    assert_eq!(run.phase(), Phase::Stopped(SyncError::UnexpectedEvent));
}

#[test]
fn an_empty_folder_is_copied_as_a_folder() {
    let mut r = Remote::new();
    r.listings.push(("empty".to_string(), Vec::new()));
    assert_eq!(r.drive(&mut clone_dir("empty", "")), Phase::Finished);
    assert_eq!(
        r.log,
        strings(&[
            "Connect",
            "CreateLocalFolder { path: \"empty\" }",
            "EnsureManifest { root: \"\" }",
            "LoadManifest { root: \"\" }",
            "SaveManifest { root: \"\" }",
            "ListRemote { remote: \"empty\" }",
        ])
    );
}
