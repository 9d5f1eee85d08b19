//! The run that copies a remote tree, or a single remote file, to the
//! local side.
//!
//! A folder is created locally before it is listed, and it is listed
//! before anything in it is fetched, so that every folder exists before
//! what it holds. The entries of a folder are taken in the order listed,
//! and a folder among them is gone through before the entry after it.

use vstd::prelude::*;
use vstd::string::*;
use crate::config::{Config, ConfigView, Entries, with_entry};
use crate::error::SyncError;
use crate::file_util::{Found, FoundView, Kind, checksum_of, content_checksum, found_views};
use crate::path::{join, joined};
use crate::protocol::{Action, ActionView, Event, EventView};
use crate::reconcile::{with_files, with_folders};

verus! {

/// Something to copy. `remote` is its path on the remote side.
#[derive(Debug)]
pub enum Job {
    /// A folder, with all that lies below it.
    Folder { remote: String },
    /// A file, to be written to `local`.
    File { remote: String, local: String },
}

/// A job with its paths as sequences of characters.
pub enum JobView {
    Folder { remote: Seq<char> },
    File { remote: Seq<char>, local: Seq<char> },
}

impl View for Job {
    type V = JobView;

    open spec fn view(&self) -> JobView {
        match self {
            Job::Folder { remote } => JobView::Folder { remote: remote@ },
            Job::File { remote, local } => JobView::File { remote: remote@, local: local@ },
        }
    }
}

/// The views of a list of jobs, in order.
pub open spec fn job_views(v: Seq<Job>) -> Seq<JobView> {
    Seq::new(v.len(), |i: int| v[i]@)
}

/// Where a copy stands: what it waits for.
#[derive(Debug, Clone, Copy, PartialEq, Eq, Structural)]
pub enum Phase {
    /// For the session.
    Connecting,
    /// For the local folder of the current job.
    Making,
    /// For the manifest to be made sure of.
    Ensuring,
    /// For the manifest, to enter the current folder.
    LoadingForFolder,
    /// For the manifest with the folder to be saved.
    SavingFolder,
    /// For the listing of the current folder.
    Listing,
    /// For the content of the current file.
    Fetching,
    /// For the manifest, to enter the current file.
    LoadingForFile,
    /// For the manifest with the file to be saved.
    SavingFile,
    /// For nothing: all is copied.
    Finished,
    /// For nothing: the copy has stopped.
    Stopped(SyncError),
}

/// The state of a copy.
pub struct CopyView {
    pub phase: Phase,
    /// The local directory below which a tree is copied.
    pub destination: Seq<char>,
    /// The directory that holds the manifest.
    pub root: Seq<char>,
    /// Whether what is copied is entered into a manifest.
    pub recording: bool,
    /// What is left to copy. The last job is the current one.
    pub jobs: Seq<JobView>,
    /// The manifest as last loaded and changed.
    pub manifest: ConfigView,
    /// The content last fetched.
    pub content: Seq<u8>,
}

/// The job that stands for an entry of a listing: a folder for a
/// directory, and for anything else a file written below `dest` under the
/// entry's own path.
pub open spec fn job_for(dest: Seq<char>, entry: FoundView) -> JobView {
    if entry.kind == Kind::Directory {
        JobView::Folder { remote: entry.path }
    } else {
        JobView::File { remote: entry.path, local: joined(dest, entry.path) }
    }
}

/// The jobs for the entries of a listing, the first entry last, so that it
/// is the first to be taken up.
pub open spec fn jobs_for(dest: Seq<char>, entries: Seq<FoundView>) -> Seq<JobView> {
    Seq::new(entries.len(), |i: int| job_for(dest, entries[entries.len() - 1 - i]))
}

/// The phase in which the last of `jobs` begins.
pub open spec fn phase_for(jobs: Seq<JobView>) -> Phase {
    if jobs.len() == 0 {
        Phase::Finished
    } else {
        match jobs.last() {
            JobView::Folder { .. } => Phase::Making,
            JobView::File { .. } => Phase::Fetching,
        }
    }
}

/// The copy of the remote folder `src` to below the local directory
/// `dest`, before it has begun. The manifest lies in `dest`.
pub open spec fn folder_copy(src: Seq<char>, dest: Seq<char>) -> CopyView {
    CopyView {
        phase: Phase::Connecting,
        destination: dest,
        root: dest,
        recording: true,
        jobs: seq![JobView::Folder { remote: src }],
        manifest: ConfigView { folders: Entries::empty(), files: Entries::empty() },
        content: Seq::<u8>::empty(),
    }
}

/// The copy of the remote file `src` to the local path `dest`, before it
/// has begun. Where `config_dest` names a directory, the file is entered
/// into the manifest that lies there.
pub open spec fn file_copy(src: Seq<char>, dest: Seq<char>, config_dest: Option<Seq<char>>) -> CopyView {
    CopyView {
        phase: Phase::Connecting,
        destination: dest,
        root: match config_dest {
            Some(root) => root,
            None => Seq::<char>::empty(),
        },
        recording: config_dest is Some,
        jobs: seq![JobView::File { remote: src, local: dest }],
        manifest: ConfigView { folders: Entries::empty(), files: Entries::empty() },
        content: Seq::<u8>::empty(),
    }
}

/// The copy `s`, stopped for `err`.
pub open spec fn halted(s: CopyView, err: SyncError) -> CopyView {
    CopyView { phase: Phase::Stopped(err), ..s }
}

/// The copy `s` in another phase.
pub open spec fn in_phase(s: CopyView, phase: Phase) -> CopyView {
    CopyView { phase, ..s }
}

/// The copy with its current job done.
pub open spec fn job_done(s: CopyView) -> CopyView {
    if s.jobs.len() > 0 {
        CopyView { jobs: s.jobs.drop_last(), phase: phase_for(s.jobs.drop_last()), ..s }
    } else {
        halted(s, SyncError::UnexpectedEvent)
    }
}

/// The copy once the current folder is listed: the folder gives way to
/// what it holds.
pub open spec fn listed(s: CopyView, entries: Seq<FoundView>) -> CopyView {
    if s.jobs.len() > 0 {
        let jobs = s.jobs.drop_last() + jobs_for(s.destination, entries);
        CopyView { jobs, phase: phase_for(jobs), ..s }
    } else {
        halted(s, SyncError::UnexpectedEvent)
    }
}

/// The copy once the manifest `m` is loaded: the current job is entered
/// into it, a folder with an empty value and a file with the checksum of
/// the content fetched, and it is to be saved.
pub open spec fn loaded(s: CopyView, m: ConfigView) -> CopyView {
    if s.jobs.len() == 0 {
        halted(s, SyncError::UnexpectedEvent)
    } else {
        match s.jobs.last() {
            JobView::Folder { remote } => if s.phase == Phase::LoadingForFolder {
                CopyView {
                    manifest: with_folders(m, with_entry(m.folders, remote, Seq::<char>::empty())),
                    phase: Phase::SavingFolder,
                    ..s
                }
            } else {
                halted(s, SyncError::UnexpectedEvent)
            },
            JobView::File { remote, local } => if s.phase == Phase::LoadingForFile {
                CopyView {
                    manifest: with_files(m, with_entry(m.files, remote, checksum_of(s.content))),
                    phase: Phase::SavingFile,
                    ..s
                }
            } else {
                halted(s, SyncError::UnexpectedEvent)
            },
        }
    }
}

/// The copy once the current file is fetched and written.
pub open spec fn fetched(s: CopyView, bytes: Seq<u8>) -> CopyView {
    if s.recording {
        CopyView { content: bytes, phase: Phase::LoadingForFile, ..s }
    } else {
        job_done(CopyView { content: bytes, ..s })
    }
}

/// The copy once an action is reported as performed.
pub open spec fn performed(s: CopyView) -> CopyView {
    match s.phase {
        Phase::Connecting => in_phase(s, phase_for(s.jobs)),
        Phase::Making => in_phase(s, Phase::Ensuring),
        Phase::Ensuring => in_phase(s, Phase::LoadingForFolder),
        Phase::SavingFolder => in_phase(s, Phase::Listing),
        Phase::SavingFile => job_done(s),
        _ => halted(s, SyncError::UnexpectedEvent),
    }
}

/// The copy is over: finished or stopped.
pub open spec fn is_done(phase: Phase) -> bool {
    phase == Phase::Finished || phase is Stopped
}

/// The state that follows `s` on the event `e`. A copy that is over stays
/// as it is. A local folder that cannot be created is left out with all
/// below it, and the copy goes on; any other failure stops the copy, and so
/// does an event that does not answer what the copy waits for.
pub open spec fn copy_after(s: CopyView, e: EventView) -> CopyView {
    if is_done(s.phase) {
        s
    } else {
        match e {
            EventView::Failed(err) => if s.phase == Phase::Making {
                job_done(s)
            } else {
                halted(s, err)
            },
            EventView::Completed => performed(s),
            EventView::Manifest(m) => loaded(s, m),
            EventView::Listing(entries) => if s.phase == Phase::Listing {
                listed(s, entries)
            } else {
                halted(s, SyncError::UnexpectedEvent)
            },
            EventView::Content(bytes) => if s.phase == Phase::Fetching {
                fetched(s, bytes)
            } else {
                halted(s, SyncError::UnexpectedEvent)
            },
            _ => halted(s, SyncError::UnexpectedEvent),
        }
    }
}

/// The action that the copy `s` waits for.
pub open spec fn copy_wanted(s: CopyView) -> ActionView {
    match s.phase {
        Phase::Connecting => ActionView::Connect,
        Phase::Ensuring => ActionView::EnsureManifest { root: s.root },
        Phase::LoadingForFolder => ActionView::LoadManifest { root: s.root },
        Phase::LoadingForFile => ActionView::LoadManifest { root: s.root },
        Phase::SavingFolder => ActionView::SaveManifest { root: s.root },
        Phase::SavingFile => ActionView::SaveManifest { root: s.root },
        Phase::Finished => ActionView::Finish,
        Phase::Stopped(err) => ActionView::Abort(err),
        Phase::Making => if s.jobs.len() > 0 && s.jobs.last() is Folder {
            ActionView::CreateLocalFolder { path: joined(s.destination, s.jobs.last()->Folder_remote) }
        } else {
            ActionView::Abort(SyncError::UnexpectedEvent)
        },
        Phase::Listing => if s.jobs.len() > 0 && s.jobs.last() is Folder {
            ActionView::ListRemote { remote: s.jobs.last()->Folder_remote }
        } else {
            ActionView::Abort(SyncError::UnexpectedEvent)
        },
        Phase::Fetching => if s.jobs.len() > 0 && s.jobs.last() is File {
            ActionView::Download {
                remote: s.jobs.last()->File_remote,
                local: s.jobs.last()->local,
            }
        } else {
            ActionView::Abort(SyncError::UnexpectedEvent)
        },
    }
}

/// A run that copies from the remote side to the local one.
#[derive(Debug)]
pub struct Downloader {
    phase: Phase,
    destination: String,
    root: String,
    recording: bool,
    jobs: Vec<Job>,
    manifest: Config,
    content: Vec<u8>,
}

impl View for Downloader {
    type V = CopyView;

    closed spec fn view(&self) -> CopyView {
        CopyView {
            phase: self.phase,
            destination: self.destination@,
            root: self.root@,
            recording: self.recording,
            jobs: job_views(self.jobs@),
            manifest: self.manifest@,
            content: self.content@,
        }
    }
}

impl Downloader {
    /// A copy of the remote folder `src` to below the local directory `dest`.
    pub fn for_folder(src: &str, dest: &str) -> (run: Downloader)
        ensures
            run@ == folder_copy(src@, dest@),
    {
        let mut jobs: Vec<Job> = Vec::new();
        jobs.push(Job::Folder { remote: src.to_owned() });
        let run = Downloader {
            phase: Phase::Connecting,
            destination: dest.to_owned(),
            root: dest.to_owned(),
            recording: true,
            jobs,
            manifest: Config::new(),
            content: Vec::new(),
        };
        proof {
            assert(job_views(run.jobs@) =~= seq![JobView::Folder { remote: src@ }]);
        }
        run
    }

    /// A copy of the remote file `src` to the local path `dest`.
    pub fn for_file(src: &str, dest: &str, config_dest: Option<&str>) -> (run: Downloader)
        ensures
            run@ == file_copy(
                src@,
                dest@,
                match config_dest {
                    Some(root) => Some(root@),
                    None => None,
                },
            ),
    {
        let mut jobs: Vec<Job> = Vec::new();
        jobs.push(Job::File { remote: src.to_owned(), local: dest.to_owned() });
        let (root, recording) = match config_dest {
            Some(root) => (root.to_owned(), true),
            None => (String::new(), false),
        };
        let run = Downloader {
            phase: Phase::Connecting,
            destination: dest.to_owned(),
            root,
            recording,
            jobs,
            manifest: Config::new(),
            content: Vec::new(),
        };
        proof {
            assert(job_views(run.jobs@) =~= seq![JobView::File { remote: src@, local: dest@ }]);
        }
        run
    }

    /// Where the copy stands.
    pub fn phase(&self) -> (phase: Phase)
        ensures
            phase == self@.phase,
    {
        self.phase
    }

    /// Whether the copy is over.
    pub fn is_over(&self) -> (over: bool)
        ensures
            over == is_done(self@.phase),
    {
        match self.phase {
            Phase::Finished => true,
            Phase::Stopped(_) => true,
            _ => false,
        }
    }

    /// The manifest as it stands: what `Action::SaveManifest` is to write.
    pub fn manifest(&self) -> (m: &Config)
        ensures
            m@ == self@.manifest,
    {
        &self.manifest
    }

    /// How many jobs are left.
    pub fn jobs_left(&self) -> (n: usize)
        ensures
            n == self@.jobs.len(),
    {
        self.jobs.len()
    }

    fn halt(&mut self, err: SyncError)
        ensures
            final(self)@ == halted(old(self)@, err),
    {
        self.phase = Phase::Stopped(err);
    }

    fn phase_here(&self) -> (phase: Phase)
        ensures
            phase == phase_for(self@.jobs),
    {
        if self.jobs.len() == 0 {
            Phase::Finished
        } else {
            match &self.jobs[self.jobs.len() - 1] {
                Job::Folder { .. } => Phase::Making,
                Job::File { .. } => Phase::Fetching,
            }
        }
    }

    fn finish_job(&mut self)
        ensures
            final(self)@ == job_done(old(self)@),
    {
        if self.jobs.len() > 0 {
            let ghost before = job_views(self.jobs@);
            self.jobs.pop();
            proof {
                assert(job_views(self.jobs@) =~= before.drop_last());
            }
            self.phase = self.phase_here();
        } else {
            self.halt(SyncError::UnexpectedEvent);
        }
    }

    fn list(&mut self, entries: Vec<Found>)
        ensures
            final(self)@ == listed(old(self)@, found_views(entries@)),
    {
        if self.jobs.len() == 0 {
            self.halt(SyncError::UnexpectedEvent);
            return ;
        }
        let ghost before = job_views(self.jobs@);
        self.jobs.pop();
        proof {
            assert(job_views(self.jobs@) =~= before.drop_last());
        }
        let ghost base = job_views(self.jobs@);
        let ghost all = jobs_for(self.destination@, found_views(entries@));
        let n = entries.len();
        let mut i: usize = 0;
        proof {
            assert(base + all.take(0) =~= base);
        }
        while i < n
            invariant
                i <= n,
                n == entries@.len(),
                all == jobs_for(self.destination@, found_views(entries@)),
                job_views(self.jobs@) == base + all.take(i as int),
                self.destination@ == old(self).destination@,
                self.phase == old(self).phase,
                self.root@ == old(self).root@,
                self.recording == old(self).recording,
                self.manifest@ == old(self).manifest@,
                self.content@ == old(self).content@,
            decreases n - i,
        {
            let entry = &entries[n - 1 - i];
            let job = if entry.kind == Kind::Directory {
                Job::Folder { remote: entry.path.clone() }
            } else {
                Job::File {
                    remote: entry.path.clone(),
                    local: join(self.destination.as_str(), entry.path.as_str()),
                }
            };
            let ghost so_far = job_views(self.jobs@);
            proof {
                assert(found_views(entries@)[n - 1 - i] == entry@);
                assert(job@ == all[i as int]);
            }
            self.jobs.push(job);
            proof {
                assert(job_views(self.jobs@) =~= so_far.push(job@));
                assert(base + all.take(i + 1) =~= (base + all.take(i as int)).push(all[i as int]));
            }
            i += 1;
        }
        proof {
            assert(all.take(n as int) =~= all);
        }
        self.phase = self.phase_here();
    }

    fn load(&mut self, m: Config)
        ensures
            final(self)@ == loaded(old(self)@, m@),
    {
        if self.jobs.len() == 0 {
            self.halt(SyncError::UnexpectedEvent);
            return ;
        }
        match &self.jobs[self.jobs.len() - 1] {
            Job::Folder { remote } => {
                if self.phase == Phase::LoadingForFolder {
                    let key = remote.clone();
                    self.manifest = m;
                    self.manifest.folders.insert(key, String::new());
                    self.phase = Phase::SavingFolder;
                } else {
                    self.halt(SyncError::UnexpectedEvent);
                }
            },
            Job::File { remote, local } => {
                if self.phase == Phase::LoadingForFile {
                    let key = remote.clone();
                    let sum = content_checksum(self.content.as_slice());
                    self.manifest = m;
                    self.manifest.files.insert(key, sum);
                    self.phase = Phase::SavingFile;
                } else {
                    self.halt(SyncError::UnexpectedEvent);
                }
            },
        }
    }

    fn fetch(&mut self, bytes: Vec<u8>)
        ensures
            final(self)@ == fetched(old(self)@, bytes@),
    {
        self.content = bytes;
        if self.recording {
            self.phase = Phase::LoadingForFile;
        } else {
            self.finish_job();
        }
    }

    fn perform(&mut self)
        ensures
            final(self)@ == performed(old(self)@),
    {
        match self.phase {
            Phase::Connecting => {
                self.phase = self.phase_here();
            },
            Phase::Making => {
                self.phase = Phase::Ensuring;
            },
            Phase::Ensuring => {
                self.phase = Phase::LoadingForFolder;
            },
            Phase::SavingFolder => {
                self.phase = Phase::Listing;
            },
            Phase::SavingFile => self.finish_job(),
            _ => self.halt(SyncError::UnexpectedEvent),
        }
    }

    /// Takes the outcome of the action last asked for.
    pub fn advance(&mut self, event: Event)
        ensures
            final(self)@ == copy_after(old(self)@, event@),
    {
        if self.is_over() {
            return ;
        }
        match event {
            Event::Failed(err) => {
                if self.phase == Phase::Making {
                    self.finish_job();
                } else {
                    self.halt(err);
                }
            },
            Event::Completed => self.perform(),
            Event::Manifest(m) => self.load(m),
            Event::Listing(entries) => {
                if self.phase == Phase::Listing {
                    self.list(entries);
                } else {
                    self.halt(SyncError::UnexpectedEvent);
                }
            },
            Event::Content(bytes) => {
                if self.phase == Phase::Fetching {
                    self.fetch(bytes);
                } else {
                    self.halt(SyncError::UnexpectedEvent);
                }
            },
            _ => self.halt(SyncError::UnexpectedEvent),
        }
    }

    /// The action that the copy waits for.
    pub fn pending(&self) -> (action: Action)
        ensures
            action@ == copy_wanted(self@),
    {
        match self.phase {
            Phase::Connecting => Action::Connect,
            Phase::Ensuring => Action::EnsureManifest { root: self.root.clone() },
            Phase::LoadingForFolder => Action::LoadManifest { root: self.root.clone() },
            Phase::LoadingForFile => Action::LoadManifest { root: self.root.clone() },
            Phase::SavingFolder => Action::SaveManifest { root: self.root.clone() },
            Phase::SavingFile => Action::SaveManifest { root: self.root.clone() },
            Phase::Finished => Action::Finish,
            Phase::Stopped(err) => Action::Abort(err),
            Phase::Making => {
                if self.jobs.len() == 0 {
                    return Action::Abort(SyncError::UnexpectedEvent);
                }
                match &self.jobs[self.jobs.len() - 1] {
                    Job::Folder { remote } => Action::CreateLocalFolder {
                        path: join(self.destination.as_str(), remote.as_str()),
                    },
                    _ => Action::Abort(SyncError::UnexpectedEvent),
                }
            },
            Phase::Listing => {
                if self.jobs.len() == 0 {
                    return Action::Abort(SyncError::UnexpectedEvent);
                }
                match &self.jobs[self.jobs.len() - 1] {
                    Job::Folder { remote } => Action::ListRemote { remote: remote.clone() },
                    _ => Action::Abort(SyncError::UnexpectedEvent),
                }
            },
            Phase::Fetching => {
                if self.jobs.len() == 0 {
                    return Action::Abort(SyncError::UnexpectedEvent);
                }
                match &self.jobs[self.jobs.len() - 1] {
                    Job::File { remote, local } => Action::Download {
                        remote: remote.clone(),
                        local: local.clone(),
                    },
                    _ => Action::Abort(SyncError::UnexpectedEvent),
                }
            },
        }
    }

    /// Takes the outcome of the action last asked for and names the next.
    pub fn step(&mut self, event: Event) -> (action: Action)
        ensures
            final(self)@ == copy_after(old(self)@, event@),
            action@ == copy_wanted(final(self)@),
    {
        self.advance(event);
        self.pending()
    }
}

} // verus!
