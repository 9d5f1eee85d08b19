//! The run that brings the destination in line with a local tree.
//!
//! The run goes through its stages in one order: it inspects the source,
//! makes sure a manifest exists and loads it, connects, reads the ignore
//! list and walks the tree (for a directory), plans its tasks, and then
//! carries them out one by one. After each remote change it updates the
//! manifest and has it saved before it turns to the next task, so that a
//! run that stops leaves a manifest from which the next run goes on.

use vstd::prelude::*;
use vstd::string::*;
use crate::config::{Config, ConfigView, Entries, get_ignore_file, patterns, with_entry, without_key};
use crate::error::SyncError;
use crate::file_util::{
    FoundView, checksum_of, content_checksum, directories_pattern, files_pattern,
};
use crate::path::{parent, parent_of};
use crate::plan::{Task, TaskView, directory_plan, file_plan, plan_directory, plan_file, task_views};
use crate::protocol::{Action, ActionView, Event, EventView, is_benign, may_pass_over};
use crate::text::texts;

verus! {

/// Where a run stands: what it waits for.
#[derive(Debug, Clone, Copy, PartialEq, Eq, Structural)]
pub enum Stage {
    /// For the kind of the source.
    Inspecting,
    /// For the manifest to be made sure of.
    Ensuring,
    /// For the manifest.
    Loading,
    /// For the session.
    Connecting,
    /// For the ignore list.
    ReadingIgnore,
    /// For the walk of the tree.
    Walking,
    /// For the remote change of the current task.
    Applying,
    /// For the content of the current task's file.
    Reading,
    /// For the current task's file to be sent.
    Sending,
    /// For the manifest to be saved.
    Saving,
    /// For nothing: all tasks are done.
    Finished,
    /// For nothing: the run has stopped.
    Stopped(SyncError),
}

/// The state of a run.
pub struct RunView {
    pub stage: Stage,
    /// The path to synchronise.
    pub source: Seq<char>,
    /// The destination folder, empty where none is named.
    pub destination: Seq<char>,
    /// Whether the source is a directory.
    pub directory: bool,
    /// The directory that holds the manifest.
    pub root: Seq<char>,
    /// For a single file, the directory that holds it; empty where it is
    /// named without one.
    pub parent: Seq<char>,
    /// The manifest as it stands.
    pub manifest: ConfigView,
    pub ignore_present: bool,
    /// The resolved ignore list.
    pub patterns: Seq<Seq<char>>,
    pub tasks: Seq<TaskView>,
    /// How many tasks are done.
    pub position: nat,
    /// The content last read.
    pub content: Seq<u8>,
}

/// A run that has not begun.
pub open spec fn initial(source: Seq<char>, destination: Seq<char>) -> RunView {
    RunView {
        stage: Stage::Inspecting,
        source,
        destination,
        directory: false,
        root: Seq::<char>::empty(),
        parent: Seq::<char>::empty(),
        manifest: ConfigView { folders: Entries::empty(), files: Entries::empty() },
        ignore_present: false,
        patterns: Seq::<Seq<char>>::empty(),
        tasks: Seq::<TaskView>::empty(),
        position: 0,
        content: Seq::<u8>::empty(),
    }
}

/// The run `s`, stopped for `err`.
pub open spec fn stopped(s: RunView, err: SyncError) -> RunView {
    RunView { stage: Stage::Stopped(err), ..s }
}

/// The run `s` at another stage.
pub open spec fn at_stage(s: RunView, stage: Stage) -> RunView {
    RunView { stage, ..s }
}

/// The task that the run is at, if it is at one.
pub open spec fn current(s: RunView) -> Option<TaskView> {
    if s.position < s.tasks.len() {
        Some(s.tasks[s.position as int])
    } else {
        None
    }
}

/// The stage in which the task at `position` begins.
pub open spec fn stage_at(tasks: Seq<TaskView>, position: nat) -> Stage {
    if position >= tasks.len() {
        Stage::Finished
    } else {
        match tasks[position as int] {
            TaskView::CreateFolder { .. } => Stage::Applying,
            TaskView::RemoveFile { .. } => Stage::Applying,
            TaskView::Upload { .. } => Stage::Reading,
            TaskView::Refresh { .. } => Stage::Reading,
        }
    }
}

/// The run with its tasks planned, at the first of them.
pub open spec fn begun(s: RunView, tasks: Seq<TaskView>) -> RunView {
    RunView { tasks, position: 0, stage: stage_at(tasks, 0), ..s }
}

/// The run at its next task.
pub open spec fn moved_on(s: RunView) -> RunView {
    if s.position < s.tasks.len() {
        RunView { position: s.position + 1, stage: stage_at(s.tasks, s.position + 1), ..s }
    } else {
        stopped(s, SyncError::UnexpectedEvent)
    }
}

/// The run once it knows what the source is. A directory holds its own
/// manifest. A file's manifest lies in the file's directory, or in `./`
/// where the file is named without one.
pub open spec fn inspected(s: RunView, directory: bool) -> RunView {
    if directory {
        RunView { directory: true, root: s.source, stage: Stage::Ensuring, ..s }
    } else {
        match parent_of(s.source) {
            Some(p) => RunView {
                directory: false,
                parent: p,
                root: if p.len() == 0 {
                    "./"@
                } else {
                    p
                },
                stage: Stage::Ensuring,
                ..s
            },
            None => stopped(s, SyncError::InvalidSource),
        }
    }
}

/// The run once the session is open.
pub open spec fn connected(s: RunView) -> RunView {
    if s.directory {
        at_stage(s, Stage::ReadingIgnore)
    } else {
        begun(s, file_plan(s.manifest, s.source, s.parent, s.destination))
    }
}

/// The run once the tree is walked.
pub open spec fn walked(s: RunView, directories: Seq<Seq<char>>, found: Seq<FoundView>) -> RunView {
    begun(
        s,
        directory_plan(
            s.manifest,
            s.source,
            s.destination,
            s.ignore_present,
            s.patterns,
            directories,
            found,
        ),
    )
}

/// The manifest `m` with another table of folders.
pub open spec fn with_folders(m: ConfigView, folders: Entries) -> ConfigView {
    ConfigView { folders, files: m.files }
}

/// The manifest `m` with another table of files.
pub open spec fn with_files(m: ConfigView, files: Entries) -> ConfigView {
    ConfigView { folders: m.folders, files }
}

/// The run once the remote change of its task is made: the manifest takes
/// the change and is to be saved. A folder that is not recorded changes
/// nothing, and the run moves on.
pub open spec fn applied(s: RunView) -> RunView {
    match current(s) {
        Some(TaskView::CreateFolder { key, remote, record }) => if record {
            RunView {
                manifest: with_folders(
                    s.manifest,
                    with_entry(s.manifest.folders, key, Seq::<char>::empty()),
                ),
                stage: Stage::Saving,
                ..s
            }
        } else {
            moved_on(s)
        },
        Some(TaskView::RemoveFile { key, remote }) => RunView {
            manifest: with_files(s.manifest, without_key(s.manifest.files, key)),
            stage: Stage::Saving,
            ..s
        },
        _ => stopped(s, SyncError::UnexpectedEvent),
    }
}

/// A failed creation of a folder that the run passes over.
pub open spec fn pardoned(s: RunView, err: SyncError) -> bool {
    s.stage == Stage::Applying && is_benign(err) && current(s) matches Some(
        TaskView::CreateFolder { .. },
    )
}

/// The run once the file of its task is read: a new file is sent; a file
/// of the manifest is sent where its checksum is not the recorded one, and
/// left alone where it is.
pub open spec fn read(s: RunView, bytes: Seq<u8>) -> RunView {
    match current(s) {
        Some(TaskView::Upload { key, remote }) => RunView {
            content: bytes,
            stage: Stage::Sending,
            ..s
        },
        Some(TaskView::Refresh { key, remote, recorded }) => if checksum_of(bytes) == recorded {
            moved_on(RunView { content: bytes, ..s })
        } else {
            RunView { content: bytes, stage: Stage::Sending, ..s }
        },
        _ => stopped(s, SyncError::UnexpectedEvent),
    }
}

/// The run once the file of its task is sent: the manifest records the
/// checksum of the content sent and is to be saved.
pub open spec fn sent(s: RunView) -> RunView {
    match current(s) {
        Some(TaskView::Upload { key, remote }) => RunView {
            manifest: with_files(s.manifest, with_entry(s.manifest.files, key, checksum_of(s.content))),
            stage: Stage::Saving,
            ..s
        },
        Some(TaskView::Refresh { key, remote, recorded }) => RunView {
            manifest: with_files(s.manifest, with_entry(s.manifest.files, key, checksum_of(s.content))),
            stage: Stage::Saving,
            ..s
        },
        _ => stopped(s, SyncError::UnexpectedEvent),
    }
}

/// The run once an action is reported as performed.
pub open spec fn completed(s: RunView) -> RunView {
    match s.stage {
        Stage::Ensuring => at_stage(s, Stage::Loading),
        Stage::Connecting => connected(s),
        Stage::Applying => applied(s),
        Stage::Sending => sent(s),
        Stage::Saving => moved_on(s),
        _ => stopped(s, SyncError::UnexpectedEvent),
    }
}

/// The run is over: finished or stopped.
pub open spec fn is_over(stage: Stage) -> bool {
    stage == Stage::Finished || stage is Stopped
}

/// The state that follows `s` on the event `e`. A run that is over stays as
/// it is. A failure stops the run, but for the creation of a folder that is
/// already there. An event that does not answer what the run waits for stops
/// it too.
pub open spec fn after(s: RunView, e: EventView) -> RunView {
    if is_over(s.stage) {
        s
    } else {
        match e {
            EventView::Failed(err) => if pardoned(s, err) {
                applied(s)
            } else {
                stopped(s, err)
            },
            EventView::Completed => completed(s),
            EventView::Kind { directory } => if s.stage == Stage::Inspecting {
                inspected(s, directory)
            } else {
                stopped(s, SyncError::UnexpectedEvent)
            },
            EventView::Manifest(m) => if s.stage == Stage::Loading {
                RunView { manifest: m, stage: Stage::Connecting, ..s }
            } else {
                stopped(s, SyncError::UnexpectedEvent)
            },
            EventView::IgnoreFile { present, lines } => if s.stage == Stage::ReadingIgnore {
                RunView {
                    ignore_present: present,
                    patterns: patterns(s.source, lines),
                    stage: Stage::Walking,
                    ..s
                }
            } else {
                stopped(s, SyncError::UnexpectedEvent)
            },
            EventView::Tree { directories, found } => if s.stage == Stage::Walking {
                walked(s, directories, found)
            } else {
                stopped(s, SyncError::UnexpectedEvent)
            },
            EventView::Content(bytes) => if s.stage == Stage::Reading {
                read(s, bytes)
            } else {
                stopped(s, SyncError::UnexpectedEvent)
            },
            EventView::Listing(found) => stopped(s, SyncError::UnexpectedEvent),
        }
    }
}

/// The action that the run `s` waits for.
pub open spec fn wanted(s: RunView) -> ActionView {
    match s.stage {
        Stage::Inspecting => ActionView::Inspect { path: s.source },
        Stage::Ensuring => ActionView::EnsureManifest { root: s.root },
        Stage::Loading => ActionView::LoadManifest { root: s.root },
        Stage::Connecting => ActionView::Connect,
        Stage::ReadingIgnore => ActionView::ReadIgnore { root: s.source },
        Stage::Walking => ActionView::Walk {
            directories: s.source + "/**"@,
            files: s.source + "/**/*"@,
        },
        Stage::Applying => match current(s) {
            Some(TaskView::CreateFolder { key, remote, record }) => ActionView::CreateFolder {
                remote,
            },
            Some(TaskView::RemoveFile { key, remote }) => ActionView::RemoveFile { remote },
            _ => ActionView::Abort(SyncError::UnexpectedEvent),
        },
        Stage::Reading => match current(s) {
            Some(TaskView::Upload { key, remote }) => ActionView::ReadLocal { path: key },
            Some(TaskView::Refresh { key, remote, recorded }) => ActionView::ReadLocal {
                path: key,
            },
            _ => ActionView::Abort(SyncError::UnexpectedEvent),
        },
        Stage::Sending => match current(s) {
            Some(TaskView::Upload { key, remote }) => ActionView::SendFile { local: key, remote },
            Some(TaskView::Refresh { key, remote, recorded }) => ActionView::SendFile {
                local: key,
                remote,
            },
            _ => ActionView::Abort(SyncError::UnexpectedEvent),
        },
        Stage::Saving => ActionView::SaveManifest { root: s.root },
        Stage::Finished => ActionView::Finish,
        Stage::Stopped(err) => ActionView::Abort(err),
    }
}

/// A run that synchronises a path with a destination.
#[derive(Debug)]
pub struct Reconciler {
    stage: Stage,
    source: String,
    destination: String,
    directory: bool,
    root: String,
    parent: String,
    manifest: Config,
    ignore_present: bool,
    patterns: Vec<String>,
    tasks: Vec<Task>,
    position: usize,
    content: Vec<u8>,
}

impl View for Reconciler {
    type V = RunView;

    closed spec fn view(&self) -> RunView {
        RunView {
            stage: self.stage,
            source: self.source@,
            destination: self.destination@,
            directory: self.directory,
            root: self.root@,
            parent: self.parent@,
            manifest: self.manifest@,
            ignore_present: self.ignore_present,
            patterns: texts(self.patterns@),
            tasks: task_views(self.tasks@),
            position: self.position as nat,
            content: self.content@,
        }
    }
}

impl Reconciler {
    /// A run on `source` that has not begun. `destination` names the remote
    /// folder to synchronise into; it is empty where none is named.
    pub fn new(source: &str, destination: &str) -> (run: Reconciler)
        ensures
            run@ == initial(source@, destination@),
    {
        let run = Reconciler {
            stage: Stage::Inspecting,
            source: source.to_owned(),
            destination: destination.to_owned(),
            directory: false,
            root: String::new(),
            parent: String::new(),
            manifest: Config::new(),
            ignore_present: false,
            patterns: Vec::new(),
            tasks: Vec::new(),
            position: 0,
            content: Vec::new(),
        };
        proof {
            assert(texts(run.patterns@) =~= Seq::<Seq<char>>::empty());
            assert(task_views(run.tasks@) =~= Seq::<TaskView>::empty());
        }
        run
    }

    /// Where the run stands.
    pub fn stage(&self) -> (stage: Stage)
        ensures
            stage == self@.stage,
    {
        self.stage
    }

    /// Whether the run is over.
    pub fn is_over(&self) -> (over: bool)
        ensures
            over == is_over(self@.stage),
    {
        match self.stage {
            Stage::Finished => true,
            Stage::Stopped(_) => true,
            _ => false,
        }
    }

    /// The manifest as it stands: what `Action::SaveManifest` is to write.
    pub fn manifest(&self) -> (m: &Config)
        ensures
            m@ == self@.manifest,
    {
        &self.manifest
    }

    /// The content last read: what `Action::SendFile` is to send.
    pub fn content(&self) -> (bytes: &Vec<u8>)
        ensures
            bytes@ == self@.content,
    {
        &self.content
    }

    /// The tasks of the run, once they are planned.
    pub fn tasks(&self) -> (tasks: &Vec<Task>)
        ensures
            task_views(tasks@) == self@.tasks,
    {
        &self.tasks
    }

    /// How many tasks are done.
    pub fn position(&self) -> (n: usize)
        ensures
            n == self@.position,
    {
        self.position
    }

    fn stop(&mut self, err: SyncError)
        ensures
            final(self)@ == stopped(old(self)@, err),
    {
        self.stage = Stage::Stopped(err);
    }

    fn begin(&mut self, tasks: Vec<Task>)
        ensures
            final(self)@ == begun(old(self)@, task_views(tasks@)),
    {
        self.tasks = tasks;
        self.position = 0;
        self.stage = self.stage_here();
    }

    fn stage_here(&self) -> (stage: Stage)
        ensures
            stage == stage_at(self@.tasks, self@.position),
    {
        if self.position >= self.tasks.len() {
            Stage::Finished
        } else {
            match &self.tasks[self.position] {
                Task::CreateFolder { .. } => Stage::Applying,
                Task::RemoveFile { .. } => Stage::Applying,
                Task::Upload { .. } => Stage::Reading,
                Task::Refresh { .. } => Stage::Reading,
            }
        }
    }

    fn move_on(&mut self)
        ensures
            final(self)@ == moved_on(old(self)@),
    {
        if self.position < self.tasks.len() {
            self.position = self.position + 1;
            self.stage = self.stage_here();
        } else {
            self.stop(SyncError::UnexpectedEvent);
        }
    }

    fn inspect(&mut self, directory: bool)
        ensures
            final(self)@ == inspected(old(self)@, directory),
    {
        if directory {
            self.directory = true;
            self.root = self.source.clone();
            self.stage = Stage::Ensuring;
        } else {
            match parent(self.source.as_str()) {
                Some(p) => {
                    self.directory = false;
                    if p.as_str().unicode_len() == 0 {
                        self.root = "./".to_owned();
                    } else {
                        self.root = p.clone();
                    }
                    self.parent = p;
                    self.stage = Stage::Ensuring;
                },
                None => {
                    self.stop(SyncError::InvalidSource);
                },
            }
        }
    }

    fn connect(&mut self)
        ensures
            final(self)@ == connected(old(self)@),
    {
        if self.directory {
            self.stage = Stage::ReadingIgnore;
        } else {
            let tasks = plan_file(
                &self.manifest,
                self.source.as_str(),
                self.parent.as_str(),
                self.destination.as_str(),
            );
            self.begin(tasks);
        }
    }

    fn apply(&mut self)
        ensures
            final(self)@ == applied(old(self)@),
    {
        if self.position >= self.tasks.len() {
            self.stop(SyncError::UnexpectedEvent);
            return ;
        }
        match &self.tasks[self.position] {
            Task::CreateFolder { key, remote, record } => {
                if *record {
                    let k = key.clone();
                    self.manifest.folders.insert(k, String::new());
                    self.stage = Stage::Saving;
                } else {
                    self.move_on();
                }
            },
            Task::RemoveFile { key, remote } => {
                let k = key.clone();
                self.manifest.files.remove(k.as_str());
                self.stage = Stage::Saving;
            },
            _ => {
                self.stop(SyncError::UnexpectedEvent);
            },
        }
    }

    fn take_content(&mut self, bytes: Vec<u8>)
        ensures
            final(self)@ == read(old(self)@, bytes@),
    {
        if self.position >= self.tasks.len() {
            self.stop(SyncError::UnexpectedEvent);
            return ;
        }
        match &self.tasks[self.position] {
            Task::Upload { key, remote } => {
                self.content = bytes;
                self.stage = Stage::Sending;
            },
            Task::Refresh { key, remote, recorded } => {
                let unchanged = content_checksum(bytes.as_slice()) == *recorded;
                self.content = bytes;
                if unchanged {
                    self.move_on();
                } else {
                    self.stage = Stage::Sending;
                }
            },
            _ => {
                self.stop(SyncError::UnexpectedEvent);
            },
        }
    }

    fn record_sent(&mut self)
        ensures
            final(self)@ == sent(old(self)@),
    {
        if self.position >= self.tasks.len() {
            self.stop(SyncError::UnexpectedEvent);
            return ;
        }
        match &self.tasks[self.position] {
            Task::Upload { key, remote } => {
                let k = key.clone();
                let sum = content_checksum(self.content.as_slice());
                self.manifest.files.insert(k, sum);
                self.stage = Stage::Saving;
            },
            Task::Refresh { key, remote, recorded } => {
                let k = key.clone();
                let sum = content_checksum(self.content.as_slice());
                self.manifest.files.insert(k, sum);
                self.stage = Stage::Saving;
            },
            _ => {
                self.stop(SyncError::UnexpectedEvent);
            },
        }
    }

    fn complete(&mut self)
        ensures
            final(self)@ == completed(old(self)@),
    {
        match self.stage {
            Stage::Ensuring => {
                self.stage = Stage::Loading;
            },
            Stage::Connecting => self.connect(),
            Stage::Applying => self.apply(),
            Stage::Sending => self.record_sent(),
            Stage::Saving => self.move_on(),
            _ => self.stop(SyncError::UnexpectedEvent),
        }
    }

    fn pardons(&self, err: SyncError) -> (r: bool)
        ensures
            r == pardoned(self@, err),
    {
        if self.stage == Stage::Applying && may_pass_over(err) && self.position < self.tasks.len() {
            match &self.tasks[self.position] {
                Task::CreateFolder { .. } => true,
                _ => false,
            }
        } else {
            false
        }
    }

    /// Takes the outcome of the action last asked for.
    pub fn advance(&mut self, event: Event)
        ensures
            final(self)@ == after(old(self)@, event@),
    {
        if self.is_over() {
            return ;
        }
        match event {
            Event::Failed(err) => {
                if self.pardons(err) {
                    self.apply();
                } else {
                    self.stop(err);
                }
            },
            Event::Completed => self.complete(),
            Event::Kind { directory } => {
                if self.stage == Stage::Inspecting {
                    self.inspect(directory);
                } else {
                    self.stop(SyncError::UnexpectedEvent);
                }
            },
            Event::Manifest(m) => {
                if self.stage == Stage::Loading {
                    self.manifest = m;
                    self.stage = Stage::Connecting;
                } else {
                    self.stop(SyncError::UnexpectedEvent);
                }
            },
            Event::IgnoreFile { present, lines } => {
                if self.stage == Stage::ReadingIgnore {
                    self.ignore_present = present;
                    self.patterns = get_ignore_file(self.source.as_str(), &lines);
                    self.stage = Stage::Walking;
                } else {
                    self.stop(SyncError::UnexpectedEvent);
                }
            },
            Event::Tree { directories, found } => {
                if self.stage == Stage::Walking {
                    let tasks = plan_directory(
                        &self.manifest,
                        self.source.as_str(),
                        self.destination.as_str(),
                        self.ignore_present,
                        &self.patterns,
                        &directories,
                        &found,
                    );
                    self.begin(tasks);
                } else {
                    self.stop(SyncError::UnexpectedEvent);
                }
            },
            Event::Content(bytes) => {
                if self.stage == Stage::Reading {
                    self.take_content(bytes);
                } else {
                    self.stop(SyncError::UnexpectedEvent);
                }
            },
            Event::Listing(found) => self.stop(SyncError::UnexpectedEvent),
        }
    }

    /// The action that the run waits for.
    pub fn pending(&self) -> (action: Action)
        ensures
            action@ == wanted(self@),
    {
        match self.stage {
            Stage::Inspecting => Action::Inspect { path: self.source.clone() },
            Stage::Ensuring => Action::EnsureManifest { root: self.root.clone() },
            Stage::Loading => Action::LoadManifest { root: self.root.clone() },
            Stage::Connecting => Action::Connect,
            Stage::ReadingIgnore => Action::ReadIgnore { root: self.source.clone() },
            Stage::Walking => Action::Walk {
                directories: directories_pattern(self.source.as_str()),
                files: files_pattern(self.source.as_str()),
            },
            Stage::Applying => {
                if self.position >= self.tasks.len() {
                    return Action::Abort(SyncError::UnexpectedEvent);
                }
                match &self.tasks[self.position] {
                    Task::CreateFolder { key, remote, record } => Action::CreateFolder {
                        remote: remote.clone(),
                    },
                    Task::RemoveFile { key, remote } => Action::RemoveFile { remote: remote.clone() },
                    _ => Action::Abort(SyncError::UnexpectedEvent),
                }
            },
            Stage::Reading => {
                if self.position >= self.tasks.len() {
                    return Action::Abort(SyncError::UnexpectedEvent);
                }
                match &self.tasks[self.position] {
                    Task::Upload { key, remote } => Action::ReadLocal { path: key.clone() },
                    Task::Refresh { key, remote, recorded } => Action::ReadLocal {
                        path: key.clone(),
                    },
                    _ => Action::Abort(SyncError::UnexpectedEvent),
                }
            },
            Stage::Sending => {
                if self.position >= self.tasks.len() {
                    return Action::Abort(SyncError::UnexpectedEvent);
                }
                match &self.tasks[self.position] {
                    Task::Upload { key, remote } => Action::SendFile {
                        local: key.clone(),
                        remote: remote.clone(),
                    },
                    Task::Refresh { key, remote, recorded } => Action::SendFile {
                        local: key.clone(),
                        remote: remote.clone(),
                    },
                    _ => Action::Abort(SyncError::UnexpectedEvent),
                }
            },
            Stage::Saving => Action::SaveManifest { root: self.root.clone() },
            Stage::Finished => Action::Finish,
            Stage::Stopped(err) => Action::Abort(err),
        }
    }

    /// Takes the outcome of the action last asked for and names the next.
    pub fn step(&mut self, event: Event) -> (action: Action)
        ensures
            final(self)@ == after(old(self)@, event@),
            action@ == wanted(final(self)@),
    {
        self.advance(event);
        self.pending()
    }
}

} // verus!
