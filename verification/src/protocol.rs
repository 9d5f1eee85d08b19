//! What a run asks of the outside, and what it is told in return.
//!
//! A run performs no input or output. It names an action; whoever drives it
//! performs the action and reports the outcome as an event.

use vstd::prelude::*;
use crate::config::{Config, ConfigView};
use crate::error::{RemoteCode, SyncError};
use crate::file_util::{Found, FoundView, found_views};
use crate::text::texts;

verus! {

/// What the driver of a run is to do next.
#[derive(Debug)]
pub enum Action {
    /// Find out whether `path` is a directory. Answered by `Event::Kind`.
    Inspect { path: String },
    /// Write an empty manifest into `root` unless it holds one.
    EnsureManifest { root: String },
    /// Read and parse the manifest of `root`. Answered by `Event::Manifest`.
    LoadManifest { root: String },
    /// Open the remote session.
    Connect,
    /// Read the ignore file of `root`. Answered by `Event::IgnoreFile`.
    ReadIgnore { root: String },
    /// Expand the two patterns. Answered by `Event::Tree`.
    Walk { directories: String, files: String },
    /// Create the remote folder.
    CreateFolder { remote: String },
    /// Remove the remote file.
    RemoveFile { remote: String },
    /// Read the local file. Answered by `Event::Content`.
    ReadLocal { path: String },
    /// Send the content last read, which the run holds, to the remote file.
    SendFile { local: String, remote: String },
    /// Write the manifest that the run holds into `root`.
    SaveManifest { root: String },
    /// Create the local folder and those above it.
    CreateLocalFolder { path: String },
    /// List the remote folder. Answered by `Event::Listing`.
    ListRemote { remote: String },
    /// Fetch the remote file and write it to the local path. Answered by
    /// `Event::Content`.
    Download { remote: String, local: String },
    /// Nothing is left to do.
    Finish,
    /// The run has stopped for the given reason.
    Abort(SyncError),
}

/// An action with its strings as sequences of characters.
pub enum ActionView {
    Inspect { path: Seq<char> },
    EnsureManifest { root: Seq<char> },
    LoadManifest { root: Seq<char> },
    Connect,
    ReadIgnore { root: Seq<char> },
    Walk { directories: Seq<char>, files: Seq<char> },
    CreateFolder { remote: Seq<char> },
    RemoveFile { remote: Seq<char> },
    ReadLocal { path: Seq<char> },
    SendFile { local: Seq<char>, remote: Seq<char> },
    SaveManifest { root: Seq<char> },
    CreateLocalFolder { path: Seq<char> },
    ListRemote { remote: Seq<char> },
    Download { remote: Seq<char>, local: Seq<char> },
    Finish,
    Abort(SyncError),
}

impl View for Action {
    type V = ActionView;

    open spec fn view(&self) -> ActionView {
        match self {
            Action::Inspect { path } => ActionView::Inspect { path: path@ },
            Action::EnsureManifest { root } => ActionView::EnsureManifest { root: root@ },
            Action::LoadManifest { root } => ActionView::LoadManifest { root: root@ },
            Action::Connect => ActionView::Connect,
            Action::ReadIgnore { root } => ActionView::ReadIgnore { root: root@ },
            Action::Walk { directories, files } => ActionView::Walk {
                directories: directories@,
                files: files@,
            },
            Action::CreateFolder { remote } => ActionView::CreateFolder { remote: remote@ },
            Action::RemoveFile { remote } => ActionView::RemoveFile { remote: remote@ },
            Action::ReadLocal { path } => ActionView::ReadLocal { path: path@ },
            Action::SendFile { local, remote } => ActionView::SendFile {
                local: local@,
                remote: remote@,
            },
            Action::SaveManifest { root } => ActionView::SaveManifest { root: root@ },
            Action::CreateLocalFolder { path } => ActionView::CreateLocalFolder { path: path@ },
            Action::ListRemote { remote } => ActionView::ListRemote { remote: remote@ },
            Action::Download { remote, local } => ActionView::Download {
                remote: remote@,
                local: local@,
            },
            Action::Finish => ActionView::Finish,
            Action::Abort(err) => ActionView::Abort(*err),
        }
    }
}

/// The outcome of the action last asked for.
#[derive(Debug)]
pub enum Event {
    /// The action was performed; there is nothing to report.
    Completed,
    /// Whether the inspected path is a directory.
    Kind { directory: bool },
    /// The manifest that was read.
    Manifest(Config),
    /// Whether there is an ignore file, and its lines.
    IgnoreFile { present: bool, lines: Vec<String> },
    /// What the two patterns of a walk matched, each in the order found.
    Tree { directories: Vec<String>, found: Vec<Found> },
    /// The bytes of the file that was read or fetched.
    Content(Vec<u8>),
    /// The entries of the remote folder, in the order listed.
    Listing(Vec<Found>),
    /// The action failed.
    Failed(SyncError),
}

/// An event with its strings as sequences of characters.
pub enum EventView {
    Completed,
    Kind { directory: bool },
    Manifest(ConfigView),
    IgnoreFile { present: bool, lines: Seq<Seq<char>> },
    Tree { directories: Seq<Seq<char>>, found: Seq<FoundView> },
    Content(Seq<u8>),
    Listing(Seq<FoundView>),
    Failed(SyncError),
}

impl View for Event {
    type V = EventView;

    open spec fn view(&self) -> EventView {
        match self {
            Event::Completed => EventView::Completed,
            Event::Kind { directory } => EventView::Kind { directory: *directory },
            Event::Manifest(config) => EventView::Manifest(config@),
            Event::IgnoreFile { present, lines } => EventView::IgnoreFile {
                present: *present,
                lines: texts(lines@),
            },
            Event::Tree { directories, found } => EventView::Tree {
                directories: texts(directories@),
                found: found_views(found@),
            },
            Event::Content(bytes) => EventView::Content(bytes@),
            Event::Listing(found) => EventView::Listing(found_views(found@)),
            Event::Failed(err) => EventView::Failed(*err),
        }
    }
}

/// The failure with which a remote file service answers the creation of a
/// folder that is already there.
pub open spec fn is_benign(err: SyncError) -> bool {
    err == SyncError::RemoteOperation(RemoteCode::Sftp(4))
}

/// Whether a failed creation of a remote folder may be passed over: only
/// the failure that says the folder is already there is.
pub fn may_pass_over(err: SyncError) -> (r: bool)
    ensures
        r == is_benign(err),
{
    match err {
        SyncError::RemoteOperation(code) => match code {
            RemoteCode::Sftp(number) => number == 4,
            RemoteCode::Session(_) => false,
        },
        _ => false,
    }
}

} // verus!
