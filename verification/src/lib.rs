//! One-way reconciliation of a local directory tree with a remote tree.
//!
//! The library holds the decisions of a synchronisation run: which paths are
//! ignored, what the manifest of transferred items contains, which items have
//! to be created, removed or sent again, and in what order. It performs no
//! input or output itself. A run is a state machine that names the next
//! action to perform and takes the outcome of that action as its next event.

pub mod error;
pub mod text;
pub mod path;
pub mod config;
pub mod file_util;
pub mod connection;
pub mod plan;
pub mod protocol;
pub mod reconcile;
pub mod sftp;
pub mod laws;
pub mod rerun;
pub mod order;

use vstd::prelude::*;
use crate::reconcile::{Reconciler, initial};
use crate::sftp::{Downloader, file_copy, folder_copy};

verus! {

/// A run that brings the remote side in line with the local path `src`: a
/// directory with all below it, or a single file. `dest` names the remote
/// folder to synchronise into.
pub fn sync(src: &str, dest: Option<&str>) -> (run: Reconciler)
    ensures
        run@ == initial(
            src@,
            match dest {
                Some(d) => d@,
                None => Seq::<char>::empty(),
            },
        ),
{
    match dest {
        Some(d) => Reconciler::new(src, d),
        None => {
            let run = Reconciler::new(src, "");
            proof {
                reveal_strlit("");
                assert(""@ =~= Seq::<char>::empty());
            }
            run
        },
    }
}

/// A run that copies the remote folder `src`, with all below it, to below
/// the local directory `dest`, and enters what it copies into the manifest
/// of `dest`.
pub fn clone_dir(src: &str, dest: &str) -> (run: Downloader)
    ensures
        run@ == folder_copy(src@, dest@),
{
    Downloader::for_folder(src, dest)
}

/// A run that copies the remote file `src` to the local path `dest`. Where
/// `config_dest` names a directory, the file is entered into the manifest
/// that lies there.
pub fn clone_file(src: &str, dest: &str, config_dest: Option<&str>) -> (run: Downloader)
    ensures
        run@ == file_copy(
            src@,
            dest@,
            match config_dest {
                Some(root) => Some(root@),
                None => None,
            },
        ),
{
    Downloader::for_file(src, dest, config_dest)
}

} // verus!

