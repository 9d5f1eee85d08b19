//! From a manifest and what was found to the ordered list of tasks of a run.

use vstd::prelude::*;
use vstd::string::*;
use crate::config::{
    Config, ConfigView, Entries, Table, get_items_to_delete, get_items_to_upload, has_key,
    keys_of, to_delete, to_upload, value_of,
};
use crate::file_util::{
    Found, FoundView, filtered, found_views, get_all_files_subdir, regular_files,
    remove_ignored_path,
};
use crate::path::{ancestors, components, join, joined, split_components, trails};
use crate::text::{texts, lemma_texts_push, clone_texts};

verus! {

/// What differs between a manifest and what was found.
#[derive(Debug)]
pub struct DiffResult {
    /// Folders found that the manifest does not hold, in the order found.
    pub folders_to_add: Vec<String>,
    /// Folders of the manifest that were not found.
    pub folders_to_remove: Vec<String>,
    /// Files found that the manifest does not hold, in the order found.
    pub files_to_add: Vec<String>,
    /// Files of the manifest that were not found.
    pub files_to_remove: Vec<String>,
    /// Files found that the manifest holds: their content decides, when it
    /// is read, whether they are sent again.
    pub files_to_check: Vec<String>,
}

/// A difference with its paths as sequences of characters.
pub struct DiffView {
    pub folders_to_add: Seq<Seq<char>>,
    pub folders_to_remove: Seq<Seq<char>>,
    pub files_to_add: Seq<Seq<char>>,
    pub files_to_remove: Seq<Seq<char>>,
    pub files_to_check: Seq<Seq<char>>,
}

impl View for DiffResult {
    type V = DiffView;

    open spec fn view(&self) -> DiffView {
        DiffView {
            folders_to_add: texts(self.folders_to_add@),
            folders_to_remove: texts(self.folders_to_remove@),
            files_to_add: texts(self.files_to_add@),
            files_to_remove: texts(self.files_to_remove@),
            files_to_check: texts(self.files_to_check@),
        }
    }
}

/// The paths of `live`, in order, that are keys of `known`.
pub open spec fn to_check(known: Entries, live: Seq<Seq<char>>) -> Seq<Seq<char>>
    decreases live.len(),
{
    if live.len() == 0 {
        Seq::<Seq<char>>::empty()
    } else if has_key(known, live.last()) {
        to_check(known, live.drop_last()).push(live.last())
    } else {
        to_check(known, live.drop_last())
    }
}

/// The difference between the manifest `m` and the folders and files found.
pub open spec fn difference(m: ConfigView, folders: Seq<Seq<char>>, files: Seq<Seq<char>>) -> DiffView {
    DiffView {
        folders_to_add: to_upload(m.folders, folders),
        folders_to_remove: to_delete(keys_of(m.folders), folders),
        files_to_add: to_upload(m.files, files),
        files_to_remove: to_delete(keys_of(m.files), files),
        files_to_check: to_check(m.files, files),
    }
}

fn items_to_check(known: &Table, live: &Vec<String>) -> (out: Vec<String>)
    ensures
        texts(out@) == to_check(known@, texts(live@)),
{
    let mut out: Vec<String> = Vec::new();
    let mut i: usize = 0;
    while i < live.len()
        invariant
            i <= live.len(),
            texts(out@) == to_check(known@, texts(live@).take(i as int)),
        decreases live.len() - i,
    {
        proof {
            assert(texts(live@).take(i + 1).drop_last() =~= texts(live@).take(i as int));
            assert(texts(live@).take(i + 1).last() == live@[i as int]@);
        }
        if known.contains_key(live[i].as_str()) {
            let item = live[i].clone();
            proof {
                lemma_texts_push(out@, item);
            }
            out.push(item);
        }
        i += 1;
    }
    proof {
        assert(texts(live@).take(live.len() as int) =~= texts(live@));
    }
    out
}

/// Compares the manifest with the folders and files found.
pub fn diff(config: &Config, folders: &Vec<String>, files: &Vec<String>) -> (d: DiffResult)
    ensures
        d@ == difference(config@, texts(folders@), texts(files@)),
{
    DiffResult {
        folders_to_add: get_items_to_upload(&config.folders, folders),
        folders_to_remove: get_items_to_delete(&config.folders, folders),
        files_to_add: get_items_to_upload(&config.files, files),
        files_to_remove: get_items_to_delete(&config.files, files),
        files_to_check: items_to_check(&config.files, files),
    }
}

/// One item of work of a run. `key` is the item's path as the manifest
/// names it, `remote` its path at the destination.
#[derive(Debug)]
pub enum Task {
    /// Create the folder at the destination; then, where `record` is set,
    /// enter it into the manifest.
    CreateFolder { key: String, remote: String, record: bool },
    /// Remove the file at the destination, then take it out of the manifest.
    RemoveFile { key: String, remote: String },
    /// Send the file, then enter it into the manifest with its checksum.
    Upload { key: String, remote: String },
    /// Read the file and send it again if its checksum is not `recorded`.
    Refresh { key: String, remote: String, recorded: String },
}

/// A task with its strings as sequences of characters.
pub enum TaskView {
    CreateFolder { key: Seq<char>, remote: Seq<char>, record: bool },
    RemoveFile { key: Seq<char>, remote: Seq<char> },
    Upload { key: Seq<char>, remote: Seq<char> },
    Refresh { key: Seq<char>, remote: Seq<char>, recorded: Seq<char> },
}

impl View for Task {
    type V = TaskView;

    open spec fn view(&self) -> TaskView {
        match self {
            Task::CreateFolder { key, remote, record } => TaskView::CreateFolder {
                key: key@,
                remote: remote@,
                record: *record,
            },
            Task::RemoveFile { key, remote } => TaskView::RemoveFile { key: key@, remote: remote@ },
            Task::Upload { key, remote } => TaskView::Upload { key: key@, remote: remote@ },
            Task::Refresh { key, remote, recorded } => TaskView::Refresh {
                key: key@,
                remote: remote@,
                recorded: recorded@,
            },
        }
    }
}

/// The views of a list of tasks, in order.
pub open spec fn task_views(v: Seq<Task>) -> Seq<TaskView> {
    Seq::new(v.len(), |i: int| v[i]@)
}

/// Pushing a task onto a list pushes its view onto the list's views.
pub proof fn lemma_task_views_push(v: Seq<Task>, t: Task)
    ensures
        task_views(v.push(t)) == task_views(v).push(t@),
{
    assert(task_views(v.push(t)) =~= task_views(v).push(t@));
}

/// The three kinds of task that need nothing but the item's path.
#[derive(Debug, Clone, Copy, PartialEq, Eq, Structural)]
pub enum Simple {
    Folder,
    Removal,
    Upload,
}

/// The task of the given kind for the item `key`, below the destination `dest`.
pub open spec fn simple_task(kind: Simple, dest: Seq<char>, key: Seq<char>) -> TaskView {
    match kind {
        Simple::Folder => TaskView::CreateFolder { key, remote: joined(dest, key), record: true },
        Simple::Removal => TaskView::RemoveFile { key, remote: joined(dest, key) },
        Simple::Upload => TaskView::Upload { key, remote: joined(dest, key) },
    }
}

/// One task of the given kind for each key, in order.
pub open spec fn simple_tasks(kind: Simple, dest: Seq<char>, keys: Seq<Seq<char>>) -> Seq<TaskView> {
    Seq::new(keys.len(), |i: int| simple_task(kind, dest, keys[i]))
}

/// One refresh task for each of `keys` that `known` holds, in order.
pub open spec fn refresh_tasks(known: Entries, dest: Seq<char>, keys: Seq<Seq<char>>) -> Seq<
    TaskView,
>
    decreases keys.len(),
{
    if keys.len() == 0 {
        Seq::<TaskView>::empty()
    } else if has_key(known, keys.last()) {
        refresh_tasks(known, dest, keys.drop_last()).push(
            TaskView::Refresh {
                key: keys.last(),
                remote: joined(dest, keys.last()),
                recorded: value_of(known, keys.last()),
            },
        )
    } else {
        refresh_tasks(known, dest, keys.drop_last())
    }
}

/// The task that creates the destination folder itself: it is wanted where
/// a destination is named that the manifest does not hold as a folder.
pub open spec fn destination_tasks(m: ConfigView, dest: Seq<char>) -> Seq<TaskView> {
    if dest.len() > 0 && !has_key(m.folders, dest) {
        seq![TaskView::CreateFolder { key: dest, remote: dest, record: false }]
    } else {
        Seq::<TaskView>::empty()
    }
}

/// The tasks that apply a difference, in the order in which they run: the
/// destination folder, the new folders, the removals of files, the new
/// files, and last the files to check. No task removes a folder.
pub open spec fn schedule(m: ConfigView, dest: Seq<char>, d: DiffView) -> Seq<TaskView> {
    destination_tasks(m, dest) + simple_tasks(Simple::Folder, dest, d.folders_to_add)
        + simple_tasks(Simple::Removal, dest, d.files_to_remove) + simple_tasks(
        Simple::Upload,
        dest,
        d.files_to_add,
    ) + refresh_tasks(m.files, dest, d.files_to_check)
}

fn push_simple(out: &mut Vec<Task>, kind: Simple, dest: &str, keys: &Vec<String>)
    ensures
        task_views(final(out)@) == task_views(old(out)@) + simple_tasks(kind, dest@, texts(keys@)),
{
    let ghost before = task_views(out@);
    let mut i: usize = 0;
    proof {
        assert(before + simple_tasks(kind, dest@, texts(keys@).take(0)) =~= before);
    }
    while i < keys.len()
        invariant
            i <= keys.len(),
            task_views(out@) == before + simple_tasks(kind, dest@, texts(keys@).take(i as int)),
        decreases keys.len() - i,
    {
        let key = keys[i].clone();
        let remote = join(dest, keys[i].as_str());
        let task = match kind {
            Simple::Folder => Task::CreateFolder { key, remote, record: true },
            Simple::Removal => Task::RemoveFile { key, remote },
            Simple::Upload => Task::Upload { key, remote },
        };
        proof {
            lemma_task_views_push(out@, task);
            assert(texts(keys@)[i as int] == keys@[i as int]@);
            assert(task@ == simple_task(kind, dest@, texts(keys@)[i as int]));
            assert(before + simple_tasks(kind, dest@, texts(keys@).take(i + 1)) =~= (before
                + simple_tasks(kind, dest@, texts(keys@).take(i as int))).push(task@));
        }
        out.push(task);
        i += 1;
    }
    proof {
        assert(texts(keys@).take(keys.len() as int) =~= texts(keys@));
    }
}

fn push_refresh(out: &mut Vec<Task>, known: &Table, dest: &str, keys: &Vec<String>)
    ensures
        task_views(final(out)@) == task_views(old(out)@) + refresh_tasks(
            known@,
            dest@,
            texts(keys@),
        ),
{
    let ghost before = task_views(out@);
    let mut i: usize = 0;
    proof {
        assert(before + refresh_tasks(known@, dest@, texts(keys@).take(0)) =~= before);
    }
    while i < keys.len()
        invariant
            i <= keys.len(),
            task_views(out@) == before + refresh_tasks(known@, dest@, texts(keys@).take(i as int)),
        decreases keys.len() - i,
    {
        proof {
            assert(texts(keys@).take(i + 1).drop_last() =~= texts(keys@).take(i as int));
            assert(texts(keys@).take(i + 1).last() == keys@[i as int]@);
        }
        match known.get(keys[i].as_str()) {
            Some(value) => {
                let task = Task::Refresh {
                    key: keys[i].clone(),
                    remote: join(dest, keys[i].as_str()),
                    recorded: value.clone(),
                };
                proof {
                    lemma_task_views_push(out@, task);
                    assert(before + refresh_tasks(known@, dest@, texts(keys@).take(i + 1)) =~= (
                    before + refresh_tasks(known@, dest@, texts(keys@).take(i as int))).push(
                        task@,
                    ));
                }
                out.push(task);
            },
            None => {},
        }
        i += 1;
    }
    proof {
        assert(texts(keys@).take(keys.len() as int) =~= texts(keys@));
    }
}

/// The tasks that apply the difference `d` of the manifest `config`, with
/// `dest` as the destination folder (empty where none is named).
pub fn tasks_for(config: &Config, dest: &str, d: &DiffResult) -> (out: Vec<Task>)
    ensures
        task_views(out@) == schedule(config@, dest@, d@),
{
    let mut out: Vec<Task> = Vec::new();
    if dest.unicode_len() > 0 && !config.folders.contains_key(dest) {
        let task = Task::CreateFolder { key: dest.to_owned(), remote: dest.to_owned(), record: false };
        proof {
            lemma_task_views_push(out@, task);
        }
        out.push(task);
    }
    assert(task_views(out@) =~= destination_tasks(config@, dest@));
    push_simple(&mut out, Simple::Folder, dest, &d.folders_to_add);
    push_simple(&mut out, Simple::Removal, dest, &d.files_to_remove);
    push_simple(&mut out, Simple::Upload, dest, &d.files_to_add);
    push_refresh(&mut out, &config.files, dest, &d.files_to_check);
    out
}

/// The folders to compare with the manifest: the trails of the root, then
/// the directories found, less the ignored ones.
pub open spec fn live_folders(
    root: Seq<char>,
    present: bool,
    patterns: Seq<Seq<char>>,
    directories: Seq<Seq<char>>,
) -> Seq<Seq<char>> {
    trails(components(root)) + filtered(present, directories, patterns)
}

/// The files to compare with the manifest: the regular files found, without
/// manifest and ignore files, less the ignored ones.
pub open spec fn live_files(present: bool, patterns: Seq<Seq<char>>, found: Seq<FoundView>) -> Seq<
    Seq<char>,
> {
    filtered(present, regular_files(found), patterns)
}

/// The tasks of a run on the directory `root`.
pub open spec fn directory_plan(
    m: ConfigView,
    root: Seq<char>,
    dest: Seq<char>,
    present: bool,
    patterns: Seq<Seq<char>>,
    directories: Seq<Seq<char>>,
    found: Seq<FoundView>,
) -> Seq<TaskView> {
    schedule(
        m,
        dest,
        difference(
            m,
            live_folders(root, present, patterns, directories),
            live_files(present, patterns, found),
        ),
    )
}

/// The tasks of a run on the single file `source` that lies in `parent`
/// (empty where the file is named without a directory): a folder for each
/// trail of the parent, then the file, sent if the manifest does not hold
/// it and checked if it does.
pub open spec fn file_plan(m: ConfigView, source: Seq<char>, parent: Seq<char>, dest: Seq<char>) -> Seq<
    TaskView,
> {
    let folders = if parent.len() > 0 {
        simple_tasks(Simple::Folder, dest, trails(components(parent)))
    } else {
        Seq::<TaskView>::empty()
    };
    if has_key(m.files, source) {
        folders.push(
            TaskView::Refresh {
                key: source,
                remote: joined(dest, source),
                recorded: value_of(m.files, source),
            },
        )
    } else {
        folders.push(TaskView::Upload { key: source, remote: joined(dest, source) })
    }
}

/// Plans a run on a directory. `directories` and `found` are what the walk
/// of `root` has found, `patterns` the resolved ignore list, and
/// `ignore_file_present` whether the root has an ignore file.
pub fn plan_directory(
    config: &Config,
    root: &str,
    dest: &str,
    ignore_file_present: bool,
    patterns: &Vec<String>,
    directories: &Vec<String>,
    found: &Vec<Found>,
) -> (out: Vec<Task>)
    ensures
        task_views(out@) == directory_plan(
            config@,
            root@,
            dest@,
            ignore_file_present,
            texts(patterns@),
            texts(directories@),
            found_views(found@),
        ),
{
    let comps = split_components(root);
    let mut folders = ancestors(&comps);
    let mut below = clone_texts(directories);
    let mut left = remove_ignored_path(ignore_file_present, &mut below, patterns);
    let ghost first = texts(folders@);
    let ghost second = texts(left@);
    folders.append(&mut left);
    proof {
        assert(texts(folders@) =~= first + second);
    }
    let mut files = get_all_files_subdir(found);
    let files = remove_ignored_path(ignore_file_present, &mut files, patterns);
    let d = diff(config, &folders, &files);
    tasks_for(config, dest, &d)
}

/// Plans a run on a single file.
pub fn plan_file(config: &Config, source: &str, parent: &str, dest: &str) -> (out: Vec<Task>)
    ensures
        task_views(out@) == file_plan(config@, source@, parent@, dest@),
{
    let mut out: Vec<Task> = Vec::new();
    if parent.unicode_len() > 0 {
        let comps = split_components(parent);
        let folders = ancestors(&comps);
        push_simple(&mut out, Simple::Folder, dest, &folders);
        assert(task_views(out@) =~= simple_tasks(Simple::Folder, dest@, trails(components(parent@))));
    } else {
        assert(task_views(out@) =~= Seq::<TaskView>::empty());
    }
    let task = match config.files.get(source) {
        Some(value) => Task::Refresh {
            key: source.to_owned(),
            remote: join(dest, source),
            recorded: value.clone(),
        },
        None => Task::Upload { key: source.to_owned(), remote: join(dest, source) },
    };
    proof {
        lemma_task_views_push(out@, task);
    }
    out.push(task);
    out
}

} // verus!
