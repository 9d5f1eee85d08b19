//! What holds of the diffs, the ignore list, the checksum and the schedule.

use vstd::prelude::*;
use crate::config::{ConfigView, Entries, has_key, keys_of, to_delete, to_upload};
use crate::error::SyncError;
use crate::file_util::{
    FoundView, adler32, adler_high, adler_low, checksum_of, decimal, digit, filtered, is_ignored,
    kept, regular_files,
};
use crate::path::{components, trails};
use crate::plan::{
    DiffView, Simple, TaskView, destination_tasks, difference, directory_plan, live_files,
    live_folders, refresh_tasks, schedule, simple_tasks, to_check,
};
use crate::protocol::{ActionView, EventView};
use crate::reconcile::{RunView, Stage, after, pardoned, wanted};
use crate::sftp::{CopyView, Phase, copy_after, copy_wanted};

verus! {

/// A key is to be deleted exactly if the table holds it and it was not found.
pub proof fn lemma_to_delete_contains(keys: Seq<Seq<char>>, live: Seq<Seq<char>>, p: Seq<char>)
    ensures
        to_delete(keys, live).contains(p) <==> keys.contains(p) && !live.contains(p),
    decreases keys.len(),
{
    if keys.len() > 0 {
        let head = keys.drop_last();
        lemma_to_delete_contains(head, live, p);
        lemma_contains_last(keys, p);
        if !live.contains(keys.last()) {
            lemma_contains_push(to_delete(head, live), keys.last(), p);
        }
    }
}

/// A path is to be uploaded exactly if it was found and the table does not hold it.
pub proof fn lemma_to_upload_contains(known: Entries, live: Seq<Seq<char>>, p: Seq<char>)
    ensures
        to_upload(known, live).contains(p) <==> live.contains(p) && !has_key(known, p),
    decreases live.len(),
{
    if live.len() > 0 {
        let head = live.drop_last();
        lemma_to_upload_contains(known, head, p);
        lemma_contains_last(live, p);
        if !has_key(known, live.last()) {
            lemma_contains_push(to_upload(known, head), live.last(), p);
        }
    }
}

/// A path is to be checked exactly if it was found and the table holds it.
pub proof fn lemma_to_check_contains(known: Entries, live: Seq<Seq<char>>, p: Seq<char>)
    ensures
        to_check(known, live).contains(p) <==> live.contains(p) && has_key(known, p),
    decreases live.len(),
{
    if live.len() > 0 {
        let head = live.drop_last();
        lemma_to_check_contains(known, head, p);
        lemma_contains_last(live, p);
        if has_key(known, live.last()) {
            lemma_contains_push(to_check(known, head), live.last(), p);
        }
    }
}

/// A path is kept exactly if it was given, is not empty, and no pattern matches it.
pub proof fn lemma_kept_contains(paths: Seq<Seq<char>>, patterns: Seq<Seq<char>>, p: Seq<char>)
    ensures
        kept(paths, patterns).contains(p) <==> paths.contains(p) && p.len() > 0 && !is_ignored(
            p,
            patterns,
        ),
    decreases paths.len(),
{
    if paths.len() > 0 {
        let head = paths.drop_last();
        lemma_kept_contains(head, patterns, p);
        lemma_contains_last(paths, p);
        if paths.last().len() > 0 && !is_ignored(paths.last(), patterns) {
            lemma_contains_push(kept(head, patterns), paths.last(), p);
        }
    }
}

/// What a non-empty sequence contains is its last item or in the rest.
pub proof fn lemma_contains_last(s: Seq<Seq<char>>, p: Seq<char>)
    requires
        s.len() > 0,
    ensures
        s.contains(p) <==> s.drop_last().contains(p) || s.last() == p,
{
    if s.contains(p) {
        let i = choose|i: int| 0 <= i < s.len() && s[i] == p;
        if i < s.len() - 1 {
            assert(s.drop_last()[i] == p);
        }
    }
    if s.drop_last().contains(p) {
        let i = choose|i: int| 0 <= i < s.drop_last().len() && s.drop_last()[i] == p;
        assert(s[i] == p);
    }
    if s.last() == p {
        assert(s[s.len() - 1] == p);
    }
}

/// What a sequence contains after a push is the item pushed or was there before.
pub proof fn lemma_contains_push(s: Seq<Seq<char>>, x: Seq<char>, p: Seq<char>)
    ensures
        s.push(x).contains(p) <==> s.contains(p) || x == p,
{
    assert(s.push(x).drop_last() =~= s);
    lemma_contains_last(s.push(x), p);
}

/// No path is both to be uploaded and to be deleted.
pub proof fn lemma_upload_and_delete_disjoint(known: Entries, live: Seq<Seq<char>>, p: Seq<char>)
    ensures
        !(to_upload(known, live).contains(p) && to_delete(keys_of(known), live).contains(p)),
{
    lemma_to_upload_contains(known, live, p);
    lemma_to_delete_contains(keys_of(known), live, p);
}

/// The lists of a difference share no path within a table: what is added
/// is neither removed nor checked, and what is removed is not checked.
pub proof fn lemma_difference_disjoint(
    m: ConfigView,
    folders: Seq<Seq<char>>,
    files: Seq<Seq<char>>,
    p: Seq<char>,
)
    ensures
        ({
            let d = difference(m, folders, files);
            &&& !(d.folders_to_add.contains(p) && d.folders_to_remove.contains(p))
            &&& !(d.files_to_add.contains(p) && d.files_to_remove.contains(p))
            &&& !(d.files_to_add.contains(p) && d.files_to_check.contains(p))
            &&& !(d.files_to_remove.contains(p) && d.files_to_check.contains(p))
        }),
{
    lemma_to_upload_contains(m.folders, folders, p);
    lemma_to_delete_contains(keys_of(m.folders), folders, p);
    lemma_to_upload_contains(m.files, files, p);
    lemma_to_delete_contains(keys_of(m.files), files, p);
    lemma_to_check_contains(m.files, files, p);
}

/// With an ignore file, no path that a pattern matches is left after the
/// filter, and none is to be uploaded or checked.
pub proof fn lemma_ignored_is_not_sent(
    m: ConfigView,
    patterns: Seq<Seq<char>>,
    directories: Seq<Seq<char>>,
    files: Seq<Seq<char>>,
    p: Seq<char>,
)
    requires
        is_ignored(p, patterns),
    ensures
        !filtered(true, directories, patterns).contains(p),
        !filtered(true, files, patterns).contains(p),
        !to_upload(m.folders, filtered(true, directories, patterns)).contains(p),
        !to_upload(m.files, filtered(true, files, patterns)).contains(p),
        !to_check(m.files, filtered(true, files, patterns)).contains(p),
{
    lemma_kept_contains(directories, patterns, p);
    lemma_kept_contains(files, patterns, p);
    lemma_to_upload_contains(m.folders, kept(directories, patterns), p);
    lemma_to_upload_contains(m.files, kept(files, patterns), p);
    lemma_to_check_contains(m.files, kept(files, patterns), p);
}

/// Where no key of the table is matched by a pattern, no path that a
/// pattern matches is to be deleted.
pub proof fn lemma_ignored_is_not_deleted(
    known: Entries,
    patterns: Seq<Seq<char>>,
    live: Seq<Seq<char>>,
    p: Seq<char>,
)
    requires
        forall|k: Seq<char>| has_key(known, k) ==> !is_ignored(k, patterns),
        is_ignored(p, patterns),
    ensures
        !to_delete(keys_of(known), live).contains(p),
{
    lemma_to_delete_contains(keys_of(known), live, p);
    if keys_of(known).contains(p) {
        let i = choose|i: int| 0 <= i < keys_of(known).len() && keys_of(known)[i] == p;
        assert(known[i].0 == p);
        assert(has_key(known, p));
    }
}

/// The folders to be created for a directory that a pattern matches are
/// among the trails of the root, which no ignore list filters.
pub proof fn lemma_ignored_folder_is_a_trail(
    m: ConfigView,
    root: Seq<char>,
    patterns: Seq<Seq<char>>,
    directories: Seq<Seq<char>>,
    p: Seq<char>,
)
    requires
        is_ignored(p, patterns),
        to_upload(m.folders, live_folders(root, true, patterns, directories)).contains(p),
    ensures
        trails(components(root)).contains(p),
{
    let live = live_folders(root, true, patterns, directories);
    lemma_to_upload_contains(m.folders, live, p);
    lemma_kept_contains(directories, patterns, p);
    let i = choose|i: int| 0 <= i < live.len() && live[i] == p;
    let first = trails(components(root));
    if i < first.len() {
        assert(first[i] == p);
    } else {
        assert(kept(directories, patterns)[i - first.len()] == p);
    }
}

/// Both sums of a checksum lie below the modulus, so the checksum fits
/// into thirty-two bits.
pub proof fn lemma_adler32_fits(bytes: Seq<u8>)
    ensures
        adler_low(bytes) < 65521,
        adler_high(bytes) < 65521,
        adler32(bytes) <= u32::MAX,
    decreases bytes.len(),
{
    if bytes.len() > 0 {
        lemma_adler32_fits(bytes.drop_last());
    }
}

/// A decimal has at least one digit.
pub proof fn lemma_decimal_len(n: nat)
    ensures
        decimal(n).len() >= 1,
        n >= 10 ==> decimal(n).len() >= 2,
    decreases n,
{
    if n >= 10 {
        lemma_decimal_len(n / 10);
    }
}

/// Two numbers with the same decimal are the same number.
pub proof fn lemma_decimal_injective(n: nat, m: nat)
    requires
        decimal(n) == decimal(m),
    ensures
        n == m,
    decreases n,
{
    lemma_decimal_len(n);
    lemma_decimal_len(m);
    if n >= 10 {
        assert(m >= 10);
        let a = decimal(n / 10);
        let b = decimal(m / 10);
        assert(decimal(n).drop_last() =~= a);
        assert(decimal(m).drop_last() =~= b);
        assert(decimal(n).last() == digit(n % 10));
        assert(decimal(m).last() == digit(m % 10));
        lemma_decimal_injective(n / 10, m / 10);
    } else {
        assert(m < 10);
        assert(decimal(n)[0] == digit(n));
        assert(decimal(m)[0] == digit(m));
    }
}

/// The same content always has the same checksum string, and two contents
/// have the same checksum string exactly if they have the same checksum.
pub proof fn lemma_checksum_stable(a: Seq<u8>, b: Seq<u8>)
    ensures
        a == b ==> checksum_of(a) == checksum_of(b),
        checksum_of(a) == checksum_of(b) <==> adler32(a) == adler32(b),
{
    if checksum_of(a) == checksum_of(b) {
        lemma_decimal_injective(adler32(a), adler32(b));
    }
}

/// The place of a task in the order of a run: folders come first, then
/// the removals of files, then new files, then the files to check.
pub open spec fn rank(task: TaskView) -> int {
    match task {
        TaskView::CreateFolder { .. } => 0,
        TaskView::RemoveFile { .. } => 1,
        TaskView::Upload { .. } => 2,
        TaskView::Refresh { .. } => 3,
    }
}

/// Every task among the refresh tasks is one.
pub proof fn lemma_refresh_tasks_rank(known: Entries, dest: Seq<char>, keys: Seq<Seq<char>>, i: int)
    requires
        0 <= i < refresh_tasks(known, dest, keys).len(),
    ensures
        rank(refresh_tasks(known, dest, keys)[i]) == 3,
    decreases keys.len(),
{
    if keys.len() > 0 {
        let head = refresh_tasks(known, dest, keys.drop_last());
        if i < head.len() {
            lemma_refresh_tasks_rank(known, dest, keys.drop_last(), i);
        }
    }
}

/// In a schedule every folder is created before any file is touched, and
/// every removal of a file comes before any file is sent.
pub proof fn lemma_schedule_in_order(m: ConfigView, dest: Seq<char>, d: DiffView, i: int, j: int)
    requires
        0 <= i <= j < schedule(m, dest, d).len(),
    ensures
        rank(schedule(m, dest, d)[i]) <= rank(schedule(m, dest, d)[j]),
{
    let a = destination_tasks(m, dest);
    let b = simple_tasks(Simple::Folder, dest, d.folders_to_add);
    let c = simple_tasks(Simple::Removal, dest, d.files_to_remove);
    let e = simple_tasks(Simple::Upload, dest, d.files_to_add);
    let f = refresh_tasks(m.files, dest, d.files_to_check);
    let all = schedule(m, dest, d);
    assert(all =~= a + b + c + e + f);
    lemma_schedule_parts(m, dest, d, i);
    lemma_schedule_parts(m, dest, d, j);
}

/// The rank of the task at a place of a schedule, by the part it lies in.
pub proof fn lemma_schedule_parts(m: ConfigView, dest: Seq<char>, d: DiffView, i: int)
    requires
        0 <= i < schedule(m, dest, d).len(),
    ensures
        ({
            let a = destination_tasks(m, dest).len();
            let b = a + d.folders_to_add.len();
            let c = b + d.files_to_remove.len();
            let e = c + d.files_to_add.len();
            rank(schedule(m, dest, d)[i]) == if i < b {
                0int
            } else if i < c {
                1int
            } else if i < e {
                2int
            } else {
                3int
            }
        }),
{
    let a = destination_tasks(m, dest);
    let b = simple_tasks(Simple::Folder, dest, d.folders_to_add);
    let c = simple_tasks(Simple::Removal, dest, d.files_to_remove);
    let e = simple_tasks(Simple::Upload, dest, d.files_to_add);
    let f = refresh_tasks(m.files, dest, d.files_to_check);
    let all = schedule(m, dest, d);
    if i < a.len() {
        assert(all[i] == a[i]);
    } else if i < a.len() + b.len() {
        assert(all[i] == b[i - a.len()]);
    } else if i < a.len() + b.len() + c.len() {
        assert(all[i] == c[i - a.len() - b.len()]);
    } else if i < a.len() + b.len() + c.len() + e.len() {
        assert(all[i] == e[i - a.len() - b.len() - c.len()]);
    } else {
        let k = i - a.len() - b.len() - c.len() - e.len();
        assert(all[i] == f[k]);
        lemma_refresh_tasks_rank(m.files, dest, d.files_to_check, k);
    }
}

/// A run that is over stays as it is, whatever it is told.
pub proof fn lemma_over_is_final(s: RunView, e: EventView)
    requires
        s.stage == Stage::Finished || s.stage is Stopped,
    ensures
        after(s, e) == s,
{
}

/// The manifest of a run changes only when a manifest is loaded or a
/// remote change has been made, and whenever a remote change has changed
/// it, the next thing the run asks for is that the manifest be saved.
pub proof fn lemma_change_is_saved(s: RunView, e: EventView)
    requires
        after(s, e).manifest != s.manifest,
    ensures
        e is Manifest || (after(s, e).stage == Stage::Saving && wanted(after(s, e))
            == ActionView::SaveManifest { root: s.root } && (s.stage == Stage::Applying || s.stage
            == Stage::Sending)),
{
}

/// A failure stops a run at once, with the failure as its reason, unless
/// it is the creation of a folder that is already there.
pub proof fn lemma_failure_stops(s: RunView, err: SyncError)
    requires
        !(s.stage == Stage::Finished || s.stage is Stopped),
        !pardoned(s, err),
    ensures
        after(s, EventView::Failed(err)).stage == Stage::Stopped(err),
        after(s, EventView::Failed(err)).manifest == s.manifest,
        wanted(after(s, EventView::Failed(err))) == ActionView::Abort(err),
{
}

/// The path that a task works on, as the manifest names it.
pub open spec fn task_key(task: TaskView) -> Seq<char> {
    match task {
        TaskView::CreateFolder { key, remote, record } => key,
        TaskView::RemoveFile { key, remote } => key,
        TaskView::Upload { key, remote } => key,
        TaskView::Refresh { key, remote, recorded } => key,
    }
}

/// Every refresh task is for one of the keys given that the table holds.
pub proof fn lemma_refresh_task_key(known: Entries, dest: Seq<char>, keys: Seq<Seq<char>>, i: int)
    requires
        0 <= i < refresh_tasks(known, dest, keys).len(),
    ensures
        keys.contains(task_key(refresh_tasks(known, dest, keys)[i])),
        has_key(known, task_key(refresh_tasks(known, dest, keys)[i])),
    decreases keys.len(),
{
    if keys.len() > 0 {
        let head = refresh_tasks(known, dest, keys.drop_last());
        let key = task_key(refresh_tasks(known, dest, keys)[i]);
        if i < head.len() {
            lemma_refresh_task_key(known, dest, keys.drop_last(), i);
        }
        lemma_contains_last(keys, key);
    }
}

/// With an ignore file, a run on a directory sends and checks no file that
/// a pattern matches, and creates no folder that a pattern matches, but
/// for the trails of the root and the destination folder. Where no file of
/// the manifest is matched by a pattern, it removes no such file either.
pub proof fn lemma_plan_passes_over_ignored(
    m: ConfigView,
    root: Seq<char>,
    dest: Seq<char>,
    patterns: Seq<Seq<char>>,
    directories: Seq<Seq<char>>,
    found: Seq<FoundView>,
    i: int,
)
    requires
        0 <= i < directory_plan(m, root, dest, true, patterns, directories, found).len(),
        is_ignored(
            task_key(directory_plan(m, root, dest, true, patterns, directories, found)[i]),
            patterns,
        ),
    ensures
        ({
            let task = directory_plan(m, root, dest, true, patterns, directories, found)[i];
            &&& !(task is Upload)
            &&& !(task is Refresh)
            &&& task matches TaskView::CreateFolder { key, record, .. } ==> !record || trails(
                components(root),
            ).contains(key)
            &&& task is RemoveFile ==> has_key(m.files, task_key(task))
        }),
{
    let folders = live_folders(root, true, patterns, directories);
    let files = live_files(true, patterns, found);
    let d = difference(m, folders, files);
    let tasks = schedule(m, dest, d);
    let key = task_key(tasks[i]);
    let a = destination_tasks(m, dest);
    let b = simple_tasks(Simple::Folder, dest, d.folders_to_add);
    let c = simple_tasks(Simple::Removal, dest, d.files_to_remove);
    let e = simple_tasks(Simple::Upload, dest, d.files_to_add);
    let f = refresh_tasks(m.files, dest, d.files_to_check);
    lemma_schedule_parts(m, dest, d, i);
    lemma_ignored_is_not_sent(m, patterns, directories, regular_files(found), key);
    if i < a.len() {
        assert(tasks[i] == a[i]);
    } else if i < a.len() + b.len() {
        let k = i - a.len();
        assert(tasks[i] == b[k]);
        assert(d.folders_to_add[k] == key);
        assert(d.folders_to_add.contains(key));
        lemma_ignored_folder_is_a_trail(m, root, patterns, directories, key);
    } else if i < a.len() + b.len() + c.len() {
        let k = i - a.len() - b.len();
        assert(tasks[i] == c[k]);
        assert(d.files_to_remove[k] == key);
        assert(d.files_to_remove.contains(key));
        lemma_to_delete_contains(keys_of(m.files), files, key);
        let at = choose|at: int| 0 <= at < keys_of(m.files).len() && keys_of(m.files)[at] == key;
        assert(m.files[at].0 == key);
    } else if i < a.len() + b.len() + c.len() + e.len() {
        let k = i - a.len() - b.len() - c.len();
        assert(tasks[i] == e[k]);
        assert(d.files_to_add[k] == key);
        assert(d.files_to_add.contains(key));
    } else {
        let k = i - a.len() - b.len() - c.len() - e.len();
        assert(tasks[i] == f[k]);
        lemma_refresh_task_key(m.files, dest, d.files_to_check, k);
    }
}

/// A copy that is over stays as it is, whatever it is told.
pub proof fn lemma_copy_over_is_final(s: CopyView, e: EventView)
    requires
        s.phase == Phase::Finished || s.phase is Stopped,
    ensures
        copy_after(s, e) == s,
{
}

/// A failure stops a copy at once, with the failure as its reason, unless
/// it is a local folder that cannot be created: that folder is left out.
pub proof fn lemma_copy_failure_stops(s: CopyView, err: SyncError)
    requires
        !(s.phase == Phase::Finished || s.phase is Stopped),
    ensures
        s.phase != Phase::Making ==> copy_after(s, EventView::Failed(err)).phase == Phase::Stopped(
            err,
        ) && copy_wanted(copy_after(s, EventView::Failed(err))) == ActionView::Abort(err),
        s.phase == Phase::Making && s.jobs.len() > 0 ==> copy_after(s, EventView::Failed(err)).jobs
            == s.jobs.drop_last(),
        copy_after(s, EventView::Failed(err)).manifest == s.manifest,
{
}

/// The manifest of a copy changes only when a manifest is loaded, and what
/// is loaded has the current job entered and is to be saved next.
pub proof fn lemma_copy_change_is_saved(s: CopyView, e: EventView)
    requires
        copy_after(s, e).manifest != s.manifest,
    ensures
        (e is Manifest),
        copy_after(s, e).phase == Phase::SavingFolder || copy_after(s, e).phase
            == Phase::SavingFile,
        copy_wanted(copy_after(s, e)) == (ActionView::SaveManifest { root: s.root }),
{
}

} // verus!
