//! A run that ends without failure leaves nothing for the next one.
//!
//! The manifest that a run leaves is followed through its tasks, first for
//! one task as the run goes through it, then for a whole schedule. Planned
//! again from that manifest, with the same items found and the same
//! content in every file, nothing is to be added or removed, and no file is
//! sent.

use vstd::prelude::*;
use crate::config::{
    ConfigView, Entries, distinct_keys, has_key, keys_of, lemma_with_entry,
    lemma_with_entry_lookup, lemma_without_key, lemma_without_key_lookup, value_of, with_entry,
    without_key,
};
use crate::file_util::{FoundView, checksum_of};
use crate::path::joined;
use crate::laws::{
    lemma_contains_last, lemma_to_check_contains, lemma_to_delete_contains,
    lemma_to_upload_contains,
};
use crate::plan::{
    Simple, TaskView, destination_tasks, difference, live_files, live_folders, refresh_tasks,
    schedule, simple_task, simple_tasks,
};
use crate::protocol::EventView;
use crate::reconcile::{RunView, Stage, after, current, stage_at, with_files, with_folders};

verus! {

/// What each file holds when it is read.
pub type Contents = spec_fn(Seq<char>) -> Seq<u8>;

/// The manifest after a task is carried out without failure.
pub open spec fn settled(m: ConfigView, task: TaskView, contents: Contents) -> ConfigView {
    match task {
        TaskView::CreateFolder { key, remote, record } => if record {
            with_folders(m, with_entry(m.folders, key, Seq::<char>::empty()))
        } else {
            m
        },
        TaskView::RemoveFile { key, remote } => with_files(m, without_key(m.files, key)),
        TaskView::Upload { key, remote } => with_files(
            m,
            with_entry(m.files, key, checksum_of(contents(key))),
        ),
        TaskView::Refresh { key, remote, recorded } => if checksum_of(contents(key)) == recorded {
            m
        } else {
            with_files(m, with_entry(m.files, key, checksum_of(contents(key))))
        },
    }
}

/// The manifest after the tasks are carried out in order, without failure.
pub open spec fn carried_out(m: ConfigView, tasks: Seq<TaskView>, contents: Contents) -> ConfigView
    decreases tasks.len(),
{
    if tasks.len() == 0 {
        m
    } else {
        settled(carried_out(m, tasks.drop_last(), contents), tasks.last(), contents)
    }
}

/// The state of a run after a list of events, taken in order.
pub open spec fn after_all(s: RunView, events: Seq<EventView>) -> RunView
    decreases events.len(),
{
    if events.len() == 0 {
        s
    } else {
        after(after_all(s, events.drop_last()), events.last())
    }
}

/// The events that report a task as carried out without failure: for a
/// folder or a removal the remote change and the saving of the manifest,
/// for a file its content and, where it is sent, the sending and the
/// saving.
pub open spec fn answers(task: TaskView, contents: Contents) -> Seq<EventView> {
    match task {
        TaskView::CreateFolder { key, remote, record } => if record {
            seq![EventView::Completed, EventView::Completed]
        } else {
            seq![EventView::Completed]
        },
        TaskView::RemoveFile { key, remote } => seq![EventView::Completed, EventView::Completed],
        TaskView::Upload { key, remote } => seq![
            EventView::Content(contents(key)),
            EventView::Completed,
            EventView::Completed,
        ],
        TaskView::Refresh { key, remote, recorded } => if checksum_of(contents(key)) == recorded {
            seq![EventView::Content(contents(key))]
        } else {
            seq![EventView::Content(contents(key)), EventView::Completed, EventView::Completed]
        },
    }
}

/// The content that a run holds after a task: what the task has read.
pub open spec fn held(before: Seq<u8>, task: TaskView, contents: Contents) -> Seq<u8> {
    match task {
        TaskView::Upload { key, remote } => contents(key),
        TaskView::Refresh { key, remote, recorded } => contents(key),
        _ => before,
    }
}

/// The state after no event, one event, two and three.
pub proof fn lemma_after_all_few(s: RunView, a: EventView, b: EventView, c: EventView)
    ensures
        after_all(s, Seq::<EventView>::empty()) == s,
        after_all(s, seq![a]) == after(s, a),
        after_all(s, seq![a, b]) == after(after(s, a), b),
        after_all(s, seq![a, b, c]) == after(after(after(s, a), b), c),
{
    let none = Seq::<EventView>::empty();
    assert(after_all(s, none) == s);
    assert(seq![a].drop_last() =~= none);
    assert(after_all(s, seq![a]) == after(after_all(s, none), a));
    assert(seq![a, b].drop_last() =~= seq![a]);
    assert(after_all(s, seq![a, b]) == after(after_all(s, seq![a]), b));
    assert(seq![a, b, c].drop_last() =~= seq![a, b]);
    assert(after_all(s, seq![a, b, c]) == after(after_all(s, seq![a, b]), c));
}

/// The run `s` one task further, with the manifest and the content that
/// the task leaves.
pub open spec fn task_done(s: RunView, contents: Contents) -> RunView {
    RunView {
        manifest: settled(s.manifest, s.tasks[s.position as int], contents),
        position: s.position + 1,
        stage: stage_at(s.tasks, s.position + 1),
        content: held(s.content, s.tasks[s.position as int], contents),
        ..s
    }
}

proof fn lemma_folder_task(s: RunView, contents: Contents)
    requires
        s.position < s.tasks.len(),
        s.stage == Stage::Applying,
        s.tasks[s.position as int] is CreateFolder,
    ensures
        s.tasks[s.position as int]->record ==> after(
            after(s, EventView::Completed),
            EventView::Completed,
        ) == task_done(s, contents),
        !s.tasks[s.position as int]->record ==> after(s, EventView::Completed) == task_done(
            s,
            contents,
        ),
{
    let task = s.tasks[s.position as int];
    assert(current(s) == Some(task));
    let s1 = after(s, EventView::Completed);
    if task->record {
        assert(s1 == RunView {
            manifest: settled(s.manifest, task, contents),
            stage: Stage::Saving,
            ..s
        });
        assert(current(s1) == Some(task));
    }
}

proof fn lemma_removal_task(s: RunView, contents: Contents)
    requires
        s.position < s.tasks.len(),
        s.stage == Stage::Applying,
        s.tasks[s.position as int] is RemoveFile,
    ensures
        after(after(s, EventView::Completed), EventView::Completed) == task_done(s, contents),
{
    let task = s.tasks[s.position as int];
    assert(current(s) == Some(task));
    let s1 = after(s, EventView::Completed);
    assert(s1 == RunView {
        manifest: settled(s.manifest, task, contents),
        stage: Stage::Saving,
        ..s
    });
    assert(current(s1) == Some(task));
}

proof fn lemma_sending(s: RunView, s1: RunView, contents: Contents)
    requires
        s.position < s.tasks.len(),
        s.tasks[s.position as int] is Upload || s.tasks[s.position as int] is Refresh,
        s.tasks[s.position as int] matches TaskView::Upload { key, .. } ==> s1 == (RunView {
            content: contents(key),
            stage: Stage::Sending,
            ..s
        }),
        s.tasks[s.position as int] matches TaskView::Refresh { key, recorded, .. } ==> s1 == (
        RunView { content: contents(key), stage: Stage::Sending, ..s }) && checksum_of(
            contents(key),
        ) != recorded,
    ensures
        after(after(s1, EventView::Completed), EventView::Completed) == task_done(s, contents),
{
    let task = s.tasks[s.position as int];
    assert(current(s1) == Some(task));
    let s2 = after(s1, EventView::Completed);
    assert(s2 == RunView {
        manifest: settled(s.manifest, task, contents),
        stage: Stage::Saving,
        ..s1
    });
    assert(current(s2) == Some(task));
}

proof fn lemma_reading(s: RunView, contents: Contents)
    requires
        s.position < s.tasks.len(),
        s.stage == Stage::Reading,
    ensures
        s.tasks[s.position as int] matches TaskView::Upload { key, .. } ==> after(
            s,
            EventView::Content(contents(key)),
        ) == (RunView { content: contents(key), stage: Stage::Sending, ..s }),
        s.tasks[s.position as int] matches TaskView::Refresh { key, recorded, .. } ==> after(
            s,
            EventView::Content(contents(key)),
        ) == if checksum_of(contents(key)) == recorded {
            task_done(s, contents)
        } else {
            RunView { content: contents(key), stage: Stage::Sending, ..s }
        },
{
    let task = s.tasks[s.position as int];
    assert(current(s) == Some(task));
}

/// A run that stands at the beginning of a task and is told that each of
/// its actions succeeded stands at the beginning of the next task, with
/// the manifest that the task leaves.
pub proof fn lemma_task_carried_out(s: RunView, contents: Contents)
    requires
        s.position < s.tasks.len(),
        s.stage == stage_at(s.tasks, s.position),
    ensures
        after_all(s, answers(s.tasks[s.position as int], contents)) == task_done(s, contents),
{
    let task = s.tasks[s.position as int];
    let done = EventView::Completed;
    match task {
        TaskView::CreateFolder { key, remote, record } => {
            lemma_after_all_few(s, done, done, done);
            lemma_folder_task(s, contents);
        },
        TaskView::RemoveFile { key, remote } => {
            lemma_after_all_few(s, done, done, done);
            lemma_removal_task(s, contents);
        },
        TaskView::Upload { key, remote } => {
            let read = EventView::Content(contents(key));
            lemma_after_all_few(s, read, done, done);
            lemma_reading(s, contents);
            lemma_sending(s, after(s, read), contents);
        },
        TaskView::Refresh { key, remote, recorded } => {
            let read = EventView::Content(contents(key));
            lemma_after_all_few(s, read, done, done);
            lemma_reading(s, contents);
            if checksum_of(contents(key)) != recorded {
                lemma_sending(s, after(s, read), contents);
            }
        },
    }
}

/// The events that report every task from `from` on as carried out.
pub open spec fn all_answers(tasks: Seq<TaskView>, from: nat, contents: Contents) -> Seq<EventView>
    decreases tasks.len() - from,
{
    if from >= tasks.len() {
        Seq::<EventView>::empty()
    } else {
        answers(tasks[from as int], contents) + all_answers(tasks, from + 1, contents)
    }
}

/// Taking two lists of events one after the other is taking them joined.
pub proof fn lemma_after_all_joined(s: RunView, a: Seq<EventView>, b: Seq<EventView>)
    ensures
        after_all(s, a + b) == after_all(after_all(s, a), b),
    decreases b.len(),
{
    if b.len() == 0 {
        assert(a + b =~= a);
    } else {
        assert((a + b).drop_last() =~= a + b.drop_last());
        assert((a + b).last() == b.last());
        lemma_after_all_joined(s, a, b.drop_last());
    }
}

/// Carrying out no task leaves the manifest as it is, and carrying out
/// tasks and one more is carrying out the one after the others.
pub proof fn lemma_carried_out_push(m: ConfigView, tasks: Seq<TaskView>, t: TaskView, contents: Contents)
    ensures
        carried_out(m, Seq::<TaskView>::empty(), contents) == m,
        carried_out(m, seq![t], contents) == settled(m, t, contents),
        carried_out(m, tasks.push(t), contents) == settled(
            carried_out(m, tasks, contents),
            t,
            contents,
        ),
{
    assert(carried_out(m, Seq::<TaskView>::empty(), contents) == m);
    assert(tasks.push(t).drop_last() =~= tasks);
    assert(seq![t] =~= Seq::<TaskView>::empty().push(t));
    assert(seq![t].drop_last() =~= Seq::<TaskView>::empty());
}

/// Carrying out a first task and then the rest is carrying out all.
pub proof fn lemma_carried_out_first(m: ConfigView, tasks: Seq<TaskView>, contents: Contents)
    requires
        tasks.len() > 0,
    ensures
        carried_out(m, tasks, contents) == carried_out(
            settled(m, tasks[0], contents),
            tasks.skip(1),
            contents,
        ),
    decreases tasks.len(),
{
    let first = settled(m, tasks[0], contents);
    if tasks.len() == 1 {
        assert(tasks =~= seq![tasks[0]]);
        assert(tasks.skip(1) =~= Seq::<TaskView>::empty());
        lemma_carried_out_push(m, tasks, tasks[0], contents);
        lemma_carried_out_push(first, tasks, tasks[0], contents);
    } else {
        let head = tasks.drop_last();
        lemma_carried_out_first(m, head, contents);
        assert(head.skip(1) =~= tasks.skip(1).drop_last());
        assert(tasks.skip(1).last() == tasks.last());
        assert(tasks =~= head.push(tasks.last()));
        assert(tasks.skip(1) =~= head.skip(1).push(tasks.last()));
        lemma_carried_out_push(m, head, tasks.last(), contents);
        lemma_carried_out_push(first, head.skip(1), tasks.last(), contents);
    }
}

/// A run that stands at the beginning of a task and is told that every
/// action from there on succeeded finishes, and the manifest it leaves is
/// the one that its remaining tasks, carried out in order, leave.
pub proof fn lemma_run_carried_out(s: RunView, contents: Contents)
    requires
        s.position <= s.tasks.len(),
        s.stage == stage_at(s.tasks, s.position),
    ensures
        after_all(s, all_answers(s.tasks, s.position, contents)).stage == Stage::Finished,
        after_all(s, all_answers(s.tasks, s.position, contents)).manifest == carried_out(
            s.manifest,
            s.tasks.skip(s.position as int),
            contents,
        ),
        after_all(s, all_answers(s.tasks, s.position, contents)).position == s.tasks.len(),
    decreases s.tasks.len() - s.position,
{
    let rest = s.tasks.skip(s.position as int);
    if s.position >= s.tasks.len() {
        assert(rest =~= Seq::<TaskView>::empty());
    } else {
        let task = s.tasks[s.position as int];
        let first = answers(task, contents);
        let later = all_answers(s.tasks, s.position + 1, contents);
        lemma_task_carried_out(s, contents);
        let next = after_all(s, first);
        assert(next == task_done(s, contents));
        lemma_after_all_joined(s, first, later);
        lemma_run_carried_out(next, contents);
        lemma_carried_out_first(s.manifest, rest, contents);
        assert(rest[0] == task);
        assert(rest.skip(1) =~= s.tasks.skip(s.position as int + 1));
    }
}

/// Carrying out two lists of tasks one after the other is carrying out
/// the joined list.
pub proof fn lemma_carried_out_joined(
    m: ConfigView,
    a: Seq<TaskView>,
    b: Seq<TaskView>,
    contents: Contents,
)
    ensures
        carried_out(m, a + b, contents) == carried_out(carried_out(m, a, contents), b, contents),
    decreases b.len(),
{
    if b.len() == 0 {
        assert(a + b =~= a);
    } else {
        assert((a + b).drop_last() =~= a + b.drop_last());
        assert((a + b).last() == b.last());
        lemma_carried_out_joined(m, a, b.drop_last(), contents);
    }
}

/// The simple tasks of a list without its last key, and the task for it.
proof fn lemma_simple_tasks_last(kind: Simple, dest: Seq<char>, keys: Seq<Seq<char>>)
    requires
        keys.len() > 0,
    ensures
        simple_tasks(kind, dest, keys).drop_last() == simple_tasks(kind, dest, keys.drop_last()),
        simple_tasks(kind, dest, keys).last() == simple_task(kind, dest, keys.last()),
{
    assert(simple_tasks(kind, dest, keys).drop_last() =~= simple_tasks(
        kind,
        dest,
        keys.drop_last(),
    ));
}

/// After the folders of `keys` are created, the folders table holds them
/// too, and the files table is as before.
pub proof fn lemma_folders_created(
    m: ConfigView,
    dest: Seq<char>,
    keys: Seq<Seq<char>>,
    contents: Contents,
)
    requires
        distinct_keys(m.folders),
    ensures
        ({
            let n = carried_out(m, simple_tasks(Simple::Folder, dest, keys), contents);
            &&& n.files == m.files
            &&& distinct_keys(n.folders)
            &&& forall|q: Seq<char>| #[trigger]
                has_key(n.folders, q) <==> has_key(m.folders, q) || keys.contains(q)
        }),
    decreases keys.len(),
{
    let n = carried_out(m, simple_tasks(Simple::Folder, dest, keys), contents);
    if keys.len() == 0 {
        assert forall|q: Seq<char>| #[trigger]
            has_key(n.folders, q) <==> has_key(m.folders, q) || keys.contains(q) by {}
    } else {
        lemma_simple_tasks_last(Simple::Folder, dest, keys);
        lemma_folders_created(m, dest, keys.drop_last(), contents);
        let p = carried_out(m, simple_tasks(Simple::Folder, dest, keys.drop_last()), contents);
        lemma_with_entry(p.folders, keys.last(), Seq::<char>::empty());
        assert forall|q: Seq<char>| #[trigger]
            has_key(n.folders, q) <==> has_key(m.folders, q) || keys.contains(q) by {
            lemma_with_entry_lookup(p.folders, keys.last(), Seq::<char>::empty(), q);
            lemma_contains_last(keys, q);
        }
    }
}

/// After the files of `keys` are removed, the files table holds what it
/// held before, less those keys, with the values as before.
pub proof fn lemma_files_removed(
    m: ConfigView,
    dest: Seq<char>,
    keys: Seq<Seq<char>>,
    contents: Contents,
)
    requires
        distinct_keys(m.files),
    ensures
        ({
            let n = carried_out(m, simple_tasks(Simple::Removal, dest, keys), contents);
            &&& n.folders == m.folders
            &&& distinct_keys(n.files)
            &&& forall|q: Seq<char>| #[trigger]
                has_key(n.files, q) <==> has_key(m.files, q) && !keys.contains(q)
            &&& forall|q: Seq<char>| #[trigger]
                has_key(n.files, q) ==> value_of(n.files, q) == value_of(m.files, q)
        }),
    decreases keys.len(),
{
    let n = carried_out(m, simple_tasks(Simple::Removal, dest, keys), contents);
    if keys.len() == 0 {
        assert forall|q: Seq<char>| #[trigger]
            has_key(n.files, q) <==> has_key(m.files, q) && !keys.contains(q) by {}
    } else {
        lemma_simple_tasks_last(Simple::Removal, dest, keys);
        lemma_files_removed(m, dest, keys.drop_last(), contents);
        let p = carried_out(m, simple_tasks(Simple::Removal, dest, keys.drop_last()), contents);
        lemma_without_key(p.files, keys.last());
        assert forall|q: Seq<char>| #[trigger]
            has_key(n.files, q) <==> has_key(m.files, q) && !keys.contains(q) by {
            lemma_without_key_lookup(p.files, keys.last(), q);
            lemma_contains_last(keys, q);
            assert(has_key(p.files, q) <==> has_key(m.files, q) && !keys.drop_last().contains(q));
        }
        assert forall|q: Seq<char>| #[trigger] has_key(n.files, q) implies value_of(n.files, q)
            == value_of(m.files, q) by {
            lemma_without_key_lookup(p.files, keys.last(), q);
            assert(has_key(p.files, q));
        }
    }
}

/// After the files of `keys` are sent, the files table holds them too,
/// each with the checksum of its content, and the other values as before.
pub proof fn lemma_files_sent(
    m: ConfigView,
    dest: Seq<char>,
    keys: Seq<Seq<char>>,
    contents: Contents,
)
    requires
        distinct_keys(m.files),
    ensures
        ({
            let n = carried_out(m, simple_tasks(Simple::Upload, dest, keys), contents);
            &&& n.folders == m.folders
            &&& distinct_keys(n.files)
            &&& forall|q: Seq<char>| #[trigger]
                has_key(n.files, q) <==> has_key(m.files, q) || keys.contains(q)
            &&& forall|q: Seq<char>| #[trigger]
                has_key(n.files, q) ==> value_of(n.files, q) == if keys.contains(q) {
                    checksum_of(contents(q))
                } else {
                    value_of(m.files, q)
                }
        }),
    decreases keys.len(),
{
    let n = carried_out(m, simple_tasks(Simple::Upload, dest, keys), contents);
    if keys.len() == 0 {
        assert forall|q: Seq<char>| #[trigger]
            has_key(n.files, q) <==> has_key(m.files, q) || keys.contains(q) by {}
        assert forall|q: Seq<char>| #[trigger] has_key(n.files, q) implies value_of(n.files, q)
            == if keys.contains(q) {
            checksum_of(contents(q))
        } else {
            value_of(m.files, q)
        } by {}
    } else {
        lemma_simple_tasks_last(Simple::Upload, dest, keys);
        lemma_files_sent(m, dest, keys.drop_last(), contents);
        let p = carried_out(m, simple_tasks(Simple::Upload, dest, keys.drop_last()), contents);
        let k = keys.last();
        lemma_with_entry(p.files, k, checksum_of(contents(k)));
        assert forall|q: Seq<char>| #[trigger]
            has_key(n.files, q) <==> has_key(m.files, q) || keys.contains(q) by {
            lemma_with_entry_lookup(p.files, k, checksum_of(contents(k)), q);
            lemma_contains_last(keys, q);
            assert(has_key(p.files, q) <==> has_key(m.files, q) || keys.drop_last().contains(q));
        }
        assert forall|q: Seq<char>| #[trigger] has_key(n.files, q) implies value_of(n.files, q)
            == if keys.contains(q) {
            checksum_of(contents(q))
        } else {
            value_of(m.files, q)
        } by {
            lemma_with_entry_lookup(p.files, k, checksum_of(contents(k)), q);
            lemma_contains_last(keys, q);
            if q != k {
                assert(has_key(p.files, q));
            }
        }
    }
}

/// The refresh tasks of a list without its last key, and what the last
/// key adds.
proof fn lemma_refresh_tasks_last(known: Entries, dest: Seq<char>, keys: Seq<Seq<char>>)
    requires
        keys.len() > 0,
    ensures
        refresh_tasks(known, dest, keys) == if has_key(known, keys.last()) {
            refresh_tasks(known, dest, keys.drop_last()).push(
                TaskView::Refresh {
                    key: keys.last(),
                    remote: joined(dest, keys.last()),
                    recorded: value_of(known, keys.last()),
                },
            )
        } else {
            refresh_tasks(known, dest, keys.drop_last())
        },
{
}

/// The file `q` stands in `files` with the checksum that `known` records
/// for it, or with that of its content.
pub open spec fn up_to_check(files: Entries, known: Entries, q: Seq<char>, contents: Contents) -> bool {
    has_key(files, q) && (value_of(files, q) == value_of(known, q) || value_of(files, q)
        == checksum_of(contents(q)))
}

/// After the files of `keys` that `known` holds are checked, each of them
/// stands in the files table with the checksum of its content, where it
/// stood there before with that checksum or with the one that `known`
/// records. The table holds the same keys as before, and the other values
/// are as before.
pub proof fn lemma_files_checked(
    m: ConfigView,
    known: Entries,
    dest: Seq<char>,
    keys: Seq<Seq<char>>,
    contents: Contents,
)
    requires
        distinct_keys(m.files),
        forall|q: Seq<char>|
            #![trigger has_key(known, q)]
            keys.contains(q) && has_key(known, q) ==> up_to_check(m.files, known, q, contents),
    ensures
        ({
            let n = carried_out(m, refresh_tasks(known, dest, keys), contents);
            &&& n.folders == m.folders
            &&& distinct_keys(n.files)
            &&& forall|q: Seq<char>| #[trigger] has_key(n.files, q) <==> has_key(m.files, q)
            &&& forall|q: Seq<char>| #[trigger]
                has_key(n.files, q) ==> value_of(n.files, q) == if keys.contains(q) && has_key(
                    known,
                    q,
                ) {
                    checksum_of(contents(q))
                } else {
                    value_of(m.files, q)
                }
        }),
    decreases keys.len(),
{
    let n = carried_out(m, refresh_tasks(known, dest, keys), contents);
    if keys.len() == 0 {
        assert(n == m);
    } else {
        let head = keys.drop_last();
        let k = keys.last();
        assert forall|q: Seq<char>|
            #![trigger has_key(known, q)]
            head.contains(q) && has_key(known, q) implies up_to_check(
            m.files,
            known,
            q,
            contents,
        ) by {
            lemma_contains_last(keys, q);
        }
        lemma_files_checked(m, known, dest, head, contents);
        let p = carried_out(m, refresh_tasks(known, dest, head), contents);
        lemma_contains_last(keys, k);
        lemma_refresh_tasks_last(known, dest, keys);
        if has_key(known, k) {
            let sum = checksum_of(contents(k));
            let task = TaskView::Refresh {
                key: k,
                remote: joined(dest, k),
                recorded: value_of(known, k),
            };
            lemma_carried_out_push(m, refresh_tasks(known, dest, head), task, contents);
            assert(n == settled(p, task, contents));
            assert(up_to_check(m.files, known, k, contents));
            assert(has_key(p.files, k) <==> has_key(m.files, k));
            assert(has_key(p.files, k));
            lemma_with_entry(p.files, k, sum);
            if sum == value_of(known, k) {
                assert(n == p);
                assert forall|q: Seq<char>| #[trigger] has_key(n.files, q) implies value_of(
                    n.files,
                    q,
                ) == if keys.contains(q) && has_key(known, q) {
                    checksum_of(contents(q))
                } else {
                    value_of(m.files, q)
                } by {
                    lemma_contains_last(keys, q);
                    assert(has_key(p.files, q));
                    if q == k {
                        assert(value_of(p.files, k) == if head.contains(k) && has_key(known, k) {
                            checksum_of(contents(k))
                        } else {
                            value_of(m.files, k)
                        });
                    }
                }
            } else {
                assert(n.files == with_entry(p.files, k, sum));
                assert forall|q: Seq<char>| #[trigger] has_key(n.files, q) <==> has_key(
                    m.files,
                    q,
                ) by {
                    lemma_with_entry_lookup(p.files, k, sum, q);
                    assert(has_key(p.files, q) <==> has_key(m.files, q));
                }
                assert forall|q: Seq<char>| #[trigger] has_key(n.files, q) implies value_of(
                    n.files,
                    q,
                ) == if keys.contains(q) && has_key(known, q) {
                    checksum_of(contents(q))
                } else {
                    value_of(m.files, q)
                } by {
                    lemma_with_entry_lookup(p.files, k, sum, q);
                    lemma_contains_last(keys, q);
                    assert(has_key(p.files, q) <==> has_key(m.files, q));
                    assert(has_key(p.files, q));
                }
            }
        } else {
            assert(n == p);
            assert forall|q: Seq<char>| #[trigger] has_key(n.files, q) implies value_of(n.files, q)
                == if keys.contains(q) && has_key(known, q) {
                checksum_of(contents(q))
            } else {
                value_of(m.files, q)
            } by {
                lemma_contains_last(keys, q);
                assert(has_key(p.files, q));
            }
        }
    }
}

/// Checking files whose recorded checksums are those of their content
/// leaves the manifest as it is.
pub proof fn lemma_check_is_idle(
    m: ConfigView,
    known: Entries,
    dest: Seq<char>,
    keys: Seq<Seq<char>>,
    contents: Contents,
)
    requires
        forall|q: Seq<char>|
            #![trigger has_key(known, q)]
            keys.contains(q) && has_key(known, q) ==> value_of(known, q) == checksum_of(
                contents(q),
            ),
    ensures
        carried_out(m, refresh_tasks(known, dest, keys), contents) == m,
    decreases keys.len(),
{
    if keys.len() > 0 {
        let head = keys.drop_last();
        let k = keys.last();
        assert forall|q: Seq<char>|
            #![trigger has_key(known, q)]
            head.contains(q) && has_key(known, q) implies value_of(known, q) == checksum_of(
            contents(q),
        ) by {
            lemma_contains_last(keys, q);
        }
        lemma_check_is_idle(m, known, dest, head, contents);
        lemma_contains_last(keys, k);
        lemma_refresh_tasks_last(known, dest, keys);
        if has_key(known, k) {
            let task = TaskView::Refresh {
                key: k,
                remote: joined(dest, k),
                recorded: value_of(known, k),
            };
            lemma_carried_out_push(m, refresh_tasks(known, dest, head), task, contents);
        }
    } else {
        assert(carried_out(m, refresh_tasks(known, dest, keys), contents) == m);
    }
}

/// A sequence that contains nothing is empty.
pub proof fn lemma_nothing_contained(s: Seq<Seq<char>>)
    requires
        forall|q: Seq<char>| !s.contains(q),
    ensures
        s.len() == 0,
{
    if s.len() > 0 {
        assert(s.contains(s[0]));
    }
}

/// The key at a place of a table is a key of the table.
proof fn lemma_key_is_held(t: Entries, q: Seq<char>)
    ensures
        keys_of(t).contains(q) <==> has_key(t, q),
{
    if keys_of(t).contains(q) {
        let i = choose|i: int| 0 <= i < keys_of(t).len() && keys_of(t)[i] == q;
        assert(t[i].0 == q);
    }
    if has_key(t, q) {
        let i = choose|i: int| 0 <= i < t.len() && (#[trigger] t[i]).0 == q;
        assert(keys_of(t)[i] == q);
    }
}

/// The manifest that a run leaves when nothing fails. `folders` and `files`
/// are what the run found, `contents` what its files held.
pub open spec fn left_by_run(
    m: ConfigView,
    dest: Seq<char>,
    folders: Seq<Seq<char>>,
    files: Seq<Seq<char>>,
    contents: Contents,
) -> ConfigView {
    carried_out(m, schedule(m, dest, difference(m, folders, files)), contents)
}

/// After a run that ended without failure, every file found stands in the
/// manifest with the checksum of its content, every folder found stands in
/// it, and it holds no file that was not found.
pub proof fn lemma_run_settles(
    m: ConfigView,
    dest: Seq<char>,
    folders: Seq<Seq<char>>,
    files: Seq<Seq<char>>,
    contents: Contents,
)
    requires
        distinct_keys(m.folders),
        distinct_keys(m.files),
    ensures
        ({
            let n = left_by_run(m, dest, folders, files, contents);
            &&& distinct_keys(n.folders)
            &&& distinct_keys(n.files)
            &&& forall|q: Seq<char>| #[trigger]
                has_key(n.folders, q) <==> has_key(m.folders, q) || folders.contains(q)
            &&& forall|q: Seq<char>| #[trigger] has_key(n.files, q) <==> files.contains(q)
            &&& forall|q: Seq<char>| #[trigger]
                has_key(n.files, q) ==> value_of(n.files, q) == checksum_of(contents(q))
        }),
{
    let d = difference(m, folders, files);
    let a = destination_tasks(m, dest);
    let b = simple_tasks(Simple::Folder, dest, d.folders_to_add);
    let c = simple_tasks(Simple::Removal, dest, d.files_to_remove);
    let e = simple_tasks(Simple::Upload, dest, d.files_to_add);
    let f = refresh_tasks(m.files, dest, d.files_to_check);
    let m1 = carried_out(m, a, contents);
    assert(m1 == m) by {
        if a.len() > 0 {
            lemma_carried_out_push(m, a, a[0], contents);
            assert(a =~= seq![a[0]]);
        }
    }
    let m2 = carried_out(m1, b, contents);
    let m3 = carried_out(m2, c, contents);
    let m4 = carried_out(m3, e, contents);
    let m5 = carried_out(m4, f, contents);
    lemma_carried_out_joined(m, a, b, contents);
    lemma_carried_out_joined(m, a + b, c, contents);
    lemma_carried_out_joined(m, a + b + c, e, contents);
    lemma_carried_out_joined(m, a + b + c + e, f, contents);
    assert(left_by_run(m, dest, folders, files, contents) == m5);
    lemma_folders_created(m1, dest, d.folders_to_add, contents);
    lemma_files_removed(m2, dest, d.files_to_remove, contents);
    lemma_files_sent(m3, dest, d.files_to_add, contents);
    assert forall|q: Seq<char>|
        #![trigger has_key(m.files, q)]
        d.files_to_check.contains(q) && has_key(m.files, q) implies up_to_check(
        m4.files,
        m.files,
        q,
        contents,
    ) by {
        lemma_to_check_contains(m.files, files, q);
        lemma_to_delete_contains(keys_of(m.files), files, q);
        lemma_to_upload_contains(m.files, files, q);
        assert(has_key(m3.files, q));
        assert(has_key(m4.files, q));
    }
    lemma_files_checked(m4, m.files, dest, d.files_to_check, contents);
    assert forall|q: Seq<char>| #[trigger]
        has_key(m5.folders, q) <==> has_key(m.folders, q) || folders.contains(q) by {
        lemma_to_upload_contains(m.folders, folders, q);
        assert(has_key(m2.folders, q) <==> has_key(m1.folders, q) || d.folders_to_add.contains(q));
    }
    assert forall|q: Seq<char>| #[trigger] has_key(m5.files, q) <==> files.contains(q) by {
        lemma_to_delete_contains(keys_of(m.files), files, q);
        lemma_to_upload_contains(m.files, files, q);
        lemma_key_is_held(m.files, q);
        assert(has_key(m3.files, q) <==> has_key(m2.files, q) && !d.files_to_remove.contains(q));
        assert(has_key(m4.files, q) <==> has_key(m3.files, q) || d.files_to_add.contains(q));
        assert(has_key(m5.files, q) <==> has_key(m4.files, q));
    }
    assert forall|q: Seq<char>| #[trigger] has_key(m5.files, q) implies value_of(m5.files, q)
        == checksum_of(contents(q)) by {
        lemma_to_check_contains(m.files, files, q);
        lemma_to_upload_contains(m.files, files, q);
        assert(has_key(m4.files, q));
        assert(files.contains(q));
    }
}

/// A second run finds nothing to do. After a run that ended without
/// failure, with the same folders and files found and the same content in
/// every file, nothing is to be added, no file is to be removed, the only
/// folders to be removed are those that the first manifest held and that
/// were not found, which no run removes, and the run leaves the manifest as
/// it is.
pub proof fn lemma_second_run_is_idle(
    m: ConfigView,
    dest: Seq<char>,
    folders: Seq<Seq<char>>,
    files: Seq<Seq<char>>,
    contents: Contents,
)
    requires
        distinct_keys(m.folders),
        distinct_keys(m.files),
    ensures
        ({
            let n = left_by_run(m, dest, folders, files, contents);
            let again = difference(n, folders, files);
            &&& again.folders_to_add.len() == 0
            &&& again.files_to_add.len() == 0
            &&& again.files_to_remove.len() == 0
            &&& forall|q: Seq<char>|
                #![trigger again.folders_to_remove.contains(q)]
                again.folders_to_remove.contains(q) ==> has_key(m.folders, q) && !folders.contains(
                    q,
                )
            &&& (forall|q: Seq<char>| has_key(m.folders, q) ==> folders.contains(q))
                ==> again.folders_to_remove.len() == 0
            &&& left_by_run(n, dest, folders, files, contents) == n
        }),
{
    let n = left_by_run(m, dest, folders, files, contents);
    let again = difference(n, folders, files);
    lemma_run_settles(m, dest, folders, files, contents);
    assert forall|q: Seq<char>| !again.folders_to_add.contains(q) by {
        lemma_to_upload_contains(n.folders, folders, q);
        assert(has_key(n.folders, q) <==> has_key(m.folders, q) || folders.contains(q));
    }
    lemma_nothing_contained(again.folders_to_add);
    assert forall|q: Seq<char>| !again.files_to_add.contains(q) by {
        lemma_to_upload_contains(n.files, files, q);
        assert(has_key(n.files, q) <==> files.contains(q));
    }
    lemma_nothing_contained(again.files_to_add);
    assert forall|q: Seq<char>| !again.files_to_remove.contains(q) by {
        lemma_to_delete_contains(keys_of(n.files), files, q);
        lemma_key_is_held(n.files, q);
        assert(has_key(n.files, q) <==> files.contains(q));
    }
    lemma_nothing_contained(again.files_to_remove);
    assert forall|q: Seq<char>|
        #![trigger again.folders_to_remove.contains(q)]
        again.folders_to_remove.contains(q) implies has_key(m.folders, q) && !folders.contains(
        q,
    ) by {
        lemma_to_delete_contains(keys_of(n.folders), folders, q);
        lemma_key_is_held(n.folders, q);
        assert(has_key(n.folders, q) <==> has_key(m.folders, q) || folders.contains(q));
    }
    if forall|q: Seq<char>| has_key(m.folders, q) ==> folders.contains(q) {
        assert forall|q: Seq<char>| !again.folders_to_remove.contains(q) by {
            if again.folders_to_remove.contains(q) {
                assert(has_key(m.folders, q) && !folders.contains(q));
            }
        }
        lemma_nothing_contained(again.folders_to_remove);
    }
    let a = destination_tasks(n, dest);
    let b = simple_tasks(Simple::Folder, dest, again.folders_to_add);
    let c = simple_tasks(Simple::Removal, dest, again.files_to_remove);
    let e = simple_tasks(Simple::Upload, dest, again.files_to_add);
    let f = refresh_tasks(n.files, dest, again.files_to_check);
    assert(schedule(n, dest, again) =~= a + f);
    lemma_carried_out_joined(n, a, f, contents);
    assert(carried_out(n, a, contents) == n) by {
        if a.len() > 0 {
            lemma_carried_out_push(n, a, a[0], contents);
            assert(a =~= seq![a[0]]);
        }
    }
    assert forall|q: Seq<char>|
        #![trigger has_key(n.files, q)]
        again.files_to_check.contains(q) && has_key(n.files, q) implies value_of(n.files, q)
        == checksum_of(contents(q)) by {}
    lemma_check_is_idle(n, n.files, dest, again.files_to_check, contents);
}

/// A run on a directory that is told what the walk found, and then that
/// every action succeeded, finishes, and the manifest it leaves is that of
/// its schedule carried out. So the run after it, with the same tree found
/// and the same content in every file, finds nothing to do.
pub proof fn lemma_directory_run_settles(
    s: RunView,
    directories: Seq<Seq<char>>,
    found: Seq<FoundView>,
    contents: Contents,
)
    requires
        s.stage == Stage::Walking,
    ensures
        ({
            let planned = after(s, EventView::Tree { directories, found });
            let end = after_all(planned, all_answers(planned.tasks, 0, contents));
            &&& end.stage == Stage::Finished
            &&& end.manifest == left_by_run(
                s.manifest,
                s.destination,
                live_folders(s.source, s.ignore_present, s.patterns, directories),
                live_files(s.ignore_present, s.patterns, found),
                contents,
            )
        }),
{
    let planned = after(s, EventView::Tree { directories, found });
    assert(planned.position == 0);
    assert(planned.stage == stage_at(planned.tasks, 0));
    lemma_run_carried_out(planned, contents);
    assert(planned.tasks.skip(0) =~= planned.tasks);
}

} // verus!
