//! Folders are created parents first.
//!
//! A remote folder can be created only inside one that exists. The trails
//! of the root lead down to it one component at a time, and the diffs and
//! the ignore filter keep the order of what they are given. So where the
//! walk names every directory after those above it, every folder is created
//! after those above it.

use vstd::prelude::*;
use crate::config::{ConfigView, Entries, to_upload};
use crate::file_util::{FoundView, filtered, kept};
use crate::laws::{
    lemma_kept_contains, lemma_schedule_in_order, lemma_schedule_parts, lemma_to_upload_contains,
};
use crate::path::{
    components, is_name, is_prefix, lead, lemma_segments_nonempty, names, segments, starts_with,
    trail, trails,
};
use crate::plan::{
    Simple, TaskView, destination_tasks, difference, directory_plan, live_files, live_folders,
    simple_tasks,
};

verus! {

/// `a` lies above `p`: its components begin those of `p`, which has more.
pub open spec fn is_above(a: Seq<char>, p: Seq<char>) -> bool {
    is_prefix(components(a), components(p)) && components(a).len() < components(p).len()
}

/// No path of the list comes before a path that lies above it.
pub open spec fn parents_first(s: Seq<Seq<char>>) -> bool {
    forall|i: int, j: int| 0 <= i < j < s.len() ==> !is_above(#[trigger] s[j], #[trigger] s[i])
}

/// A component that is a name and holds no separator.
pub open spec fn is_plain_name(c: Seq<char>) -> bool {
    is_name(c) && forall|i: int| 0 <= i < c.len() ==> c[i] != '/'
}

/// What the components of a path look like: names without separators,
/// but for the first, which may be the root or a `.`.
pub open spec fn well_formed(comps: Seq<Seq<char>>) -> bool {
    &&& forall|i: int| 1 <= i < comps.len() ==> is_plain_name(#[trigger] comps[i])
    &&& comps.len() > 0 ==> comps[0] == seq!['/'] || comps[0] == seq!['.'] || is_plain_name(
        comps[0],
    )
}

/// No segment of a path holds a separator.
pub proof fn lemma_segments_plain(s: Seq<char>, j: int)
    requires
        0 <= j < segments(s).len(),
    ensures
        forall|i: int| 0 <= i < segments(s)[j].len() ==> segments(s)[j][i] != '/',
    decreases s.len(),
{
    if s.len() > 0 {
        let head = segments(s.drop_last());
        lemma_segments_nonempty(s.drop_last());
        if s.last() == '/' {
            if j < head.len() {
                lemma_segments_plain(s.drop_last(), j);
            }
        } else {
            if j < head.len() - 1 {
                lemma_segments_plain(s.drop_last(), j);
            } else {
                lemma_segments_plain(s.drop_last(), head.len() - 1);
            }
        }
    }
}

/// Every name among the names of a list of segments is one of the segments.
pub proof fn lemma_names_are_segments(segs: Seq<Seq<char>>, i: int)
    requires
        0 <= i < names(segs).len(),
    ensures
        is_name(names(segs)[i]),
        exists|j: int| 0 <= j < segs.len() && segs[j] == names(segs)[i],
    decreases segs.len(),
{
    if segs.len() > 0 {
        let head = names(segs.drop_last());
        if i < head.len() {
            lemma_names_are_segments(segs.drop_last(), i);
            let j = choose|j: int| 0 <= j < segs.drop_last().len() && segs.drop_last()[j] == head[i];
            assert(segs[j] == names(segs)[i]);
        } else {
            assert(segs[segs.len() - 1] == names(segs)[i]);
        }
    }
}

/// The components of any path are well formed.
pub proof fn lemma_components_well_formed(s: Seq<char>)
    ensures
        well_formed(components(s)),
{
    let comps = components(s);
    let front = lead(s);
    let rest = names(segments(s));
    assert forall|i: int| front.len() <= i < comps.len() implies is_plain_name(
        #[trigger] comps[i],
    ) by {
        let k = i - front.len();
        assert(comps[i] == rest[k]);
        lemma_names_are_segments(segments(s), k);
        let j = choose|j: int| 0 <= j < segments(s).len() && segments(s)[j] == rest[k];
        lemma_segments_plain(s, j);
    }
    if comps.len() > 0 && front.len() > 0 {
        assert(comps[0] == front[0]);
    }
}

/// Text without a separator, added to a path, lengthens the last segment.
pub proof fn lemma_segments_append(a: Seq<char>, b: Seq<char>)
    requires
        forall|i: int| 0 <= i < b.len() ==> b[i] != '/',
    ensures
        segments(a + b) == segments(a).drop_last().push(segments(a).last() + b),
    decreases b.len(),
{
    lemma_segments_nonempty(a);
    if b.len() == 0 {
        assert(a + b =~= a);
        assert(segments(a).last() + b =~= segments(a).last());
        assert(segments(a).drop_last().push(segments(a).last()) =~= segments(a));
    } else {
        let shorter = b.drop_last();
        assert((a + b).drop_last() =~= a + shorter);
        assert((a + b).last() == b.last());
        lemma_segments_append(a, shorter);
        let head = segments(a + shorter);
        assert(head.drop_last() =~= segments(a).drop_last());
        assert(head.last().push(b.last()) =~= segments(a).last() + b);
    }
}

/// The names of a list of segments after one more segment.
pub proof fn lemma_names_push(segs: Seq<Seq<char>>, g: Seq<char>)
    ensures
        names(segs.push(g)) == if is_name(g) {
            names(segs).push(g)
        } else {
            names(segs)
        },
{
    assert(segs.push(g).drop_last() =~= segs);
}

/// A component followed by a separator, added to a path that is empty or
/// ends with a separator, adds the component as a segment.
proof fn lemma_segments_step(a: Seq<char>, c: Seq<char>)
    requires
        segments(a).last().len() == 0,
        forall|i: int| 0 <= i < c.len() ==> c[i] != '/',
    ensures
        segments(a + c.push('/')) == segments(a).drop_last().push(c).push(Seq::<char>::empty()),
{
    lemma_segments_append(a, c);
    assert(segments(a).last() + c =~= c);
    assert((a + c.push('/')).drop_last() =~= a + c);
    assert((a + c.push('/')).last() == '/');
}

/// What holds of the trail down to the `n`th component.
spec fn trail_facts(comps: Seq<Seq<char>>, n: int) -> bool {
    let t = trail(comps, n);
    &&& t.len() > 0
    &&& segments(t).len() >= 2
    &&& segments(t).last().len() == 0
    &&& components(t) == comps.take(n)
}

proof fn lemma_first_trail(comps: Seq<Seq<char>>)
    requires
        well_formed(comps),
        comps.len() >= 1,
    ensures
        trail_facts(comps, 1),
{
    let c = comps[0];
    let none = Seq::<char>::empty();
    let t = trail(comps, 1);
    assert(trail(comps, 0) == none);
    assert(t =~= c.push('/'));
    assert(segments(none) =~= seq![none]);
    let no_segments = Seq::<Seq<char>>::empty();
    assert(names(no_segments) =~= no_segments);
    if c == seq!['/'] {
        let one = seq!['/'];
        assert(one.drop_last() =~= none);
        assert(segments(one) =~= seq![none, none]);
        assert(t.drop_last() =~= one);
        assert(segments(t) =~= seq![none, none, none]);
        assert(seq![none, none, none] =~= no_segments.push(none).push(none).push(none));
        lemma_names_push(no_segments, none);
        lemma_names_push(no_segments.push(none), none);
        lemma_names_push(no_segments.push(none).push(none), none);
        assert(names(segments(t)) =~= no_segments);
        assert(t[0] == '/');
        assert(components(t) =~= comps.take(1));
    } else {
        assert(forall|i: int| 0 <= i < c.len() ==> c[i] != '/') by {
            if c == seq!['.'] {
            }
        }
        assert(none + c.push('/') =~= t);
        lemma_segments_step(none, c);
        assert(segments(none).drop_last() =~= no_segments);
        assert(segments(t) =~= no_segments.push(c).push(none));
        lemma_names_push(no_segments, c);
        lemma_names_push(no_segments.push(c), none);
        assert(c.len() > 0);
        assert(t[0] == c[0]);
        assert(t[0] != '/');
        assert(segments(t)[0] == c);
        if c == seq!['.'] {
            assert(!is_name(c));
            assert(names(segments(t)) =~= no_segments);
            assert(lead(t) =~= seq![seq!['.']]);
            assert(components(t) =~= comps.take(1));
        } else {
            assert(is_name(c));
            assert(names(segments(t)) =~= seq![c]);
            assert(lead(t) =~= no_segments);
            assert(components(t) =~= comps.take(1));
        }
    }
}

/// The trail down to a component has the components down to it.
pub proof fn lemma_trail_components(comps: Seq<Seq<char>>, n: int)
    requires
        well_formed(comps),
        1 <= n <= comps.len(),
    ensures
        components(trail(comps, n)) == comps.take(n),
{
    lemma_later_trail(comps, n);
}

proof fn lemma_later_trail(comps: Seq<Seq<char>>, n: int)
    requires
        well_formed(comps),
        1 <= n <= comps.len(),
    ensures
        trail_facts(comps, n),
    decreases n,
{
    if n == 1 {
        lemma_first_trail(comps);
    } else {
        lemma_later_trail(comps, n - 1);
        let a = trail(comps, n - 1);
        let c = comps[n - 1];
        let t = trail(comps, n);
        let none = Seq::<char>::empty();
        assert(is_plain_name(c));
        assert(t =~= a + c.push('/'));
        lemma_segments_step(a, c);
        let before = segments(a).drop_last();
        assert(segments(a) =~= before.push(none));
        lemma_names_push(before, none);
        lemma_names_push(before, c);
        lemma_names_push(before.push(c), none);
        assert(names(segments(t)) == names(segments(a)).push(c));
        assert(t[0] == a[0]);
        assert(segments(t)[0] == segments(a)[0]);
        assert(lead(t) == lead(a));
        assert(components(t) =~= components(a).push(c));
        assert(comps.take(n) =~= comps.take(n - 1).push(c));
    }
}

/// The trails of a path come parents first, and nothing at or below the
/// path lies above one of them.
pub proof fn lemma_trails_parents_first(root: Seq<char>)
    ensures
        parents_first(trails(components(root))),
        forall|d: Seq<char>, i: int|
            #![trigger is_above(d, trails(components(root))[i])]
            starts_with(d, root) && 0 <= i < trails(components(root)).len() ==> !is_above(
                d,
                trails(components(root))[i],
            ),
{
    let comps = components(root);
    let list = trails(comps);
    lemma_components_well_formed(root);
    assert forall|i: int, j: int| 0 <= i < j < list.len() implies !is_above(
        #[trigger] list[j],
        #[trigger] list[i],
    ) by {
        lemma_trail_components(comps, i + 1);
        lemma_trail_components(comps, j + 1);
    }
    assert forall|d: Seq<char>, i: int|
        #![trigger is_above(d, list[i])]
        starts_with(d, root) && 0 <= i < list.len() implies !is_above(d, list[i]) by {
        lemma_trail_components(comps, i + 1);
    }
}

/// The ignore filter keeps the order of what it is given.
pub proof fn lemma_kept_parents_first(paths: Seq<Seq<char>>, patterns: Seq<Seq<char>>)
    requires
        parents_first(paths),
    ensures
        parents_first(kept(paths, patterns)),
    decreases paths.len(),
{
    if paths.len() > 0 {
        let head = paths.drop_last();
        assert(parents_first(head)) by {
            assert forall|i: int, j: int| 0 <= i < j < head.len() implies !is_above(
                #[trigger] head[j],
                #[trigger] head[i],
            ) by {
                assert(head[i] == paths[i] && head[j] == paths[j]);
            }
        }
        lemma_kept_parents_first(head, patterns);
        let list = kept(paths, patterns);
        let before = kept(head, patterns);
        assert forall|i: int, j: int| 0 <= i < j < list.len() implies !is_above(
            #[trigger] list[j],
            #[trigger] list[i],
        ) by {
            if j < before.len() {
                assert(list[i] == before[i] && list[j] == before[j]);
            } else {
                assert(list[j] == paths.last());
                assert(list[i] == before[i]);
                assert(before.contains(before[i]));
                lemma_kept_contains(head, patterns, before[i]);
                let k = choose|k: int| 0 <= k < head.len() && head[k] == before[i];
                assert(paths[k] == list[i]);
                assert(paths[paths.len() - 1] == list[j]);
            }
        }
    }
}

/// The diff that finds what to add keeps the order of what was found.
pub proof fn lemma_to_upload_parents_first(known: Entries, live: Seq<Seq<char>>)
    requires
        parents_first(live),
    ensures
        parents_first(to_upload(known, live)),
    decreases live.len(),
{
    if live.len() > 0 {
        let head = live.drop_last();
        assert(parents_first(head)) by {
            assert forall|i: int, j: int| 0 <= i < j < head.len() implies !is_above(
                #[trigger] head[j],
                #[trigger] head[i],
            ) by {
                assert(head[i] == live[i] && head[j] == live[j]);
            }
        }
        lemma_to_upload_parents_first(known, head);
        let list = to_upload(known, live);
        let before = to_upload(known, head);
        assert forall|i: int, j: int| 0 <= i < j < list.len() implies !is_above(
            #[trigger] list[j],
            #[trigger] list[i],
        ) by {
            if j < before.len() {
                assert(list[i] == before[i] && list[j] == before[j]);
            } else {
                assert(list[j] == live.last());
                assert(list[i] == before[i]);
                assert(before.contains(before[i]));
                lemma_to_upload_contains(known, head, before[i]);
                let k = choose|k: int| 0 <= k < head.len() && head[k] == before[i];
                assert(live[k] == list[i]);
                assert(live[live.len() - 1] == list[j]);
            }
        }
    }
}

/// The folders to be added come parents first, where the walk names every
/// directory after those above it and names only directories that lie at
/// or below the root.
pub proof fn lemma_new_folders_parents_first(
    m: ConfigView,
    root: Seq<char>,
    present: bool,
    patterns: Seq<Seq<char>>,
    directories: Seq<Seq<char>>,
    files: Seq<Seq<char>>,
)
    requires
        parents_first(directories),
        forall|j: int| 0 <= j < directories.len() ==> starts_with(#[trigger] directories[j], root),
    ensures
        parents_first(
            difference(
                m,
                live_folders(root, present, patterns, directories),
                files,
            ).folders_to_add,
        ),
{
    let first = trails(components(root));
    let second = filtered(present, directories, patterns);
    let live = live_folders(root, present, patterns, directories);
    lemma_trails_parents_first(root);
    if present {
        lemma_kept_parents_first(directories, patterns);
    }
    assert forall|i: int, j: int| 0 <= i < j < live.len() implies !is_above(
        #[trigger] live[j],
        #[trigger] live[i],
    ) by {
        if j < first.len() {
            assert(live[i] == first[i] && live[j] == first[j]);
        } else if i >= first.len() {
            assert(live[i] == second[i - first.len()]);
            assert(live[j] == second[j - first.len()]);
        } else {
            let d = second[j - first.len()];
            assert(live[j] == d);
            assert(live[i] == first[i]);
            assert(second.contains(d));
            if present {
                lemma_kept_contains(directories, patterns, d);
            }
            let k = choose|k: int| 0 <= k < directories.len() && directories[k] == d;
            assert(starts_with(directories[k], root));
        }
    }
    lemma_to_upload_parents_first(m.folders, live);
}

/// In the plan of a run on a directory, no folder that enters the
/// manifest is created before a folder that lies above it, where the walk
/// names every directory after those above it and names only directories
/// that lie at or below the root.
pub proof fn lemma_plan_creates_parents_first(
    m: ConfigView,
    root: Seq<char>,
    dest: Seq<char>,
    present: bool,
    patterns: Seq<Seq<char>>,
    directories: Seq<Seq<char>>,
    found: Seq<FoundView>,
    i: int,
    j: int,
)
    requires
        parents_first(directories),
        forall|k: int| 0 <= k < directories.len() ==> starts_with(#[trigger] directories[k], root),
        0 <= i < j < directory_plan(m, root, dest, present, patterns, directories, found).len(),
        directory_plan(m, root, dest, present, patterns, directories, found)[i] matches TaskView::CreateFolder {
            record,
            ..
        } && record,
        directory_plan(m, root, dest, present, patterns, directories, found)[j] matches TaskView::CreateFolder {
            record,
            ..
        } && record,
    ensures
        !is_above(
            directory_plan(m, root, dest, present, patterns, directories, found)[j]->CreateFolder_key,
            directory_plan(m, root, dest, present, patterns, directories, found)[i]->CreateFolder_key,
        ),
{
    let files = live_files(present, patterns, found);
    let d = difference(m, live_folders(root, present, patterns, directories), files);
    let tasks = directory_plan(m, root, dest, present, patterns, directories, found);
    let a = destination_tasks(m, dest);
    let b = simple_tasks(Simple::Folder, dest, d.folders_to_add);
    lemma_new_folders_parents_first(m, root, present, patterns, directories, files);
    lemma_schedule_in_order(m, dest, d, i, j);
    lemma_schedule_parts(m, dest, d, i);
    lemma_schedule_parts(m, dest, d, j);
    if i < a.len() {
        assert(tasks[i] == a[i]);
    } else {
        assert(tasks[i] == b[i - a.len()]);
        assert(tasks[j] == b[j - a.len()]);
        assert(d.folders_to_add[i - a.len()] == tasks[i]->CreateFolder_key);
        assert(d.folders_to_add[j - a.len()] == tasks[j]->CreateFolder_key);
    }
}

} // verus!
