//! Paths as `/`-separated strings.
//!
//! A path is read as a list of components. Repeated separators and a trailing
//! separator are ignored, and a `.` is a component only where it begins the
//! path. A path that begins with a separator has the root, written `/`, as its
//! first component. Nothing else is normalised: `a/c` and `a/b/../c` differ.

use vstd::prelude::*;
use vstd::string::*;
use crate::text::{texts, lemma_texts_push};

verus! {

/// The pieces of `s` between its separators. There is always at least one.
pub open spec fn segments(s: Seq<char>) -> Seq<Seq<char>>
    decreases s.len(),
{
    if s.len() == 0 {
        seq![Seq::<char>::empty()]
    } else {
        let head = segments(s.drop_last());
        if s.last() == '/' {
            head.push(Seq::<char>::empty())
        } else {
            head.drop_last().push(head.last().push(s.last()))
        }
    }
}

/// A segment that names something: it is neither empty nor `.`.
pub open spec fn is_name(segment: Seq<char>) -> bool {
    segment.len() > 0 && segment != seq!['.']
}

/// The segments that are names, in order.
pub open spec fn names(segs: Seq<Seq<char>>) -> Seq<Seq<char>>
    decreases segs.len(),
{
    if segs.len() == 0 {
        Seq::<Seq<char>>::empty()
    } else if is_name(segs.last()) {
        names(segs.drop_last()).push(segs.last())
    } else {
        names(segs.drop_last())
    }
}

/// What stands before the names of a path: the root, a leading `.`, or nothing.
pub open spec fn lead(s: Seq<char>) -> Seq<Seq<char>> {
    if s.len() > 0 && s[0] == '/' {
        seq![seq!['/']]
    } else if segments(s)[0] == seq!['.'] {
        seq![seq!['.']]
    } else {
        Seq::<Seq<char>>::empty()
    }
}

/// The components of a path.
pub open spec fn components(s: Seq<char>) -> Seq<Seq<char>> {
    lead(s) + names(segments(s))
}

/// `a` is an initial part of `b`.
pub open spec fn is_prefix(a: Seq<Seq<char>>, b: Seq<Seq<char>>) -> bool {
    a.len() <= b.len() && forall|i: int| 0 <= i < a.len() ==> a[i] == b[i]
}

/// `path` lies at or below `base`: the components of `base` begin those of `path`.
pub open spec fn starts_with(path: Seq<char>, base: Seq<char>) -> bool {
    is_prefix(components(base), components(path))
}

/// The last component of `path` is `name`.
pub open spec fn is_named(path: Seq<char>, name: Seq<char>) -> bool {
    components(path).len() > 0 && components(path).last() == name
}

/// `tail` adjoined to `base`. A `tail` that begins at the root replaces `base`.
pub open spec fn joined(base: Seq<char>, tail: Seq<char>) -> Seq<char> {
    if tail.len() > 0 && tail[0] == '/' {
        tail
    } else if base.len() == 0 {
        tail
    } else if base.last() == '/' {
        base + tail
    } else {
        base.push('/') + tail
    }
}

/// The first `n` of `comps`, each followed by a separator, written one after another.
pub open spec fn trail(comps: Seq<Seq<char>>, n: int) -> Seq<char>
    decreases n,
{
    if n <= 0 {
        Seq::<char>::empty()
    } else {
        trail(comps, n - 1) + comps[n - 1].push('/')
    }
}

/// One trail for each component: the path down to it, outermost first.
pub open spec fn trails(comps: Seq<Seq<char>>) -> Seq<Seq<char>> {
    Seq::new(comps.len(), |i: int| trail(comps, i + 1))
}

/// The path whose components are `comps`, written with single separators.
pub open spec fn rendered(comps: Seq<Seq<char>>) -> Seq<char>
    decreases comps.len(),
{
    if comps.len() == 0 {
        Seq::<char>::empty()
    } else {
        joined(rendered(comps.drop_last()), comps.last())
    }
}

/// The directory that holds `path`, if `path` names anything below a directory.
pub open spec fn parent_of(path: Seq<char>) -> Option<Seq<char>> {
    let comps = components(path);
    if comps.len() == 0 || comps.last() == seq!['/'] {
        None
    } else {
        Some(rendered(comps.drop_last()))
    }
}

/// Splits a path at its separators.
pub fn split_segments(path: &str) -> (out: Vec<String>)
    ensures
        texts(out@) == segments(path@),
{
    let mut done: Vec<String> = Vec::new();
    let mut current = String::new();
    for c in it: path.chars()
        invariant
            it.seq() == path@,
            texts(done@).push(current@) == segments(path@.take(it.index() as int)),
    {
        proof {
            let n = it.index() as int;
            assert(path@.take(n + 1).drop_last() =~= path@.take(n));
            assert(path@.take(n + 1).last() == c);
        }
        if c == '/' {
            proof {
                lemma_texts_push(done@, current);
            }
            done.push(current);
            current = String::new();
        } else {
            proof {
                assert(texts(done@).push(current@).drop_last() =~= texts(done@));
            }
            current.push(c);
        }
    }
    proof {
        assert(path@.take(path@.len() as int) =~= path@);
        lemma_texts_push(done@, current);
    }
    done.push(current);
    done
}

/// The components of a path.
pub fn split_components(path: &str) -> (out: Vec<String>)
    ensures
        texts(out@) == components(path@),
{
    let segs = split_segments(path);
    let mut out: Vec<String> = Vec::new();
    let rooted = path.unicode_len() > 0 && path.get_char(0) == '/';
    let dot = ".".to_owned();
    let root = "/".to_owned();
    proof {
        reveal_strlit(".");
        reveal_strlit("/");
        assert(dot@ =~= seq!['.']);
        assert(root@ =~= seq!['/']);
        lemma_segments_nonempty(path@);
    }
    if rooted {
        proof {
            lemma_texts_push(out@, root);
        }
        out.push(root);
    } else if segs[0] == dot {
        proof {
            lemma_texts_push(out@, dot);
        }
        out.push(dot.clone());
    }
    assert(texts(out@) =~= lead(path@));
    let mut i: usize = 0;
    while i < segs.len()
        invariant
            i <= segs.len(),
            dot@ == seq!['.'],
            texts(out@) == lead(path@) + names(texts(segs@).take(i as int)),
        decreases segs.len() - i,
    {
        proof {
            assert(texts(segs@).take(i + 1).drop_last() =~= texts(segs@).take(i as int));
            assert(texts(segs@).take(i + 1).last() == segs@[i as int]@);
        }
        if segs[i].as_str().unicode_len() > 0 && !(segs[i] == dot) {
            proof {
                lemma_texts_push(out@, segs@[i as int]);
            }
            out.push(segs[i].clone());
            assert(texts(out@) =~= lead(path@) + names(texts(segs@).take(i + 1)));
        }
        i += 1;
    }
    proof {
        assert(texts(segs@).take(segs.len() as int) =~= texts(segs@));
    }
    out
}

/// A path always has a first segment.
pub proof fn lemma_segments_nonempty(s: Seq<char>)
    ensures
        segments(s).len() >= 1,
    decreases s.len(),
{
    if s.len() > 0 {
        lemma_segments_nonempty(s.drop_last());
    }
}

/// Whether `path` lies at or below `base`.
pub fn path_starts_with(path: &str, base: &str) -> (r: bool)
    ensures
        r == starts_with(path@, base@),
{
    let p = split_components(path);
    let b = split_components(base);
    if b.len() > p.len() {
        return false;
    }
    let mut i: usize = 0;
    while i < b.len()
        invariant
            i <= b.len() <= p.len(),
            texts(p@) == components(path@),
            texts(b@) == components(base@),
            forall|j: int| 0 <= j < i ==> components(base@)[j] == components(path@)[j],
        decreases b.len() - i,
    {
        if !(p[i] == b[i]) {
            proof {
                assert(texts(p@)[i as int] == p@[i as int]@);
                assert(texts(b@)[i as int] == b@[i as int]@);
            }
            return false;
        }
        proof {
            assert(texts(p@)[i as int] == p@[i as int]@);
            assert(texts(b@)[i as int] == b@[i as int]@);
        }
        i += 1;
    }
    true
}

/// Whether the last component of `path` is `name`.
pub fn has_file_name(path: &str, name: &str) -> (r: bool)
    ensures
        r == is_named(path@, name@),
{
    let p = split_components(path);
    if p.len() == 0 {
        return false;
    }
    let wanted = name.to_owned();
    proof {
        assert(texts(p@)[p.len() - 1] == p@[p.len() - 1]@);
    }
    p[p.len() - 1] == wanted
}

/// Adjoins `tail` to `base`.
pub fn join(base: &str, tail: &str) -> (out: String)
    ensures
        out@ == joined(base@, tail@),
{
    let n = base.unicode_len();
    if tail.unicode_len() > 0 && tail.get_char(0) == '/' {
        return tail.to_owned();
    }
    if n == 0 {
        return tail.to_owned();
    }
    let mut out = base.to_owned();
    if base.get_char(n - 1) != '/' {
        out.push('/');
    }
    out.append(tail);
    out
}

/// The trails of a list of components, outermost first.
pub fn ancestors(comps: &Vec<String>) -> (out: Vec<String>)
    ensures
        texts(out@) == trails(texts(comps@)),
{
    let mut out: Vec<String> = Vec::new();
    let mut walked = String::new();
    let mut i: usize = 0;
    while i < comps.len()
        invariant
            i <= comps.len(),
            walked@ == trail(texts(comps@), i as int),
            texts(out@) == trails(texts(comps@)).take(i as int),
        decreases comps.len() - i,
    {
        walked.append(comps[i].as_str());
        walked.push('/');
        proof {
            assert(texts(comps@)[i as int] == comps@[i as int]@);
            assert(walked@ =~= trail(texts(comps@), i + 1));
            lemma_texts_push(out@, walked);
        }
        out.push(walked.clone());
        proof {
            assert(texts(out@) =~= trails(texts(comps@)).take(i + 1));
        }
        i += 1;
    }
    proof {
        assert(trails(texts(comps@)).take(comps.len() as int) =~= trails(texts(comps@)));
    }
    out
}

/// Writes a list of components as one path.
pub fn render(comps: &Vec<String>) -> (out: String)
    ensures
        out@ == rendered(texts(comps@)),
{
    let mut out = String::new();
    let mut i: usize = 0;
    while i < comps.len()
        invariant
            i <= comps.len(),
            out@ == rendered(texts(comps@).take(i as int)),
        decreases comps.len() - i,
    {
        proof {
            assert(texts(comps@).take(i + 1).drop_last() =~= texts(comps@).take(i as int));
            assert(texts(comps@).take(i + 1).last() == comps@[i as int]@);
        }
        out = join(out.as_str(), comps[i].as_str());
        i += 1;
    }
    proof {
        assert(texts(comps@).take(comps.len() as int) =~= texts(comps@));
    }
    out
}

/// The directory that holds `path`.
pub fn parent(path: &str) -> (out: Option<String>)
    ensures
        match out {
            Some(p) => parent_of(path@) == Some(p@),
            None => parent_of(path@) is None,
        },
{
    let mut comps = split_components(path);
    if comps.len() == 0 {
        return None;
    }
    let root = "/".to_owned();
    proof {
        reveal_strlit("/");
        assert(root@ =~= seq!['/']);
        assert(texts(comps@)[comps.len() - 1] == comps@[comps.len() - 1]@);
    }
    if comps[comps.len() - 1] == root {
        return None;
    }
    let ghost before = comps@;
    comps.pop();
    proof {
        assert(texts(comps@) =~= texts(before).drop_last());
    }
    Some(render(&comps))
}

} // verus!
