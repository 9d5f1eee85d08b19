//! The manifest of transferred items, the ignore list and the two diffs.
//!
//! The manifest has two tables, `folders` and `files`. Each maps a path to a
//! checksum string. A table keeps its entries in the order in which their keys
//! were first inserted, and no key occurs twice.

use vstd::prelude::*;
use vstd::string::*;
use crate::error::SyncError;
use crate::text::{texts, lemma_texts_push, contains_text, chars_of};
use crate::path::{joined, join};

verus! {

/// The name of the manifest file inside a synchronised directory.
pub const CHECKSUM_FILE: &'static str = ".xsync.toml";

/// The name of the ignore file inside a synchronised directory.
pub const IGNORE_FILE: &'static str = ".xsyncignore";

/// The entries of a table: pairs of key and value, in order.
pub type Entries = Seq<(Seq<char>, Seq<char>)>;

/// The keys of a list of entries, in order.
pub open spec fn keys_of(t: Entries) -> Seq<Seq<char>> {
    Seq::new(t.len(), |i: int| t[i].0)
}

/// No key occurs twice.
pub open spec fn distinct_keys(t: Entries) -> bool {
    forall|i: int, j: int| 0 <= i < j < t.len() ==> (#[trigger] t[i]).0 != (#[trigger] t[j]).0
}

/// Some entry has the key `k`.
pub open spec fn has_key(t: Entries, k: Seq<char>) -> bool {
    exists|i: int| 0 <= i < t.len() && (#[trigger] t[i]).0 == k
}

/// The place of an entry with the key `k`.
pub open spec fn index_of_key(t: Entries, k: Seq<char>) -> int {
    choose|i: int| 0 <= i < t.len() && (#[trigger] t[i]).0 == k
}

/// The value stored under `k`.
pub open spec fn value_of(t: Entries, k: Seq<char>) -> Seq<char> {
    t[index_of_key(t, k)].1
}

/// The entries after `v` is stored under `k`: an entry with that key keeps
/// its place and takes the new value, a new key goes to the end.
pub open spec fn with_entry(t: Entries, k: Seq<char>, v: Seq<char>) -> Entries {
    if has_key(t, k) {
        t.update(index_of_key(t, k), (k, v))
    } else {
        t.push((k, v))
    }
}

/// The entries after the key `k` is taken out.
pub open spec fn without_key(t: Entries, k: Seq<char>) -> Entries {
    if has_key(t, k) {
        t.remove(index_of_key(t, k))
    } else {
        t
    }
}

/// The entries read as a map from key to value.
pub open spec fn as_map(t: Entries) -> Map<Seq<char>, Seq<char>> {
    Map::new(|k: Seq<char>| has_key(t, k), |k: Seq<char>| value_of(t, k))
}

/// With distinct keys, an entry's key is found at that entry's place only.
pub proof fn lemma_index_of_key(t: Entries, i: int)
    requires
        distinct_keys(t),
        0 <= i < t.len(),
    ensures
        has_key(t, t[i].0),
        index_of_key(t, t[i].0) == i,
        value_of(t, t[i].0) == t[i].1,
{
    let k = t[i].0;
    assert(has_key(t, k));
    let j = index_of_key(t, k);
    if j < i {
        assert(t[j].0 != t[i].0);
    } else if i < j {
        assert(t[i].0 != t[j].0);
    }
}

/// Storing a value keeps the keys distinct and acts on the map as an insertion.
pub proof fn lemma_with_entry(t: Entries, k: Seq<char>, v: Seq<char>)
    requires
        distinct_keys(t),
    ensures
        distinct_keys(with_entry(t, k, v)),
        as_map(with_entry(t, k, v)) == as_map(t).insert(k, v),
        keys_of(with_entry(t, k, v)) == if has_key(t, k) {
            keys_of(t)
        } else {
            keys_of(t).push(k)
        },
{
    let u = with_entry(t, k, v);
    if has_key(t, k) {
        let at = index_of_key(t, k);
        assert forall|i: int, j: int| 0 <= i < j < u.len() implies (#[trigger] u[i]).0 != (
        #[trigger] u[j]).0 by {
            assert(u[i].0 == t[i].0);
            assert(u[j].0 == t[j].0);
        }
        assert(keys_of(u) =~= keys_of(t)) by {
            assert forall|i: int| 0 <= i < t.len() implies keys_of(u)[i] == keys_of(t)[i] by {
                assert(u[i].0 == t[i].0);
            }
        }
        assert forall|q: Seq<char>| has_key(u, q) <==> (q == k || has_key(t, q)) by {
            if has_key(u, q) {
                let i = index_of_key(u, q);
                assert(u[i].0 == t[i].0);
                assert(has_key(t, q));
            }
            if has_key(t, q) {
                let i = index_of_key(t, q);
                assert(u[i].0 == t[i].0);
            }
            if q == k {
                assert(u[at].0 == k);
            }
        }
        assert forall|q: Seq<char>| has_key(u, q) implies value_of(u, q) == if q == k {
            v
        } else {
            value_of(t, q)
        } by {
            let i = index_of_key(u, q);
            lemma_index_of_key(u, i);
            if q == k {
                lemma_index_of_key(t, at);
                if i != at {
                    assert(u[i].0 == t[i].0);
                    if i < at {
                        assert(t[i].0 != t[at].0);
                    } else {
                        assert(t[at].0 != t[i].0);
                    }
                }
            } else {
                assert(u[i] == t[i]);
                lemma_index_of_key(t, i);
            }
        }
    } else {
        assert forall|i: int, j: int| 0 <= i < j < u.len() implies (#[trigger] u[i]).0 != (
        #[trigger] u[j]).0 by {
            if j == t.len() {
                assert(u[i] == t[i]);
                assert(t[i].0 != k);
            } else {
                assert(u[i] == t[i]);
                assert(u[j] == t[j]);
            }
        }
        assert(keys_of(u) =~= keys_of(t).push(k));
        assert forall|q: Seq<char>| has_key(u, q) <==> (q == k || has_key(t, q)) by {
            if has_key(u, q) {
                let i = index_of_key(u, q);
                if i < t.len() {
                    assert(u[i] == t[i]);
                    assert(has_key(t, q));
                }
            }
            if has_key(t, q) {
                let i = index_of_key(t, q);
                assert(u[i] == t[i]);
            }
            if q == k {
                assert(u[t.len() as int].0 == k);
            }
        }
        assert forall|q: Seq<char>| has_key(u, q) implies value_of(u, q) == if q == k {
            v
        } else {
            value_of(t, q)
        } by {
            let i = index_of_key(u, q);
            lemma_index_of_key(u, i);
            if i < t.len() {
                assert(u[i] == t[i]);
                lemma_index_of_key(t, i);
            }
        }
    }
    assert(as_map(u) =~= as_map(t).insert(k, v));
}

/// Taking a key out keeps the keys distinct and acts on the map as a removal.
pub proof fn lemma_without_key(t: Entries, k: Seq<char>)
    requires
        distinct_keys(t),
    ensures
        distinct_keys(without_key(t, k)),
        as_map(without_key(t, k)) == as_map(t).remove(k),
        !has_key(without_key(t, k), k),
{
    let u = without_key(t, k);
    if has_key(t, k) {
        let at = index_of_key(t, k);
        assert forall|i: int| 0 <= i < u.len() implies #[trigger] u[i] == t[if i < at {
            i
        } else {
            i + 1
        }] by {}
        assert forall|i: int, j: int| 0 <= i < j < u.len() implies (#[trigger] u[i]).0 != (
        #[trigger] u[j]).0 by {
            let a = if i < at { i } else { i + 1 };
            let b = if j < at { j } else { j + 1 };
            assert(u[i] == t[a]);
            assert(u[j] == t[b]);
            assert(t[a].0 != t[b].0);
        }
        assert forall|q: Seq<char>| has_key(u, q) <==> (q != k && has_key(t, q)) by {
            if has_key(u, q) {
                let i = index_of_key(u, q);
                let a = if i < at { i } else { i + 1 };
                assert(u[i] == t[a]);
                assert(has_key(t, q));
                if a < at {
                    assert(t[a].0 != t[at].0);
                } else {
                    assert(t[at].0 != t[a].0);
                }
            }
            if q != k && has_key(t, q) {
                let a = index_of_key(t, q);
                let i = if a < at { a } else { a - 1 };
                assert(u[i] == t[a]);
            }
        }
        assert forall|q: Seq<char>| has_key(u, q) implies value_of(u, q) == value_of(t, q) by {
            let i = index_of_key(u, q);
            lemma_index_of_key(u, i);
            let a = if i < at { i } else { i + 1 };
            assert(u[i] == t[a]);
            lemma_index_of_key(t, a);
        }
    }
    assert(as_map(u) =~= as_map(t).remove(k));
}

/// What a table holds after a value is stored.
pub proof fn lemma_with_entry_lookup(t: Entries, k: Seq<char>, v: Seq<char>, q: Seq<char>)
    requires
        distinct_keys(t),
    ensures
        has_key(with_entry(t, k, v), q) <==> (q == k || has_key(t, q)),
        has_key(with_entry(t, k, v), q) ==> value_of(with_entry(t, k, v), q) == if q == k {
            v
        } else {
            value_of(t, q)
        },
{
    lemma_with_entry(t, k, v);
    let u = with_entry(t, k, v);
    assert(as_map(u).dom().contains(q) <==> has_key(u, q));
    assert(as_map(t).dom().contains(q) <==> has_key(t, q));
    if has_key(u, q) {
        assert(as_map(u)[q] == value_of(u, q));
        if q != k {
            assert(as_map(t)[q] == value_of(t, q));
        }
    }
}

/// What a table holds after a key is taken out.
pub proof fn lemma_without_key_lookup(t: Entries, k: Seq<char>, q: Seq<char>)
    requires
        distinct_keys(t),
    ensures
        has_key(without_key(t, k), q) <==> (q != k && has_key(t, q)),
        has_key(without_key(t, k), q) ==> value_of(without_key(t, k), q) == value_of(t, q),
{
    lemma_without_key(t, k);
    let u = without_key(t, k);
    assert(as_map(u).dom().contains(q) <==> has_key(u, q));
    assert(as_map(t).dom().contains(q) <==> has_key(t, q));
    if has_key(u, q) {
        assert(as_map(u)[q] == value_of(u, q));
        assert(as_map(t)[q] == value_of(t, q));
    }
}

/// One table of the manifest.
#[derive(Debug)]
pub struct Table {
    entries: Vec<(String, String)>,
}

impl View for Table {
    type V = Entries;

    closed spec fn view(&self) -> Entries {
        Seq::new(self.entries@.len(), |i: int| (self.entries@[i].0@, self.entries@[i].1@))
    }
}

/// The entries of a list of pairs of strings.
spec fn pairs(v: Seq<(String, String)>) -> Entries {
    Seq::new(v.len(), |i: int| (v[i].0@, v[i].1@))
}

impl Table {
    #[verifier::type_invariant]
    spec fn well_formed(self) -> bool {
        distinct_keys(pairs(self.entries@))
    }

    /// An empty table.
    pub fn new() -> (t: Table)
        ensures
            t@ == Entries::empty(),
            distinct_keys(t@),
    {
        let t = Table { entries: Vec::new() };
        assert(t@ =~= Entries::empty());
        t
    }

    /// The number of entries.
    pub fn len(&self) -> (n: usize)
        ensures
            n == self@.len(),
            distinct_keys(self@),
    {
        proof {
            use_type_invariant(self);
        }
        self.entries.len()
    }

    /// The key of the entry at place `i`.
    pub fn key_at(&self, i: usize) -> (k: &String)
        requires
            i < self@.len(),
        ensures
            k@ == self@[i as int].0,
    {
        &self.entries[i].0
    }

    /// The value of the entry at place `i`.
    pub fn value_at(&self, i: usize) -> (v: &String)
        requires
            i < self@.len(),
        ensures
            v@ == self@[i as int].1,
    {
        &self.entries[i].1
    }

    fn position(&self, key: &String) -> (at: Option<usize>)
        ensures
            match at {
                Some(i) => i < self@.len() && self@[i as int].0 == key@ && index_of_key(
                    self@,
                    key@,
                ) == i && has_key(self@, key@),
                None => !has_key(self@, key@),
            },
    {
        proof {
            use_type_invariant(self);
        }
        let mut i: usize = 0;
        while i < self.entries.len()
            invariant
                i <= self.entries.len(),
                distinct_keys(self@),
                forall|j: int| 0 <= j < i ==> (#[trigger] self@[j]).0 != key@,
            decreases self.entries.len() - i,
        {
            if self.entries[i].0 == *key {
                proof {
                    lemma_index_of_key(self@, i as int);
                }
                return Some(i);
            }
            i += 1;
        }
        None
    }

    /// Whether the table has an entry for `key`.
    pub fn contains_key(&self, key: &str) -> (r: bool)
        ensures
            r == has_key(self@, key@),
    {
        let k = key.to_owned();
        self.position(&k).is_some()
    }

    /// The value stored under `key`, if there is one.
    pub fn get(&self, key: &str) -> (r: Option<&String>)
        ensures
            match r {
                Some(v) => has_key(self@, key@) && v@ == value_of(self@, key@),
                None => !has_key(self@, key@),
            },
    {
        let k = key.to_owned();
        match self.position(&k) {
            Some(i) => Some(&self.entries[i].1),
            None => None,
        }
    }

    /// Stores `value` under `key`.
    pub fn insert(&mut self, key: String, value: String)
        ensures
            final(self)@ == with_entry(old(self)@, key@, value@),
            distinct_keys(final(self)@),
    {
        proof {
            use_type_invariant(&*self);
            lemma_with_entry(self@, key@, value@);
        }
        let at = self.position(&key);
        let mut entries: Vec<(String, String)> = Vec::new();
        std::mem::swap(&mut entries, &mut self.entries);
        let ghost before = pairs(entries@);
        match at {
            Some(i) => {
                entries.set(i, (key, value));
                assert(pairs(entries@) =~= before.update(i as int, (key@, value@)));
            },
            None => {
                entries.push((key, value));
                assert(pairs(entries@) =~= before.push((key@, value@)));
            },
        }
        self.entries = entries;
    }

    /// Takes the entry for `key` out, if there is one.
    pub fn remove(&mut self, key: &str)
        ensures
            final(self)@ == without_key(old(self)@, key@),
            distinct_keys(final(self)@),
    {
        proof {
            use_type_invariant(&*self);
            lemma_without_key(self@, key@);
        }
        let k = key.to_owned();
        let at = self.position(&k);
        let mut entries: Vec<(String, String)> = Vec::new();
        std::mem::swap(&mut entries, &mut self.entries);
        let ghost before = pairs(entries@);
        match at {
            Some(i) => {
                entries.remove(i);
                assert(pairs(entries@) =~= before.remove(i as int));
            },
            None => {},
        }
        self.entries = entries;
    }

    /// A copy of the table.
    pub fn copy(&self) -> (t: Table)
        ensures
            t@ == self@,
    {
        proof {
            use_type_invariant(self);
        }
        let mut entries: Vec<(String, String)> = Vec::new();
        let mut i: usize = 0;
        while i < self.entries.len()
            invariant
                i <= self.entries.len(),
                pairs(entries@) == pairs(self.entries@).take(i as int),
            decreases self.entries.len() - i,
        {
            let k = self.entries[i].0.clone();
            let v = self.entries[i].1.clone();
            let ghost before = pairs(entries@);
            entries.push((k, v));
            proof {
                assert(pairs(entries@) =~= before.push((k@, v@)));
                assert(pairs(self.entries@)[i as int] == (k@, v@));
                assert(pairs(self.entries@).take(i + 1) =~= pairs(self.entries@).take(
                    i as int,
                ).push((k@, v@)));
            }
            i += 1;
        }
        assert(pairs(self.entries@).take(self.entries.len() as int) =~= pairs(self.entries@));
        Table { entries }
    }
}

/// The manifest: what is known to exist at the destination.
#[derive(Debug)]
pub struct Config {
    /// The folders known to exist there. The values are not used.
    pub folders: Table,
    /// The files known to exist there, each with the checksum of the content last sent.
    pub files: Table,
}

/// The two tables of a manifest as lists of entries.
pub struct ConfigView {
    pub folders: Entries,
    pub files: Entries,
}

impl View for Config {
    type V = ConfigView;

    open spec fn view(&self) -> ConfigView {
        ConfigView { folders: self.folders@, files: self.files@ }
    }
}

impl Config {
    /// A manifest that tracks nothing.
    pub fn new() -> (c: Config)
        ensures
            c@.folders == Entries::empty(),
            c@.files == Entries::empty(),
    {
        Config { folders: Table::new(), files: Table::new() }
    }

    /// A copy of the manifest.
    pub fn copy(&self) -> (c: Config)
        ensures
            c@ == self@,
    {
        Config { folders: self.folders.copy(), files: self.files.copy() }
    }
}

/// One of the two tables of a manifest.
#[derive(Debug, Clone, Copy, PartialEq, Eq, Structural)]
pub enum Namespace {
    Folders,
    Files,
}

/// The table that a name stands for. Only `folders` and `files` name one.
pub open spec fn namespace_named(name: Seq<char>) -> Result<Namespace, SyncError> {
    if name == "folders"@ {
        Ok(Namespace::Folders)
    } else if name == "files"@ {
        Ok(Namespace::Files)
    } else {
        Err(SyncError::InvalidNamespace)
    }
}

impl Namespace {
    /// The table that `name` stands for.
    pub fn from_name(name: &str) -> (r: Result<Namespace, SyncError>)
        ensures
            r == namespace_named(name@),
    {
        let given = name.to_owned();
        if given == "folders".to_owned() {
            Ok(Namespace::Folders)
        } else if given == "files".to_owned() {
            Ok(Namespace::Files)
        } else {
            Err(SyncError::InvalidNamespace)
        }
    }

    /// The name of the table in the manifest file.
    pub fn name(self) -> (r: &'static str)
        ensures
            r@ == match self {
                Namespace::Folders => "folders"@,
                Namespace::Files => "files"@,
            },
    {
        match self {
            Namespace::Folders => "folders",
            Namespace::Files => "files",
        }
    }
}

/// A change to one table of the manifest.
#[derive(Debug)]
pub enum FolderConfig {
    /// Store the value (second) under the key (first).
    Add(String, String),
    /// Take the key out.
    Remove(String),
}

/// The manifest after `action` is applied to the table `namespace`.
pub open spec fn applied(c: ConfigView, namespace: Namespace, action: FolderConfig) -> ConfigView {
    match action {
        FolderConfig::Add(key, value) => match namespace {
            Namespace::Folders => ConfigView {
                folders: with_entry(c.folders, key@, value@),
                files: c.files,
            },
            Namespace::Files => ConfigView {
                folders: c.folders,
                files: with_entry(c.files, key@, value@),
            },
        },
        FolderConfig::Remove(key) => match namespace {
            Namespace::Folders => ConfigView {
                folders: without_key(c.folders, key@),
                files: c.files,
            },
            Namespace::Files => ConfigView {
                folders: c.folders,
                files: without_key(c.files, key@),
            },
        },
    }
}

/// Applies `action` to the table `namespace` of the manifest.
pub fn update_folder_config(config: &mut Config, namespace: Namespace, action: &FolderConfig)
    ensures
        final(config)@ == applied(old(config)@, namespace, *action),
{
    match action {
        FolderConfig::Add(key, value) => match namespace {
            Namespace::Folders => config.folders.insert(key.clone(), value.clone()),
            Namespace::Files => config.files.insert(key.clone(), value.clone()),
        },
        FolderConfig::Remove(key) => match namespace {
            Namespace::Folders => config.folders.remove(key.as_str()),
            Namespace::Files => config.files.remove(key.as_str()),
        },
    }
}

/// Where the file `name` lies inside the directory `root`.
pub open spec fn located(root: Seq<char>, name: Seq<char>) -> Seq<char> {
    root.push('/') + name
}

/// The path of the manifest file of the directory `root`.
pub fn checksum_file_path(root: &str) -> (out: String)
    ensures
        out@ == located(root@, CHECKSUM_FILE@),
{
    let mut out = root.to_owned();
    out.push('/');
    out.append(CHECKSUM_FILE);
    out
}

/// The path of the ignore file of the directory `root`.
pub fn ignore_file_path(root: &str) -> (out: String)
    ensures
        out@ == located(root@, IGNORE_FILE@),
{
    let mut out = root.to_owned();
    out.push('/');
    out.append(IGNORE_FILE);
    out
}

/// A line of the ignore file that holds a pattern: it is not empty and does
/// not begin with `#`, which marks a comment.
pub open spec fn is_pattern_line(line: Seq<char>) -> bool {
    line.len() > 0 && line[0] != '#'
}

/// `s` with every `./` taken out, read from the left.
pub open spec fn without_dot_slash(s: Seq<char>) -> Seq<char>
    decreases s.len(),
{
    if s.len() == 0 {
        s
    } else if s.len() >= 2 && s[0] == '.' && s[1] == '/' {
        without_dot_slash(s.skip(2))
    } else {
        seq![s[0]] + without_dot_slash(s.skip(1))
    }
}

/// The path that patterns are resolved against. A root that begins with `./`
/// is written without it, as the paths found below such a root are.
pub open spec fn pattern_base(root: Seq<char>) -> Seq<char> {
    if root.len() >= 2 && root[0] == '.' && root[1] == '/' {
        without_dot_slash(root)
    } else {
        root
    }
}

/// The patterns that the lines of an ignore file stand for, in order.
pub open spec fn patterns(root: Seq<char>, lines: Seq<Seq<char>>) -> Seq<Seq<char>>
    decreases lines.len(),
{
    if lines.len() == 0 {
        Seq::<Seq<char>>::empty()
    } else if is_pattern_line(lines.last()) {
        patterns(root, lines.drop_last()).push(joined(pattern_base(root), lines.last()))
    } else {
        patterns(root, lines.drop_last())
    }
}

fn base_for_patterns(root: &str) -> (out: String)
    ensures
        out@ == pattern_base(root@),
{
    let chars = chars_of(root);
    let n = chars.len();
    if !(n >= 2 && chars[0] == '.' && chars[1] == '/') {
        return root.to_owned();
    }
    let mut out = String::new();
    let mut i: usize = 0;
    proof {
        assert(chars@.skip(0) =~= chars@);
        assert(out@ + without_dot_slash(chars@) =~= without_dot_slash(chars@));
    }
    while i < n
        invariant
            i <= n,
            n == chars@.len(),
            without_dot_slash(chars@) == out@ + without_dot_slash(chars@.skip(i as int)),
        decreases n - i,
    {
        let ghost rest = chars@.skip(i as int);
        if i + 1 < n && chars[i] == '.' && chars[i + 1] == '/' {
            proof {
                assert(rest.skip(2) =~= chars@.skip(i + 2));
            }
            i += 2;
        } else {
            proof {
                assert(rest.skip(1) =~= chars@.skip(i + 1));
                assert(out@.push(chars@[i as int]) + without_dot_slash(rest.skip(1)) =~= out@ + (
                seq![rest[0]] + without_dot_slash(rest.skip(1))));
            }
            out.push(chars[i]);
            i += 1;
        }
    }
    proof {
        assert(out@ + without_dot_slash(chars@.skip(n as int)) =~= out@);
    }
    out
}

/// The patterns of an ignore file, resolved against the directory `path`
/// that holds it. `lines` are the lines of the file; where there is no such
/// file there are none.
pub fn get_ignore_file(path: &str, lines: &Vec<String>) -> (out: Vec<String>)
    ensures
        texts(out@) == patterns(path@, texts(lines@)),
{
    let base = base_for_patterns(path);
    let mut out: Vec<String> = Vec::new();
    let mut i: usize = 0;
    while i < lines.len()
        invariant
            i <= lines.len(),
            base@ == pattern_base(path@),
            texts(out@) == patterns(path@, texts(lines@).take(i as int)),
        decreases lines.len() - i,
    {
        proof {
            assert(texts(lines@).take(i + 1).drop_last() =~= texts(lines@).take(i as int));
            assert(texts(lines@).take(i + 1).last() == lines@[i as int]@);
        }
        let line = lines[i].as_str();
        if line.unicode_len() > 0 && line.get_char(0) != '#' {
            let pattern = join(base.as_str(), line);
            proof {
                lemma_texts_push(out@, pattern);
            }
            out.push(pattern);
        }
        i += 1;
    }
    proof {
        assert(texts(lines@).take(lines.len() as int) =~= texts(lines@));
    }
    out
}

/// The keys that the manifest holds but that are no longer present: those of `keys`, in
/// order, that do not occur in `live`.
pub open spec fn to_delete(keys: Seq<Seq<char>>, live: Seq<Seq<char>>) -> Seq<Seq<char>>
    decreases keys.len(),
{
    if keys.len() == 0 {
        Seq::<Seq<char>>::empty()
    } else if !live.contains(keys.last()) {
        to_delete(keys.drop_last(), live).push(keys.last())
    } else {
        to_delete(keys.drop_last(), live)
    }
}

/// The paths that are present but not in the manifest: those of `live`, in
/// order, that are no key of `known`.
pub open spec fn to_upload(known: Entries, live: Seq<Seq<char>>) -> Seq<Seq<char>>
    decreases live.len(),
{
    if live.len() == 0 {
        Seq::<Seq<char>>::empty()
    } else if !has_key(known, live.last()) {
        to_upload(known, live.drop_last()).push(live.last())
    } else {
        to_upload(known, live.drop_last())
    }
}

/// The keys of the table that are no longer among the items found.
pub fn get_items_to_delete(config_state: &Table, item_list: &Vec<String>) -> (out: Vec<String>)
    ensures
        texts(out@) == to_delete(keys_of(config_state@), texts(item_list@)),
{
    let mut out: Vec<String> = Vec::new();
    let n = config_state.len();
    let mut i: usize = 0;
    while i < n
        invariant
            i <= n,
            n == config_state@.len(),
            texts(out@) == to_delete(keys_of(config_state@).take(i as int), texts(item_list@)),
        decreases n - i,
    {
        let key = config_state.key_at(i);
        proof {
            let keys = keys_of(config_state@);
            assert(keys.take(i + 1).drop_last() =~= keys.take(i as int));
            assert(keys.take(i + 1).last() == key@);
        }
        if !contains_text(item_list, key) {
            let kept = key.clone();
            proof {
                lemma_texts_push(out@, kept);
            }
            out.push(kept);
        }
        i += 1;
    }
    proof {
        let keys = keys_of(config_state@);
        assert(keys.take(n as int) =~= keys);
    }
    out
}

/// The items found that the table does not hold yet.
pub fn get_items_to_upload(config_state: &Table, item_list: &Vec<String>) -> (out: Vec<String>)
    ensures
        texts(out@) == to_upload(config_state@, texts(item_list@)),
{
    let mut out: Vec<String> = Vec::new();
    let mut i: usize = 0;
    while i < item_list.len()
        invariant
            i <= item_list.len(),
            texts(out@) == to_upload(config_state@, texts(item_list@).take(i as int)),
        decreases item_list.len() - i,
    {
        proof {
            assert(texts(item_list@).take(i + 1).drop_last() =~= texts(item_list@).take(i as int));
            assert(texts(item_list@).take(i + 1).last() == item_list@[i as int]@);
        }
        if !config_state.contains_key(item_list[i].as_str()) {
            let item = item_list[i].clone();
            proof {
                lemma_texts_push(out@, item);
            }
            out.push(item);
        }
        i += 1;
    }
    proof {
        assert(texts(item_list@).take(item_list.len() as int) =~= texts(item_list@));
    }
    out
}

} // verus!
