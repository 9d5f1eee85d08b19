//! Checksums of file content, and the filters on what a walk has found.

use vstd::prelude::*;
use vstd::string::*;
use crate::config::{CHECKSUM_FILE, IGNORE_FILE};
use crate::path::{is_named, starts_with, has_file_name, path_starts_with};
use crate::text::{texts, lemma_texts_push, clone_texts};

verus! {

/// The low sum: one plus the sum of the bytes, modulo 65521.
pub open spec fn adler_low(bytes: Seq<u8>) -> nat
    decreases bytes.len(),
{
    if bytes.len() == 0 {
        1
    } else {
        (adler_low(bytes.drop_last()) + bytes.last() as nat) % 65521
    }
}

/// The high sum: the sum of the low sums after each byte, modulo 65521.
pub open spec fn adler_high(bytes: Seq<u8>) -> nat
    decreases bytes.len(),
{
    if bytes.len() == 0 {
        0
    } else {
        (adler_high(bytes.drop_last()) + adler_low(bytes)) % 65521
    }
}

/// The Adler-32 checksum of `bytes`: the high sum in the upper sixteen bits,
/// the low sum in the lower.
pub open spec fn adler32(bytes: Seq<u8>) -> nat {
    adler_high(bytes) * 65536 + adler_low(bytes)
}

/// `adler::adler32_slice` computes the Adler-32 checksum of the slice: it
/// starts from the sums 1 and 0, adds each byte to the low sum and then the
/// low sum to the high sum, both modulo 65521, and returns the high sum
/// shifted left by sixteen bits, or-ed with the low sum.
pub assume_specification[ adler::adler32_slice ](data: &[u8]) -> (sum: u32)
    ensures
        sum == adler32(data@),
;

/// The checksum of a file's content.
pub fn create_checksum(buf: &[u8]) -> (sum: u32)
    ensures
        sum == adler32(buf@),
{
    adler::adler32_slice(buf)
}

/// Whether two contents have the same checksum.
pub fn compare_checksum(buf1: &[u8], buf2: &[u8]) -> (same: bool)
    ensures
        same == (adler32(buf1@) == adler32(buf2@)),
{
    adler::adler32_slice(buf1) == adler::adler32_slice(buf2)
}

/// The character that stands for a digit.
pub open spec fn digit(d: nat) -> char {
    if d == 0 {
        '0'
    } else if d == 1 {
        '1'
    } else if d == 2 {
        '2'
    } else if d == 3 {
        '3'
    } else if d == 4 {
        '4'
    } else if d == 5 {
        '5'
    } else if d == 6 {
        '6'
    } else if d == 7 {
        '7'
    } else if d == 8 {
        '8'
    } else {
        '9'
    }
}

/// A number written in decimal, without leading zeros.
pub open spec fn decimal(n: nat) -> Seq<char>
    decreases n,
{
    if n < 10 {
        seq![digit(n)]
    } else {
        decimal(n / 10).push(digit(n % 10))
    }
}

/// The string under which the manifest records the content `bytes`.
pub open spec fn checksum_of(bytes: Seq<u8>) -> Seq<char> {
    decimal(adler32(bytes))
}

fn digit_char(d: u32) -> (c: char)
    requires
        d < 10,
    ensures
        c == digit(d as nat),
{
    if d == 0 {
        '0'
    } else if d == 1 {
        '1'
    } else if d == 2 {
        '2'
    } else if d == 3 {
        '3'
    } else if d == 4 {
        '4'
    } else if d == 5 {
        '5'
    } else if d == 6 {
        '6'
    } else if d == 7 {
        '7'
    } else if d == 8 {
        '8'
    } else {
        '9'
    }
}

fn write_decimal(out: &mut String, n: u32)
    ensures
        final(out)@ == old(out)@ + decimal(n as nat),
    decreases n,
{
    if n >= 10 {
        write_decimal(out, n / 10);
    }
    out.push(digit_char(n % 10));
    proof {
        if n >= 10 {
            assert(final(out)@ =~= old(out)@ + decimal((n / 10) as nat).push(digit((n % 10) as nat)));
        } else {
            assert(final(out)@ =~= old(out)@ + seq![digit(n as nat)]);
        }
    }
}

/// A checksum as the manifest stores it: in decimal.
pub fn checksum_text(sum: u32) -> (out: String)
    ensures
        out@ == decimal(sum as nat),
{
    let mut out = String::new();
    write_decimal(&mut out, sum);
    proof {
        assert(Seq::<char>::empty() + decimal(sum as nat) =~= decimal(sum as nat));
    }
    out
}

/// The string under which the manifest records a file's content.
pub fn content_checksum(content: &[u8]) -> (out: String)
    ensures
        out@ == checksum_of(content@),
{
    checksum_text(create_checksum(content))
}

/// Some pattern is an initial part of `path`.
pub open spec fn is_ignored(path: Seq<char>, patterns: Seq<Seq<char>>) -> bool {
    exists|j: int| 0 <= j < patterns.len() && starts_with(path, #[trigger] patterns[j])
}

/// The paths that an ignore list lets through, in order: those that are not
/// empty and that no pattern matches.
pub open spec fn kept(paths: Seq<Seq<char>>, patterns: Seq<Seq<char>>) -> Seq<Seq<char>>
    decreases paths.len(),
{
    if paths.len() == 0 {
        Seq::<Seq<char>>::empty()
    } else if paths.last().len() > 0 && !is_ignored(paths.last(), patterns) {
        kept(paths.drop_last(), patterns).push(paths.last())
    } else {
        kept(paths.drop_last(), patterns)
    }
}

/// What is left of `paths` under an ignore list. Without an ignore file
/// nothing is taken out, whatever the patterns are.
pub open spec fn filtered(present: bool, paths: Seq<Seq<char>>, patterns: Seq<Seq<char>>) -> Seq<
    Seq<char>,
> {
    if present {
        kept(paths, patterns)
    } else {
        paths
    }
}

/// Whether some pattern matches `path`.
pub fn matches_pattern(path: &str, patterns: &Vec<String>) -> (r: bool)
    ensures
        r == is_ignored(path@, texts(patterns@)),
{
    let mut j: usize = 0;
    while j < patterns.len()
        invariant
            j <= patterns.len(),
            forall|k: int| 0 <= k < j ==> !starts_with(path@, #[trigger] texts(patterns@)[k]),
        decreases patterns.len() - j,
    {
        if path_starts_with(path, patterns[j].as_str()) {
            assert(texts(patterns@)[j as int] == patterns@[j as int]@);
            return true;
        }
        assert(texts(patterns@)[j as int] == patterns@[j as int]@);
        j += 1;
    }
    false
}

fn keep_paths(paths: &Vec<String>, patterns: &Vec<String>) -> (out: Vec<String>)
    ensures
        texts(out@) == kept(texts(paths@), texts(patterns@)),
{
    let mut out: Vec<String> = Vec::new();
    let mut i: usize = 0;
    while i < paths.len()
        invariant
            i <= paths.len(),
            texts(out@) == kept(texts(paths@).take(i as int), texts(patterns@)),
        decreases paths.len() - i,
    {
        proof {
            assert(texts(paths@).take(i + 1).drop_last() =~= texts(paths@).take(i as int));
            assert(texts(paths@).take(i + 1).last() == paths@[i as int]@);
        }
        let path = paths[i].as_str();
        if path.unicode_len() > 0 && !matches_pattern(path, patterns) {
            let item = paths[i].clone();
            proof {
                lemma_texts_push(out@, item);
            }
            out.push(item);
        }
        i += 1;
    }
    proof {
        assert(texts(paths@).take(paths.len() as int) =~= texts(paths@));
    }
    out
}

/// Takes the ignored paths out of `src` and returns what is left.
/// `ignore_file_present` says whether the root has an ignore file: without
/// one the list stays as it is.
pub fn remove_ignored_path(
    ignore_file_present: bool,
    src: &mut Vec<String>,
    ignore: &Vec<String>,
) -> (out: Vec<String>)
    ensures
        texts(out@) == filtered(ignore_file_present, texts(old(src)@), texts(ignore@)),
        texts(final(src)@) == texts(out@),
{
    if ignore_file_present {
        let left = keep_paths(src, ignore);
        let out = clone_texts(&left);
        *src = left;
        out
    } else {
        clone_texts(src)
    }
}

/// What a directory entry is.
#[derive(Debug, Clone, Copy, PartialEq, Eq, Structural)]
pub enum Kind {
    /// A regular file.
    File,
    /// A directory.
    Directory,
    /// Anything else.
    Other,
}

/// An entry that a walk or a listing has found.
#[derive(Debug)]
pub struct Found {
    pub path: String,
    pub kind: Kind,
}

/// An entry with its path as a sequence of characters.
pub struct FoundView {
    pub path: Seq<char>,
    pub kind: Kind,
}

impl View for Found {
    type V = FoundView;

    open spec fn view(&self) -> FoundView {
        FoundView { path: self.path@, kind: self.kind }
    }
}

/// The views of a list of entries, in order.
pub open spec fn found_views(v: Seq<Found>) -> Seq<FoundView> {
    Seq::new(v.len(), |i: int| v[i]@)
}

/// The path names the manifest file or the ignore file of some directory.
pub open spec fn is_metadata(path: Seq<char>) -> bool {
    is_named(path, IGNORE_FILE@) || is_named(path, CHECKSUM_FILE@)
}

/// The paths of the regular files among `found`, in order, without the
/// manifest files and the ignore files.
pub open spec fn regular_files(found: Seq<FoundView>) -> Seq<Seq<char>>
    decreases found.len(),
{
    if found.len() == 0 {
        Seq::<Seq<char>>::empty()
    } else if found.last().kind == Kind::File && !is_metadata(found.last().path) {
        regular_files(found.drop_last()).push(found.last().path)
    } else {
        regular_files(found.drop_last())
    }
}

/// The files to synchronise among what a walk has found.
pub fn get_all_files_subdir(found: &Vec<Found>) -> (out: Vec<String>)
    ensures
        texts(out@) == regular_files(found_views(found@)),
{
    let mut out: Vec<String> = Vec::new();
    let mut i: usize = 0;
    while i < found.len()
        invariant
            i <= found.len(),
            texts(out@) == regular_files(found_views(found@).take(i as int)),
        decreases found.len() - i,
    {
        proof {
            assert(found_views(found@).take(i + 1).drop_last() =~= found_views(found@).take(
                i as int,
            ));
            assert(found_views(found@).take(i + 1).last() == found@[i as int]@);
        }
        let entry = &found[i];
        if entry.kind == Kind::File && !has_file_name(entry.path.as_str(), IGNORE_FILE)
            && !has_file_name(entry.path.as_str(), CHECKSUM_FILE) {
            let item = entry.path.clone();
            proof {
                lemma_texts_push(out@, item);
            }
            out.push(item);
        }
        i += 1;
    }
    proof {
        assert(found_views(found@).take(found.len() as int) =~= found_views(found@));
    }
    out
}

/// The pattern that matches `root` and every directory below it.
pub fn directories_pattern(root: &str) -> (out: String)
    ensures
        out@ == root@ + "/**"@,
{
    let mut out = root.to_owned();
    out.append("/**");
    out
}

/// The pattern that matches everything below `root`.
pub fn files_pattern(root: &str) -> (out: String)
    ensures
        out@ == root@ + "/**/*"@,
{
    let mut out = root.to_owned();
    out.append("/**/*");
    out
}

} // verus!
