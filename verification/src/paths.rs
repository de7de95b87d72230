//! File paths as the dock handles them: final components, stems, extensions, joins.
use vstd::prelude::*;
use crate::text::{chars_of, not_char, opt_view, rfind_char_tail, rspan_len};

verus! {

/// What `Path::file_name` gives for the path `p`: its final component, unless that is `..`.
pub uninterp spec fn spec_path_file_name(p: Seq<char>) -> Option<Seq<char>>;

/// What `Path::join` gives for a base and a further path: the further path appended as a
/// new component (or replacing the base when it is absolute).
pub uninterp spec fn spec_path_join(base: Seq<char>, rel: Seq<char>) -> Seq<char>;

/// Calls `Path::file_name` and returns the component as a string.
#[verifier::external_body]
pub(crate) fn path_file_name(p: &str) -> (r: Option<String>)
    ensures
        opt_view(r) == spec_path_file_name(p@),
{
    std::path::Path::new(p).file_name().and_then(|n| n.to_str()).map(|s| s.to_string())
}

/// Calls `Path::join` and returns the joined path as a string.
#[verifier::external_body]
pub(crate) fn path_join(base: &str, rel: &str) -> (r: String)
    ensures
        r@ == spec_path_join(base@, rel@),
{
    std::path::Path::new(base).join(rel).to_string_lossy().into_owned()
}

/// A file name split at its final dot, as `Path::file_stem` and `Path::extension` document:
/// no dot, or a single leading dot, gives the whole name and no extension; otherwise the
/// part before the final dot and the part after it.
pub open spec fn dot_split(name: Seq<char>) -> (Seq<char>, Option<Seq<char>>) {
    let t = rspan_len(name, not_char('.'));
    if t >= name.len() || t + 1 == name.len() {
        (name, None)
    } else {
        (name.take(name.len() - t - 1), Some(name.skip(name.len() - t)))
    }
}

/// `Path::file_stem`.
pub open spec fn spec_file_stem(p: Seq<char>) -> Option<Seq<char>> {
    match spec_path_file_name(p) {
        Some(n) => Some(dot_split(n).0),
        None => None,
    }
}

/// `Path::extension`.
pub open spec fn spec_extension(p: Seq<char>) -> Option<Seq<char>> {
    match spec_path_file_name(p) {
        Some(n) => dot_split(n).1,
        None => None,
    }
}

fn dot_split_exec(name: &Vec<char>) -> (r: (Vec<char>, Option<Vec<char>>))
    ensures
        r.0@ == dot_split(name@).0,
        opt_chars_view(r.1) == dot_split(name@).1,
{
    let t = rfind_char_tail(name, '.');
    let n = name.len();
    if t >= n || t + 1 == n {
        (name.clone(), None)
    } else {
        let mut stem: Vec<char> = Vec::new();
        let mut i: usize = 0;
        while i < n - t - 1
            invariant
                n == name@.len(),
                t + 1 < n,
                i <= n - t - 1,
                stem@ == name@.take(i as int),
            decreases n - t - 1 - i,
        {
            stem.push(name[i]);
            i += 1;
            assert(stem@ =~= name@.take(i as int));
        }
        let mut ext: Vec<char> = Vec::new();
        let mut j: usize = n - t;
        while j < n
            invariant
                n == name@.len(),
                t + 1 < n,
                n - t <= j <= n,
                ext@ == name@.subrange(n - t, j as int),
            decreases n - j,
        {
            ext.push(name[j]);
            j += 1;
            assert(ext@ =~= name@.subrange(n - t, j as int));
        }
        assert(ext@ =~= name@.skip(n - t));
        (stem, Some(ext))
    }
}

pub open spec fn opt_chars_view(o: Option<Vec<char>>) -> Option<Seq<char>> {
    match o {
        Some(v) => Some(v@),
        None => None,
    }
}

/// The file stem of `p`.
pub fn file_stem(p: &str) -> (r: Option<Vec<char>>)
    ensures
        opt_chars_view(r) == spec_file_stem(p@),
{
    match path_file_name(p) {
        Some(n) => {
            let v = chars_of(n.as_str());
            Some(dot_split_exec(&v).0)
        },
        None => None,
    }
}

/// The extension of `p`.
pub fn extension(p: &str) -> (r: Option<Vec<char>>)
    ensures
        opt_chars_view(r) == spec_extension(p@),
{
    match path_file_name(p) {
        Some(n) => {
            let v = chars_of(n.as_str());
            dot_split_exec(&v).1
        },
        None => None,
    }
}

} // verus!
