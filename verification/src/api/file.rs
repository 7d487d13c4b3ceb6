//! Listings of the index: all files, those that a glob pattern matches, and the
//! file names that begin with a given text.
use crate::api::error::{Error, ErrorView};
use crate::api::BAD_REQUEST;
use crate::file_index::{paths_of, FileIndex};
use crate::path::{components, is_parent_marker, parent_marker, split_components, texts};
use glob::Pattern;
use vstd::prelude::*;

verus! {

/// The message of the syntax error that `Pattern::new` of the crate glob reports for
/// `pattern`, or `None` where the pattern compiles.
pub uninterp spec fn glob_pattern_error(pattern: Seq<char>) -> Option<Seq<char>>;

/// Whether `pattern`, compiled by the crate glob, matches `text` under
/// `Pattern::matches`, as the crate decides it for the platform it is built for.
pub uninterp spec fn glob_matches(pattern: Seq<char>, text: Seq<char>) -> bool;

/// `Pattern::new` of the crate glob, for what it says of the pattern: the message of
/// the error that it reports, rendered by the error's `Display`, or `None` where the
/// pattern compiles.
#[verifier::external_body]
fn pattern_error(pattern: &str) -> (error: Option<String>)
    ensures
        match error {
            Some(message) => glob_pattern_error(pattern@) == Some(message@),
            None => glob_pattern_error(pattern@) is None,
        },
{
    Pattern::new(pattern).err().map(|e| e.to_string())
}

/// `Pattern::matches` of the crate glob, on a pattern given as text that compiles:
/// whether the pattern matches the whole of `text`, with the default options. The
/// pattern is compiled by `Pattern::new` to make the call.
#[verifier::external_body]
fn pattern_matches(pattern: &str, text: &str) -> (matched: bool)
    requires
        glob_pattern_error(pattern@) is None,
    ensures
        matched == glob_matches(pattern@, text@),
{
    match Pattern::new(pattern) {
        Ok(compiled) => compiled.matches(text),
        Err(_) => false,
    }
}

/// The file name of a relative path: its last component, unless the path has none
/// or ends in `..`.
pub open spec fn file_name(path: Seq<char>) -> Option<Seq<char>> {
    let names = components(path);
    if names.len() > 0 && names.last() != parent_marker() {
        Some(names.last())
    } else {
        None
    }
}

/// For a path, its file name if it has one that begins with `prefix`.
pub open spec fn name_with_prefix(prefix: Seq<char>) -> spec_fn(Seq<char>) -> Option<Seq<char>> {
    |path: Seq<char>|
        match file_name(path) {
            Some(name) if prefix.is_prefix_of(name) => Some(name),
            _ => None,
        }
}

/// For a path, whether `pattern` matches it.
pub open spec fn matched_by(pattern: Seq<char>) -> spec_fn(Seq<char>) -> bool {
    |path: Seq<char>| glob_matches(pattern, path)
}

fn chars_of(text: &str) -> (chars: Vec<char>)
    ensures
        chars@ == text@,
{
    let mut chars: Vec<char> = Vec::new();
    for c in it: text.chars()
        invariant
            it.seq() == text@,
            chars@ == text@.take(it.index() as int),
    {
        chars.push(c);
    }
    chars
}

fn begins_with(text: &Vec<char>, prefix: &Vec<char>) -> (b: bool)
    ensures
        b == prefix@.is_prefix_of(text@),
{
    if prefix.len() > text.len() {
        return false;
    }
    let mut i: usize = 0;
    while i < prefix.len()
        invariant
            i <= prefix.len() <= text.len(),
            forall|j: int| 0 <= j < i ==> prefix@[j] == text@[j],
        decreases prefix.len() - i,
    {
        if prefix[i] != text[i] {
            assert(prefix@[i as int] != text@.subrange(0, prefix.len() as int)[i as int]);
            return false;
        }
        i += 1;
    }
    assert(prefix@ =~= text@.subrange(0, prefix.len() as int));
    true
}

fn file_name_of(path: &str) -> (name: Option<String>)
    ensures
        match name {
            Some(text) => file_name(path@) == Some(text@),
            None => file_name(path@) is None,
        },
{
    let mut names = split_components(path);
    let ghost all = names@;
    match names.pop() {
        Some(last) => {
            assert(texts(all).last() == last@);
            if is_parent_marker(last.as_str()) {
                None
            } else {
                Some(last)
            }
        },
        None => None,
    }
}

/// All indexed paths.
pub fn files(index: &FileIndex) -> (paths: Vec<String>)
    ensures
        texts(paths@) == index.listing(),
{
    index.snapshot()
}

/// The indexed paths that the glob pattern `q` matches, in the order of the index.
/// A pattern that does not compile gives an error with status 400 and the message
/// of the syntax error.
pub fn files_glob(index: &FileIndex, q: &str) -> (found: Result<Vec<String>, Error>)
    ensures
        match glob_pattern_error(q@) {
            Some(message) => found matches Err(error) && error@ == (ErrorView {
                status_code: BAD_REQUEST,
                message,
            }),
            None => found matches Ok(paths) && texts(paths@) == index.listing().filter(
                matched_by(q@),
            ),
        },
{
    match pattern_error(q) {
        Some(message) => Err(Error::new(BAD_REQUEST, message.as_str())),
        None => {
            let entries = index.entries();
            let ghost listing = index.listing();
            let mut paths: Vec<String> = Vec::new();
            let mut i: usize = 0;
            proof {
                reveal(Seq::filter);
                assert(listing.take(0).filter(matched_by(q@)) =~= Seq::empty());
            }
            while i < entries.len()
                invariant
                    i <= entries.len(),
                    glob_pattern_error(q@) is None,
                    listing == paths_of(entries@),
                    texts(paths@) == listing.take(i as int).filter(matched_by(q@)),
                decreases entries.len() - i,
            {
                let ghost before = texts(paths@);
                proof {
                    reveal(Seq::filter);
                    assert(listing.take(i + 1).drop_last() =~= listing.take(i as int));
                    assert(listing.take(i + 1).last() == entries@[i as int]@);
                }
                if pattern_matches(q, entries[i].path.as_str()) {
                    paths.push(entries[i].path.clone());
                    assert(texts(paths@) =~= before.push(entries@[i as int]@));
                }
                i += 1;
            }
            assert(listing.take(i as int) =~= listing);
            Ok(paths)
        },
    }
}

/// The file names of the indexed paths that begin with `q`, in the order of the
/// index; a name comes once for each path that ends in it. A path without a file
/// name is passed over.
pub fn files_startswith(index: &FileIndex, q: &str) -> (names: Vec<String>)
    ensures
        texts(names@) == index.listing().filter_map(name_with_prefix(q@)),
{
    let entries = index.entries();
    let prefix = chars_of(q);
    let ghost listing = index.listing();
    let mut names: Vec<String> = Vec::new();
    let mut i: usize = 0;
    assert(listing.take(0).filter_map(name_with_prefix(q@)) =~= Seq::empty());
    while i < entries.len()
        invariant
            i <= entries.len(),
            prefix@ == q@,
            listing == paths_of(entries@),
            texts(names@) == listing.take(i as int).filter_map(name_with_prefix(q@)),
        decreases entries.len() - i,
    {
        let ghost before = texts(names@);
        proof {
            assert(listing.take(i + 1).drop_last() =~= listing.take(i as int));
            assert(listing.take(i + 1).last() == entries@[i as int]@);
        }
        match file_name_of(entries[i].path.as_str()) {
            Some(name) => {
                let chars = chars_of(name.as_str());
                if begins_with(&chars, &prefix) {
                    names.push(name);
                    assert(texts(names@) =~= before + seq![name@]);
                }
            },
            None => {},
        }
        i += 1;
    }
    assert(listing.take(i as int) =~= listing);
    names
}

} // verus!
