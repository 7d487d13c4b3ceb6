//! Paths as text, and the lexical rules by which the index tells where a path lies.
//!
//! A path is a string whose components are separated by `/`. Empty segments and the
//! segment `.` name nothing, so `/a//b/./c/` has the components `a`, `b`, `c`. A
//! resolved path is an absolute one without the component `..`. The identity of an
//! indexed file is the rendering of the components that its resolved path has beyond
//! those of the index root.
//!
//! To resolve a path is to follow its links on disk, which is left to the caller:
//! the index takes the outcome, a resolved path or `ResolutionError`. What this
//! module offers for it works on text: the absolute form of a path, and its parent
//! and name, for a path whose file is gone and whose parent alone can be resolved.
use path_absolutize::Absolutize;
use std::path::Path;
use vstd::prelude::*;
use vstd::string::StringExecFns;

verus! {

/// Why a path could not be brought into its form relative to the index root.
#[derive(Clone, Copy, Debug, PartialEq, Eq, Structural)]
pub enum PathError {
    /// The path could not be resolved to an absolute one.
    ResolutionError,
    /// The resolved path does not lie under the index root.
    PathOutsideRoot,
}

/// Whether `path` starts at the filesystem root.
pub open spec fn is_absolute(path: Seq<char>) -> bool {
    path.len() > 0 && path[0] == '/'
}

/// Whether `segment` can stand as one component of a path: it is not empty, holds no
/// separator and is not the marker `.` of the current directory.
pub open spec fn is_name(segment: Seq<char>) -> bool {
    segment.len() > 0 && !segment.contains('/') && segment != seq!['.']
}

/// Whether every element of `names` is a component.
pub open spec fn all_names(names: Seq<Seq<char>>) -> bool {
    forall|i: int| 0 <= i < names.len() ==> is_name(#[trigger] names[i])
}

/// The position of the first separator in `path`, or its length where it has none.
pub open spec fn first_separator(path: Seq<char>) -> int
    decreases path.len(),
{
    if path.len() == 0 || path[0] == '/' {
        0
    } else {
        1 + first_separator(path.drop_first())
    }
}

/// What a segment between two separators adds to the components: itself, unless it
/// is empty or `.`.
pub open spec fn component_of(segment: Seq<char>) -> Seq<Seq<char>> {
    if segment.len() > 0 && segment != seq!['.'] {
        seq![segment]
    } else {
        Seq::empty()
    }
}

/// The components of `path` in order: its segments between separators, without the
/// empty ones and without `.`.
pub open spec fn components(path: Seq<char>) -> Seq<Seq<char>>
    decreases path.len(),
{
    if path.len() == 0 {
        Seq::empty()
    } else {
        let cut = first_separator(path);
        if 0 <= cut < path.len() {
            component_of(path.take(cut)) + components(path.skip(cut + 1))
        } else {
            component_of(path)
        }
    }
}

/// The text of a relative path with the given components: they are joined by single
/// separators, and no components give the empty path.
pub open spec fn render(names: Seq<Seq<char>>) -> Seq<char>
    decreases names.len(),
{
    if names.len() == 0 {
        Seq::empty()
    } else if names.len() == 1 {
        names[0]
    } else {
        names[0] + seq!['/'] + render(names.drop_first())
    }
}

/// The marker `..` of the parent directory.
pub open spec fn parent_marker() -> Seq<char> {
    seq!['.', '.']
}

/// Whether `path` is resolved: it is absolute, and none of its components is `..`.
pub open spec fn is_resolved(path: Seq<char>) -> bool {
    is_absolute(path) && !components(path).contains(parent_marker())
}

/// Whether `path` is a relative path in the form in which the index holds it: the
/// rendering of its own components, none of which is `..`.
pub open spec fn is_normalized(path: Seq<char>) -> bool {
    path == render(components(path)) && !components(path).contains(parent_marker())
}

/// The path that `path` is relative to `root`: both are resolved, the components of
/// `root` begin those of `path`, and the result renders the components that follow.
/// `None` where `path` does not lie under `root`, and where one of the two is not
/// resolved: a path that still holds `..` is taken to lie outside.
pub open spec fn relative_to(path: Seq<char>, root: Seq<char>) -> Option<Seq<char>> {
    if is_resolved(path) && is_resolved(root) && components(root).is_prefix_of(components(path)) {
        Some(render(components(path).skip(components(root).len() as int)))
    } else {
        None
    }
}

/// The names that are left when each `..` takes away the name before it, and is
/// dropped where none is before it.
pub open spec fn collapsed(names: Seq<Seq<char>>) -> Seq<Seq<char>>
    decreases names.len(),
{
    if names.len() == 0 {
        names
    } else {
        let before = collapsed(names.drop_last());
        if names.last() != parent_marker() {
            before.push(names.last())
        } else if before.len() > 0 {
            before.drop_last()
        } else {
            before
        }
    }
}

/// The resolved form of the absolute path `path`: the root, then the rendering of
/// its components after each `..` has taken away the component before it.
pub open spec fn absolutized(path: Seq<char>) -> Seq<char> {
    seq!['/'] + render(collapsed(components(path)))
}

/// The path `relative` taken from `root` on: the two joined by a separator.
pub open spec fn join(root: Seq<char>, relative: Seq<char>) -> Seq<char> {
    if root.len() == 0 {
        relative
    } else {
        root + seq!['/'] + relative
    }
}

/// What normalization makes of a resolution's outcome: the resolved path relative to
/// `root`, `PathOutsideRoot` where it does not lie under `root`, and the resolution's
/// own error where it had failed.
pub open spec fn normalized(root: Seq<char>, resolved: Result<Seq<char>, PathError>) -> Result<
    Seq<char>,
    PathError,
> {
    match resolved {
        Ok(absolute) => match relative_to(absolute, root) {
            Some(relative) => Ok(relative),
            None => Err(PathError::PathOutsideRoot),
        },
        Err(e) => Err(e),
    }
}

/// Whether `outcome` can be the absolute form of `path`. The working directory is
/// read for it, so it may fail on any path, and what it makes of a relative path is
/// not fixed by the path. A success is a path without `..`, and for an absolute
/// `path` it is `absolutized(path)`; a failure is `ResolutionError`.
pub open spec fn is_absolute_form_of(
    path: Seq<char>,
    outcome: Result<Seq<char>, PathError>,
) -> bool {
    match outcome {
        Ok(absolute) => is_resolved(absolute) && (is_absolute(path) ==> absolute
            == absolutized(path)),
        Err(e) => e == PathError::ResolutionError,
    }
}

/// The parent of `path`, as an absolute path: the root, then the rendering of all
/// components of `path` but the last.
pub open spec fn parent_of(path: Seq<char>) -> Seq<char> {
    seq!['/'] + render(components(path).drop_last())
}

/// The texts of a sequence of strings.
pub open spec fn texts(strings: Seq<String>) -> Seq<Seq<char>> {
    strings.map_values(|s: String| s@)
}

/// The outcome of a resolution or of a normalization, with the text that a success
/// holds in place of the string.
pub open spec fn text_of(outcome: Result<String, PathError>) -> Result<Seq<char>, PathError> {
    match outcome {
        Ok(path) => Ok(path@),
        Err(e) => Err(e),
    }
}

/// The first separator lies within the path, nothing before it is a separator, and
/// it is one where it lies before the end.
pub proof fn lemma_first_separator(path: Seq<char>)
    ensures
        0 <= first_separator(path) <= path.len(),
        !path.take(first_separator(path)).contains('/'),
        first_separator(path) < path.len() ==> path[first_separator(path)] == '/',
    decreases path.len(),
{
    if path.len() == 0 || path[0] == '/' {
    } else {
        let rest = path.drop_first();
        lemma_first_separator(rest);
        let cut = first_separator(rest);
        let head = path.take(cut + 1);
        assert forall|i: int| 0 <= i < head.len() implies head[i] != '/' by {
            if i > 0 {
                assert(rest.take(cut)[i - 1] == head[i]);
            }
        }
    }
}

/// Before a text without separators, the first separator of what follows is the
/// first of the whole.
pub proof fn lemma_first_separator_after(head: Seq<char>, tail: Seq<char>)
    requires
        !head.contains('/'),
    ensures
        first_separator(head + tail) == head.len() + first_separator(tail),
    decreases head.len(),
{
    if head.len() == 0 {
        assert(head + tail =~= tail);
    } else {
        assert(head[0] != '/');
        let rest = head.drop_first();
        assert forall|i: int| 0 <= i < rest.len() implies rest[i] != '/' by {
            assert(rest[i] == head[i + 1]);
        }
        assert((head + tail).drop_first() =~= rest + tail);
        lemma_first_separator_after(rest, tail);
    }
}

/// A text without separators has itself as its only component, if it is one.
pub proof fn lemma_components_of_segment(segment: Seq<char>)
    requires
        !segment.contains('/'),
    ensures
        components(segment) == component_of(segment),
{
    if segment.len() > 0 {
        lemma_first_separator_after(segment, Seq::empty());
        assert(segment + Seq::<char>::empty() =~= segment);
    }
}

/// The components of two paths joined by a separator are those of the first,
/// followed by those of the second.
pub proof fn lemma_components_of_joined(head: Seq<char>, tail: Seq<char>)
    ensures
        components(head + seq!['/'] + tail) == components(head) + components(tail),
    decreases head.len(),
{
    let whole = head + seq!['/'] + tail;
    let cut = first_separator(head);
    lemma_first_separator(head);
    lemma_first_separator_after(head.take(cut), head.skip(cut) + seq!['/'] + tail);
    assert(head.take(cut) + (head.skip(cut) + seq!['/'] + tail) =~= whole);
    assert(first_separator(whole) == cut);
    assert(whole.take(cut) =~= head.take(cut));
    if cut < head.len() {
        let rest = head.skip(cut + 1);
        assert(whole.skip(cut + 1) =~= rest + seq!['/'] + tail);
        lemma_components_of_joined(rest, tail);
        assert(components(whole) =~= components(head) + components(tail));
    } else {
        assert(head.take(cut) =~= head);
        assert(whole.skip(cut + 1) =~= tail);
        lemma_components_of_segment(head);
        assert(components(whole) =~= components(head) + components(tail));
    }
}

/// Whatever the text, each of its components is a name.
pub proof fn lemma_components_are_names(path: Seq<char>)
    ensures
        all_names(components(path)),
    decreases path.len(),
{
    if path.len() > 0 {
        let cut = first_separator(path);
        lemma_first_separator(path);
        if cut < path.len() {
            lemma_components_are_names(path.skip(cut + 1));
        } else {
            assert(path.take(cut) =~= path);
        }
    }
}

/// Rendering one more name appends it, after a separator unless it is the first.
pub proof fn lemma_render_push(names: Seq<Seq<char>>, name: Seq<char>)
    ensures
        render(names.push(name)) == if names.len() == 0 {
            name
        } else {
            render(names) + seq!['/'] + name
        },
    decreases names.len(),
{
    let all = names.push(name);
    if names.len() == 0 {
    } else if names.len() == 1 {
        assert(all.drop_first() =~= seq![name]);
        assert(render(all.drop_first()) == name);
        assert(render(all) =~= render(names) + seq!['/'] + name);
    } else {
        assert(all.drop_first() =~= names.drop_first().push(name));
        lemma_render_push(names.drop_first(), name);
        assert(render(all) =~= render(names) + seq!['/'] + name);
    }
}

/// Rendering names and taking the components of the text gives the names back.
pub proof fn lemma_components_of_rendered(names: Seq<Seq<char>>)
    requires
        all_names(names),
    ensures
        components(render(names)) == names,
    decreases names.len(),
{
    if names.len() == 0 {
    } else if names.len() == 1 {
        assert(is_name(names[0]));
        lemma_components_of_segment(names[0]);
        assert(components(render(names)) =~= names);
    } else {
        let rest = names.drop_first();
        assert(is_name(names[0]));
        assert forall|i: int| 0 <= i < rest.len() implies is_name(#[trigger] rest[i]) by {
            assert(rest[i] == names[i + 1]);
        }
        lemma_components_of_rendered(rest);
        lemma_components_of_joined(names[0], render(rest));
        lemma_components_of_segment(names[0]);
        assert(components(render(names)) =~= names);
    }
}

/// A rendering of names without `..` is the normal form of a relative path, and
/// never absolute.
pub proof fn lemma_rendered_is_normalized(names: Seq<Seq<char>>)
    requires
        all_names(names),
        !names.contains(parent_marker()),
    ensures
        is_normalized(render(names)),
        !is_absolute(render(names)),
{
    lemma_components_of_rendered(names);
    if names.len() > 0 {
        assert(is_name(names[0]));
        assert(names[0][0] != '/');
    }
}

/// What `relative_to` gives is in normal form: it holds only names, none of them
/// `..`, joined by single separators.
pub proof fn lemma_relative_is_normalized(path: Seq<char>, root: Seq<char>)
    requires
        relative_to(path, root) is Some,
    ensures
        is_normalized(relative_to(path, root)->0),
        !is_absolute(relative_to(path, root)->0),
{
    let all = components(path);
    let rest = all.skip(components(root).len() as int);
    lemma_components_are_names(path);
    assert forall|i: int| 0 <= i < rest.len() implies is_name(#[trigger] rest[i])
        && rest[i] != parent_marker() by {
        assert(rest[i] == all[i + components(root).len()]);
    }
    lemma_rendered_is_normalized(rest);
}

/// A normalized relative path, taken from a resolved root on, lies under that root
/// at the place it names.
pub proof fn lemma_joined_is_under_root(root: Seq<char>, relative: Seq<char>)
    requires
        is_resolved(root),
        is_normalized(relative),
    ensures
        is_absolute(join(root, relative)),
        components(join(root, relative)) == components(root) + components(relative),
        relative_to(join(root, relative), root) == Some(relative),
{
    lemma_components_of_joined(root, relative);
    let all = components(join(root, relative));
    assert(all.take(components(root).len() as int) =~= components(root));
    assert(all.skip(components(root).len() as int) =~= components(relative));
    assert forall|i: int| 0 <= i < all.len() implies all[i] != parent_marker() by {
        if i < components(root).len() {
            assert(components(root)[i] == all[i]);
        } else {
            assert(components(relative)[i - components(root).len()] == all[i]);
        }
    }
}

/// Collapsing names leaves names, and none of them is `..`.
pub proof fn lemma_collapsed_names(names: Seq<Seq<char>>)
    requires
        all_names(names),
    ensures
        all_names(collapsed(names)),
        !collapsed(names).contains(parent_marker()),
    decreases names.len(),
{
    if names.len() > 0 {
        let earlier = names.drop_last();
        assert forall|i: int| 0 <= i < earlier.len() implies is_name(#[trigger] earlier[i]) by {
            assert(earlier[i] == names[i]);
        }
        lemma_collapsed_names(earlier);
        assert(is_name(names.last()));
    }
}

/// Names without `..` are left as they are.
pub proof fn lemma_collapsed_without_parent(names: Seq<Seq<char>>)
    requires
        !names.contains(parent_marker()),
    ensures
        collapsed(names) == names,
    decreases names.len(),
{
    if names.len() > 0 {
        let earlier = names.drop_last();
        assert forall|i: int| 0 <= i < earlier.len() implies earlier[i] != parent_marker() by {
            assert(earlier[i] == names[i]);
        }
        lemma_collapsed_without_parent(earlier);
        assert(names.last() == names[names.len() - 1]);
        assert(earlier.push(names.last()) =~= names);
    }
}

/// The resolved form of a path is resolved, and its components are the collapsed
/// components of the path.
pub proof fn lemma_absolutized_is_resolved(path: Seq<char>)
    ensures
        is_resolved(absolutized(path)),
        components(absolutized(path)) == collapsed(components(path)),
{
    let names = collapsed(components(path));
    lemma_components_are_names(path);
    lemma_collapsed_names(components(path));
    lemma_components_of_rendered(names);
    lemma_components_of_joined(Seq::empty(), render(names));
    assert(Seq::<char>::empty() + seq!['/'] + render(names) =~= absolutized(path));
    assert(components(Seq::<char>::empty()) + names =~= names);
}

/// The absolute form of a resolved path has the components of the path: it names
/// the same place.
pub proof fn lemma_absolutized_keeps_resolved(path: Seq<char>)
    requires
        is_resolved(path),
    ensures
        is_resolved(absolutized(path)),
        components(absolutized(path)) == components(path),
{
    lemma_absolutized_is_resolved(path);
    lemma_collapsed_without_parent(components(path));
}

/// Round trip of normalization. Where a resolved path has a form relative to the
/// root, that form, taken from the root on again, is a resolved path whose form
/// relative to the root is the same.
pub proof fn lemma_normalize_round_trip(root: Seq<char>, resolved: Result<Seq<char>, PathError>)
    requires
        normalized(root, resolved) is Ok,
    ensures
        is_resolved(join(root, normalized(root, resolved)->Ok_0)),
        normalized(root, Ok(join(root, normalized(root, resolved)->Ok_0))) == normalized(
            root,
            resolved,
        ),
{
    let path = resolved->Ok_0;
    let relative = relative_to(path, root)->0;
    lemma_relative_is_normalized(path, root);
    lemma_joined_is_under_root(root, relative);
}

/// A path with a last component has the components of its parent joined with that
/// component: where the parent resolves to itself, parent and name joined stand for
/// the path.
pub proof fn lemma_parent_and_name(path: Seq<char>)
    requires
        components(path).len() > 0,
    ensures
        is_absolute(parent_of(path)),
        components(parent_of(path)) == components(path).drop_last(),
        components(join(parent_of(path), components(path).last())) == components(path),
{
    let names = components(path);
    let earlier = names.drop_last();
    lemma_components_are_names(path);
    assert forall|i: int| 0 <= i < earlier.len() implies is_name(#[trigger] earlier[i]) by {
        assert(earlier[i] == names[i]);
    }
    lemma_components_of_rendered(earlier);
    lemma_components_of_joined(Seq::empty(), render(earlier));
    assert(Seq::<char>::empty() + seq!['/'] + render(earlier) =~= parent_of(path));
    assert(components(Seq::<char>::empty()) + earlier =~= earlier);
    assert(is_name(names.last()));
    lemma_components_of_joined(parent_of(path), names.last());
    lemma_components_of_segment(names.last());
    assert(earlier + seq![names.last()] =~= names);
}

/// `std::io::Error`, with which `Path::absolutize` fails. Nothing is known of a value
/// of it; `absolute_form` turns it into `PathError::ResolutionError`.
#[verifier::external_type_specification]
#[verifier::external_body]
pub struct ExIoError(std::io::Error);

/// `String::push` of std appends one character to the string.
pub assume_specification[ String::push ](text: &mut String, c: char)
    ensures
        final(text)@ == old(text)@.push(c),
;

/// `Path::absolutize` of the crate path-absolutize, as it is on a Unix system, on a
/// path given and returned as text. It follows no link and looks nothing up on disk.
/// It reads the working directory of the process first and fails where that fails.
/// What it returns is an absolute path from which it has taken the `.` and `..`
/// segments of `path`. A relative path is taken from the working directory on, as
/// the system reports it, so of that result no more is stated. For an absolute path
/// the working directory is not used: the result is the root followed by the
/// components of `path`, joined by single separators, after each `..` has taken
/// away the component before it. A result that is not valid Unicode comes back with
/// the replacement character in place of what is not.
#[verifier::external_body]
fn absolutize(path: &str) -> (resolved: Result<String, std::io::Error>)
    ensures
        resolved matches Ok(absolute) ==> is_resolved(absolute@),
        resolved matches Ok(absolute) ==> (is_absolute(path@) ==> absolute@ == absolutized(path@)),
{
    Path::new(path).absolutize().map(|p| p.to_string_lossy().into_owned())
}

/// The absolute form of `path`, without `.` and `..` segments, by its text and the
/// working directory alone: a relative path is taken from the working directory on;
/// no link is followed, and the file need not exist. For an absolute `path` the
/// result is `absolutized(path@)`, whatever the working directory. The only failure
/// is `ResolutionError`.
pub fn absolute_form(path: &str) -> (absolute: Result<String, PathError>)
    ensures
        is_absolute_form_of(path@, text_of(absolute)),
{
    match absolutize(path) {
        Ok(absolute) => Ok(absolute),
        Err(_) => Err(PathError::ResolutionError),
    }
}

/// Whether `path` starts at the filesystem root.
pub fn starts_at_root(path: &str) -> (b: bool)
    ensures
        b == is_absolute(path@),
{
    !path.is_empty() && path.get_char(0) == '/'
}

fn is_current_dir(segment: &str) -> (b: bool)
    ensures
        b == (segment@ == seq!['.']),
{
    if segment.unicode_len() == 1 {
        let dot = segment.get_char(0) == '.';
        assert(dot ==> segment@ =~= seq!['.']);
        dot
    } else {
        false
    }
}

fn push_component(parts: &mut Vec<String>, segment: String)
    ensures
        texts(final(parts)@) == texts(old(parts)@) + component_of(segment@),
{
    if !segment.as_str().is_empty() && !is_current_dir(segment.as_str()) {
        parts.push(segment);
    }
    assert(texts(parts@) =~= texts(old(parts)@) + component_of(segment@));
}

/// Splits `path` into its components.
pub fn split_components(path: &str) -> (parts: Vec<String>)
    ensures
        texts(parts@) == components(path@),
{
    let mut parts: Vec<String> = Vec::new();
    let mut current = String::new();
    assert(current@ + path@.skip(0) =~= path@);
    for c in it: path.chars()
        invariant
            it.seq() == path@,
            !current@.contains('/'),
            components(path@) == texts(parts@) + components(
                current@ + path@.skip(it.index() as int),
            ),
    {
        let ghost at = it.index() as int;
        let ghost rest = path@.skip(at + 1);
        if c == '/' {
            proof {
                let whole = current@ + path@.skip(at);
                assert(whole =~= current@ + seq!['/'] + rest);
                lemma_components_of_joined(current@, rest);
                lemma_components_of_segment(current@);
                assert(Seq::<char>::empty() + rest =~= rest);
            }
            push_component(&mut parts, current);
            current = String::new();
        } else {
            let ghost before = current@;
            current.push(c);
            proof {
                assert(current@ + rest =~= before + path@.skip(at));
                assert forall|i: int| 0 <= i < current@.len() implies current@[i] != '/' by {
                    if i < before.len() {
                        assert(before[i] == current@[i]);
                    }
                }
            }
        }
    }
    proof {
        assert(current@ + path@.skip(path@.len() as int) =~= current@);
        lemma_components_of_segment(current@);
    }
    push_component(&mut parts, current);
    parts
}

/// Renders the names from position `start` on as the text of a relative path.
fn render_from(names: &Vec<String>, start: usize) -> (path: String)
    requires
        start <= names.len(),
    ensures
        path@ == render(texts(names@).skip(start as int)),
{
    let mut path = String::new();
    let mut i: usize = start;
    assert(texts(names@).subrange(start as int, i as int) =~= Seq::empty());
    while i < names.len()
        invariant
            start <= i <= names.len(),
            path@ == render(texts(names@).subrange(start as int, i as int)),
        decreases names.len() - i,
    {
        let ghost done = texts(names@).subrange(start as int, i as int);
        proof {
            lemma_render_push(done, names@[i as int]@);
            assert(texts(names@).subrange(start as int, i + 1) =~= done.push(names@[i as int]@));
        }
        if i > start {
            path.push('/');
        }
        path.append(names[i].as_str());
        i += 1;
    }
    assert(texts(names@).subrange(start as int, i as int) =~= texts(names@).skip(start as int));
    path
}

fn begins_with(names: &Vec<String>, prefix: &Vec<String>) -> (b: bool)
    ensures
        b == texts(prefix@).is_prefix_of(texts(names@)),
{
    if prefix.len() > names.len() {
        return false;
    }
    let mut i: usize = 0;
    while i < prefix.len()
        invariant
            i <= prefix.len() <= names.len(),
            forall|j: int| 0 <= j < i ==> prefix@[j]@ == names@[j]@,
        decreases prefix.len() - i,
    {
        if prefix[i] != names[i] {
            assert(texts(prefix@)[i as int] != texts(names@).take(prefix.len() as int)[i as int]);
            return false;
        }
        i += 1;
    }
    assert(texts(prefix@) =~= texts(names@).take(prefix.len() as int));
    true
}

pub(crate) fn is_parent_marker(segment: &str) -> (b: bool)
    ensures
        b == (segment@ == parent_marker()),
{
    if segment.unicode_len() == 2 {
        let dots = segment.get_char(0) == '.' && segment.get_char(1) == '.';
        assert(dots ==> segment@ =~= parent_marker());
        dots
    } else {
        false
    }
}

fn holds_parent_marker(names: &Vec<String>) -> (b: bool)
    ensures
        b == texts(names@).contains(parent_marker()),
{
    let mut i: usize = 0;
    while i < names.len()
        invariant
            i <= names.len(),
            forall|j: int| 0 <= j < i ==> texts(names@)[j] != parent_marker(),
        decreases names.len() - i,
    {
        if is_parent_marker(names[i].as_str()) {
            assert(texts(names@)[i as int] == parent_marker());
            return true;
        }
        i += 1;
    }
    false
}

/// Whether `path` is resolved: absolute, and without the component `..`.
pub fn is_resolved_path(path: &str) -> (b: bool)
    ensures
        b == is_resolved(path@),
{
    if !starts_at_root(path) {
        return false;
    }
    let names = split_components(path);
    !holds_parent_marker(&names)
}

/// The path that the resolved path `absolute` is relative to `root`, or
/// `PathOutsideRoot` where it does not lie under `root` or one of the two is not
/// resolved.
pub fn strip_root(root: &str, absolute: &str) -> (relative: Result<String, PathError>)
    ensures
        text_of(relative) == normalized(root@, Ok(absolute@)),
{
    if !starts_at_root(absolute) || !starts_at_root(root) {
        return Err(PathError::PathOutsideRoot);
    }
    let root_names = split_components(root);
    let names = split_components(absolute);
    if holds_parent_marker(&root_names) || holds_parent_marker(&names) {
        return Err(PathError::PathOutsideRoot);
    }
    if begins_with(&names, &root_names) {
        Ok(render_from(&names, root_names.len()))
    } else {
        Err(PathError::PathOutsideRoot)
    }
}

/// The parent of `path` as an absolute path, and the last component of `path`;
/// `None` where `path` has no component.
pub fn parent_and_name(path: &str) -> (parts: Option<(String, String)>)
    ensures
        match parts {
            Some((parent, name)) => {
                &&& components(path@).len() > 0
                &&& parent@ == parent_of(path@)
                &&& name@ == components(path@).last()
            },
            None => components(path@).len() == 0,
        },
{
    let mut names = split_components(path);
    let ghost all = names@;
    match names.pop() {
        Some(name) => {
            assert(texts(all).last() == name@);
            assert(texts(names@) =~= texts(all).drop_last());
            assert(texts(names@).skip(0) =~= texts(names@));
            let mut parent = String::new();
            parent.push('/');
            let rest = render_from(&names, 0);
            parent.append(rest.as_str());
            assert(parent@ =~= parent_of(path@));
            Some((parent, name))
        },
        None => None,
    }
}

/// The path `relative` taken from `root` on.
pub fn join_root(root: &str, relative: &str) -> (path: String)
    ensures
        path@ == join(root@, relative@),
{
    if root.is_empty() {
        relative.to_owned()
    } else {
        let mut path = root.to_owned();
        path.push('/');
        path.append(relative);
        path
    }
}

/// Brings the outcome of a resolution into the form relative to `root`: a resolved
/// path is stripped of the root, a failed resolution is passed on.
pub fn normalize(root: &str, resolved: &Result<String, PathError>) -> (relative: Result<
    String,
    PathError,
>)
    ensures
        text_of(relative) == normalized(root@, text_of(*resolved)),
{
    match resolved {
        Ok(absolute) => strip_root(root, absolute.as_str()),
        Err(e) => Err(*e),
    }
}

} // verus!
