//! Paths as text: components are separated by `/`, and a Markdown file is one
//! whose name ends in `.md`.

use crate::text::{matches_at, to_chars};
use vstd::prelude::*;

verus! {

/// What separates the components of a path.
pub const SEPARATOR: &'static str = "/";

/// The end of a Markdown file's name.
pub const MARKDOWN_SUFFIX: &'static str = ".md";

/// The index of the last `/` in `path`, or -1 where it has none.
pub open spec fn last_slash(path: Seq<char>) -> int
    decreases path.len(),
{
    if path.len() == 0 {
        -1
    } else if path.last() == '/' {
        path.len() - 1
    } else {
        last_slash(path.drop_last())
    }
}

/// The last component of `path`: what follows its last `/`, or all of it.
pub open spec fn file_name_of(path: Seq<char>) -> Seq<char> {
    path.subrange(last_slash(path) + 1, path.len() as int)
}

/// The folder of `path`: what stands before its last `/`, or nothing.
pub open spec fn parent_of(path: Seq<char>) -> Seq<char> {
    if last_slash(path) < 0 {
        Seq::empty()
    } else {
        path.subrange(0, last_slash(path))
    }
}

/// `name` ends in `.md`.
pub open spec fn has_markdown_suffix(name: Seq<char>) -> bool {
    MARKDOWN_SUFFIX@.is_suffix_of(name)
}

/// `name` without a `.md` at its end; any other name is kept as it is.
pub open spec fn without_markdown_suffix(name: Seq<char>) -> Seq<char> {
    if has_markdown_suffix(name) {
        name.subrange(0, name.len() - MARKDOWN_SUFFIX@.len())
    } else {
        name
    }
}

/// The identifier of the file at `path`: its name without the Markdown suffix.
pub open spec fn identifier_of(path: Seq<char>) -> Seq<char> {
    without_markdown_suffix(file_name_of(path))
}

/// The path of the Markdown file `id` in `folder`.
pub open spec fn markdown_path(folder: Seq<char>, id: Seq<char>) -> Seq<char> {
    folder + SEPARATOR@ + id + MARKDOWN_SUFFIX@
}

/// The name of a file with the extension `md`: it ends in `.md` and has
/// something before that.
pub open spec fn is_markdown_name(name: Seq<char>) -> bool {
    has_markdown_suffix(name) && name.len() > MARKDOWN_SUFFIX@.len()
}

/// Where the last `/` of a path stands.
pub proof fn lemma_last_slash(path: Seq<char>)
    ensures
        -1 <= last_slash(path) < path.len(),
        last_slash(path) >= 0 ==> path[last_slash(path)] == '/',
        forall|j: int| last_slash(path) < j < path.len() ==> path[j] != '/',
    decreases path.len(),
{
    if path.len() > 0 && path.last() != '/' {
        let front = path.drop_last();
        lemma_last_slash(front);
        assert forall|j: int| last_slash(path) < j < path.len() implies path[j] != '/' by {
            if j < front.len() {
                assert(path[j] == front[j]);
            }
        }
    }
}

/// A `/` after which none follows is the last one.
pub proof fn lemma_last_slash_is(path: Seq<char>, at: int)
    requires
        0 <= at < path.len(),
        path[at] == '/',
        forall|j: int| at < j < path.len() ==> path[j] != '/',
    ensures
        last_slash(path) == at,
{
    lemma_last_slash(path);
}

/// The index at which the file name of `path` begins.
pub fn file_name_start(path: &Vec<char>) -> (start: usize)
    ensures
        start == last_slash(path@) + 1,
{
    let mut i: usize = path.len();
    while i > 0 && path[i - 1] != '/'
        invariant
            i <= path.len(),
            forall|j: int| i <= j < path.len() ==> path@[j] != '/',
        decreases i,
    {
        i -= 1;
    }
    proof {
        lemma_last_slash(path@);
        if i > 0 {
            lemma_last_slash_is(path@, i - 1);
        }
    }
    i
}

/// Where the file name of `path` begins and where its identifier ends: the
/// name is `path[start..]`, the identifier `path[start..end]`.
pub fn identifier_bounds(path: &Vec<char>) -> (bounds: (usize, usize))
    ensures
        bounds.0 == last_slash(path@) + 1,
        bounds.0 <= bounds.1 <= path.len(),
        path@.subrange(bounds.0 as int, bounds.1 as int) == identifier_of(path@),
        bounds.1 < path.len() <==> has_markdown_suffix(file_name_of(path@)),
{
    let suffix = to_chars(MARKDOWN_SUFFIX);
    let n: usize = path.len();
    let m: usize = suffix.len();
    let start = file_name_start(path);
    proof {
        reveal_strlit(".md");
        lemma_last_slash(path@);
    }
    let ghost name = file_name_of(path@);
    if n - start >= m && matches_at(path, &suffix, n - m) {
        assert(name.subrange(name.len() - m, name.len() as int) == path@.subrange(
            n - m,
            n as int,
        ));
        assert(name.subrange(0, name.len() - m) == path@.subrange(start as int, n - m));
        (start, n - m)
    } else {
        if n - start >= m {
            assert(name.subrange(name.len() - m, name.len() as int) == path@.subrange(
                n - m,
                n as int,
            ));
        }
        (start, n)
    }
}

/// The folder in which the file at `path` lies.
pub fn parent_folder(path: &str) -> (folder: String)
    ensures
        folder@ == parent_of(path@),
{
    let chars = to_chars(path);
    let start = file_name_start(&chars);
    proof {
        lemma_last_slash(path@);
    }
    if start == 0 {
        String::new()
    } else {
        String::from_str(path.substring_char(0, start - 1))
    }
}

/// Whether the file at `path` has a Markdown file's name.
pub fn is_markdown_file(path: &str) -> (yes: bool)
    ensures
        yes == is_markdown_name(file_name_of(path@)),
{
    let chars = to_chars(path);
    let (start, end) = identifier_bounds(&chars);
    proof {
        reveal_strlit(".md");
        lemma_last_slash(path@);
        assert(identifier_of(path@).len() == end - start);
    }
    start < end && end < chars.len()
}

/// The path of the Markdown file `id` in `folder`.
pub fn content_path(folder: &str, id: &str) -> (path: String)
    ensures
        path@ == markdown_path(folder@, id@),
{
    let mut path = String::from_str(folder);
    path.append(SEPARATOR);
    path.append(id);
    path.append(MARKDOWN_SUFFIX);
    path
}

/// A name without `/` that follows a `/` is the file name of the whole, and
/// what stands before that `/` is the folder.
pub proof fn lemma_split_at_last_slash(folder: Seq<char>, name: Seq<char>)
    requires
        !name.contains('/'),
    ensures
        last_slash(folder + SEPARATOR@ + name) == folder.len(),
        file_name_of(folder + SEPARATOR@ + name) == name,
        parent_of(folder + SEPARATOR@ + name) == folder,
{
    reveal_strlit("/");
    let path = folder + SEPARATOR@ + name;
    assert forall|j: int| folder.len() < j < path.len() implies path[j] != '/' by {
        assert(path[j] == name[j - folder.len() - 1]);
    }
    lemma_last_slash_is(path, folder.len() as int);
}

/// A path without `/` is a file name with no folder.
pub proof fn lemma_bare_name(name: Seq<char>)
    requires
        !name.contains('/'),
    ensures
        last_slash(name) == -1,
        file_name_of(name) == name,
        parent_of(name) == Seq::<char>::empty(),
{
    lemma_last_slash(name);
}

/// Taking the Markdown suffix off a name that was made by adding it gives the
/// name back.
pub proof fn lemma_suffix_added_and_removed(stem: Seq<char>)
    ensures
        has_markdown_suffix(stem + MARKDOWN_SUFFIX@),
        without_markdown_suffix(stem + MARKDOWN_SUFFIX@) == stem,
{
    let name = stem + MARKDOWN_SUFFIX@;
    assert(name.subrange(name.len() - MARKDOWN_SUFFIX@.len(), name.len() as int)
        == MARKDOWN_SUFFIX@);
    assert(name.subrange(0, name.len() - MARKDOWN_SUFFIX@.len()) == stem);
}

/// Adding the Markdown suffix to a name brings no `/` into it.
proof fn lemma_no_slash_in_suffixed(id: Seq<char>)
    requires
        !id.contains('/'),
    ensures
        !(id + MARKDOWN_SUFFIX@).contains('/'),
{
    reveal_strlit(".md");
    let name = id + MARKDOWN_SUFFIX@;
    assert forall|j: int| 0 <= j < name.len() implies name[j] != '/' by {
        if j < id.len() {
            assert(id.contains(id[j]));
        }
    }
}

/// The file `id.md` in `folder` has the identifier `id` and the folder
/// `folder`, whatever `folder` is, as long as `id` holds no `/`.
pub proof fn lemma_markdown_path_parts(folder: Seq<char>, id: Seq<char>)
    requires
        !id.contains('/'),
    ensures
        identifier_of(markdown_path(folder, id)) == id,
        parent_of(markdown_path(folder, id)) == folder,
        file_name_of(markdown_path(folder, id)) == id + MARKDOWN_SUFFIX@,
{
    let name = id + MARKDOWN_SUFFIX@;
    lemma_no_slash_in_suffixed(id);
    assert(markdown_path(folder, id) == folder + SEPARATOR@ + name);
    lemma_split_at_last_slash(folder, name);
    lemma_suffix_added_and_removed(id);
}

/// A file called `id.md`, with no folder before it, has the identifier `id`.
pub proof fn lemma_identifier_of_name(id: Seq<char>)
    requires
        !id.contains('/'),
    ensures
        identifier_of(id + MARKDOWN_SUFFIX@) == id,
{
    let name = id + MARKDOWN_SUFFIX@;
    lemma_no_slash_in_suffixed(id);
    lemma_bare_name(name);
    lemma_suffix_added_and_removed(id);
}

} // verus!
