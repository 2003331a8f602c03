//! Content descriptors: which Markdown file stands for which identifier.

use crate::paths::{
    identifier_bounds, identifier_of, lemma_markdown_path_parts, markdown_path,
};
use crate::text::to_chars;
use vstd::prelude::*;

verus! {

/// One Markdown file: the folder it was found in, its identifier and its path.
#[derive(Debug)]
pub struct Content {
    /// The folder in which the file was found.
    pub parent: String,
    /// The name of the file without the Markdown suffix.
    pub id: String,
    /// The path of the file.
    pub path: String,
}

/// A content descriptor as three texts.
pub struct ContentView {
    pub parent: Seq<char>,
    pub id: Seq<char>,
    pub path: Seq<char>,
}

impl View for Content {
    type V = ContentView;

    open spec fn view(&self) -> ContentView {
        ContentView { parent: self.parent@, id: self.id@, path: self.path@ }
    }
}

/// The descriptor of the file at `path`, found in `parent`.
pub open spec fn content_of(path: Seq<char>, parent: Seq<char>) -> ContentView {
    ContentView { parent, id: identifier_of(path), path }
}

impl ContentView {
    /// The identifier is the file's name without the Markdown suffix, and the
    /// path is the parent joined with the identifier and the suffix.
    pub open spec fn consistent(self) -> bool {
        &&& self.id == identifier_of(self.path)
        &&& self.path == markdown_path(self.parent, self.id)
    }
}

/// The identifier of the file at `path`: its name without the Markdown suffix.
pub fn path_to_id(path: &str) -> (id: String)
    ensures
        id@ == identifier_of(path@),
{
    let chars = to_chars(path);
    let (start, end) = identifier_bounds(&chars);
    String::from_str(path.substring_char(start, end))
}

impl Content {
    /// The descriptor of the file at `path`, found in `parent`.
    pub fn new(path: &str, parent: String) -> (content: Content)
        ensures
            content@ == content_of(path@, parent@),
    {
        Content { parent, id: path_to_id(path), path: String::from_str(path) }
    }
}

impl PartialEq for Content {
    fn eq(&self, other: &Self) -> (equal: bool) {
        self.parent == other.parent && self.id == other.id && self.path == other.path
    }
}

impl vstd::std_specs::cmp::PartialEqSpecImpl for Content {
    open spec fn obeys_eq_spec() -> bool {
        true
    }

    open spec fn eq_spec(&self, other: &Self) -> bool {
        self.parent@ == other.parent@ && self.id@ == other.id@ && self.path@ == other.path@
    }
}

/// The descriptors of the files listed in `folder`, one for each of `files`,
/// in their order.
pub fn create_content_list(folder: &String, files: &Vec<String>) -> (list: Vec<Content>)
    ensures
        list.len() == files.len(),
        forall|i: int| 0 <= i < files.len() ==> list[i]@ == content_of(files[i]@, folder@),
{
    let mut list: Vec<Content> = Vec::new();
    let mut k: usize = 0;
    while k < files.len()
        invariant
            k <= files.len(),
            list.len() == k,
            forall|i: int| 0 <= i < k ==> list[i]@ == content_of(files[i]@, folder@),
        decreases files.len() - k,
    {
        let content = Content::new(files[k].as_str(), folder.clone());
        list.push(content);
        k += 1;
    }
    list
}

/// The descriptor of the Markdown file `id.md` in `folder`, found in that
/// folder, has the identifier `id` and is consistent.
pub proof fn lemma_content_of_markdown_file(folder: Seq<char>, id: Seq<char>)
    requires
        !id.contains('/'),
    ensures
        content_of(markdown_path(folder, id), folder).id == id,
        content_of(markdown_path(folder, id), folder).consistent(),
{
    lemma_markdown_path_parts(folder, id);
}

} // verus!
