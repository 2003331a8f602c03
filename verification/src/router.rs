//! The addresses of the site: the link that the index shows for a file, the
//! index page, and the route of a request taken apart.

use crate::loader::path_to_id;
use crate::paths::{
    file_name_start, identifier_of, last_slash, lemma_last_slash, lemma_markdown_path_parts,
    lemma_split_at_last_slash, markdown_path, parent_folder, parent_of, SEPARATOR,
};
use crate::templater::{page_of, wrap_page, HOME_URL};
use crate::text::{joined, texts, to_chars};
use vstd::prelude::*;

verus! {

/// Where the site is served, without a path.
pub const SITE: &'static str = "http://127.0.0.1:8080";

/// A list item with a link, up to the address.
pub const LINK_BEFORE_ADDRESS: &'static str = "<li><a href='";

/// A list item with a link, between the address and the label.
pub const LINK_BEFORE_LABEL: &'static str = "'>";

/// A list item with a link, after the label.
pub const LINK_AFTER_LABEL: &'static str = "</a></li>";

/// The index up to its links.
pub const INDEX_BEFORE_LINKS: &'static str = "<h1>Index</h1>\n<ul>\n";

/// What stands between two links of the index.
pub const LINK_SEPARATOR: &'static str = "\n";

/// The index after its links.
pub const INDEX_AFTER_LINKS: &'static str = "\n</ul>";

/// The route of the note `id` in `folder`: the folder, then the identifier,
/// as segments of the path.
pub open spec fn route_of(folder: Seq<char>, id: Seq<char>) -> Seq<char> {
    SEPARATOR@ + folder + SEPARATOR@ + id
}

/// The address of the note `id` in `folder`.
pub open spec fn address_of(folder: Seq<char>, id: Seq<char>) -> Seq<char> {
    HOME_URL@ + folder + SEPARATOR@ + id
}

/// The list item that links to the note in the file at `path`; its label is
/// the path.
pub open spec fn link_of(path: Seq<char>) -> Seq<char> {
    LINK_BEFORE_ADDRESS@ + address_of(parent_of(path), identifier_of(path)) + LINK_BEFORE_LABEL@
        + path + LINK_AFTER_LABEL@
}

/// The links to the notes in `files`, in their order.
pub open spec fn links_of(files: Seq<Seq<char>>) -> Seq<Seq<char>> {
    Seq::new(files.len(), |i: int| link_of(files[i]))
}

/// The content of the index page for `files`: a heading and the list of
/// their links, one to a line.
pub open spec fn index_of(files: Seq<Seq<char>>) -> Seq<char> {
    INDEX_BEFORE_LINKS@ + joined(links_of(files), LINK_SEPARATOR@) + INDEX_AFTER_LINKS@
}

/// The folder and the identifier that a route names: the last segment is the
/// identifier, and all that stands between the first `/` and the last is the
/// folder. A route that does not begin with `/`, or in which the folder or
/// the identifier is missing, names nothing.
pub open spec fn route_parts(route: Seq<char>) -> Option<(Seq<char>, Seq<char>)> {
    let at = last_slash(route);
    if route.len() > 0 && route[0] == '/' && 1 < at < route.len() - 1 {
        Some((route.subrange(1, at), route.subrange(at + 1, route.len() as int)))
    } else {
        None
    }
}

/// `parts` holds the folder and the identifier `named`, or both hold nothing.
pub open spec fn holds(
    parts: Option<(String, String)>,
    named: Option<(Seq<char>, Seq<char>)>,
) -> bool {
    match parts {
        Some((folder, id)) => named == Some((folder@, id@)),
        None => named is None,
    }
}

/// The list item that links to the note in the file at `path`.
pub fn create_link(path: &str) -> (link: String)
    ensures
        link@ == link_of(path@),
{
    let folder = parent_folder(path);
    let id = path_to_id(path);
    let mut link = String::from_str(LINK_BEFORE_ADDRESS);
    link.append(HOME_URL);
    link.append(folder.as_str());
    link.append(SEPARATOR);
    link.append(id.as_str());
    link.append(LINK_BEFORE_LABEL);
    link.append(path);
    link.append(LINK_AFTER_LABEL);
    link
}

/// The index page for `files`: a link to each, in their order.
pub fn index_page(files: &Vec<String>) -> (page: String)
    ensures
        page@ == page_of(index_of(texts(files@))),
{
    let ghost links = links_of(texts(files@));
    let mut list = String::new();
    let mut k: usize = 0;
    while k < files.len()
        invariant
            k <= files.len(),
            links == links_of(texts(files@)),
            list@ == joined(links.take(k as int), LINK_SEPARATOR@),
        decreases files.len() - k,
    {
        if k > 0 {
            list.append(LINK_SEPARATOR);
        }
        let link = create_link(files[k].as_str());
        list.append(link.as_str());
        assert(links.take(k + 1).drop_last() == links.take(k as int));
        k += 1;
    }
    assert(links.take(k as int) == links);
    let mut content = String::from_str(INDEX_BEFORE_LINKS);
    content.append(list.as_str());
    content.append(INDEX_AFTER_LINKS);
    wrap_page(content)
}

/// Takes a route apart into the folder and the identifier that it names.
pub fn parse_route(route: &str) -> (parts: Option<(String, String)>)
    ensures
        holds(parts, route_parts(route@)),
{
    let chars = to_chars(route);
    let n: usize = chars.len();
    let start = file_name_start(&chars);
    proof {
        lemma_last_slash(route@);
    }
    if n > 0 && chars[0] == '/' && start > 2 && start < n {
        let folder = String::from_str(route.substring_char(1, start - 1));
        let id = String::from_str(route.substring_char(start, n));
        Some((folder, id))
    } else {
        None
    }
}

/// The text that the percent-encoded text `raw` stands for.
pub uninterp spec fn percent_decoded(raw: Seq<char>) -> Seq<char>;

/// Decodes the percent-encoding of `raw`, as the path of a request has it.
///
/// Trusted: this is `percent_encoding::percent_decode_str`, with its bytes
/// read as UTF-8 by `PercentDecode::decode_utf8_lossy`. The contract claims
/// that the text is determined by `raw`, under the name `percent_decoded`, and
/// that a text without `%` is given back as it is: the decoder copies every
/// byte that is not part of a `%` escape.
#[verifier::external_body]
fn percent_decode(raw: &str) -> (text: String)
    ensures
        text@ == percent_decoded(raw@),
        !raw@.contains('%') ==> text@ == raw@,
{
    percent_encoding::percent_decode_str(raw).decode_utf8_lossy().into_owned()
}

/// The folder and the identifier that the path of a request names: the path
/// is decoded and then taken apart. A path without `%` needs no decoding.
pub fn request_route(raw_path: &str) -> (parts: Option<(String, String)>)
    ensures
        holds(parts, route_parts(percent_decoded(raw_path@))),
        !raw_path@.contains('%') ==> holds(parts, route_parts(raw_path@)),
{
    let route = percent_decode(raw_path);
    parse_route(route.as_str())
}

/// A link leads to its note: the address in the link of a file is the site
/// followed by the route of the file's folder and identifier.
pub proof fn lemma_address_is_site_and_route(folder: Seq<char>, id: Seq<char>)
    ensures
        address_of(folder, id) == SITE@ + route_of(folder, id),
{
    reveal_strlit("http://127.0.0.1:8080");
    reveal_strlit("http://127.0.0.1:8080/");
    reveal_strlit("/");
    assert(HOME_URL@ == SITE@ + SEPARATOR@);
}

/// The route of a note names the note: taken apart, it gives the folder and
/// the identifier back, where neither is empty and the identifier holds no
/// `/`.
pub proof fn lemma_route_names_its_note(folder: Seq<char>, id: Seq<char>)
    requires
        folder.len() > 0,
        id.len() > 0,
        !id.contains('/'),
    ensures
        route_parts(route_of(folder, id)) == Some((folder, id)),
{
    reveal_strlit("/");
    let route = route_of(folder, id);
    lemma_split_at_last_slash(SEPARATOR@ + folder, id);
    assert(route.subrange(1, last_slash(route)) == folder);
    assert(route.subrange(last_slash(route) + 1, route.len() as int) == id);
}

/// From the index to the file and back: the link of the Markdown file `id.md`
/// in `folder` holds the address of the route of `folder` and `id`, and that
/// route names them, where neither is empty.
pub proof fn lemma_link_of_markdown_file(folder: Seq<char>, id: Seq<char>)
    requires
        !id.contains('/'),
    ensures
        link_of(markdown_path(folder, id)) == LINK_BEFORE_ADDRESS@ + (SITE@ + route_of(folder, id))
            + LINK_BEFORE_LABEL@ + markdown_path(folder, id) + LINK_AFTER_LABEL@,
        folder.len() > 0 && id.len() > 0 ==> route_parts(route_of(folder, id)) == Some(
            (folder, id),
        ),
{
    lemma_markdown_path_parts(folder, id);
    lemma_address_is_site_and_route(folder, id);
    if folder.len() > 0 && id.len() > 0 {
        lemma_route_names_its_note(folder, id);
    }
}

} // verus!
