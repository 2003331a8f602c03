//! From what reading a Markdown file gave to the page that is served for it.

use crate::templater::{
    lemma_occurs_between, lemma_page_holds_content_and_chrome, page_of, wrap_page, FOOTER_TEXT,
    HOME_URL, STYLE_URL,
};
use crate::text::{
    lemma_replaced_around, lemma_replaced_is_without, lemma_replaced_keeps,
    lemma_replaced_without_occurrence, occurs_in, replace_all, replaced, separate, unbordered,
};
use vstd::prelude::*;

verus! {

/// How an empty checkbox is written in a note.
pub const UNCHECKED_MARK: &'static str = "[ ]";

/// How a ticked checkbox is written in a note.
pub const CHECKED_MARK: &'static str = "[x]";

/// The other way to write a ticked checkbox.
pub const CHECKED_MARK_UPPER: &'static str = "[X]";

/// The character reference of the empty ballot box.
pub const UNCHECKED_BOX: &'static str = "&#x2610;";

/// The character reference of the ticked ballot box.
pub const CHECKED_BOX: &'static str = "&#9745;";

/// A table's opening tag as the Markdown renderer writes it.
pub const TABLE_TAG: &'static str = "<table>";

/// A table's opening tag with the classes that style it.
pub const STYLED_TABLE_TAG: &'static str = "<table class='pure-table pure-table-horizontal'>";

/// Why a file could not be shown: nothing at its path is a file.
pub const NOT_A_FILE: &'static str = "Not a file";

/// Why a file could not be shown: it is there and could not be read.
pub const READ_ERROR: &'static str = "Error reading file";

/// What the fallback document says before the reason.
pub const FALLBACK_BEFORE_REASON: &'static str = "# Error\n**";

/// What the fallback document says after the reason.
pub const FALLBACK_AFTER_REASON: &'static str = "**";

/// What came of reading the file behind a request.
#[derive(Debug)]
pub enum FileRead {
    /// Nothing at the path is a regular file.
    NotAFile,
    /// There is a file, and reading it failed.
    Unreadable,
    /// The text of the file.
    Text(String),
}

/// The extensions of Markdown with which a note is rendered.
#[derive(Clone, Copy, Debug)]
pub struct MarkdownOptions {
    /// Addresses in the text become links.
    pub autolink: bool,
    /// Tables are rendered.
    pub table: bool,
}

impl Default for MarkdownOptions {
    /// Both extensions are on.
    fn default() -> (options: MarkdownOptions)
        ensures
            options.autolink,
            options.table,
    {
        MarkdownOptions { autolink: true, table: true }
    }
}

/// The fallback document, in Markdown, for the given reason: a heading
/// "Error" and the reason in bold.
pub open spec fn fallback_markdown(reason: Seq<char>) -> Seq<char> {
    FALLBACK_BEFORE_REASON@ + reason + FALLBACK_AFTER_REASON@
}

/// The Markdown that is rendered for `read`: the text of the file, or the
/// fallback document that says why there is none.
pub open spec fn markdown_source(read: FileRead) -> Seq<char> {
    match read {
        FileRead::NotAFile => fallback_markdown(NOT_A_FILE@),
        FileRead::Unreadable => fallback_markdown(READ_ERROR@),
        FileRead::Text(text) => text@,
    }
}

/// `html` with each checkbox mark replaced by the reference of its box: first
/// every `[ ]`, then every `[x]`, then every `[X]`.
pub open spec fn checkboxes_substituted(html: Seq<char>) -> Seq<char> {
    replaced(
        replaced(replaced(html, UNCHECKED_MARK@, UNCHECKED_BOX@), CHECKED_MARK@, CHECKED_BOX@),
        CHECKED_MARK_UPPER@,
        CHECKED_BOX@,
    )
}

/// `html` with each bare `<table>` tag replaced by the styled one.
pub open spec fn tables_styled(html: Seq<char>) -> Seq<char> {
    replaced(html, TABLE_TAG@, STYLED_TABLE_TAG@)
}

/// Rendered HTML made ready for the page: checkboxes substituted, then tables
/// styled.
pub open spec fn decorated(html: Seq<char>) -> Seq<char> {
    tables_styled(checkboxes_substituted(html))
}

/// The HTML that the Markdown renderer gives for the text `md` with the two
/// extensions switched as given.
pub uninterp spec fn markdown_html(md: Seq<char>, autolink: bool, table: bool) -> Seq<char>;

/// The page served for `read`.
pub open spec fn content_page_of(read: FileRead, options: MarkdownOptions) -> Seq<char> {
    page_of(decorated(markdown_html(markdown_source(read), options.autolink, options.table)))
}

/// Renders Markdown to HTML.
///
/// Trusted: this is `comrak::markdown_to_html`, called with comrak's default
/// options but for the autolink and table extensions, which are set from
/// `options`. The contract claims only that the HTML is determined by the text
/// and those two switches; it is named `markdown_html`.
#[verifier::external_body]
fn render_markdown(md: &str, options: &MarkdownOptions) -> (html: String)
    ensures
        html@ == markdown_html(md@, options.autolink, options.table),
{
    let mut comrak_options = comrak::ComrakOptions::default();
    comrak_options.extension.autolink = options.autolink;
    comrak_options.extension.table = options.table;
    comrak::markdown_to_html(md, &comrak_options)
}

/// The fallback document, in Markdown, for the reason `e`.
pub fn create_404_md(e: &str) -> (md: String)
    ensures
        md@ == fallback_markdown(e@),
{
    let mut md = String::from_str(FALLBACK_BEFORE_REASON);
    md.append(e);
    md.append(FALLBACK_AFTER_REASON);
    md
}

/// The Markdown to render for `read`.
pub fn source_markdown(read: FileRead) -> (md: String)
    ensures
        md@ == markdown_source(read),
{
    match read {
        FileRead::NotAFile => create_404_md(NOT_A_FILE),
        FileRead::Unreadable => create_404_md(READ_ERROR),
        FileRead::Text(text) => text,
    }
}

/// Replaces the checkbox marks in `html` by the references of their boxes.
pub fn substitute_checkboxes(html: &str) -> (out: String)
    ensures
        out@ == checkboxes_substituted(html@),
{
    let unchecked = replace_all(html, UNCHECKED_MARK, UNCHECKED_BOX);
    let checked = replace_all(unchecked.as_str(), CHECKED_MARK, CHECKED_BOX);
    replace_all(checked.as_str(), CHECKED_MARK_UPPER, CHECKED_BOX)
}

/// Gives every bare `<table>` tag in `html` the classes that style it.
pub fn style_tables(html: &str) -> (out: String)
    ensures
        out@ == tables_styled(html@),
{
    replace_all(html, TABLE_TAG, STYLED_TABLE_TAG)
}

/// Makes rendered HTML ready for the page.
pub fn decorate(html: &str) -> (out: String)
    ensures
        out@ == decorated(html@),
{
    let substituted = substitute_checkboxes(html);
    style_tables(substituted.as_str())
}

/// The page served for `read`: its Markdown rendered, decorated and wrapped in
/// the page. A file that is missing or unreadable gets the fallback document
/// in place of its text; it is a page like any other.
pub fn content_page(read: FileRead, options: &MarkdownOptions) -> (page: String)
    ensures
        page@ == content_page_of(read, *options),
{
    let md = source_markdown(read);
    let html = render_markdown(md.as_str(), options);
    let out = decorate(html.as_str());
    wrap_page(out)
}

/// The marks and the references of the boxes, as far as the proofs below
/// need them: a reference shares no character with a mark, no two marks are
/// alike after the `[`, and no mark overlaps with itself.
proof fn lemma_marks_and_boxes()
    ensures
        separate(UNCHECKED_BOX@, UNCHECKED_MARK@),
        separate(UNCHECKED_BOX@, CHECKED_MARK@),
        separate(UNCHECKED_BOX@, CHECKED_MARK_UPPER@),
        separate(CHECKED_BOX@, UNCHECKED_MARK@),
        separate(CHECKED_BOX@, CHECKED_MARK@),
        separate(CHECKED_BOX@, CHECKED_MARK_UPPER@),
        separate(CHECKED_MARK@, UNCHECKED_MARK@),
        separate(CHECKED_MARK_UPPER@, UNCHECKED_MARK@),
        separate(CHECKED_MARK_UPPER@, CHECKED_MARK@),
        unbordered(UNCHECKED_MARK@),
        unbordered(CHECKED_MARK@),
        unbordered(CHECKED_MARK_UPPER@),
        UNCHECKED_MARK@.len() == 3,
        CHECKED_MARK@.len() == 3,
        CHECKED_MARK_UPPER@.len() == 3,
{
    reveal_strlit("[ ]");
    reveal_strlit("[x]");
    reveal_strlit("[X]");
    reveal_strlit("&#x2610;");
    reveal_strlit("&#9745;");
    lemma_mark_unbordered(UNCHECKED_MARK@);
    lemma_mark_unbordered(CHECKED_MARK@);
    lemma_mark_unbordered(CHECKED_MARK_UPPER@);
    assert(CHECKED_MARK@.subrange(0, 3)[1] != UNCHECKED_MARK@[1]);
    assert(CHECKED_MARK_UPPER@.subrange(0, 3)[1] != UNCHECKED_MARK@[1]);
    assert(CHECKED_MARK_UPPER@.subrange(0, 3)[1] != CHECKED_MARK@[1]);
}

/// Three characters of which only the first is `[` do not overlap with
/// themselves.
proof fn lemma_mark_unbordered(mark: Seq<char>)
    requires
        mark.len() == 3,
        mark[0] == '[',
        mark[1] != '[',
        mark[2] != '[',
    ensures
        unbordered(mark),
{
    assert forall|k: int| 0 < k < mark.len() implies mark.skip(mark.len() - k)
        != #[trigger] mark.take(k) by {
        assert(mark.skip(mark.len() - k)[0] != '[');
        assert(mark.subrange(0, k)[0] == '[');
    }
}

/// An empty checkbox becomes the empty box wherever it stands: what is before
/// it and what is after it are substituted on their own.
pub proof fn lemma_unchecked_mark_substituted(before: Seq<char>, after: Seq<char>)
    ensures
        checkboxes_substituted(before + UNCHECKED_MARK@ + after) == checkboxes_substituted(before)
            + UNCHECKED_BOX@ + checkboxes_substituted(after),
{
    lemma_marks_and_boxes();
    let first = |html: Seq<char>| replaced(html, UNCHECKED_MARK@, UNCHECKED_BOX@);
    let second = |html: Seq<char>| replaced(first(html), CHECKED_MARK@, CHECKED_BOX@);
    lemma_replaced_around(before, after, UNCHECKED_MARK@, UNCHECKED_BOX@);
    lemma_replaced_keeps(first(before), UNCHECKED_BOX@, first(after), CHECKED_MARK@, CHECKED_BOX@);
    lemma_replaced_keeps(
        second(before),
        UNCHECKED_BOX@,
        second(after),
        CHECKED_MARK_UPPER@,
        CHECKED_BOX@,
    );
}

/// A ticked checkbox, written `[x]`, becomes the ticked box wherever it
/// stands.
pub proof fn lemma_checked_mark_substituted(before: Seq<char>, after: Seq<char>)
    ensures
        checkboxes_substituted(before + CHECKED_MARK@ + after) == checkboxes_substituted(before)
            + CHECKED_BOX@ + checkboxes_substituted(after),
{
    lemma_marks_and_boxes();
    let first = |html: Seq<char>| replaced(html, UNCHECKED_MARK@, UNCHECKED_BOX@);
    let second = |html: Seq<char>| replaced(first(html), CHECKED_MARK@, CHECKED_BOX@);
    lemma_replaced_keeps(before, CHECKED_MARK@, after, UNCHECKED_MARK@, UNCHECKED_BOX@);
    lemma_replaced_around(first(before), first(after), CHECKED_MARK@, CHECKED_BOX@);
    lemma_replaced_keeps(
        second(before),
        CHECKED_BOX@,
        second(after),
        CHECKED_MARK_UPPER@,
        CHECKED_BOX@,
    );
}

/// A ticked checkbox, written `[X]`, becomes the ticked box wherever it
/// stands.
pub proof fn lemma_upper_checked_mark_substituted(before: Seq<char>, after: Seq<char>)
    ensures
        checkboxes_substituted(before + CHECKED_MARK_UPPER@ + after) == checkboxes_substituted(
            before,
        ) + CHECKED_BOX@ + checkboxes_substituted(after),
{
    lemma_marks_and_boxes();
    let first = |html: Seq<char>| replaced(html, UNCHECKED_MARK@, UNCHECKED_BOX@);
    let second = |html: Seq<char>| replaced(first(html), CHECKED_MARK@, CHECKED_BOX@);
    lemma_replaced_keeps(before, CHECKED_MARK_UPPER@, after, UNCHECKED_MARK@, UNCHECKED_BOX@);
    lemma_replaced_keeps(
        first(before),
        CHECKED_MARK_UPPER@,
        first(after),
        CHECKED_MARK@,
        CHECKED_BOX@,
    );
    lemma_replaced_around(second(before), second(after), CHECKED_MARK_UPPER@, CHECKED_BOX@);
}

/// After the substitution no checkbox mark is left.
pub proof fn lemma_no_checkbox_mark_left(html: Seq<char>)
    ensures
        !occurs_in(checkboxes_substituted(html), UNCHECKED_MARK@),
        !occurs_in(checkboxes_substituted(html), CHECKED_MARK@),
        !occurs_in(checkboxes_substituted(html), CHECKED_MARK_UPPER@),
{
    lemma_marks_and_boxes();
    let first = replaced(html, UNCHECKED_MARK@, UNCHECKED_BOX@);
    let second = replaced(first, CHECKED_MARK@, CHECKED_BOX@);
    lemma_replaced_is_without(html, UNCHECKED_MARK@, UNCHECKED_BOX@, UNCHECKED_MARK@);
    lemma_replaced_is_without(first, CHECKED_MARK@, CHECKED_BOX@, UNCHECKED_MARK@);
    lemma_replaced_is_without(first, CHECKED_MARK@, CHECKED_BOX@, CHECKED_MARK@);
    lemma_replaced_is_without(second, CHECKED_MARK_UPPER@, CHECKED_BOX@, UNCHECKED_MARK@);
    lemma_replaced_is_without(second, CHECKED_MARK_UPPER@, CHECKED_BOX@, CHECKED_MARK@);
    lemma_replaced_is_without(second, CHECKED_MARK_UPPER@, CHECKED_BOX@, CHECKED_MARK_UPPER@);
}

/// Substituting the checkboxes a second time changes nothing.
pub proof fn lemma_checkbox_substitution_idempotent(html: Seq<char>)
    ensures
        checkboxes_substituted(checkboxes_substituted(html)) == checkboxes_substituted(html),
{
    let once = checkboxes_substituted(html);
    lemma_no_checkbox_mark_left(html);
    lemma_replaced_without_occurrence(once, UNCHECKED_MARK@, UNCHECKED_BOX@);
    lemma_replaced_without_occurrence(once, CHECKED_MARK@, CHECKED_BOX@);
    lemma_replaced_without_occurrence(once, CHECKED_MARK_UPPER@, CHECKED_BOX@);
}

/// The styled tag begins as the bare tag does and goes on otherwise, and `<`
/// stands only at the start of each.
proof fn lemma_table_tags()
    ensures
        separate(STYLED_TABLE_TAG@, TABLE_TAG@),
        unbordered(TABLE_TAG@),
        TABLE_TAG@.len() == 7,
{
    reveal_strlit("<table>");
    reveal_strlit("<table class='pure-table pure-table-horizontal'>");
    let bare = TABLE_TAG@;
    let styled = STYLED_TABLE_TAG@;
    assert(styled.subrange(0, 7)[6] != bare[6]);
    assert forall|k: int| 0 < k < bare.len() implies bare.skip(bare.len() - k)
        != #[trigger] bare.take(k) by {
        assert(bare.skip(bare.len() - k)[k - 1] == '>');
        assert(bare.subrange(0, k)[k - 1] != '>');
    }
}

/// After the styling no bare `<table>` tag is left, so that styling a second
/// time changes nothing: no tag gets the classes twice.
pub proof fn lemma_tables_styled_once(html: Seq<char>)
    ensures
        !occurs_in(tables_styled(html), TABLE_TAG@),
        tables_styled(tables_styled(html)) == tables_styled(html),
{
    lemma_table_tags();
    lemma_replaced_is_without(html, TABLE_TAG@, STYLED_TABLE_TAG@, TABLE_TAG@);
    lemma_replaced_without_occurrence(tables_styled(html), TABLE_TAG@, STYLED_TABLE_TAG@);
}

/// Every bare `<table>` tag becomes one styled tag, wherever it stands: what
/// is before it and what is after it are styled on their own.
pub proof fn lemma_each_table_styled(before: Seq<char>, after: Seq<char>)
    ensures
        tables_styled(before + TABLE_TAG@ + after) == tables_styled(before) + STYLED_TABLE_TAG@
            + tables_styled(after),
{
    lemma_table_tags();
    lemma_replaced_around(before, after, TABLE_TAG@, STYLED_TABLE_TAG@);
}

/// The styled tag holds no `[`, so that no checkbox mark can overlap with it.
proof fn lemma_styled_tag_separate_from_marks()
    ensures
        separate(STYLED_TABLE_TAG@, UNCHECKED_MARK@),
        separate(STYLED_TABLE_TAG@, CHECKED_MARK@),
        separate(STYLED_TABLE_TAG@, CHECKED_MARK_UPPER@),
{
    reveal_strlit("[ ]");
    reveal_strlit("[x]");
    reveal_strlit("[X]");
    reveal_strlit("<table class='pure-table pure-table-horizontal'>");
}

/// Making HTML ready for the page a second time changes nothing.
pub proof fn lemma_decoration_idempotent(html: Seq<char>)
    ensures
        decorated(decorated(html)) == decorated(html),
{
    let substituted = checkboxes_substituted(html);
    let once = decorated(html);
    lemma_marks_and_boxes();
    lemma_table_tags();
    lemma_styled_tag_separate_from_marks();
    lemma_no_checkbox_mark_left(html);
    lemma_replaced_is_without(substituted, TABLE_TAG@, STYLED_TABLE_TAG@, UNCHECKED_MARK@);
    lemma_replaced_is_without(substituted, TABLE_TAG@, STYLED_TABLE_TAG@, CHECKED_MARK@);
    lemma_replaced_is_without(substituted, TABLE_TAG@, STYLED_TABLE_TAG@, CHECKED_MARK_UPPER@);
    lemma_replaced_without_occurrence(once, UNCHECKED_MARK@, UNCHECKED_BOX@);
    lemma_replaced_without_occurrence(once, CHECKED_MARK@, CHECKED_BOX@);
    lemma_replaced_without_occurrence(once, CHECKED_MARK_UPPER@, CHECKED_BOX@);
    lemma_tables_styled_once(substituted);
}

/// The page served for a request holds the rendering of its Markdown, made
/// ready for the page, and the fixed parts of every page.
pub proof fn lemma_content_page_holds_rendering(read: FileRead, options: MarkdownOptions)
    ensures
        occurs_in(
            content_page_of(read, options),
            decorated(markdown_html(markdown_source(read), options.autolink, options.table)),
        ),
        occurs_in(content_page_of(read, options), STYLE_URL@),
        occurs_in(content_page_of(read, options), HOME_URL@),
        occurs_in(content_page_of(read, options), FOOTER_TEXT@),
{
    lemma_page_holds_content_and_chrome(
        decorated(markdown_html(markdown_source(read), options.autolink, options.table)),
    );
}

/// A file that is missing and a file that cannot be read are rendered from
/// the fallback document. It names the reason, and the two reasons give
/// different documents.
pub proof fn lemma_fallback_names_the_reason()
    ensures
        markdown_source(FileRead::NotAFile) == fallback_markdown(NOT_A_FILE@),
        markdown_source(FileRead::Unreadable) == fallback_markdown(READ_ERROR@),
        occurs_in(fallback_markdown(NOT_A_FILE@), NOT_A_FILE@),
        occurs_in(fallback_markdown(READ_ERROR@), READ_ERROR@),
        fallback_markdown(NOT_A_FILE@) != fallback_markdown(READ_ERROR@),
{
    lemma_occurs_between(FALLBACK_BEFORE_REASON@, NOT_A_FILE@, FALLBACK_AFTER_REASON@);
    lemma_occurs_between(FALLBACK_BEFORE_REASON@, READ_ERROR@, FALLBACK_AFTER_REASON@);
    reveal_strlit("Not a file");
    reveal_strlit("Error reading file");
    assert(fallback_markdown(NOT_A_FILE@).len() != fallback_markdown(READ_ERROR@).len());
}

} // verus!
