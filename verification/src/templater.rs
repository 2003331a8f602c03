//! The page around a piece of content: a head that names the stylesheets and
//! scripts, and a body with the way home, the content and a footer.

use crate::text::{occurs_at, occurs_in};
use vstd::prelude::*;

verus! {

/// The head up to the address of the site's own stylesheet.
pub const HEAD_BEFORE_STYLE: &'static str =
    "\n<head>\n  <link href=\"https://fonts.googleapis.com/css2?family=Nunito&display=swap\" rel=\"stylesheet\">\n  <link rel=\"stylesheet\" href=\"https://unpkg.com/purecss@2.0.3/build/pure-min.css\">\n  <link rel='stylesheet' href='";

/// The address of the site's own stylesheet.
pub const STYLE_URL: &'static str = "http://127.0.0.1:8080/static/style.css";

/// The head after the address of the site's own stylesheet.
pub const HEAD_AFTER_STYLE: &'static str =
    "'>\n  <link rel=\"stylesheet\" href=\"//cdnjs.cloudflare.com/ajax/libs/highlight.js/10.1.2/styles/github.min.css\">\n  <script src=\"//cdnjs.cloudflare.com/ajax/libs/highlight.js/10.1.2/highlight.min.js\"></script>\n  <script>hljs.initHighlightingOnLoad();</script>\n</head>\n";

/// The body up to the address of the home page.
pub const BODY_BEFORE_HOME: &'static str =
    "\n<body>\n  <div class=\"pure-g\">\n    <div class=\"pure-menu pure-menu-horizontal\">\n      <a href=\"";

/// The address of the home page.
pub const HOME_URL: &'static str = "http://127.0.0.1:8080/";

/// The body between the address of the home page and the content.
pub const BODY_BEFORE_CONTENT: &'static str =
    "\" \n        class=\"pure-menu-heading pure-menu-link\">Home</a>\n    </div>\n    <div class=\"container pure-u-2-3\">\n      ";

/// The body between the content and the text of the footer.
pub const BODY_BEFORE_FOOTER: &'static str = "\n    </div>\n  </div>\n  <footer>";

/// The text of the footer.
pub const FOOTER_TEXT: &'static str = "Tim de Klijn, 2020";

/// The end of the body.
pub const BODY_AFTER_FOOTER: &'static str = "</footer>\n</body>";

/// `html` with the head before it.
pub open spec fn with_header(html: Seq<char>) -> Seq<char> {
    HEAD_BEFORE_STYLE@ + STYLE_URL@ + HEAD_AFTER_STYLE@ + html
}

/// `html` as the content of the body, between the way home and the footer.
pub open spec fn with_body(html: Seq<char>) -> Seq<char> {
    BODY_BEFORE_HOME@ + HOME_URL@ + BODY_BEFORE_CONTENT@ + html + BODY_BEFORE_FOOTER@
        + FOOTER_TEXT@ + BODY_AFTER_FOOTER@
}

/// The whole page around the content `html`.
pub open spec fn page_of(html: Seq<char>) -> Seq<char> {
    with_header(with_body(html))
}

/// Puts the head before `html`.
pub fn add_html_header(html: String) -> (page: String)
    ensures
        page@ == with_header(html@),
{
    let mut page = String::from_str(HEAD_BEFORE_STYLE);
    page.append(STYLE_URL);
    page.append(HEAD_AFTER_STYLE);
    page.append(html.as_str());
    page
}

/// Puts `html` into the body, after the way home and before the footer.
pub fn add_body_to_html(html: String) -> (body: String)
    ensures
        body@ == with_body(html@),
{
    let mut body = String::from_str(BODY_BEFORE_HOME);
    body.append(HOME_URL);
    body.append(BODY_BEFORE_CONTENT);
    body.append(html.as_str());
    body.append(BODY_BEFORE_FOOTER);
    body.append(FOOTER_TEXT);
    body.append(BODY_AFTER_FOOTER);
    body
}

/// The whole page around the content `html`.
pub fn wrap_page(html: String) -> (page: String)
    ensures
        page@ == page_of(html@),
{
    add_html_header(add_body_to_html(html))
}

/// `part` occurs in `before + part + after`.
pub proof fn lemma_occurs_between(before: Seq<char>, part: Seq<char>, after: Seq<char>)
    ensures
        occurs_at(before + part + after, part, before.len() as int),
        occurs_in(before + part + after, part),
{
    let whole = before + part + after;
    assert(whole.subrange(before.len() as int, (before.len() + part.len()) as int) == part);
}

/// Every page holds its content and the fixed parts around it: the address of
/// the stylesheet, the address of the home page and the text of the footer.
pub proof fn lemma_page_holds_content_and_chrome(html: Seq<char>)
    ensures
        occurs_in(page_of(html), html),
        occurs_in(page_of(html), STYLE_URL@),
        occurs_in(page_of(html), HOME_URL@),
        occurs_in(page_of(html), FOOTER_TEXT@),
{
    let head = HEAD_BEFORE_STYLE@ + STYLE_URL@ + HEAD_AFTER_STYLE@;
    let page = page_of(html);
    let up_to_content = head + BODY_BEFORE_HOME@ + HOME_URL@ + BODY_BEFORE_CONTENT@;
    let after_content = BODY_BEFORE_FOOTER@ + FOOTER_TEXT@ + BODY_AFTER_FOOTER@;
    assert(page == up_to_content + html + after_content);
    lemma_occurs_between(up_to_content, html, after_content);
    assert(page == HEAD_BEFORE_STYLE@ + STYLE_URL@ + (HEAD_AFTER_STYLE@ + with_body(html)));
    lemma_occurs_between(HEAD_BEFORE_STYLE@, STYLE_URL@, HEAD_AFTER_STYLE@ + with_body(html));
    assert(page == (head + BODY_BEFORE_HOME@) + HOME_URL@ + (BODY_BEFORE_CONTENT@ + html
        + after_content));
    lemma_occurs_between(head + BODY_BEFORE_HOME@, HOME_URL@, BODY_BEFORE_CONTENT@ + html
        + after_content);
    assert(page == (up_to_content + html + BODY_BEFORE_FOOTER@) + FOOTER_TEXT@
        + BODY_AFTER_FOOTER@);
    lemma_occurs_between(up_to_content + html + BODY_BEFORE_FOOTER@, FOOTER_TEXT@,
        BODY_AFTER_FOOTER@);
}

} // verus!
