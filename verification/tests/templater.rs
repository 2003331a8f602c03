use notes_server::templater::{
    add_body_to_html, add_html_header, wrap_page, FOOTER_TEXT, HOME_URL, STYLE_URL,
};

fn expected_header(html: &str) -> String {
    let style = "http://127.0.0.1:8080/static/style.css";
    format!(
        r#"
<head>
  <link href="https://fonts.googleapis.com/css2?family=Nunito&display=swap" rel="stylesheet">
  <link rel="stylesheet" href="https://unpkg.com/purecss@2.0.3/build/pure-min.css">
  <link rel='stylesheet' href='{}'>
  <link rel="stylesheet" href="//cdnjs.cloudflare.com/ajax/libs/highlight.js/10.1.2/styles/github.min.css">
  <script src="//cdnjs.cloudflare.com/ajax/libs/highlight.js/10.1.2/highlight.min.js"></script>
  <script>hljs.initHighlightingOnLoad();</script>
</head>
{}"#,
        style, html
    )
}

fn expected_body(html: &str) -> String {
    format!(
        "\n<body>\n  <div class=\"pure-g\">\n    <div class=\"pure-menu pure-menu-horizontal\">\n      <a href=\"http://127.0.0.1:8080/\" \n        class=\"pure-menu-heading pure-menu-link\">Home</a>\n    </div>\n    <div class=\"container pure-u-2-3\">\n      {}\n    </div>\n  </div>\n  <footer>Tim de Klijn, 2020</footer>\n</body>",
        html
    )
}

#[test]
fn header_is_put_before_the_html() {
    assert_eq!(add_html_header("<p>x</p>".to_string()), expected_header("<p>x</p>"));
    assert_eq!(add_html_header(String::new()), expected_header(""));
}

#[test]
fn body_is_put_around_the_html() {
    assert_eq!(add_body_to_html("<p>x</p>".to_string()), expected_body("<p>x</p>"));
    assert_eq!(add_body_to_html(String::new()), expected_body(""));
}

#[test]
fn page_is_the_header_before_the_body() {
    let page = wrap_page("<h1>Hi</h1>".to_string());
    assert_eq!(page, expected_header(&expected_body("<h1>Hi</h1>")));
}

#[test]
fn page_holds_content_and_chrome() {
    let page = wrap_page("<p>some content</p>".to_string());
    assert!(page.contains("<p>some content</p>"));
    assert!(page.contains("<link rel='stylesheet' href='http://127.0.0.1:8080/static/style.css'>"));
    assert!(page.contains("<a href=\"http://127.0.0.1:8080/\""));
    assert!(page.contains("<footer>Tim de Klijn, 2020</footer>"));
    assert!(page.contains(STYLE_URL));
    assert!(page.contains(HOME_URL));
    assert!(page.contains(FOOTER_TEXT));
}

#[test]
fn same_html_gives_the_same_page() {
    assert_eq!(wrap_page("<p>x</p>".to_string()), wrap_page("<p>x</p>".to_string()));
    assert_ne!(wrap_page("<p>x</p>".to_string()), wrap_page("<p>y</p>".to_string()));
}
