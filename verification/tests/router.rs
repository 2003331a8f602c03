use notes_server::paths::content_path;
use notes_server::router::{create_link, index_page, parse_route, request_route};
use notes_server::templater::wrap_page;

#[test]
fn link_names_folder_and_identifier_as_segments() {
    assert_eq!(
        create_link("files/tst.md"),
        "<li><a href='http://127.0.0.1:8080/files/tst'>files/tst.md</a></li>"
    );
    assert_eq!(
        create_link("notes/sub/deep/b.md"),
        "<li><a href='http://127.0.0.1:8080/notes/sub/deep/b'>notes/sub/deep/b.md</a></li>"
    );
    assert_eq!(
        create_link("/home/tim/Documents/notes/a.md"),
        "<li><a href='http://127.0.0.1:8080//home/tim/Documents/notes/a'>/home/tim/Documents/notes/a.md</a></li>"
    );
}

#[test]
fn index_lists_a_link_to_each_file() {
    let files = vec!["files/a.md".to_string(), "files/sub/b.md".to_string()];
    let expected = "<h1>Index</h1>\n<ul>\n<li><a href='http://127.0.0.1:8080/files/a'>files/a.md</a></li>\n<li><a href='http://127.0.0.1:8080/files/sub/b'>files/sub/b.md</a></li>\n</ul>";
    assert_eq!(index_page(&files), wrap_page(expected.to_string()));
}

#[test]
fn index_of_one_file_and_of_none() {
    let one = vec!["files/a.md".to_string()];
    assert_eq!(
        index_page(&one),
        wrap_page(
            "<h1>Index</h1>\n<ul>\n<li><a href='http://127.0.0.1:8080/files/a'>files/a.md</a></li>\n</ul>"
                .to_string()
        )
    );
    assert_eq!(index_page(&Vec::new()), wrap_page("<h1>Index</h1>\n<ul>\n\n</ul>".to_string()));
}

#[test]
fn route_names_folder_and_identifier() {
    assert_eq!(parse_route("/files/tst"), Some(("files".to_string(), "tst".to_string())));
    assert_eq!(parse_route("/sub/b"), Some(("sub".to_string(), "b".to_string())));
    assert_eq!(
        parse_route("/notes/sub/deep/b"),
        Some(("notes/sub/deep".to_string(), "b".to_string()))
    );
    assert_eq!(
        parse_route("//home/tim/notes/a"),
        Some(("/home/tim/notes".to_string(), "a".to_string()))
    );
}

#[test]
fn route_with_a_missing_segment_names_nothing() {
    assert_eq!(parse_route(""), None);
    assert_eq!(parse_route("/"), None);
    assert_eq!(parse_route("/tst"), None);
    assert_eq!(parse_route("/files/"), None);
    assert_eq!(parse_route("//tst"), None);
    assert_eq!(parse_route("//"), None);
    assert_eq!(parse_route("files/tst"), None);
    assert_eq!(parse_route("x/files/tst"), None);
}

#[test]
fn link_leads_to_the_route_of_its_file() {
    let notes = [("files", "tst"), ("notes/sub", "b"), ("/abs/dir", "note one")];
    for (folder, id) in notes {
        let path = content_path(folder, id);
        let link = create_link(&path);
        let route = format!("/{}/{}", folder, id);
        assert!(link.contains(&format!("href='http://127.0.0.1:8080{}'", route)));
        assert_eq!(parse_route(&route), Some((folder.to_string(), id.to_string())));
    }
}

#[test]
fn request_path_is_decoded_before_it_is_taken_apart() {
    assert_eq!(
        request_route("/files/my%20note"),
        Some(("files".to_string(), "my note".to_string()))
    );
    assert_eq!(
        request_route("/notes%2Fsub/b"),
        Some(("notes/sub".to_string(), "b".to_string()))
    );
    assert_eq!(
        request_route("/files/Gr%C3%B6%C3%9Fe"),
        Some(("files".to_string(), "Größe".to_string()))
    );
    assert_eq!(request_route("/files/100%"), Some(("files".to_string(), "100%".to_string())));
    assert_eq!(request_route("/files/%zz"), Some(("files".to_string(), "%zz".to_string())));
    assert_eq!(request_route("%2Ffiles%2Ftst"), Some(("files".to_string(), "tst".to_string())));
}

#[test]
fn request_path_without_escapes_is_taken_as_it_is() {
    for path in ["/files/tst", "/notes/sub/deep/b", "//abs/a", "/tst", "", "/files/", "files/tst"] {
        assert_eq!(request_route(path), parse_route(path));
    }
}

#[test]
fn request_path_with_a_missing_segment_names_nothing() {
    assert_eq!(request_route("/my%20note"), None);
    assert_eq!(request_route("/files%2F"), None);
    assert_eq!(request_route("/%2Ftst"), None);
}
