use notes_server::loader::{create_content_list, path_to_id, Content};
use notes_server::paths::{content_path, is_markdown_file, parent_folder};
use std::path::PathBuf;

#[test]
fn test_create_content() {
    let folder_name = "files";
    let p: PathBuf = [folder_name, "tst.md"].iter().collect();
    let result = Content::new(p.to_str().unwrap(), folder_name.to_string());

    let expected = Content {
        parent: "files".to_string(),
        id: "tst".to_string(),
        path: "files/tst.md".to_string(),
    };

    assert_eq!(result, expected);
}

#[test]
fn identifier_of_notes_md_is_notes() {
    assert_eq!(path_to_id("notes.md"), "notes");
    assert_eq!(path_to_id("files/notes.md"), "notes");
    assert_eq!(path_to_id("/home/tim/Documents/notes/sub/notes.md"), "notes");
}

#[test]
fn identifier_loses_the_suffix_and_nothing_else() {
    assert_eq!(path_to_id("files/a.md.md"), "a.md");
    assert_eq!(path_to_id("files/a.mdx.md"), "a.mdx");
    assert_eq!(path_to_id("files/my notes.md"), "my notes");
    assert_eq!(path_to_id("files/Größe.md"), "Größe");
}

#[test]
fn identifier_of_other_names_is_the_name() {
    assert_eq!(path_to_id("files/readme.txt"), "readme.txt");
    assert_eq!(path_to_id("files/a.mdx"), "a.mdx");
    assert_eq!(path_to_id("files/md"), "md");
    assert_eq!(path_to_id("files/notes.MD"), "notes.MD");
    assert_eq!(path_to_id("notes.md/readme"), "readme");
}

#[test]
fn identifier_at_the_edges() {
    assert_eq!(path_to_id(""), "");
    assert_eq!(path_to_id("files/"), "");
    assert_eq!(path_to_id(".md"), "");
    assert_eq!(path_to_id("files/.md"), "");
    assert_eq!(path_to_id("/"), "");
}

#[test]
fn parent_folder_is_what_stands_before_the_last_slash() {
    assert_eq!(parent_folder("files/tst.md"), "files");
    assert_eq!(parent_folder("/home/tim/notes/sub/b.md"), "/home/tim/notes/sub");
    assert_eq!(parent_folder("tst.md"), "");
    assert_eq!(parent_folder("/tst.md"), "");
    assert_eq!(parent_folder("files/"), "files");
    assert_eq!(parent_folder(""), "");
}

#[test]
fn content_path_joins_folder_identifier_and_suffix() {
    assert_eq!(content_path("files", "tst"), "files/tst.md");
    assert_eq!(content_path("/home/tim/notes/sub", "b"), "/home/tim/notes/sub/b.md");
    assert_eq!(content_path("", ""), "/.md");
}

#[test]
fn content_path_and_identifier_agree() {
    for (folder, id) in [("files", "tst"), ("a/b/c", "note one"), ("", "x"), ("files", "")] {
        let path = content_path(folder, id);
        assert_eq!(path_to_id(&path), id);
        assert_eq!(parent_folder(&path), folder);
    }
}

#[test]
fn markdown_files_are_told_by_their_names() {
    assert!(is_markdown_file("files/tst.md"));
    assert!(is_markdown_file("a.md"));
    assert!(is_markdown_file("files/a.b.md"));
    assert!(is_markdown_file("files/..md"));
    assert!(!is_markdown_file("files/.md"));
    assert!(!is_markdown_file(".md"));
    assert!(!is_markdown_file("files/tst.txt"));
    assert!(!is_markdown_file("files/tst"));
    assert!(!is_markdown_file("files/tst.MD"));
    assert!(!is_markdown_file("files/tst.mdx"));
    assert!(!is_markdown_file("files.md/tst"));
    assert!(!is_markdown_file(""));
}

#[test]
fn content_list_describes_each_file_in_order() {
    let folder = "files".to_string();
    let files = vec![
        "files/tst.md".to_string(),
        "files/other.md".to_string(),
        "files/plain.txt".to_string(),
    ];
    let list = create_content_list(&folder, &files);
    let expected = vec![
        Content {
            parent: "files".to_string(),
            id: "tst".to_string(),
            path: "files/tst.md".to_string(),
        },
        Content {
            parent: "files".to_string(),
            id: "other".to_string(),
            path: "files/other.md".to_string(),
        },
        Content {
            parent: "files".to_string(),
            id: "plain.txt".to_string(),
            path: "files/plain.txt".to_string(),
        },
    ];
    assert_eq!(list, expected);
}

#[test]
fn content_list_of_an_empty_folder_is_empty() {
    let list = create_content_list(&"files".to_string(), &Vec::new());
    assert!(list.is_empty());
}

#[test]
fn contents_differ_when_a_field_differs() {
    let a = Content::new("files/tst.md", "files".to_string());
    assert_ne!(a, Content::new("files/tst.md", "other".to_string()));
    assert_ne!(a, Content::new("files/tsu.md", "files".to_string()));
    assert_ne!(
        a,
        Content { parent: "files".to_string(), id: "tst".to_string(), path: "files/tst".to_string() }
    );
}
