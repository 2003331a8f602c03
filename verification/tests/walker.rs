use notes_server::walker::{DirEntry, Walk, WalkEvent};

fn file(path: &str) -> DirEntry {
    DirEntry { path: path.to_string(), is_dir: false }
}

fn dir(path: &str) -> DirEntry {
    DirEntry { path: path.to_string(), is_dir: true }
}

/// A small tree: three Markdown files at three depths among other files.
fn notes_tree(path: &str) -> Option<Vec<DirEntry>> {
    match path {
        "notes" => Some(vec![
            file("notes/a.md"),
            file("notes/picture.png"),
            dir("notes/sub"),
            file("notes/z.md"),
            dir("notes/empty"),
            file("notes/README"),
        ]),
        "notes/sub" => Some(vec![
            file("notes/sub/.md"),
            dir("notes/sub/deep"),
            file("notes/sub/b.md"),
            file("notes/sub/b.md.bak"),
        ]),
        "notes/sub/deep" => Some(vec![file("notes/sub/deep/c.md"), file("notes/sub/deep/c.MD")]),
        "notes/empty" => Some(Vec::new()),
        _ => None,
    }
}

/// The same tree with a directory that cannot be read.
fn broken_tree(path: &str) -> Option<Vec<DirEntry>> {
    match path {
        "notes/sub/deep" => None,
        _ => notes_tree(path),
    }
}

/// Drives a walk to its end and says which directories it wanted listed.
fn drive(root: &str, list: fn(&str) -> Option<Vec<DirEntry>>) -> (Walk, Vec<String>) {
    let mut wanted: Vec<String> = Vec::new();
    let mut walk = Walk::start(root);
    loop {
        let event = match &walk {
            Walk::Reading { dir, .. } => {
                wanted.push(dir.clone());
                match list(dir) {
                    Some(entries) => WalkEvent::Listing(entries),
                    None => WalkEvent::ReadFailed,
                }
            }
            _ => return (walk, wanted),
        };
        walk = walk.step(event);
    }
}

#[test]
fn walk_starts_by_wanting_the_root() {
    match Walk::start("notes") {
        Walk::Reading { dir, stack, found } => {
            assert_eq!(dir, "notes");
            assert!(stack.is_empty());
            assert!(found.is_empty());
        }
        other => panic!("a walk starts reading, not as {:?}", other),
    }
}

#[test]
fn walk_finds_the_markdown_files_at_every_depth() {
    let (walk, _) = drive("notes", notes_tree);
    match walk {
        Walk::Done { found } => {
            assert_eq!(
                found,
                vec![
                    "notes/a.md".to_string(),
                    "notes/sub/deep/c.md".to_string(),
                    "notes/sub/b.md".to_string(),
                    "notes/z.md".to_string(),
                ]
            );
        }
        other => panic!("the walk should be done, not {:?}", other),
    }
}

#[test]
fn walk_finds_as_many_paths_as_there_are_markdown_files() {
    let (walk, _) = drive("notes", notes_tree);
    match walk {
        Walk::Done { found } => {
            assert_eq!(found.len(), 4);
            for other in [
                "notes/picture.png",
                "notes/README",
                "notes/sub/.md",
                "notes/sub/b.md.bak",
                "notes/sub/deep/c.MD",
                "notes/sub",
                "notes/empty",
            ] {
                assert!(!found.contains(&other.to_string()));
            }
        }
        other => panic!("the walk should be done, not {:?}", other),
    }
}

#[test]
fn walk_goes_depth_first() {
    let (_, wanted) = drive("notes", notes_tree);
    assert_eq!(wanted, vec!["notes", "notes/sub", "notes/sub/deep", "notes/empty"]);
}

#[test]
fn walk_is_the_same_each_time() {
    let (first, wanted_first) = drive("notes", notes_tree);
    let (second, wanted_second) = drive("notes", notes_tree);
    assert_eq!(format!("{:?}", first), format!("{:?}", second));
    assert_eq!(wanted_first, wanted_second);
}

#[test]
fn walk_over_an_empty_directory_finds_nothing() {
    let (walk, wanted) = drive("notes/empty", notes_tree);
    match walk {
        Walk::Done { found } => assert!(found.is_empty()),
        other => panic!("the walk should be done, not {:?}", other),
    }
    assert_eq!(wanted, vec!["notes/empty"]);
}

#[test]
fn walk_fails_when_the_root_cannot_be_read() {
    let (walk, _) = drive("nowhere", notes_tree);
    match walk {
        Walk::Failed { dir } => assert_eq!(dir, "nowhere"),
        other => panic!("the walk should have failed, not {:?}", other),
    }
}

#[test]
fn walk_fails_when_a_nested_directory_cannot_be_read() {
    let (walk, wanted) = drive("notes", broken_tree);
    match walk {
        Walk::Failed { dir } => assert_eq!(dir, "notes/sub/deep"),
        other => panic!("the walk should have failed, not {:?}", other),
    }
    assert_eq!(wanted, vec!["notes", "notes/sub", "notes/sub/deep"]);
}

#[test]
fn step_looks_at_files_up_to_the_first_directory() {
    let walk = Walk::start("notes").step(WalkEvent::Listing(vec![
        file("notes/a.md"),
        file("notes/b.txt"),
        dir("notes/sub"),
        file("notes/c.md"),
    ]));
    match walk {
        Walk::Reading { dir, stack, found } => {
            assert_eq!(dir, "notes/sub");
            assert_eq!(found, vec!["notes/a.md".to_string()]);
            assert_eq!(stack.len(), 1);
            assert_eq!(stack[0].path, "notes/c.md");
            assert!(!stack[0].is_dir);
        }
        other => panic!("the walk should want notes/sub, not {:?}", other),
    }
}

#[test]
fn step_puts_a_listing_before_what_was_left() {
    let walk = Walk::Reading {
        dir: "notes/sub".to_string(),
        stack: vec![file("notes/z.md"), dir("notes/later")],
        found: vec!["notes/a.md".to_string()],
    };
    let next = walk.step(WalkEvent::Listing(vec![file("notes/sub/b.md")]));
    match next {
        Walk::Reading { dir, stack, found } => {
            assert_eq!(dir, "notes/later");
            assert_eq!(found, vec!["notes/a.md".to_string(), "notes/sub/b.md".to_string()]);
            assert_eq!(stack.len(), 1);
            assert_eq!(stack[0].path, "notes/z.md");
        }
        other => panic!("the walk should want notes/later, not {:?}", other),
    }
}

#[test]
fn step_on_a_failed_read_gives_up_what_was_found() {
    let walk = Walk::Reading {
        dir: "notes/sub".to_string(),
        stack: vec![file("notes/z.md")],
        found: vec!["notes/a.md".to_string()],
    };
    match walk.step(WalkEvent::ReadFailed) {
        Walk::Failed { dir } => assert_eq!(dir, "notes/sub"),
        other => panic!("the walk should have failed, not {:?}", other),
    }
}

#[test]
fn finished_walk_stays_as_it_is() {
    let done = Walk::Done { found: vec!["notes/a.md".to_string()] };
    match done.step(WalkEvent::Listing(vec![file("notes/b.md")])) {
        Walk::Done { found } => assert_eq!(found, vec!["notes/a.md".to_string()]),
        other => panic!("the walk should stay done, not {:?}", other),
    }
    let done = Walk::Done { found: Vec::new() };
    assert!(matches!(done.step(WalkEvent::ReadFailed), Walk::Done { .. }));
    let failed = Walk::Failed { dir: "notes".to_string() };
    match failed.step(WalkEvent::Listing(vec![file("notes/b.md")])) {
        Walk::Failed { dir } => assert_eq!(dir, "notes"),
        other => panic!("the walk should stay failed, not {:?}", other),
    }
}
