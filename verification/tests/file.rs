use jottem::effect::Effect;
use jottem::file::create_file;
use jottem::file::create_parent_path;
use jottem::file::delete_file;
use jottem::file::move_file;
use jottem::file::prune_parent;
use jottem::file::rename_file;
use jottem::path::NotePath;

fn text(s: &str) -> String {
    s.to_string()
}

#[test]
fn test_create_file() {
    let path = NotePath::parse("test").expect("Failed to parse NotePath from str");
    let steps = create_file(&path, "/tmp/notes");
    assert_eq!(steps, vec![Effect::CreateFile { path: text("/tmp/notes/test.md") }]);
}

#[test]
fn test_create_parent_path() {
    let path = NotePath::parse("parent/test").expect("Failed to parse NotePath from str");
    let steps = create_parent_path(&path, "/tmp/notes");
    assert_eq!(steps, vec![Effect::CreateDirs { path: text("/tmp/notes/parent") }]);

    let path = NotePath::parse("test").expect("Failed to parse NotePath from str");
    assert!(create_parent_path(&path, "/tmp/notes").is_empty());
}

#[test]
fn test_delete_file_and_empty_dirs() {
    let path =
        NotePath::parse("deep/parent/path/test").expect("Failed tp parse NotePath from str");
    let steps = delete_file(&path, "/tmp/notes");
    assert_eq!(
        steps,
        vec![
            Effect::RemoveFile { path: text("/tmp/notes/deep/parent/path/test.md") },
            Effect::RemoveDirIfEmpty { path: text("/tmp/notes/deep/parent/path") },
        ]
    );

    // Nothing is left in `deep/parent/path`, so it goes; `deep/parent` still
    // holds the second file, so it stays, and `deep` is never looked at.
    assert_eq!(
        prune_parent(text("/tmp/notes/deep/parent/path"), 0),
        Some(Effect::RemoveDir { path: text("/tmp/notes/deep/parent/path") })
    );
    assert_eq!(prune_parent(text("/tmp/notes/deep/parent"), 1), None);

    let path2 = NotePath::parse("deep/parent/test2").expect("Failed to parse NotePath from str");
    let steps = delete_file(&path2, "/tmp/notes");
    assert_eq!(
        steps,
        vec![
            Effect::RemoveFile { path: text("/tmp/notes/deep/parent/test2.md") },
            Effect::RemoveDirIfEmpty { path: text("/tmp/notes/deep/parent") },
        ]
    );
}

#[test]
fn prune_parent_removes_an_empty_directory_only() {
    assert_eq!(
        prune_parent(text("/tmp/notes/deep/parent/path"), 0),
        Some(Effect::RemoveDir { path: text("/tmp/notes/deep/parent/path") })
    );
    assert_eq!(prune_parent(text("/tmp/notes/deep/parent"), 1), None);
    assert_eq!(prune_parent(text("/tmp/notes/deep"), 7), None);
}

#[test]
fn create_file_makes_the_directory_first() {
    let path = NotePath::parse("far/boo/faz").unwrap();
    assert_eq!(
        create_file(&path, "/r"),
        vec![
            Effect::CreateDirs { path: text("/r/far/boo") },
            Effect::CreateFile { path: text("/r/far/boo/faz.md") },
        ]
    );
}

#[test]
fn delete_file_without_parent_touches_no_directory() {
    let path = NotePath::parse("test").unwrap();
    assert_eq!(delete_file(&path, "/r"), vec![Effect::RemoveFile { path: text("/r/test.md") }]);
}

#[test]
fn rename_and_move_make_the_new_directory_and_leave_the_old() {
    let old = NotePath::parse("a/b").unwrap();
    let new = NotePath::parse("c/d/e").unwrap();
    let expected = vec![
        Effect::CreateDirs { path: text("/r/c/d") },
        Effect::Rename { from: text("/r/a/b.md"), to: text("/r/c/d/e.md") },
    ];
    assert_eq!(rename_file(&old, &new, "/r"), expected);
    assert_eq!(move_file(&old, &new, "/r"), expected);

    let top = NotePath::parse("top").unwrap();
    assert_eq!(
        move_file(&old, &top, "/r"),
        vec![Effect::Rename { from: text("/r/a/b.md"), to: text("/r/top.md") }]
    );
}
