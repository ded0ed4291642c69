use jottem::effect::Effect;
use jottem::error::Error;
use jottem::index::Index;
use jottem::note::Note;
use jottem::path::NotePath;
use jottem::utils::build_table;
use jottem::utils::create_note;
use jottem::utils::get_note;
use jottem::utils::hash_note;
use jottem::utils::open_note;
use jottem::utils::options;
use jottem::utils::Lookup;
use jottem::utils::Prompt;
use jottem::utils::Reply;

fn words(items: &[&str]) -> Vec<String> {
    items.iter().map(|s| s.to_string()).collect()
}

fn index_of(entries: &[&str]) -> Index {
    let mut index = Index::new();
    for path in entries {
        let path = NotePath::parse(path).unwrap();
        let note = Note::stamped(&path, "/root", &[], "2024-01-02 03:04:05".to_string());
        index.insert(&note).unwrap();
    }
    index
}

fn all_paths(index: &Index) -> Vec<String> {
    index.get_all().unwrap().iter().map(|n| n.relative_path.clone()).collect()
}

#[test]
fn test_create_note() {
    let tests = ["foo", "bar/baz", "far/boo/faz"];
    let mut index = Index::new();

    for test in tests {
        let input = test;
        let abs_path = format!("/tmp/notes/{input}.md");

        let creation =
            jottem::edit_note(&mut index, "/tmp/notes", Some(input), Reply::Confirmed(true));
        assert!(creation.is_ok());

        match creation.unwrap() {
            Lookup::Found { note, effects } => {
                assert_eq!(note.absolute_path, abs_path);
                assert!(effects.contains(&Effect::CreateFile { path: abs_path }));
            }
            other => panic!("{:?}", other),
        }
    }
    assert_eq!(all_paths(&index), words(&tests));
}

#[test]
fn create_note_plans_the_file_before_the_write() {
    let mut index = Index::new();
    let path = NotePath::parse("bar/baz").unwrap();
    let (note, steps) = create_note(&mut index, "/r", &path, &words(&["t", "t", "u"])).unwrap();
    assert_eq!(note.title, "baz");
    assert_eq!(note.tags, words(&["t", "u"]));
    let (id, bytes) = note.serialize().unwrap();
    assert_eq!(
        steps,
        vec![
            Effect::CreateDirs { path: "/r/bar".to_string() },
            Effect::CreateFile { path: "/r/bar/baz.md".to_string() },
            Effect::Put { id, record: bytes },
        ]
    );
    assert_eq!(index.get(id).unwrap().unwrap().relative_path, "bar/baz");
}

#[test]
fn get_note_refuses_an_empty_path() {
    let mut index = index_of(&["foo"]);
    assert_eq!(
        get_note(&mut index, "/root", "//", true, Reply::Nothing).unwrap_err(),
        Error::EmptyPath
    );
}

#[test]
fn get_note_without_a_match_reports_not_found() {
    let mut index = index_of(&["bar", "a/baz"]);
    for reply in [Reply::Nothing, Reply::Confirmed(true), Reply::Selected(0), Reply::Cancelled] {
        let found = get_note(&mut index, "/root", "foo", false, reply).unwrap();
        assert!(matches!(found, Lookup::NotFound));
    }
    assert_eq!(all_paths(&index), words(&["bar", "a/baz"]));
}

#[test]
fn get_note_with_one_match_asks_nothing() {
    let mut index = index_of(&["bar", "a/foo"]);
    for reply in [Reply::Nothing, Reply::Confirmed(false), Reply::Selected(5), Reply::Cancelled] {
        match get_note(&mut index, "/root", "foo", true, reply).unwrap() {
            Lookup::Found { note, effects } => {
                assert_eq!(note.relative_path, "a/foo");
                assert!(effects.is_empty());
            }
            other => panic!("{:?}", other),
        }
    }
    assert_eq!(all_paths(&index), words(&["bar", "a/foo"]));
}

#[test]
fn get_note_with_several_matches_asks_which() {
    let mut index = index_of(&["foo", "x", "a/foo", "b/foo"]);
    for reply in [Reply::Nothing, Reply::Confirmed(true), Reply::Selected(3)] {
        match get_note(&mut index, "/root", "foo", true, reply).unwrap() {
            Lookup::Ask(prompt) => {
                assert_eq!(prompt, Prompt::Select { options: words(&["foo", "a/foo", "b/foo"]) });
            }
            other => panic!("{:?}", other),
        }
    }
    match get_note(&mut index, "/root", "foo", false, Reply::Selected(2)).unwrap() {
        Lookup::Found { note, effects } => {
            assert_eq!(note.relative_path, "b/foo");
            assert!(effects.is_empty());
        }
        other => panic!("{:?}", other),
    }
    let cancelled = get_note(&mut index, "/root", "foo", false, Reply::Cancelled).unwrap();
    assert!(matches!(cancelled, Lookup::Cancelled));
    assert_eq!(all_paths(&index), words(&["foo", "x", "a/foo", "b/foo"]));
}

#[test]
fn get_note_with_a_directory_names_one_path() {
    let mut index = index_of(&["foo", "a/foo", "b/foo"]);
    match get_note(&mut index, "/root", "/b/foo/", false, Reply::Nothing).unwrap() {
        Lookup::Found { note, .. } => assert_eq!(note.relative_path, "b/foo"),
        other => panic!("{:?}", other),
    }
    let missing = get_note(&mut index, "/root", "c/foo", false, Reply::Nothing).unwrap();
    assert!(matches!(missing, Lookup::NotFound));
}

#[test]
fn get_note_creates_only_when_the_user_agrees() {
    let mut index = index_of(&["bar"]);
    let asked = get_note(&mut index, "/root", "new/note", true, Reply::Nothing).unwrap();
    assert!(matches!(asked, Lookup::Ask(Prompt::Confirm)));
    let refused = get_note(&mut index, "/root", "new/note", true, Reply::Confirmed(false)).unwrap();
    assert!(matches!(refused, Lookup::NotFound));
    let cancelled = get_note(&mut index, "/root", "new/note", true, Reply::Cancelled).unwrap();
    assert!(matches!(cancelled, Lookup::Cancelled));
    assert_eq!(all_paths(&index), words(&["bar"]));

    match get_note(&mut index, "/root", "new/note", true, Reply::Confirmed(true)).unwrap() {
        Lookup::Found { note, effects } => {
            assert_eq!(note.relative_path, "new/note");
            assert_eq!(note.absolute_path, "/root/new/note.md");
            assert!(note.tags.is_empty());
            let (id, bytes) = note.serialize().unwrap();
            assert_eq!(
                effects,
                vec![
                    Effect::CreateDirs { path: "/root/new".to_string() },
                    Effect::CreateFile { path: "/root/new/note.md".to_string() },
                    Effect::Put { id, record: bytes },
                ]
            );
        }
        other => panic!("{:?}", other),
    }
    assert_eq!(all_paths(&index), words(&["bar", "new/note"]));
}

#[test]
fn options_are_the_relative_paths_in_order() {
    let index = index_of(&["z", "a/b", "m"]);
    assert_eq!(options(&index.get_all().unwrap()), words(&["z", "a/b", "m"]));
    assert!(options(&Vec::new()).is_empty());
}

#[test]
fn a_change_of_content_is_a_change_of_hash() {
    assert_eq!(hash_note("same"), hash_note("same"));
    assert_ne!(hash_note("same"), hash_note("same "));
    assert_eq!(hash_note("text"), jottem::hashing::hash_text("text"));
    assert!(!open_note("before", "before"));
    assert!(open_note("before", "after"));
    assert!(open_note("", "x"));
}

#[test]
fn build_table_has_a_row_for_each_note() {
    let mut notes = index_of(&["a", "b/c"]).get_all().unwrap();
    notes[1].modified = "2025-05-05 05:05:05".to_string();
    assert_eq!(
        build_table(&notes),
        vec![
            ("a".to_string(), "2024-01-02 03:04:05".to_string()),
            ("b/c".to_string(), "2025-05-05 05:05:05".to_string()),
        ]
    );
    assert!(build_table(&Vec::new()).is_empty());
}
