use jottem::cli::SearchArgs;
use jottem::cli::TagCommand;
use jottem::effect::Effect;
use jottem::error::Error;
use jottem::index::Index;
use jottem::note::Note;
use jottem::path::NotePath;
use jottem::utils::Lookup;
use jottem::utils::Outcome;
use jottem::utils::Prompt;
use jottem::utils::Reply;

fn list(items: &[&str]) -> Vec<String> {
    items.iter().map(|s| s.to_string()).collect()
}

fn made(path: &str, tags: &[&str]) -> Note {
    let path = NotePath::parse(path).unwrap();
    Note::stamped(&path, "/root", &list(tags), "2024-01-02 03:04:05".to_string())
}

fn holding(entries: &[(&str, &[&str])]) -> Index {
    let mut index = Index::new();
    for (path, tags) in entries {
        index.insert(&made(path, tags)).unwrap();
    }
    index
}

fn listing(index: &Index) -> Vec<String> {
    index.get_all().unwrap().iter().map(|n| n.relative_path.clone()).collect()
}

fn done(outcome: Outcome) -> Vec<Effect> {
    match outcome {
        Outcome::Done(effects) => effects,
        other => panic!("{:?}", other),
    }
}

#[test]
fn delete_note_removes_the_file_then_the_record() {
    let mut index = holding(&[("deep/parent/path/test", &[]), ("deep/parent/test2", &[])]);
    let id = made("deep/parent/path/test", &[]).id();
    let steps = done(
        jottem::delete_note(&mut index, "/root", "deep/parent/path/test", Reply::Nothing).unwrap(),
    );
    assert_eq!(
        steps,
        vec![
            Effect::RemoveFile { path: "/root/deep/parent/path/test.md".to_string() },
            Effect::RemoveDirIfEmpty { path: "/root/deep/parent/path".to_string() },
            Effect::Delete { id },
        ]
    );
    assert_eq!(listing(&index), list(&["deep/parent/test2"]));
}

#[test]
fn delete_note_never_creates() {
    let mut index = holding(&[("a", &[])]);
    for reply in [Reply::Nothing, Reply::Confirmed(true)] {
        let outcome = jottem::delete_note(&mut index, "/root", "b", reply).unwrap();
        assert!(matches!(outcome, Outcome::NotFound));
    }
    assert_eq!(
        jottem::delete_note(&mut index, "/root", "", Reply::Nothing).unwrap_err(),
        Error::EmptyPath
    );
    assert_eq!(listing(&index), list(&["a"]));
}

#[test]
fn delete_note_asks_among_several() {
    let mut index = holding(&[("x/n", &[]), ("y/n", &[])]);
    match jottem::delete_note(&mut index, "/root", "n", Reply::Nothing).unwrap() {
        Outcome::Ask(prompt) => assert_eq!(prompt, Prompt::Select { options: list(&["x/n", "y/n"]) }),
        other => panic!("{:?}", other),
    }
    let cancelled = jottem::delete_note(&mut index, "/root", "n", Reply::Cancelled).unwrap();
    assert!(matches!(cancelled, Outcome::Cancelled));
    assert_eq!(listing(&index), list(&["x/n", "y/n"]));
    done(jottem::delete_note(&mut index, "/root", "n", Reply::Selected(0)).unwrap());
    assert_eq!(listing(&index), list(&["y/n"]));
}

#[test]
fn rename_note_keeps_the_parent_and_changes_title_and_identity() {
    let mut index = holding(&[("a/b", &["t"]), ("other", &[])]);
    let old_id = made("a/b", &[]).id();
    let mut expected = made("a/c", &["t"]);
    expected.created = "2024-01-02 03:04:05".to_string();
    let (new_id, bytes) = expected.serialize().unwrap();
    assert_ne!(old_id, new_id);

    let steps = done(jottem::rename_note(&mut index, "/root", "a/b", "c", Reply::Nothing).unwrap());
    assert_eq!(
        steps,
        vec![
            Effect::Put { id: new_id, record: bytes },
            Effect::Delete { id: old_id },
            Effect::CreateDirs { path: "/root/a".to_string() },
            Effect::Rename { from: "/root/a/b.md".to_string(), to: "/root/a/c.md".to_string() },
        ]
    );
    assert!(index.get(old_id).unwrap().is_none());
    let renamed = index.get(new_id).unwrap().unwrap();
    assert_eq!(renamed.relative_path, "a/c");
    assert_eq!(renamed.absolute_path, "/root/a/c.md");
    assert_eq!(renamed.title, "c");
    assert_eq!(renamed.tags, list(&["t"]));
    assert_eq!(listing(&index), list(&["other", "a/c"]));
}

#[test]
fn rename_note_drops_the_slashes_of_the_title() {
    let mut index = holding(&[("a/b", &[]), ("top", &[])]);
    done(jottem::rename_note(&mut index, "/root", "a/b", "x/y", Reply::Nothing).unwrap());
    done(jottem::rename_note(&mut index, "/root", "top", "/new/", Reply::Nothing).unwrap());
    assert_eq!(listing(&index), list(&["a/xy", "new"]));
    assert_eq!(
        jottem::rename_note(&mut index, "/root", "new", "//", Reply::Nothing).unwrap_err(),
        Error::EmptyPath
    );
    assert_eq!(listing(&index), list(&["a/xy", "new"]));
}

#[test]
fn move_note_takes_the_new_path_as_it_is() {
    let mut index = holding(&[("a/b", &[])]);
    let old_id = made("a/b", &[]).id();
    let (new_id, bytes) = made("c/d/e", &[]).serialize().unwrap();
    let steps =
        done(jottem::move_note(&mut index, "/root", "a/b", "c/d/e", false, Reply::Nothing).unwrap());
    assert_eq!(
        steps,
        vec![
            Effect::Put { id: new_id, record: bytes },
            Effect::Delete { id: old_id },
            Effect::CreateDirs { path: "/root/c/d".to_string() },
            Effect::Rename { from: "/root/a/b.md".to_string(), to: "/root/c/d/e.md".to_string() },
        ]
    );
    assert_eq!(listing(&index), list(&["c/d/e"]));
    assert_eq!(index.get(new_id).unwrap().unwrap().title, "e");
}

#[test]
fn move_note_with_rename_renames_in_place() {
    let mut index = holding(&[("a/b", &[])]);
    done(jottem::move_note(&mut index, "/root", "a/b", "c/d", true, Reply::Nothing).unwrap());
    assert_eq!(listing(&index), list(&["a/cd"]));
    let missing = jottem::move_note(&mut index, "/root", "zz", "c", false, Reply::Nothing).unwrap();
    assert!(matches!(missing, Outcome::NotFound));
    assert_eq!(
        jottem::move_note(&mut index, "/root", "a/cd", "/", false, Reply::Nothing).unwrap_err(),
        Error::EmptyPath
    );
    assert_eq!(listing(&index), list(&["a/cd"]));
}

#[test]
fn moving_a_note_onto_itself_keeps_its_record() {
    let mut index = holding(&[("a/b", &["t"]), ("c", &[])]);
    let (id, bytes) = made("a/b", &["t"]).serialize().unwrap();
    let steps =
        done(jottem::move_note(&mut index, "/root", "a/b", "/a/b/", false, Reply::Nothing).unwrap());
    assert_eq!(
        steps,
        vec![
            Effect::Put { id, record: bytes },
            Effect::CreateDirs { path: "/root/a".to_string() },
            Effect::Rename { from: "/root/a/b.md".to_string(), to: "/root/a/b.md".to_string() },
        ]
    );
    assert_eq!(listing(&index), list(&["a/b", "c"]));
    assert_eq!(index.get(id).unwrap().unwrap().tags, list(&["t"]));
}

#[test]
fn renaming_a_note_to_its_own_title_keeps_its_record() {
    let mut index = Index::new();
    let path = NotePath::parse("a/b").unwrap();
    jottem::utils::create_note(&mut index, "/root", &path, &[]).unwrap();
    let steps = done(jottem::rename_note(&mut index, "/root", "a/b", "b", Reply::Nothing).unwrap());
    assert!(!steps.iter().any(|step| matches!(step, Effect::Delete { .. })));
    let found = index.find_by_path(&NotePath::parse("a/b").unwrap()).unwrap();
    assert_eq!(found.len(), 1);
    assert_eq!(found[0].title, "b");
}

#[test]
fn renaming_to_a_title_of_slashes_is_refused() {
    let mut index = holding(&[("a/b", &[]), ("top", &[])]);
    for title in ["", "/", "//"] {
        assert_eq!(
            jottem::rename_note(&mut index, "/root", "a/b", title, Reply::Nothing).unwrap_err(),
            Error::EmptyPath
        );
        assert_eq!(
            jottem::move_note(&mut index, "/root", "top", title, true, Reply::Nothing).unwrap_err(),
            Error::EmptyPath
        );
    }
    let note = made("a/b", &[]);
    assert_eq!(
        jottem::retitle_note(&mut index, "/root", &note, "///").unwrap_err(),
        Error::EmptyPath
    );
    assert_eq!(listing(&index), list(&["a/b", "top"]));
}

#[test]
fn core_operations_work_on_a_found_note() {
    let mut index = holding(&[("a/b", &[]), ("c", &[])]);
    let note = made("a/b", &[]);
    let (moved, _) = jottem::relocate_note(&mut index, "/root", &note, "x").unwrap();
    assert_eq!(moved.relative_path, "x");
    let (renamed, _) = jottem::retitle_note(&mut index, "/root", &moved, "y").unwrap();
    assert_eq!(renamed.relative_path, "y");
    assert_eq!(listing(&index), list(&["c", "y"]));
    let steps = jottem::remove_note(&mut index, "/root", &renamed).unwrap();
    assert_eq!(
        steps,
        vec![Effect::RemoveFile { path: "/root/y.md".to_string() }, Effect::Delete { id: renamed.id() }]
    );
    assert_eq!(listing(&index), list(&["c"]));
}

#[test]
fn tags_are_added_to_the_found_note() {
    let mut index = holding(&[("a", &["x"])]);
    let steps =
        done(jottem::tags::add_tags(&mut index, "/root", "a", &list(&["y"]), Reply::Nothing).unwrap());
    let (id, bytes) = made("a", &["x", "y"]).serialize().unwrap();
    assert_eq!(steps, vec![Effect::Put { id, record: bytes }]);
    assert_eq!(index.get(id).unwrap().unwrap().tags, list(&["x", "y"]));
}

#[test]
fn adding_tags_may_create_the_note() {
    let mut index = Index::new();
    let asked =
        jottem::tags::add_tags(&mut index, "/root", "n", &list(&["t"]), Reply::Nothing).unwrap();
    assert!(matches!(asked, Outcome::Ask(Prompt::Confirm)));
    assert!(listing(&index).is_empty());
    let steps = done(
        jottem::tags::add_tags(&mut index, "/root", "n", &list(&["t"]), Reply::Confirmed(true))
            .unwrap(),
    );
    assert_eq!(steps.len(), 3);
    assert_eq!(steps[0], Effect::CreateFile { path: "/root/n.md".to_string() });
    assert!(matches!(steps[1], Effect::Put { .. }));
    assert!(matches!(steps[2], Effect::Put { .. }));
    let all = index.get_all().unwrap();
    assert_eq!(all.len(), 1);
    assert_eq!(all[0].tags, list(&["t"]));
}

#[test]
fn tags_are_removed_and_no_note_is_created() {
    let mut index = holding(&[("a", &["x", "y"])]);
    let command = TagCommand::Remove { path: "a".to_string(), tags: list(&["x"]) };
    done(jottem::manage_tags(&mut index, "/root", &command, Reply::Nothing).unwrap());
    assert_eq!(index.get_all().unwrap()[0].tags, list(&["y"]));

    let missing = jottem::tags::remove_tags(
        &mut index,
        "/root",
        "b",
        &list(&["x"]),
        Reply::Confirmed(true),
    )
    .unwrap();
    assert!(matches!(missing, Outcome::NotFound));

    let command = TagCommand::Add { path: "a".to_string(), tags: list(&["z", "y"]) };
    done(jottem::manage_tags(&mut index, "/root", &command, Reply::Nothing).unwrap());
    assert_eq!(index.get_all().unwrap()[0].tags, list(&["y", "z"]));
}

#[test]
fn edit_note_without_a_path_lets_the_user_choose() {
    let mut index = holding(&[("a", &[]), ("b/c", &[])]);
    match jottem::edit_note(&mut index, "/root", None, Reply::Nothing).unwrap() {
        Lookup::Ask(prompt) => assert_eq!(prompt, Prompt::Fuzzy { options: list(&["a", "b/c"]) }),
        other => panic!("{:?}", other),
    }
    match jottem::edit_note(&mut index, "/root", None, Reply::Selected(1)).unwrap() {
        Lookup::Found { note, effects } => {
            assert_eq!(note.relative_path, "b/c");
            assert!(effects.is_empty());
        }
        other => panic!("{:?}", other),
    }
    let cancelled = jottem::edit_note(&mut index, "/root", None, Reply::Cancelled).unwrap();
    assert!(matches!(cancelled, Lookup::Cancelled));
}

#[test]
fn edit_note_with_a_path_may_create() {
    let mut index = Index::new();
    let asked = jottem::edit_note(&mut index, "/root", Some("n"), Reply::Nothing).unwrap();
    assert!(matches!(asked, Lookup::Ask(Prompt::Confirm)));
    let found = jottem::edit_note(&mut index, "/root", Some("n"), Reply::Confirmed(true)).unwrap();
    assert!(matches!(found, Lookup::Found { .. }));
    assert_eq!(listing(&index), list(&["n"]));
}

#[test]
fn save_edit_stamps_a_changed_note() {
    let mut index = holding(&[("a", &[])]);
    let note = made("a", &[]);
    let (same, steps) = jottem::save_edit(&mut index, note.duplicate(), false).unwrap();
    assert!(steps.is_empty());
    assert_eq!(same.modified, "2024-01-02 03:04:05");

    let (stamped, steps) = jottem::save_edit(&mut index, note.duplicate(), true).unwrap();
    let (id, bytes) = stamped.serialize().unwrap();
    assert_eq!(steps, vec![Effect::Put { id, record: bytes }]);
    assert_eq!(stamped.created, "2024-01-02 03:04:05");
    assert_ne!(stamped.modified, "2024-01-02 03:04:05");
    assert_eq!(index.get(id).unwrap().unwrap().modified, stamped.modified);
}

#[test]
fn find_notes_searches_by_the_first_argument_given() {
    let index = holding(&[("foo", &["x"]), ("a/foo", &["y"]), ("bar", &[])]);
    let by = |path: Option<&str>, tags: &[&str], all: bool| {
        let args = SearchArgs { path: path.map(|p| p.to_string()), tags: list(tags), all };
        jottem::find_notes(&index, &args).unwrap().map(|notes| {
            notes.iter().map(|n| n.relative_path.clone()).collect::<Vec<String>>()
        })
    };
    assert_eq!(by(Some("foo"), &["y"], true), Some(list(&["foo", "a/foo"])));
    assert_eq!(by(Some("a/foo"), &[], false), Some(list(&["a/foo"])));
    assert_eq!(by(None, &["y", "x"], true), Some(list(&["foo", "a/foo"])));
    assert_eq!(by(None, &[], true), Some(list(&["foo", "a/foo", "bar"])));
    assert_eq!(by(None, &[], false), None);

    let args = SearchArgs { path: Some("/".to_string()), tags: Vec::new(), all: false };
    assert_eq!(jottem::find_notes(&index, &args).unwrap_err(), Error::EmptyPath);
}

#[test]
fn find_functions_search_the_index() {
    let index = holding(&[("foo", &["x"]), ("a/foo", &["y"]), ("bar", &[])]);
    let names = |notes: Vec<Note>| notes.iter().map(|n| n.relative_path.clone()).collect::<Vec<String>>();
    assert_eq!(names(jottem::find::by_path(&index, "foo").unwrap()), list(&["foo", "a/foo"]));
    assert_eq!(names(jottem::find::by_path(&index, "a/foo").unwrap()), list(&["a/foo"]));
    assert_eq!(jottem::find::by_path(&index, "").unwrap_err(), Error::EmptyPath);
    assert_eq!(names(jottem::find::by_tags(&index, &list(&["y"])).unwrap()), list(&["a/foo"]));
    assert_eq!(names(jottem::find::all(&index).unwrap()), list(&["foo", "a/foo", "bar"]));
}
