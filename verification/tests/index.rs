use jottem::effect::Effect;
use jottem::error::Error;
use jottem::index::Index;
use jottem::note::Note;
use jottem::path::NotePath;

fn texts(items: &[&str]) -> Vec<String> {
    items.iter().map(|s| s.to_string()).collect()
}

fn note_at(path: &str, tags: &[&str]) -> Note {
    let path = NotePath::parse(path).unwrap();
    Note::stamped(&path, "/root", &texts(tags), "2024-01-02 03:04:05".to_string())
}

fn paths(notes: &[Note]) -> Vec<String> {
    notes.iter().map(|n| n.relative_path.clone()).collect()
}

fn filled(entries: &[(&str, &[&str])]) -> Index {
    let mut index = Index::new();
    for (path, tags) in entries {
        index.insert(&note_at(path, tags)).unwrap();
    }
    index
}

#[test]
fn keys_are_eight_little_endian_bytes() {
    assert_eq!(Index::key_of(1), vec![1, 0, 0, 0, 0, 0, 0, 0]);
    assert_eq!(
        Index::key_of(0x0102030405060708),
        vec![0x08, 0x07, 0x06, 0x05, 0x04, 0x03, 0x02, 0x01]
    );
    assert_eq!(Index::id_of(&[0x08, 0x07, 0x06, 0x05, 0x04, 0x03, 0x02, 0x01]), Some(0x0102030405060708));
    assert_eq!(Index::id_of(&Index::key_of(u64::MAX)), Some(u64::MAX));
    assert_eq!(Index::id_of(&[1, 2, 3]), None);
    assert_eq!(Index::id_of(&[0; 9]), None);
}

#[test]
fn insert_hands_back_the_write_and_get_finds_the_note() {
    let mut index = Index::new();
    let note = note_at("a/b", &["t"]);
    let write = index.insert(&note).unwrap();
    let (id, bytes) = note.serialize().unwrap();
    assert_eq!(write, Effect::Put { id, record: bytes });

    let found = index.get(note.id()).unwrap().unwrap();
    assert_eq!(found.relative_path, "a/b");
    assert_eq!(found.tags, texts(&["t"]));
    assert!(index.get(note.id().wrapping_add(1)).unwrap().is_none());
}

#[test]
fn insert_overwrites_what_stands_under_the_identity() {
    let mut index = Index::new();
    index.insert(&note_at("a/b", &["old"])).unwrap();
    index.insert(&note_at("c", &[])).unwrap();
    index.insert(&note_at("a/b", &["new"])).unwrap();
    let all = index.get_all().unwrap();
    assert_eq!(paths(&all), texts(&["a/b", "c"]));
    assert_eq!(all[0].tags, texts(&["new"]));
}

#[test]
fn remove_deletes_and_is_no_error_where_nothing_is() {
    let mut index = filled(&[("a", &[]), ("b", &[]), ("c", &[])]);
    let id = note_at("b", &[]).id();
    assert_eq!(index.remove(id), Effect::Delete { id });
    assert_eq!(paths(&index.get_all().unwrap()), texts(&["a", "c"]));
    assert!(index.get(id).unwrap().is_none());
    assert_eq!(index.remove(id), Effect::Delete { id });
    assert_eq!(paths(&index.get_all().unwrap()), texts(&["a", "c"]));
}

#[test]
fn load_takes_in_what_the_store_holds() {
    let note = note_at("x/y", &["t"]);
    let (id, bytes) = note.serialize().unwrap();
    let mut index = Index::new();
    index.load(id, bytes.clone());
    index.load(7, bytes);
    assert_eq!(paths(&index.get_all().unwrap()), texts(&["x/y", "x/y"]));
    assert_eq!(index.get(7).unwrap().unwrap().title, "y");
}

#[test]
fn take_in_goes_by_the_key_of_the_store() {
    let note = note_at("x/y", &[]);
    let (id, bytes) = note.serialize().unwrap();
    let mut index = Index::new();
    assert!(index.take_in(&Index::key_of(id), bytes.clone()));
    assert!(index.take_in(&Index::key_of(id), bytes));
    assert_eq!(paths(&index.get_all().unwrap()), texts(&["x/y"]));
    assert_eq!(index.get(id).unwrap().unwrap().relative_path, "x/y");
}

#[test]
fn take_in_keeps_what_stands_under_another_key() {
    let (id, bytes) = note_at("x/y", &[]).serialize().unwrap();
    let (_, stray) = note_at("stray", &[]).serialize().unwrap();
    let mut index = Index::new();
    assert!(!index.take_in(&[1, 2, 3], stray.clone()));
    assert!(index.take_in(&Index::key_of(id), bytes));
    assert!(!index.take_in(&[], stray));
    assert_eq!(paths(&index.get_all().unwrap()), texts(&["stray", "x/y", "stray"]));
    assert_eq!(paths(&index.find_by_title("stray").unwrap()), texts(&["stray", "stray"]));
    assert!(index.get(note_at("stray", &[]).id()).unwrap().is_none());

    index.remove(note_at("stray", &[]).id());
    index.insert(&note_at("stray", &["t"])).unwrap();
    assert_eq!(paths(&index.get_all().unwrap()), texts(&["stray", "x/y", "stray", "stray"]));

    assert!(!index.take_in(&[9; 7], vec![1, 2, 3]));
    assert!(index.get_all().is_err());
}

#[test]
fn bytes_that_hold_no_record_fail_the_scan() {
    let mut index = filled(&[("a", &[])]);
    index.load(9, vec![1, 2, 3]);
    assert_eq!(index.get_all().unwrap_err(), Error::Deserialize);
    assert_eq!(index.find_by_title("a").unwrap_err(), Error::Deserialize);
    assert_eq!(index.get(9).unwrap_err(), Error::Deserialize);
    assert_eq!(index.add_tags(9, &texts(&["t"])).unwrap_err(), Error::Deserialize);
    assert!(index.get(note_at("a", &[]).id()).unwrap().is_some());
}

#[test]
fn find_by_title_matches_in_every_directory() {
    let index = filled(&[("foo", &[]), ("a/foo", &[]), ("b/c/foo", &[]), ("a/bar", &[]), ("foo/x", &[])]);
    assert_eq!(paths(&index.find_by_title("foo").unwrap()), texts(&["foo", "a/foo", "b/c/foo"]));
    assert!(index.find_by_title("fo").unwrap().is_empty());
    assert!(index.find_by_title("a/foo").unwrap().is_empty());
}

#[test]
fn find_by_path_matches_one_relative_path() {
    let index = filled(&[("foo", &[]), ("a/foo", &[]), ("b/c/foo", &[])]);
    let found = index.find_by_path(&NotePath::parse("a/foo").unwrap()).unwrap();
    assert_eq!(paths(&found), texts(&["a/foo"]));
    let found = index.find_by_path(&NotePath::parse("c/foo").unwrap()).unwrap();
    assert!(found.is_empty());
}

#[test]
fn create_then_find_by_path_gives_exactly_that_note() {
    let mut index = Index::new();
    let path = NotePath::parse("a/b").unwrap();
    let (note, _) = jottem::utils::create_note(&mut index, "/root", &path, &[]).unwrap();
    let found = index.find_by_path(&NotePath::parse("a/b").unwrap()).unwrap();
    assert_eq!(found.len(), 1);
    assert_eq!(found[0].relative_path, "a/b");
    assert_eq!(found[0].absolute_path, note.absolute_path);
}

#[test]
fn find_by_tags_matches_any_of_the_tags() {
    let index = filled(&[("one", &["x"]), ("two", &["y"]), ("three", &[]), ("four", &["z", "y"]), ("five", &["w"])]);
    assert_eq!(
        paths(&index.find_by_tags(&texts(&["x", "y"])).unwrap()),
        texts(&["one", "two", "four"])
    );
    assert!(index.find_by_tags(&[]).unwrap().is_empty());
    assert!(index.find_by_tags(&texts(&["none"])).unwrap().is_empty());
}

#[test]
fn add_tags_changes_the_note_under_the_identity() {
    let mut index = filled(&[("a", &["x"]), ("b", &[])]);
    let id = note_at("a", &[]).id();
    let write = index.add_tags(id, &texts(&["y", "x"])).unwrap();
    let mut expected = note_at("a", &["x", "y"]);
    expected.modified = "2024-01-02 03:04:05".to_string();
    let (_, bytes) = expected.serialize().unwrap();
    assert_eq!(write, Some(Effect::Put { id, record: bytes }));
    assert_eq!(index.get(id).unwrap().unwrap().tags, texts(&["x", "y"]));
    assert_eq!(paths(&index.get_all().unwrap()), texts(&["a", "b"]));

    assert_eq!(index.add_tags(12345, &texts(&["y"])).unwrap(), None);
}

#[test]
fn remove_tags_changes_the_note_under_the_identity() {
    let mut index = filled(&[("a", &["x", "y", "z"])]);
    let id = note_at("a", &[]).id();
    let write = index.remove_tags(id, &texts(&["y", "q"])).unwrap();
    assert!(matches!(write, Some(Effect::Put { .. })));
    assert_eq!(index.get(id).unwrap().unwrap().tags, texts(&["x", "z"]));
    assert_eq!(index.remove_tags(12345, &texts(&["y"])).unwrap(), None);
}

#[test]
fn add_tag_adds_one_tag() {
    let mut index = filled(&[("a", &["x"])]);
    let id = note_at("a", &[]).id();
    let write = jottem::tag::add_tag(&mut index, id, "y").unwrap();
    assert!(matches!(write, Some(Effect::Put { .. })));
    assert_eq!(index.get(id).unwrap().unwrap().tags, texts(&["x", "y"]));
}
