use std::collections::hash_map::DefaultHasher;
use std::hash::Hash;
use std::hash::Hasher;

use jottem::error::Error;
use jottem::note::Note;
use jottem::path::NotePath;

fn strings(items: &[&str]) -> Vec<String> {
    items.iter().map(|s| s.to_string()).collect()
}

fn sample(tags: &[&str]) -> Note {
    let path = NotePath::parse("foo/bar").unwrap();
    Note::stamped(&path, "/root", &strings(tags), "2024-01-02 03:04:05".to_string())
}

fn same(a: &Note, b: &Note) -> bool {
    a.absolute_path == b.absolute_path
        && a.relative_path == b.relative_path
        && a.title == b.title
        && a.created == b.created
        && a.modified == b.modified
        && a.tags == b.tags
}

#[test]
fn stamped_fills_every_field() {
    let note = sample(&["x", "y", "x"]);
    assert_eq!(note.absolute_path, "/root/foo/bar.md");
    assert_eq!(note.relative_path, "foo/bar");
    assert_eq!(note.title, "bar");
    assert_eq!(note.created, "2024-01-02 03:04:05");
    assert_eq!(note.modified, "2024-01-02 03:04:05");
    assert_eq!(note.tags, strings(&["x", "y"]));
}

#[test]
fn new_stamps_both_times_alike() {
    let path = NotePath::parse("foo").unwrap();
    let note = Note::new(&path, "/root", &strings(&["t"]));
    assert_eq!(note.absolute_path, "/root/foo.md");
    assert_eq!(note.relative_path, "foo");
    assert_eq!(note.title, "foo");
    assert_eq!(note.created, note.modified);
    assert_eq!(note.created.len(), 19);
    assert_eq!(jottem::note::timestamp_format(), "%Y-%m-%d %H:%M:%S");
    let stamp: Vec<char> = note.created.chars().collect();
    for (at, mark) in [(4, '-'), (7, '-'), (10, ' '), (13, ':'), (16, ':')] {
        assert_eq!(stamp[at], mark);
    }
    assert_eq!(note.tags, strings(&["t"]));
}

#[test]
fn id_is_the_default_hash_of_the_absolute_path() {
    let note = sample(&[]);
    let mut hasher = DefaultHasher::new();
    note.absolute_path.hash(&mut hasher);
    assert_eq!(note.id(), hasher.finish());
    assert_eq!(note.id(), sample(&["other", "tags"]).id());

    let elsewhere = Note::stamped(
        &NotePath::parse("foo/baz").unwrap(),
        "/root",
        &[],
        "2024-01-02 03:04:05".to_string(),
    );
    assert_ne!(note.id(), elsewhere.id());
}

#[test]
fn add_tags_is_a_union_and_idempotent() {
    let mut note = sample(&["a"]);
    note.add_tags(&strings(&["b", "a", "c", "b"]));
    assert_eq!(note.tags, strings(&["a", "b", "c"]));
    note.add_tags(&strings(&["b", "a", "c", "b"]));
    assert_eq!(note.tags, strings(&["a", "b", "c"]));
    note.add_tags(&[]);
    assert_eq!(note.tags, strings(&["a", "b", "c"]));
}

#[test]
fn remove_tags_is_a_difference() {
    let mut note = sample(&["a", "b", "c"]);
    note.remove_tags(&strings(&["b", "zz"]));
    assert_eq!(note.tags, strings(&["a", "c"]));
    note.remove_tags(&strings(&["not", "there"]));
    assert_eq!(note.tags, strings(&["a", "c"]));
    note.remove_tags(&strings(&["a", "c"]));
    assert!(note.tags.is_empty());
}

#[test]
fn serialize_writes_lengths_and_bytes() {
    let note = Note {
        absolute_path: "/r/é.md".to_string(),
        relative_path: "é".to_string(),
        title: "é".to_string(),
        created: "c".to_string(),
        modified: "".to_string(),
        tags: strings(&["x", "yz"]),
    };
    let (id, bytes) = note.serialize().unwrap();
    assert_eq!(id, note.id());
    let mut expected: Vec<u8> = Vec::new();
    for text in ["/r/é.md", "é", "é", "c", ""] {
        expected.extend_from_slice(&(text.len() as u64).to_le_bytes());
        expected.extend_from_slice(text.as_bytes());
    }
    expected.extend_from_slice(&2u64.to_le_bytes());
    for text in ["x", "yz"] {
        expected.extend_from_slice(&(text.len() as u64).to_le_bytes());
        expected.extend_from_slice(text.as_bytes());
    }
    assert_eq!(bytes, expected);
}

#[test]
fn serialize_then_deserialize_gives_the_note_back() {
    for tags in [&[][..], &["one"][..], &["b", "a", "c"][..]] {
        let note = sample(tags);
        let (_, bytes) = note.serialize().unwrap();
        let back = Note::deserialize(&bytes).unwrap();
        assert!(same(&note, &back));
    }
}

#[test]
fn deserialize_reads_what_a_hash_set_wrote() {
    let tags: std::collections::HashSet<String> = strings(&["p", "q"]).into_iter().collect();
    let bytes = bincode::serialize(&("/r/n.md", "n", "n", "then", "now", &tags)).unwrap();
    let note = Note::deserialize(&bytes).unwrap();
    assert_eq!(note.absolute_path, "/r/n.md");
    assert_eq!(note.relative_path, "n");
    assert_eq!(note.title, "n");
    assert_eq!(note.created, "then");
    assert_eq!(note.modified, "now");
    let mut found = note.tags.clone();
    found.sort();
    assert_eq!(found, strings(&["p", "q"]));
}

#[test]
fn deserialize_keeps_a_repeated_tag_once() {
    let tags = strings(&["x", "y", "x", "x"]);
    let bytes = bincode::serialize(&("/r/n.md", "n", "n", "then", "now", &tags)).unwrap();
    let note = Note::deserialize(&bytes).unwrap();
    assert_eq!(note.tags, strings(&["x", "y"]));
}

#[test]
fn deserialize_ignores_what_follows_the_record() {
    let note = sample(&["t"]);
    let (_, mut bytes) = note.serialize().unwrap();
    bytes.extend_from_slice(&[1, 2, 3]);
    assert!(same(&note, &Note::deserialize(&bytes).unwrap()));
}

#[test]
fn deserialize_refuses_what_is_no_record() {
    assert_eq!(Note::deserialize(&[]).unwrap_err(), Error::Deserialize);
    assert_eq!(Note::deserialize(&[1, 2, 3]).unwrap_err(), Error::Deserialize);

    let note = sample(&["t"]);
    let (_, bytes) = note.serialize().unwrap();
    assert_eq!(Note::deserialize(&bytes[..bytes.len() - 1]).unwrap_err(), Error::Deserialize);

    let mut endless = vec![0xff; 8];
    endless.extend_from_slice(&bytes);
    assert_eq!(Note::deserialize(&endless).unwrap_err(), Error::Deserialize);

    let mut broken = bytes.clone();
    broken[8] = 0xff;
    assert_eq!(Note::deserialize(&broken).unwrap_err(), Error::Deserialize);
    assert_eq!(Error::Deserialize.message(), "Failed to deserialize note");
    assert_eq!(Error::Serialize.message(), "Failed to serialize note");
}

#[test]
fn duplicate_holds_the_same() {
    let note = sample(&["a", "b"]);
    assert!(same(&note, &note.duplicate()));
}
