use vstd::prelude::*;

use crate::codec::Record;
use crate::codec::strings;
use crate::error::Error;
use crate::index::has_any_tag;
use crate::index::Index;
use crate::index::readable;
use crate::index::records;
use crate::index::spec_find;
use crate::index::Stored;
use crate::index::views;
use crate::note::Note;
use crate::path::NotePath;
use crate::path::parsed;
use crate::path::trimmed;
use crate::utils::names;

verus! {

/// The notes found, or the refusal, as plain values.
pub open spec fn found_of(r: Result<Vec<Note>, Error>) -> Result<Seq<Record>, Error> {
    match r {
        Ok(notes) => Ok(views(notes@)),
        Err(e) => Err(e),
    }
}

/// What a search by path gives: with a directory in the path, the notes at
/// that relative path; without one, the notes with that title in any
/// directory. A path that names nothing is refused.
pub open spec fn spec_by_path(entries: Stored, path: Seq<char>) -> Result<Seq<Record>, Error> {
    if parsed(path) is None {
        Err(Error::EmptyPath)
    } else {
        spec_find(entries, names(trimmed(path)))
    }
}

/// What a scan gives: every record, where every entry holds one.
pub open spec fn spec_all(entries: Stored) -> Result<Seq<Record>, Error> {
    if readable(entries) {
        Ok(records(entries))
    } else {
        Err(Error::Deserialize)
    }
}

/// The notes that `path` names.
pub fn by_path(index: &Index, path: &str) -> (r: Result<Vec<Note>, Error>)
    ensures
        found_of(r) == spec_by_path(index.stored(), path@),
{
    let path = NotePath::parse(path)?;
    if path.has_parent() {
        index.find_by_path(&path)
    } else {
        index.find_by_title(path.title.as_str())
    }
}

/// The notes that have at least one of `tags`.
pub fn by_tags(index: &Index, tags: &[String]) -> (r: Result<Vec<Note>, Error>)
    ensures
        found_of(r) == spec_find(index.stored(), has_any_tag(strings(tags@))),
{
    index.find_by_tags(tags)
}

/// Every note.
pub fn all(index: &Index) -> (r: Result<Vec<Note>, Error>)
    ensures
        found_of(r) == spec_all(index.stored()),
{
    index.get_all()
}

} // verus!
