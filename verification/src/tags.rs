use vstd::prelude::*;

use crate::codec::encoded_record;
use crate::codec::Record;
use crate::codec::strings;
use crate::effect::effects;
use crate::effect::EffectView;
use crate::error::Error;
use crate::file::spec_create_file;
use crate::hashing::text_hash;
use crate::index::Index;
use crate::index::lemma_put;
use crate::index::lemma_readable_get;
use crate::index::put;
use crate::index::retagged;
use crate::index::Stored;
use crate::note::Note;
use crate::note::with_tags;
use crate::path::parsed;
use crate::utils::found_note;
use crate::utils::get_note;
use crate::utils::halted;
use crate::utils::Lookup;
use crate::utils::Outcome;
use crate::utils::outcome_of;
use crate::utils::Reply;

verus! {

/// The one write, if any, of an operation that changed the tags of a note
/// that was there.
pub open spec fn tag_write(r: Result<Outcome, Error>) -> Result<Option<EffectView>, Error> {
    match r {
        Ok(Outcome::Done(steps)) => if steps@.len() == 0 {
            Ok(None)
        } else {
            Ok(Some(steps@[0]@))
        },
        Ok(_) => Ok(None),
        Err(e) => Err(e),
    }
}

/// What creating the note at `path` at the time `stamp` and then giving
/// it `tags` leaves: the content file is made, the new record is put into
/// the store, and then the record with its tags is put over it.
pub open spec fn created_with_tags(
    before: Stored,
    after: Stored,
    root: Seq<char>,
    path: Seq<char>,
    tags: Seq<Seq<char>>,
    stamp: Seq<char>,
    steps: Seq<EffectView>,
) -> bool {
    let made = Note::spec_stamped(parsed(path)->0, root, Seq::empty(), stamp);
    let tagged = Record { tags: with_tags(made.tags, tags), ..made };
    let id = text_hash(made.absolute_path);
    &&& after == put(put(before, id, encoded_record(made)), id, encoded_record(tagged))
    &&& steps == spec_create_file(parsed(path)->0, root).push(
        EffectView::Put { id, record: encoded_record(made) },
    ).push(EffectView::Put { id, record: encoded_record(tagged) })
}

/// What adding tags to the note named by `path` does. Where the search
/// ends without a note, so does this. A note that is found gets the tags
/// under its identity. Where no note matches and the user agrees, the note
/// is created first. Once the search has got to a note, adding succeeds.
pub open spec fn tags_added(
    before: Stored,
    after: Stored,
    root: Seq<char>,
    path: Seq<char>,
    tags: Seq<Seq<char>>,
    reply: Reply,
    r: Result<Outcome, Error>,
) -> bool {
    match halted(before, path, true, reply) {
        Some(end) => outcome_of(r) == end && after == before,
        None => match found_note(before, path, true, reply) {
            Some(note) => {
                &&& r matches Ok(Outcome::Done(steps)) && steps@.len() <= 1
                &&& retagged(
                    before,
                    after,
                    text_hash(note.absolute_path),
                    tags,
                    true,
                    tag_write(r),
                )
            },
            None => match r {
                Ok(Outcome::Done(steps)) => exists|stamp: Seq<char>|
                    created_with_tags(before, after, root, path, tags, stamp, effects(steps@)),
                _ => false,
            },
        },
    }
}

/// What taking tags from the note named by `path` does. Where the search
/// ends without a note, so does this; no note is created. A note that is
/// found loses the tags under its identity, and that succeeds.
pub open spec fn tags_removed(
    before: Stored,
    after: Stored,
    path: Seq<char>,
    tags: Seq<Seq<char>>,
    reply: Reply,
    r: Result<Outcome, Error>,
) -> bool {
    match halted(before, path, false, reply) {
        Some(end) => outcome_of(r) == end && after == before,
        None => {
            let note = found_note(before, path, false, reply)->0;
            &&& r matches Ok(Outcome::Done(steps)) && steps@.len() <= 1
            &&& retagged(before, after, text_hash(note.absolute_path), tags, false, tag_write(r))
        },
    }
}

/// Adds tags to the note that the user means by `path`. Where no note
/// matches, the user may have it created.
pub fn add_tags(index: &mut Index, root: &str, path: &str, tags: &[String], reply: Reply) -> (r:
    Result<Outcome, Error>)
    requires
        old(index).wf(),
    ensures
        final(index).wf(),
        tags_added(old(index).stored(), final(index).stored(), root@, path@, strings(tags@), reply, r),
{
    match get_note(index, root, path, true, reply)? {
        Lookup::Found { note, effects: steps } => {
            let mut steps = steps;
            let ghost mid = index.stored();
            let ghost planned = effects(steps@);
            proof {
                assert(effects(steps@).len() == steps@.len());
                if found_note(old(index).stored(), path@, true, reply) is None {
                    lemma_put(old(index).stored(), note.spec_id(), encoded_record(note@));
                } else {
                    lemma_readable_get(index.stored(), note.spec_id());
                }
            }
            match index.add_tags(note.id(), tags)? {
                Some(write) => {
                    steps.push(write);
                    assert(effects(steps@) =~= planned.push(write@));
                },
                None => {},
            }
            proof {
                if found_note(old(index).stored(), path@, true, reply) is None {
                    assert(created_with_tags(
                        old(index).stored(),
                        index.stored(),
                        root@,
                        path@,
                        strings(tags@),
                        note@.created,
                        effects(steps@),
                    ));
                }
            }
            Ok(Outcome::Done(steps))
        },
        Lookup::Ask(prompt) => Ok(Outcome::Ask(prompt)),
        Lookup::NotFound => Ok(Outcome::NotFound),
        Lookup::Cancelled => Ok(Outcome::Cancelled),
    }
}

/// Removes tags from the note that the user means by `path`. No note is
/// created for the sake of it.
pub fn remove_tags(index: &mut Index, root: &str, path: &str, tags: &[String], reply: Reply) -> (r:
    Result<Outcome, Error>)
    requires
        old(index).wf(),
    ensures
        final(index).wf(),
        tags_removed(old(index).stored(), final(index).stored(), path@, strings(tags@), reply, r),
{
    match get_note(index, root, path, false, reply)? {
        Lookup::Found { note, effects: steps } => {
            let mut steps = steps;
            proof {
                assert(effects(steps@).len() == steps@.len());
                lemma_readable_get(index.stored(), note.spec_id());
            }
            match index.remove_tags(note.id(), tags)? {
                Some(write) => {
                    steps.push(write);
                },
                None => {},
            }
            Ok(Outcome::Done(steps))
        },
        Lookup::Ask(prompt) => Ok(Outcome::Ask(prompt)),
        Lookup::NotFound => Ok(Outcome::NotFound),
        Lookup::Cancelled => Ok(Outcome::Cancelled),
    }
}

} // verus!
