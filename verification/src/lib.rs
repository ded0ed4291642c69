use vstd::prelude::*;

use crate::cli::SearchArgs;
use crate::cli::TagCommand;
use crate::codec::encoded_record;
use crate::codec::Record;
use crate::codec::strings;
use crate::effect::Effect;
use crate::effect::effects;
use crate::effect::EffectView;
use crate::error::Error;
use crate::file::delete_file;
use crate::file::rename_file;
use crate::file::spec_delete_file;
use crate::file::spec_rename_file;
use crate::find::all;
use crate::find::by_path;
use crate::find::by_tags;
use crate::find::spec_all;
use crate::find::spec_by_path;
use crate::hashing::text_hash;
use crate::index::deleted;
use crate::index::distinct_keys;
use crate::index::has_any_tag;
use crate::index::Index;
use crate::index::lemma_deleted;
use crate::index::lemma_put;
use crate::index::lookup;
use crate::index::put;
use crate::index::readable;
use crate::index::records;
use crate::index::spec_find;
use crate::index::Stored;
use crate::index::views;
use crate::note::local_timestamp;
use crate::note::timestamp_format;
use crate::note::Note;
use crate::path::join;
use crate::path::joined;
use crate::path::lemma_join_parts;
use crate::path::lemma_last_slash;
use crate::path::lemma_parse_joined;
use crate::path::lemma_trimmed_is_trimmed;
use crate::path::no_slash;
use crate::path::NotePath;
use crate::path::parsed;
use crate::path::PathView;
use crate::path::strip_slashes;
use crate::path::trimmed;
use crate::path::without_slashes;
use crate::tags::add_tags;
use crate::tags::remove_tags;
use crate::tags::tags_added;
use crate::tags::tags_removed;
use crate::utils::browsed;
use crate::utils::found_note;
use crate::utils::get_note;
use crate::utils::halted;
use crate::utils::Lookup;
use crate::utils::options;
use crate::utils::Outcome;
use crate::utils::outcome_of;
use crate::utils::OutcomeView;
use crate::utils::Prompt;
use crate::utils::Reply;
use crate::utils::resolved;

pub mod cli;
pub mod codec;
pub mod effect;
pub mod error;
pub mod file;
pub mod find;
pub mod hashing;
pub mod index;
pub mod note;
pub mod path;
pub mod tag;
pub mod tags;
pub mod utils;

verus! {

/// The planned effects, or the refusal, as plain values.
pub open spec fn steps_of(r: Result<Vec<Effect>, Error>) -> Result<Seq<EffectView>, Error> {
    match r {
        Ok(steps) => Ok(effects(steps@)),
        Err(e) => Err(e),
    }
}

/// A changed note and the planned effects, or the refusal, as plain values.
pub open spec fn change_of(r: Result<(Note, Vec<Effect>), Error>) -> Result<
    (Record, Seq<EffectView>),
    Error,
> {
    match r {
        Ok(made) => Ok((made.0@, effects(made.1@))),
        Err(e) => Err(e),
    }
}

/// What deleting a note does: the content file goes first, with its
/// directory where that is left empty, then the record under the identity
/// of the note. A note whose relative path names nothing is refused.
pub open spec fn spec_remove_note(before: Stored, root: Seq<char>, note: Record) -> (
    Stored,
    Result<Seq<EffectView>, Error>,
) {
    match parsed(note.relative_path) {
        None => (before, Err(Error::EmptyPath)),
        Some(path) => {
            let id = text_hash(note.absolute_path);
            (
                deleted(before, id),
                Ok(spec_delete_file(path, root).push(EffectView::Delete { id })),
            )
        },
    }
}

/// Deletes a note that is found: from the disk, then from the index.
pub fn remove_note(index: &mut Index, root: &str, note: &Note) -> (r: Result<Vec<Effect>, Error>)
    requires
        old(index).wf(),
    ensures
        final(index).wf(),
        (final(index).stored(), steps_of(r)) == spec_remove_note(old(index).stored(), root@, note@),
{
    let path = NotePath::from_note(note)?;
    let mut steps = delete_file(&path, root);
    let ghost planned = effects(steps@);
    let write = index.remove(note.id());
    steps.push(write);
    assert(effects(steps@) =~= planned.push(write@));
    Ok(steps)
}

/// The record of `note` after it went to the path `new` below `root`.
pub open spec fn renamed(note: Record, new: PathView, root: Seq<char>) -> Record {
    Record {
        relative_path: new.relative_path(),
        absolute_path: new.absolute_path_with_ext(root),
        title: new.title,
        ..note
    }
}

/// The index after a record was put under its new identity and left its
/// old one. Where the two are one identity, the record is put over itself
/// and stays.
pub open spec fn swapped(before: Stored, old_id: u64, new_id: u64, bytes: Seq<u8>) -> Stored {
    if new_id == old_id {
        put(before, new_id, bytes)
    } else {
        deleted(put(before, new_id, bytes), old_id)
    }
}

/// The writes that bring the store to the same state: the put, and the
/// delete where the old identity is another one.
pub open spec fn swap_writes(old_id: u64, new_id: u64, bytes: Seq<u8>) -> Seq<EffectView> {
    if new_id == old_id {
        seq![EffectView::Put { id: new_id, record: bytes }]
    } else {
        seq![EffectView::Put { id: new_id, record: bytes }, EffectView::Delete { id: old_id }]
    }
}

/// What moving a note to the path `target` does. The record gets the new
/// path and title and is put under its new identity; then what stands
/// under the old identity is deleted, unless that is the new identity;
/// then the content file moves. A note whose relative path names nothing,
/// and a target that names nothing, are refused; every other move
/// succeeds.
pub open spec fn moved(
    before: Stored,
    after: Stored,
    root: Seq<char>,
    note: Record,
    target: Seq<char>,
    r: Result<(Record, Seq<EffectView>), Error>,
) -> bool {
    match (parsed(note.relative_path), parsed(target)) {
        (Some(old), Some(new)) => {
            let changed = renamed(note, new, root);
            let old_id = text_hash(note.absolute_path);
            let new_id = text_hash(changed.absolute_path);
            &&& r == Ok::<(Record, Seq<EffectView>), Error>(
                (
                    changed,
                    swap_writes(old_id, new_id, encoded_record(changed)) + spec_rename_file(
                        old,
                        new,
                        root,
                    ),
                ),
            )
            &&& after == swapped(before, old_id, new_id, encoded_record(changed))
        },
        _ => r == Err::<(Record, Seq<EffectView>), Error>(Error::EmptyPath) && after == before,
    }
}

/// A move swaps identities: where it succeeds, the record stands under
/// the new identity with its new relative path and title, and the last
/// effect moves the content file from the old place to the new one; where
/// the new identity is not the old one, nothing stands under the old
/// identity any more.
pub proof fn lemma_moved(
    before: Stored,
    after: Stored,
    root: Seq<char>,
    note: Record,
    target: Seq<char>,
    changed: Record,
    steps: Seq<EffectView>,
)
    requires
        distinct_keys(before),
        moved(before, after, root, note, target, Ok((changed, steps))),
    ensures
        parsed(note.relative_path) is Some && parsed(target) is Some,
        changed.relative_path == trimmed(target),
        changed.title == parsed(target)->0.title,
        lookup(after, text_hash(changed.absolute_path)) == Some(encoded_record(changed)),
        text_hash(changed.absolute_path) != text_hash(note.absolute_path) ==> lookup(
            after,
            text_hash(note.absolute_path),
        ) is None,
        steps.last() == (EffectView::Rename {
            from: parsed(note.relative_path)->0.absolute_path_with_ext(root),
            to: changed.absolute_path,
        }),
{
    let new_id = text_hash(changed.absolute_path);
    let old_id = text_hash(note.absolute_path);
    let mid = put(before, new_id, encoded_record(changed));
    lemma_put(before, new_id, encoded_record(changed));
    if new_id != old_id {
        lemma_deleted(mid, old_id);
    }
    lemma_join_parts(trimmed(target));
}

/// A rename keeps the directory: where it succeeds, the note goes to the
/// new title, without its slashes, below the parent it had, and where it
/// had none the title is its whole relative path.
pub proof fn lemma_retitled(
    before: Stored,
    after: Stored,
    root: Seq<char>,
    note: Record,
    new_title: Seq<char>,
    changed: Record,
    steps: Seq<EffectView>,
)
    requires
        retitled(before, after, root, note, new_title, Ok((changed, steps))),
    ensures
        parsed(note.relative_path) is Some,
        without_slashes(new_title).len() > 0,
        changed.title == without_slashes(new_title),
        changed.relative_path == joined(
            parsed(note.relative_path)->0.parent,
            without_slashes(new_title),
        ),
        parsed(changed.relative_path)->0.parent == parsed(note.relative_path)->0.parent,
{
    let old = parsed(note.relative_path)->0;
    let title = without_slashes(new_title);
    let earlier = trimmed(note.relative_path);
    lemma_trimmed_is_trimmed(note.relative_path);
    lemma_last_slash(earlier);
    assert forall|i: int| 0 <= i < title.len() implies title[i] != '/' by {
        new_title.lemma_filter_pred(no_slash(), i);
    }
    lemma_parse_joined(PathView { title, parent: old.parent });
}

/// Moves a note that is found to the path `target`.
pub fn relocate_note(index: &mut Index, root: &str, note: &Note, target: &str) -> (r: Result<
    (Note, Vec<Effect>),
    Error,
>)
    requires
        old(index).wf(),
    ensures
        final(index).wf(),
        moved(old(index).stored(), final(index).stored(), root@, note@, target@, change_of(r)),
{
    let old_path = NotePath::from_note(note)?;
    let new_path = NotePath::parse(target)?;
    let mut changed = note.duplicate();
    changed.relative_path = new_path.relative_path();
    changed.absolute_path = new_path.absolute_path_with_ext(root);
    changed.title = new_path.title();
    let old_id = note.id();
    let new_id = changed.id();
    let first = index.insert(&changed)?;
    let mut steps: Vec<Effect> = Vec::new();
    steps.push(first);
    assert(effects(steps@) =~= seq![first@]);
    if new_id != old_id {
        let second = index.remove(old_id);
        steps.push(second);
        assert(effects(steps@) =~= seq![first@, second@]);
    }
    let mut rest = rename_file(&old_path, &new_path, root);
    let ghost head = effects(steps@);
    let ghost tail = effects(rest@);
    steps.append(&mut rest);
    assert(effects(steps@) =~= head + tail);
    Ok((changed, steps))
}

/// What renaming a note in place does: the slashes of the new title are
/// dropped, and the note moves to that title in its old directory. A title
/// of which nothing is left is refused, and the note stays where it is.
pub open spec fn retitled(
    before: Stored,
    after: Stored,
    root: Seq<char>,
    note: Record,
    new_title: Seq<char>,
    r: Result<(Record, Seq<EffectView>), Error>,
) -> bool {
    match parsed(note.relative_path) {
        Some(old) if without_slashes(new_title).len() > 0 => moved(
            before,
            after,
            root,
            note,
            joined(old.parent, without_slashes(new_title)),
            r,
        ),
        _ => r == Err::<(Record, Seq<EffectView>), Error>(Error::EmptyPath) && after == before,
    }
}

/// Renames a note that is found: the last segment of its path changes,
/// its directory stays.
pub fn retitle_note(index: &mut Index, root: &str, note: &Note, new_title: &str) -> (r: Result<
    (Note, Vec<Effect>),
    Error,
>)
    requires
        old(index).wf(),
    ensures
        final(index).wf(),
        retitled(old(index).stored(), final(index).stored(), root@, note@, new_title@, change_of(r)),
{
    let title = strip_slashes(new_title);
    if title.as_str().is_empty() {
        return Err(Error::EmptyPath);
    }
    let old_path = NotePath::from_note(note)?;
    let target = match &old_path.parent {
        Some(parent) => join(parent.as_str(), title.as_str()),
        None => title,
    };
    relocate_note(index, root, note, target.as_str())
}

/// Records that the content of a note was edited: where it changed, the
/// note is stamped with the present time and put back into the index.
/// This always succeeds.
pub fn save_edit(index: &mut Index, note: Note, changed: bool) -> (r: Result<
    (Note, Vec<Effect>),
    Error,
>)
    requires
        old(index).wf(),
    ensures
        final(index).wf(),
        r is Ok,
        !changed ==> change_of(r) == Ok::<(Record, Seq<EffectView>), Error>((note@, Seq::empty()))
            && final(index).stored() == old(index).stored(),
        changed ==> (r matches Ok(made) ==> {
            &&& made.0@ == (Record { modified: made.0@.modified, ..note@ })
            &&& final(index).stored() == put(
                old(index).stored(),
                text_hash(note@.absolute_path),
                encoded_record(made.0@),
            )
            &&& effects(made.1@) == seq![
                EffectView::Put {
                    id: text_hash(note@.absolute_path),
                    record: encoded_record(made.0@),
                },
            ]
        }),
{
    let mut note = note;
    let mut steps: Vec<Effect> = Vec::new();
    assert(effects(steps@) =~= Seq::empty());
    if changed {
        note.modified = local_timestamp(timestamp_format());
        let write = index.insert(&note)?;
        steps.push(write);
        assert(effects(steps@) =~= seq![write@]);
    }
    Ok((note, steps))
}

/// What deleting the note named by `path` does.
pub open spec fn spec_delete_note(before: Stored, root: Seq<char>, path: Seq<char>, reply: Reply) -> (
    Stored,
    Result<OutcomeView, Error>,
) {
    match halted(before, path, false, reply) {
        Some(end) => (before, end),
        None => match found_note(before, path, false, reply) {
            Some(note) => {
                let (after, steps) = spec_remove_note(before, root, note);
                (
                    after,
                    match steps {
                        Ok(s) => Ok(OutcomeView::Done(s)),
                        Err(e) => Err(e),
                    },
                )
            },
            None => (before, Ok(OutcomeView::NotFound)),
        },
    }
}

/// Deletes the note that the user means by `path`, from the disk and from
/// the index. No note is created for the sake of deleting it.
pub fn delete_note(index: &mut Index, root: &str, path: &str, reply: Reply) -> (r: Result<
    Outcome,
    Error,
>)
    requires
        old(index).wf(),
    ensures
        final(index).wf(),
        (final(index).stored(), outcome_of(r)) == spec_delete_note(
            old(index).stored(),
            root@,
            path@,
            reply,
        ),
{
    match get_note(index, root, path, false, reply)? {
        Lookup::Found { note, effects: _ } => {
            let steps = remove_note(index, root, &note)?;
            Ok(Outcome::Done(steps))
        },
        Lookup::Ask(prompt) => Ok(Outcome::Ask(prompt)),
        Lookup::NotFound => Ok(Outcome::NotFound),
        Lookup::Cancelled => Ok(Outcome::Cancelled),
    }
}

/// How a change of one note ended, as the outcome of an operation: its
/// effects where it was made, the refusal where it was not.
pub open spec fn change_done(r: Result<Outcome, Error>, changed: Record) -> Result<
    (Record, Seq<EffectView>),
    Error,
> {
    match r {
        Ok(Outcome::Done(steps)) => Ok((changed, effects(steps@))),
        Ok(_) => Err(Error::EmptyPath),
        Err(e) => Err(e),
    }
}

/// The record of `note` after it went to the path that `target` names.
pub open spec fn moved_to(note: Record, target: Seq<char>, root: Seq<char>) -> Record {
    renamed(note, parsed(target)->0, root)
}

/// The path to which a new title takes a note: the title, without its
/// slashes, in the directory of the note.
pub open spec fn retitle_target(note: Record, new_title: Seq<char>) -> Seq<char> {
    joined(parsed(note.relative_path)->0.parent, without_slashes(new_title))
}

/// Renames the note that the user means by `path`: the last segment of its
/// path becomes `new_title`, without the slashes in it, and its directory
/// stays what it is. A title of which nothing is left is refused. No note
/// is created for the sake of renaming it.
pub fn rename_note(index: &mut Index, root: &str, path: &str, new_title: &str, reply: Reply) -> (r:
    Result<Outcome, Error>)
    requires
        old(index).wf(),
    ensures
        final(index).wf(),
        halted(old(index).stored(), path@, false, reply) matches Some(end) ==> outcome_of(r) == end
            && final(index).stored() == old(index).stored(),
        halted(old(index).stored(), path@, false, reply) is None ==> (r matches Ok(o) ==> o is Done),
        halted(old(index).stored(), path@, false, reply) is None ==> ({
            let note = found_note(old(index).stored(), path@, false, reply)->0;
            retitled(
                old(index).stored(),
                final(index).stored(),
                root@,
                note,
                new_title@,
                change_done(r, moved_to(note, retitle_target(note, new_title@), root@)),
            )
        }),
{
    match get_note(index, root, path, false, reply)? {
        Lookup::Found { note, effects: _ } => {
            let (_, steps) = retitle_note(index, root, &note, new_title)?;
            Ok(Outcome::Done(steps))
        },
        Lookup::Ask(prompt) => Ok(Outcome::Ask(prompt)),
        Lookup::NotFound => Ok(Outcome::NotFound),
        Lookup::Cancelled => Ok(Outcome::Cancelled),
    }
}

/// Moves the note that the user means by `path` to the path `new_path`;
/// with `rename`, renames it in place instead, to the title `new_path`. No
/// note is created for the sake of moving it.
pub fn move_note(
    index: &mut Index,
    root: &str,
    path: &str,
    new_path: &str,
    rename: bool,
    reply: Reply,
) -> (r: Result<Outcome, Error>)
    requires
        old(index).wf(),
    ensures
        final(index).wf(),
        halted(old(index).stored(), path@, false, reply) matches Some(end) ==> outcome_of(r) == end
            && final(index).stored() == old(index).stored(),
        halted(old(index).stored(), path@, false, reply) is None ==> (r matches Ok(o) ==> o is Done),
        halted(old(index).stored(), path@, false, reply) is None ==> ({
            let note = found_note(old(index).stored(), path@, false, reply)->0;
            if rename {
                retitled(
                    old(index).stored(),
                    final(index).stored(),
                    root@,
                    note,
                    new_path@,
                    change_done(r, moved_to(note, retitle_target(note, new_path@), root@)),
                )
            } else {
                moved(
                    old(index).stored(),
                    final(index).stored(),
                    root@,
                    note,
                    new_path@,
                    change_done(r, moved_to(note, new_path@, root@)),
                )
            }
        }),
{
    if rename {
        return rename_note(index, root, path, new_path, reply);
    }
    match get_note(index, root, path, false, reply)? {
        Lookup::Found { note, effects: _ } => {
            let (_, steps) = relocate_note(index, root, &note, new_path)?;
            Ok(Outcome::Done(steps))
        },
        Lookup::Ask(prompt) => Ok(Outcome::Ask(prompt)),
        Lookup::NotFound => Ok(Outcome::NotFound),
        Lookup::Cancelled => Ok(Outcome::Cancelled),
    }
}

/// Finds the note to edit. With a path, the note that the user means by
/// it, which may be created where none matches. Without one, the user
/// chooses among all the notes.
pub fn edit_note(index: &mut Index, root: &str, path: Option<&str>, reply: Reply) -> (r: Result<
    Lookup,
    Error,
>)
    requires
        old(index).wf(),
    ensures
        final(index).wf(),
        match path {
            Some(p) => resolved(
                old(index).stored(),
                final(index).stored(),
                root@,
                p@,
                true,
                reply,
                r,
            ),
            None => final(index).stored() == old(index).stored() && if readable(
                old(index).stored(),
            ) {
                r matches Ok(l) && l@ == browsed(records(old(index).stored()), reply)
            } else {
                r == Err::<Lookup, Error>(Error::Deserialize)
            },
        },
{
    match path {
        Some(p) => get_note(index, root, p, true, reply),
        None => {
            let all = index.get_all()?;
            let none: Vec<Effect> = Vec::new();
            proof {
                assert(effects(none@) =~= Seq::empty());
                assert(forall|i: int| 0 <= i < all.len() ==> views(all@)[i] == all[i]@);
            }
            Ok(
                match reply {
                    Reply::Selected(i) if i < all.len() => Lookup::Found {
                        note: all[i].duplicate(),
                        effects: none,
                    },
                    Reply::Cancelled => Lookup::Cancelled,
                    _ => Lookup::Ask(Prompt::Fuzzy { options: options(&all) }),
                },
            )
        },
    }
}

/// Runs a command on the tags of a note.
pub fn manage_tags(index: &mut Index, root: &str, command: &TagCommand, reply: Reply) -> (r: Result<
    Outcome,
    Error,
>)
    requires
        old(index).wf(),
    ensures
        final(index).wf(),
        match command {
            TagCommand::Add { path, tags } => tags_added(
                old(index).stored(),
                final(index).stored(),
                root@,
                path@,
                strings(tags@),
                reply,
                r,
            ),
            TagCommand::Remove { path, tags } => tags_removed(
                old(index).stored(),
                final(index).stored(),
                path@,
                strings(tags@),
                reply,
                r,
            ),
        },
{
    match command {
        TagCommand::Add { path, tags } => add_tags(
            index,
            root,
            path.as_str(),
            tags.as_slice(),
            reply,
        ),
        TagCommand::Remove { path, tags } => remove_tags(
            index,
            root,
            path.as_str(),
            tags.as_slice(),
            reply,
        ),
    }
}

/// The notes found, where something was searched for, as plain values.
pub open spec fn search_of(r: Result<Option<Vec<Note>>, Error>) -> Result<
    Option<Seq<Record>>,
    Error,
> {
    match r {
        Ok(Some(notes)) => Ok(Some(views(notes@))),
        Ok(None) => Ok(None),
        Err(e) => Err(e),
    }
}

/// A search result, or a refusal, as the result of a search that was made.
pub open spec fn searched(r: Result<Seq<Record>, Error>) -> Result<Option<Seq<Record>>, Error> {
    match r {
        Ok(found) => Ok(Some(found)),
        Err(e) => Err(e),
    }
}

/// What a search gives: by the path where one is given; else by the tags
/// where some are given; else everything where that is asked for; else
/// nothing is searched.
pub open spec fn spec_find_notes(entries: Stored, args: &SearchArgs) -> Result<
    Option<Seq<Record>>,
    Error,
> {
    match args.path {
        Some(path) => searched(spec_by_path(entries, path@)),
        None => if args.tags@.len() > 0 {
            searched(spec_find(entries, has_any_tag(strings(args.tags@))))
        } else if args.all {
            searched(spec_all(entries))
        } else {
            Ok(None)
        },
    }
}

/// Collects the notes that the search arguments ask for.
pub fn find_notes(index: &Index, args: &SearchArgs) -> (r: Result<Option<Vec<Note>>, Error>)
    ensures
        search_of(r) == spec_find_notes(index.stored(), args),
{
    let found = match &args.path {
        Some(path) => by_path(index, path.as_str())?,
        None => if args.tags.len() > 0 {
            by_tags(index, args.tags.as_slice())?
        } else if args.all {
            all(index)?
        } else {
            return Ok(None);
        },
    };
    Ok(Some(found))
}

} // verus!
