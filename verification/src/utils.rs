use vstd::prelude::*;

use crate::codec::encoded_record;
use crate::codec::Record;
use crate::codec::strings;
use crate::effect::Effect;
use crate::effect::effects;
use crate::effect::EffectView;
use crate::error::Error;
use crate::file::create_file;
use crate::file::spec_create_file;
use crate::hashing::hash_text;
use crate::hashing::text_hash;
use crate::index::has_path;
use crate::index::has_title;
use crate::index::Index;
use crate::index::put;
use crate::index::readable;
use crate::index::records;
use crate::index::Stored;
use crate::index::views;
use crate::note::lemma_read_back;
use crate::note::Note;
use crate::path::NotePath;
use crate::path::parent_of;
use crate::path::parsed;
use crate::path::title_of;
use crate::path::trimmed;

verus! {

/// A question for the user.
#[derive(Debug, Clone, PartialEq, Eq)]
pub enum Prompt {
    /// No note has that name: shall it be created?
    Confirm,
    /// Several notes match: which of these relative paths is meant?
    Select { options: Vec<String> },
    /// Which of all the notes, by these relative paths, is meant?
    Fuzzy { options: Vec<String> },
}

/// A question as plain values.
pub enum PromptView {
    Confirm,
    Select { options: Seq<Seq<char>> },
    Fuzzy { options: Seq<Seq<char>> },
}

impl View for Prompt {
    type V = PromptView;

    open spec fn view(&self) -> PromptView {
        match self {
            Prompt::Confirm => PromptView::Confirm,
            Prompt::Select { options } => PromptView::Select { options: strings(options@) },
            Prompt::Fuzzy { options } => PromptView::Fuzzy { options: strings(options@) },
        }
    }
}

/// What the user answered, if anything was asked yet.
#[derive(Debug, Clone, Copy, PartialEq, Eq, Structural)]
pub enum Reply {
    /// Nothing was asked yet.
    Nothing,
    /// Yes or no.
    Confirmed(bool),
    /// The option at this place.
    Selected(usize),
    /// The user turned the question down.
    Cancelled,
}

/// How a search for one note ended.
#[derive(Debug)]
pub enum Lookup {
    /// This is the note, and these effects bring it about where it is new.
    Found { note: Note, effects: Vec<Effect> },
    /// The user has to decide; ask, and look again with the reply.
    Ask(Prompt),
    /// No note matches, and none is to be made.
    NotFound,
    /// The user turned the question down.
    Cancelled,
}

/// The end of a search as plain values.
pub enum LookupView {
    Found { note: Record, effects: Seq<EffectView> },
    Ask(PromptView),
    NotFound,
    Cancelled,
}

impl View for Lookup {
    type V = LookupView;

    open spec fn view(&self) -> LookupView {
        match self {
            Lookup::Found { note, effects: e } => LookupView::Found { note: note@, effects: effects(e@) },
            Lookup::Ask(prompt) => LookupView::Ask(prompt@),
            Lookup::NotFound => LookupView::NotFound,
            Lookup::Cancelled => LookupView::Cancelled,
        }
    }
}

/// How an operation on one note ended.
#[derive(Debug)]
pub enum Outcome {
    /// It is decided: these are its effects, in their order.
    Done(Vec<Effect>),
    /// The user has to decide; ask, and run the operation again with the
    /// reply.
    Ask(Prompt),
    /// No note matches, and none is to be made.
    NotFound,
    /// The user turned the question down.
    Cancelled,
}

/// The end of an operation as plain values.
pub enum OutcomeView {
    Done(Seq<EffectView>),
    Ask(PromptView),
    NotFound,
    Cancelled,
}

impl View for Outcome {
    type V = OutcomeView;

    open spec fn view(&self) -> OutcomeView {
        match self {
            Outcome::Done(e) => OutcomeView::Done(effects(e@)),
            Outcome::Ask(prompt) => OutcomeView::Ask(prompt@),
            Outcome::NotFound => OutcomeView::NotFound,
            Outcome::Cancelled => OutcomeView::Cancelled,
        }
    }
}

/// The test that a trimmed path stands for: with a directory it names one
/// relative path, without one it names a title in any directory.
pub open spec fn names(t: Seq<char>) -> spec_fn(Record) -> bool {
    if parent_of(t) is Some {
        has_path(t)
    } else {
        has_title(title_of(t))
    }
}

/// The relative paths of the records, in their order.
pub open spec fn options_of(found: Seq<Record>) -> Seq<Seq<char>> {
    found.map_values(|r: Record| r.relative_path)
}

/// How a search ends where nothing has to be created: with the one match;
/// with a question where there are several, or with the match that the
/// reply picks; without a note where there is none. `None` stands for the
/// one case left, in which a note is created.
pub open spec fn settled(found: Seq<Record>, create_if_empty: bool, reply: Reply) -> Option<
    LookupView,
> {
    if found.len() == 1 {
        Some(LookupView::Found { note: found[0], effects: Seq::empty() })
    } else if found.len() >= 2 {
        match reply {
            Reply::Selected(i) if i < found.len() => Some(
                LookupView::Found { note: found[i as int], effects: Seq::empty() },
            ),
            Reply::Cancelled => Some(LookupView::Cancelled),
            _ => Some(LookupView::Ask(PromptView::Select { options: options_of(found) })),
        }
    } else if !create_if_empty {
        Some(LookupView::NotFound)
    } else {
        match reply {
            Reply::Confirmed(true) => None,
            Reply::Confirmed(false) => Some(LookupView::NotFound),
            Reply::Cancelled => Some(LookupView::Cancelled),
            _ => Some(LookupView::Ask(PromptView::Confirm)),
        }
    }
}

/// Zero, one, many: without a match, and with no leave to create, the
/// search reports that nothing was found; one match is the answer whatever
/// the reply, so that nothing is asked; several matches, before any reply,
/// are put to the user as their relative paths in the order of the scan.
pub proof fn lemma_zero_one_many(found: Seq<Record>, create_if_empty: bool, reply: Reply)
    ensures
        found.len() == 0 && !create_if_empty ==> settled(found, create_if_empty, reply) == Some(
            LookupView::NotFound,
        ),
        found.len() == 1 ==> settled(found, create_if_empty, reply) == Some(
            LookupView::Found { note: found[0], effects: Seq::empty() },
        ),
        found.len() >= 2 ==> settled(found, create_if_empty, Reply::Nothing) == Some(
            LookupView::Ask(PromptView::Select { options: options_of(found) }),
        ),
        found.len() >= 2 ==> options_of(found).len() == found.len() && forall|i: int|
            0 <= i < found.len() ==> options_of(found)[i] == (#[trigger] found[i]).relative_path,
{
}

/// How the search for `path` in `entries` ends, as far as `settled` says.
pub open spec fn sought(entries: Stored, path: Seq<char>, create_if_empty: bool, reply: Reply) -> Option<
    LookupView,
> {
    settled(records(entries).filter(names(trimmed(path))), create_if_empty, reply)
}

/// How an operation ended, or why it was refused, as plain values.
pub open spec fn outcome_of(r: Result<Outcome, Error>) -> Result<OutcomeView, Error> {
    match r {
        Ok(outcome) => Ok(outcome@),
        Err(e) => Err(e),
    }
}

/// How an operation on the note named by `path` ends where it does not get
/// to a note: a path that names nothing is refused, and so is an index with
/// an entry that holds no record; a question goes to the user; no match
/// and a question turned down end it. `None` where it does get to a note,
/// found or to be created.
pub open spec fn halted(entries: Stored, path: Seq<char>, create_if_empty: bool, reply: Reply) -> Option<
    Result<OutcomeView, Error>,
> {
    if parsed(path) is None {
        Some(Err(Error::EmptyPath))
    } else if !readable(entries) {
        Some(Err(Error::Deserialize))
    } else {
        match sought(entries, path, create_if_empty, reply) {
            Some(LookupView::Ask(prompt)) => Some(Ok(OutcomeView::Ask(prompt))),
            Some(LookupView::NotFound) => Some(Ok(OutcomeView::NotFound)),
            Some(LookupView::Cancelled) => Some(Ok(OutcomeView::Cancelled)),
            Some(LookupView::Found { .. }) => None,
            None => None,
        }
    }
}

/// The note that an operation on `path` gets to where one is found.
pub open spec fn found_note(entries: Stored, path: Seq<char>, create_if_empty: bool, reply: Reply) -> Option<
    Record,
> {
    match sought(entries, path, create_if_empty, reply) {
        Some(LookupView::Found { note, effects }) => Some(note),
        _ => None,
    }
}

/// What the search for the note named by `path` does. A path that names
/// nothing is refused, and so is an index with an entry that holds no
/// record. Where `settled` says how the search ends, it ends so and the
/// index stays as it is. In the case left, the note is created: its content
/// file is planned, and its record is put into the index.
pub open spec fn resolved(
    before: Stored,
    after: Stored,
    root: Seq<char>,
    path: Seq<char>,
    create_if_empty: bool,
    reply: Reply,
    r: Result<Lookup, Error>,
) -> bool {
    if parsed(path) is None {
        r == Err::<Lookup, Error>(Error::EmptyPath) && after == before
    } else if !readable(before) {
        r == Err::<Lookup, Error>(Error::Deserialize) && after == before
    } else {
        match sought(before, path, create_if_empty, reply) {
            Some(end) => r matches Ok(l) && l@ == end && after == before,
            None => match r {
                Ok(Lookup::Found { note, effects: steps }) => {
                    &&& note@ == Note::spec_stamped(
                        parsed(path)->0,
                        root,
                        Seq::empty(),
                        note@.created,
                    )
                    &&& Note::spec_deserialize(encoded_record(note@)) == Some(note@)
                    &&& after == put(before, note.spec_id(), encoded_record(note@))
                    &&& effects(steps@) == spec_create_file(parsed(path)->0, root).push(
                        EffectView::Put { id: note.spec_id(), record: encoded_record(note@) },
                    )
                },
                _ => false,
            },
        }
    }
}

/// How the choice among all the notes ends: with the note that the reply
/// picks, with nothing where the user turned the question down, else with
/// the question.
pub open spec fn browsed(all: Seq<Record>, reply: Reply) -> LookupView {
    match reply {
        Reply::Selected(i) if i < all.len() => LookupView::Found {
            note: all[i as int],
            effects: Seq::empty(),
        },
        Reply::Cancelled => LookupView::Cancelled,
        _ => LookupView::Ask(PromptView::Fuzzy { options: options_of(all) }),
    }
}

/// Creates a note: plans its content file, and puts its record into the
/// index. The file comes before the write to the store.
pub fn create_note(index: &mut Index, root: &str, path: &NotePath, tags: &[String]) -> (r: Result<
    (Note, Vec<Effect>),
    Error,
>)
    requires
        old(index).wf(),
    ensures
        final(index).wf(),
        r is Ok,
        r matches Ok(made) ==> {
            &&& made.0@ == Note::spec_stamped(path@, root@, strings(tags@), made.0@.created)
            &&& made.0.wf()
            &&& Note::spec_deserialize(encoded_record(made.0@)) == Some(made.0@)
            &&& final(index).stored() == put(
                old(index).stored(),
                made.0.spec_id(),
                encoded_record(made.0@),
            )
            &&& effects(made.1@) == spec_create_file(path@, root@).push(
                EffectView::Put { id: made.0.spec_id(), record: encoded_record(made.0@) },
            )
        },
{
    let note = Note::new(path, root, tags);
    proof {
        lemma_read_back(note@);
    }
    let mut steps = create_file(path, root);
    match index.insert(&note) {
        Ok(write) => {
            let ghost planned = effects(steps@);
            steps.push(write);
            assert(effects(steps@) =~= planned.push(write@));
            Ok((note, steps))
        },
        Err(e) => Err(e),
    }
}

/// The relative paths of the notes, in their order.
pub fn options(notes: &Vec<Note>) -> (r: Vec<String>)
    ensures
        strings(r@) == options_of(views(notes@)),
{
    let mut r: Vec<String> = Vec::new();
    let mut i: usize = 0;
    while i < notes.len()
        invariant
            i <= notes.len(),
            strings(r@) == options_of(views(notes@)).take(i as int),
        decreases notes.len() - i,
    {
        let ghost list = strings(r@);
        r.push(notes[i].relative_path.clone());
        assert(strings(r@) =~= list.push(notes[i as int]@.relative_path));
        assert(options_of(views(notes@)).take(i + 1) =~= options_of(views(notes@)).take(
            i as int,
        ).push(notes[i as int]@.relative_path));
        i += 1;
    }
    assert(options_of(views(notes@)).take(notes.len() as int) =~= options_of(views(notes@)));
    r
}

/// Finds the one note that the user means by `path`.
///
/// With a directory in it the path names one relative path; without one it
/// names a title in any directory. One match is the answer. Several matches
/// are put to the user. No match ends the search, unless a note may be
/// created and the user agrees, in which case it is created. The index
/// changes in that last case only.
pub fn get_note(
    index: &mut Index,
    root: &str,
    path: &str,
    create_if_empty: bool,
    reply: Reply,
) -> (r: Result<Lookup, Error>)
    requires
        old(index).wf(),
    ensures
        final(index).wf(),
        resolved(old(index).stored(), final(index).stored(), root@, path@, create_if_empty, reply, r),
{
    let note_path = NotePath::parse(path)?;
    let found = if note_path.has_parent() {
        index.find_by_path(&note_path)?
    } else {
        index.find_by_title(note_path.title.as_str())?
    };
    let none: Vec<Effect> = Vec::new();
    proof {
        assert(views(found@) == records(index.stored()).filter(names(trimmed(path@))));
        assert(effects(none@) =~= Seq::empty());
        assert(forall|i: int| 0 <= i < found.len() ==> views(found@)[i] == found[i]@);
    }
    if found.len() == 1 {
        return Ok(Lookup::Found { note: found[0].duplicate(), effects: none });
    }
    if found.len() >= 2 {
        return Ok(
            match reply {
                Reply::Selected(i) if i < found.len() => Lookup::Found {
                    note: found[i].duplicate(),
                    effects: none,
                },
                Reply::Cancelled => Lookup::Cancelled,
                _ => Lookup::Ask(Prompt::Select { options: options(&found) }),
            },
        );
    }
    if !create_if_empty {
        return Ok(Lookup::NotFound);
    }
    match reply {
        Reply::Confirmed(true) => {
            let tags: Vec<String> = Vec::new();
            let (note, steps) = create_note(index, root, &note_path, tags.as_slice())?;
            Ok(Lookup::Found { note, effects: steps })
        },
        Reply::Confirmed(false) => Ok(Lookup::NotFound),
        Reply::Cancelled => Ok(Lookup::Cancelled),
        _ => Ok(Lookup::Ask(Prompt::Confirm)),
    }
}

/// The hash of the content of a note, by which a change is noticed.
pub fn hash_note(contents: &str) -> (h: u64)
    ensures
        h == text_hash(contents@),
{
    hash_text(contents)
}

/// Tells whether the editor changed the content of a note: whether the
/// hash of what the file held before differs from the hash of what it
/// holds after.
pub fn open_note(before: &str, after: &str) -> (changed: bool)
    ensures
        changed == (text_hash(before@) != text_hash(after@)),
{
    hash_note(before) != hash_note(after)
}

/// The rows of the table of notes: for each note its relative path and
/// when it was last changed.
pub open spec fn rows_of(found: Seq<Record>) -> Seq<(Seq<char>, Seq<char>)> {
    found.map_values(|r: Record| (r.relative_path, r.modified))
}

/// The rows of `v` as plain values.
pub open spec fn row_views(v: Seq<(String, String)>) -> Seq<(Seq<char>, Seq<char>)> {
    v.map_values(|row: (String, String)| (row.0@, row.1@))
}

/// The rows of the table that shows `notes`, in their order.
pub fn build_table(notes: &Vec<Note>) -> (rows: Vec<(String, String)>)
    ensures
        row_views(rows@) == rows_of(views(notes@)),
{
    let mut rows: Vec<(String, String)> = Vec::new();
    let mut i: usize = 0;
    while i < notes.len()
        invariant
            i <= notes.len(),
            row_views(rows@) == rows_of(views(notes@)).take(i as int),
        decreases notes.len() - i,
    {
        let ghost list = row_views(rows@);
        let ghost row = (notes[i as int]@.relative_path, notes[i as int]@.modified);
        rows.push((notes[i].relative_path.clone(), notes[i].modified.clone()));
        assert(row_views(rows@) =~= list.push(row));
        assert(rows_of(views(notes@)).take(i + 1) =~= rows_of(views(notes@)).take(i as int).push(
            row,
        ));
        i += 1;
    }
    assert(rows_of(views(notes@)).take(notes.len() as int) =~= rows_of(views(notes@)));
    rows
}

} // verus!
