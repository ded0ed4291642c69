use vstd::prelude::*;

use crate::codec::decode_fields;
use crate::codec::decoded;
use crate::codec::encode_fields;
use crate::codec::encoded_record;
use crate::codec::lemma_decode_encode;
use crate::codec::lemma_decoded;
use crate::codec::Record;
use crate::codec::strings;
use crate::error::Error;
use crate::hashing::hash_text;
use crate::hashing::text_hash;
use crate::path::NotePath;
use crate::path::PathView;

verus! {

/// `list`, with `tag` at its end unless the list holds it already.
pub open spec fn with_tag(list: Seq<Seq<char>>, tag: Seq<char>) -> Seq<Seq<char>> {
    if list.contains(tag) {
        list
    } else {
        list.push(tag)
    }
}

/// `list` after each of `tags` was added, the first of them first.
pub open spec fn with_tags(list: Seq<Seq<char>>, tags: Seq<Seq<char>>) -> Seq<Seq<char>>
    decreases tags.len(),
{
    if tags.len() == 0 {
        list
    } else {
        with_tag(with_tags(list, tags.drop_last()), tags.last())
    }
}

/// `list` without those of its members that `tags` holds.
pub open spec fn without_tags(list: Seq<Seq<char>>, tags: Seq<Seq<char>>) -> Seq<Seq<char>> {
    list.filter(|t: Seq<char>| !tags.contains(t))
}

/// A list with one tag added holds what it held, and the tag.
pub proof fn lemma_with_tag(list: Seq<Seq<char>>, tag: Seq<char>)
    ensures
        with_tag(list, tag).to_set() == list.to_set().insert(tag),
        list.no_duplicates() ==> with_tag(list, tag).no_duplicates(),
        list.is_prefix_of(with_tag(list, tag)),
        list.contains(tag) ==> with_tag(list, tag) == list,
{
    let after = with_tag(list, tag);
    if !list.contains(tag) {
        assert forall|t: Seq<char>| after.to_set().contains(t) <==> list.to_set().insert(
            tag,
        ).contains(t) by {
            if after.contains(t) {
                let i = choose|i: int| 0 <= i < after.len() && after[i] == t;
                if i < list.len() {
                    assert(list[i] == t);
                }
            }
            if list.contains(t) {
                let i = choose|i: int| 0 <= i < list.len() && list[i] == t;
                assert(after[i] == t);
            }
            if t == tag {
                assert(after[list.len() as int] == t);
            }
        }
    }
    assert(after.to_set() =~= list.to_set().insert(tag));
}

/// Adding tags is the union of sets, and keeps a list free of repetition.
pub proof fn lemma_with_tags(list: Seq<Seq<char>>, tags: Seq<Seq<char>>)
    ensures
        with_tags(list, tags).to_set() == list.to_set().union(tags.to_set()),
        list.no_duplicates() ==> with_tags(list, tags).no_duplicates(),
        list.is_prefix_of(with_tags(list, tags)),
    decreases tags.len(),
{
    if tags.len() == 0 {
        assert(tags.to_set() =~= Set::empty());
        assert(list.to_set().union(tags.to_set()) =~= list.to_set());
    } else {
        let front = tags.drop_last();
        lemma_with_tags(list, front);
        lemma_with_tag(with_tags(list, front), tags.last());
        assert(tags =~= front.push(tags.last()));
        assert(tags.to_set() =~= front.to_set().insert(tags.last())) by {
            assert forall|t: Seq<char>| tags.to_set().contains(t) <==> front.to_set().insert(
                tags.last(),
            ).contains(t) by {
                if tags.contains(t) {
                    let i = choose|i: int| 0 <= i < tags.len() && tags[i] == t;
                    if i < front.len() {
                        assert(front[i] == t);
                    }
                }
                if front.contains(t) {
                    let i = choose|i: int| 0 <= i < front.len() && front[i] == t;
                    assert(tags[i] == t);
                }
                if t == tags.last() {
                    assert(tags[tags.len() - 1] == t);
                }
            }
        }
        assert(with_tags(list, tags).to_set() =~= list.to_set().union(tags.to_set()));
    }
}

/// Adding tags that the list holds already changes nothing.
pub proof fn lemma_with_present_tags(list: Seq<Seq<char>>, tags: Seq<Seq<char>>)
    requires
        forall|i: int| 0 <= i < tags.len() ==> list.contains(#[trigger] tags[i]),
    ensures
        with_tags(list, tags) == list,
    decreases tags.len(),
{
    if tags.len() > 0 {
        let front = tags.drop_last();
        assert forall|i: int| 0 <= i < front.len() implies list.contains(
            #[trigger] front[i],
        ) by {
            assert(front[i] == tags[i]);
        }
        lemma_with_present_tags(list, front);
        assert(list.contains(tags[tags.len() - 1]));
    }
}

/// Adding the same tags a second time changes nothing.
pub proof fn lemma_add_tags_idempotent(list: Seq<Seq<char>>, tags: Seq<Seq<char>>)
    ensures
        with_tags(with_tags(list, tags), tags) == with_tags(list, tags),
{
    let once = with_tags(list, tags);
    lemma_with_tags(list, tags);
    assert forall|i: int| 0 <= i < tags.len() implies once.contains(#[trigger] tags[i]) by {
        assert(tags.to_set().contains(tags[i]));
        assert(once.to_set().contains(tags[i]));
    }
    lemma_with_present_tags(once, tags);
}

/// Removing tags is the difference of sets, and keeps a list free of
/// repetition.
pub proof fn lemma_without_tags(list: Seq<Seq<char>>, tags: Seq<Seq<char>>)
    ensures
        without_tags(list, tags).to_set() == list.to_set().difference(tags.to_set()),
        list.no_duplicates() ==> without_tags(list, tags).no_duplicates(),
    decreases list.len(),
{
    let keep = |t: Seq<char>| !tags.contains(t);
    if list.len() == 0 {
        assert(list.filter(keep) =~= Seq::empty()) by {
            list.lemma_filter_len(keep);
        }
        assert(without_tags(list, tags).to_set() =~= list.to_set().difference(tags.to_set()));
    } else {
        let front = list.drop_last();
        let last = list.last();
        lemma_without_tags(front, tags);
        assert(list =~= front.push(last));
        lemma_filter_push(front, last, keep);
        let kept = front.filter(keep);
        assert forall|t: Seq<char>| without_tags(list, tags).to_set().contains(t)
            <==> list.to_set().difference(tags.to_set()).contains(t) by {
            if list.contains(t) {
                let i = choose|i: int| 0 <= i < list.len() && list[i] == t;
                if i < front.len() {
                    assert(front[i] == t);
                    assert(front.to_set().contains(t));
                }
            }
            if front.contains(t) {
                let i = choose|i: int| 0 <= i < front.len() && front[i] == t;
                assert(list[i] == t);
            }
            if kept.contains(t) {
                assert(kept.to_set().contains(t));
                let i = choose|i: int| 0 <= i < kept.len() && kept[i] == t;
                if keep(last) {
                    assert(kept.push(last)[i] == t);
                }
            }
            if keep(last) {
                assert(kept.push(last)[kept.len() as int] == last);
                if kept.push(last).contains(t) {
                    let i = choose|i: int| 0 <= i < kept.push(last).len() && kept.push(last)[i] == t;
                    if i < kept.len() {
                        assert(kept[i] == t);
                    }
                }
            }
            assert(list[list.len() - 1] == last);
        }
        assert(without_tags(list, tags).to_set() =~= list.to_set().difference(tags.to_set()));
        if list.no_duplicates() {
            assert(front.no_duplicates());
            if keep(last) {
                assert(!kept.contains(last)) by {
                    if kept.contains(last) {
                        assert(kept.to_set().contains(last));
                        assert(front.to_set().contains(last));
                        let i = choose|i: int| 0 <= i < front.len() && front[i] == last;
                        assert(list[i] == list[list.len() - 1]);
                    }
                }
            }
        }
    }
}

/// Removing tags of which the list holds none changes nothing.
pub proof fn lemma_without_absent_tags(list: Seq<Seq<char>>, tags: Seq<Seq<char>>)
    requires
        forall|i: int| 0 <= i < tags.len() ==> !list.contains(#[trigger] tags[i]),
    ensures
        without_tags(list, tags) == list,
    decreases list.len(),
{
    let keep = |t: Seq<char>| !tags.contains(t);
    if list.len() == 0 {
        assert(list.filter(keep) =~= list) by {
            list.lemma_filter_len(keep);
        }
    } else {
        let front = list.drop_last();
        let last = list.last();
        assert(list =~= front.push(last));
        assert forall|i: int| 0 <= i < tags.len() implies !front.contains(#[trigger] tags[i]) by {
            if front.contains(tags[i]) {
                let j = choose|j: int| 0 <= j < front.len() && front[j] == tags[i];
                assert(list[j] == tags[i]);
            }
        }
        lemma_without_absent_tags(front, tags);
        lemma_filter_push(front, last, keep);
        if tags.contains(last) {
            let i = choose|i: int| 0 <= i < tags.len() && tags[i] == last;
            assert(list[list.len() - 1] == tags[i]);
        }
    }
}

/// Adding tags to a list that holds none of them, and among which none
/// stands twice, puts them at its end.
pub proof fn lemma_with_fresh_tags(list: Seq<Seq<char>>, tags: Seq<Seq<char>>)
    requires
        (list + tags).no_duplicates(),
    ensures
        with_tags(list, tags) == list + tags,
    decreases tags.len(),
{
    if tags.len() == 0 {
        assert(list + tags =~= list);
    } else {
        let front = tags.drop_last();
        let whole = list + tags;
        assert forall|i: int, j: int|
            0 <= i < (list + front).len() && 0 <= j < (list + front).len() && i != j implies (list
            + front)[i] != (list + front)[j] by {
            assert((list + front)[i] == whole[i]);
            assert((list + front)[j] == whole[j]);
        }
        lemma_with_fresh_tags(list, front);
        let sofar = list + front;
        if sofar.contains(tags.last()) {
            let i = choose|i: int| 0 <= i < sofar.len() && sofar[i] == tags.last();
            assert(whole[i] == sofar[i]);
            assert(whole[whole.len() - 1] == tags.last());
        }
        assert(sofar.push(tags.last()) =~= whole);
    }
}

/// What reading a record back makes of it: the tags in the order of their
/// first occurrence, each once.
pub open spec fn read_back(r: Record) -> Record {
    Record { tags: with_tags(Seq::empty(), r.tags), ..r }
}

/// Reading back keeps the note, and keeps the record where no tag stands
/// twice in it.
pub proof fn lemma_read_back(r: Record)
    ensures
        read_back(r).same_note(r),
        read_back(r).tags.no_duplicates(),
        r.tags.no_duplicates() ==> read_back(r) == r,
{
    let none = Seq::<Seq<char>>::empty();
    lemma_with_tags(none, r.tags);
    assert(none.to_set() =~= Set::empty());
    assert(none.to_set().union(r.tags.to_set()) =~= r.tags.to_set());
    if r.tags.no_duplicates() {
        assert(none + r.tags =~= r.tags);
        lemma_with_fresh_tags(none, r.tags);
    }
}

/// What was written is what is read: a record that is turned into bytes
/// and read back is the same note, with every field and every tag; where
/// no tag stands twice in it, it is the same record.
pub proof fn lemma_round_trip(r: Record)
    requires
        encoded_record(r).len() <= u64::MAX,
    ensures
        Note::spec_deserialize(encoded_record(r)) is Some,
        Note::spec_deserialize(encoded_record(r))->0.same_note(r),
        r.tags.no_duplicates() ==> Note::spec_deserialize(encoded_record(r)) == Some(r),
{
    lemma_decode_encode(r, Seq::empty());
    assert(encoded_record(r) + Seq::<u8>::empty() =~= encoded_record(r));
    lemma_read_back(r);
}

/// The identity of a note is settled by the place of its content file:
/// two notes at one absolute path have one identity, whatever else they
/// hold and whenever it is asked.
pub proof fn lemma_id_by_path(a: Note, b: Note)
    requires
        a@.absolute_path == b@.absolute_path,
    ensures
        a.spec_id() == b.spec_id(),
{
}

/// The form of a timestamp: year, month, day, then hour, minute, second.
pub open spec fn timestamp_form() -> Seq<char> {
    "%Y-%m-%d %H:%M:%S"@
}

/// The form in which the times of a note are written.
pub fn timestamp_format() -> (format: &'static str)
    ensures
        format@ == timestamp_form(),
{
    "%Y-%m-%d %H:%M:%S"
}

/// The current local time as `chrono` gives it, written in `format`.
/// Trusted: for the form of a timestamp the call returns (a form that
/// `chrono` cannot read is left out, since writing in it panics); nothing
/// is claimed of the text, which depends on the clock and on the time zone
/// of the machine.
#[verifier::external_body]
pub(crate) fn local_timestamp(format: &str) -> (r: String)
    requires
        format@ == timestamp_form(),
{
    chrono::Local::now().format(format).to_string()
}

/// The metadata of one note, as the index keeps it.
#[derive(Debug, Clone)]
pub struct Note {
    /// The place of the content file, extension included.
    pub absolute_path: String,
    /// The path inside the root directory, without extension.
    pub relative_path: String,
    /// The last segment of the path.
    pub title: String,
    /// When the note was made.
    pub created: String,
    /// When the note was last changed.
    pub modified: String,
    /// The tags of the note: a set, kept as a list without repetition.
    pub tags: Vec<String>,
}

impl View for Note {
    type V = Record;

    open spec fn view(&self) -> Record {
        Record {
            absolute_path: self.absolute_path@,
            relative_path: self.relative_path@,
            title: self.title@,
            created: self.created@,
            modified: self.modified@,
            tags: strings(self.tags@),
        }
    }
}

/// Tells whether `list` holds `tag`.
pub(crate) fn holds(list: &[String], tag: &String) -> (r: bool)
    ensures
        r == strings(list@).contains(tag@),
{
    let mut i: usize = 0;
    while i < list.len()
        invariant
            i <= list.len(),
            forall|j: int| 0 <= j < i ==> strings(list@)[j] != tag@,
        decreases list.len() - i,
    {
        if list[i] == *tag {
            assert(strings(list@)[i as int] == tag@);
            return true;
        }
        i += 1;
    }
    false
}

impl Note {
    /// No tag stands twice.
    pub open spec fn wf(&self) -> bool {
        self@.tags.no_duplicates()
    }

    /// The tags as a set.
    pub open spec fn tag_set(&self) -> Set<Seq<char>> {
        self@.tags.to_set()
    }

    /// The identity of the note: the hash of the place of its content file.
    pub open spec fn spec_id(&self) -> u64 {
        text_hash(self.absolute_path@)
    }

    /// The identity under which the index keeps the note. It depends on
    /// `absolute_path` and on nothing else.
    pub fn id(&self) -> (id: u64)
        ensures
            id == self.spec_id(),
    {
        hash_text(self.absolute_path.as_str())
    }

    /// The record of a new note at `path` below `root`, made at `stamp`.
    pub open spec fn spec_stamped(
        path: PathView,
        root: Seq<char>,
        tags: Seq<Seq<char>>,
        stamp: Seq<char>,
    ) -> Record {
        Record {
            absolute_path: path.absolute_path_with_ext(root),
            relative_path: path.relative_path(),
            title: path.title,
            created: stamp,
            modified: stamp,
            tags: with_tags(Seq::empty(), tags),
        }
    }

    /// A new note at `path` below `root` with the given tags, made and last
    /// changed at `stamp`.
    pub fn stamped(path: &NotePath, root: &str, tags: &[String], stamp: String) -> (note: Note)
        ensures
            note@ == Note::spec_stamped(path@, root@, strings(tags@), stamp@),
            note.wf(),
    {
        let mut note = Note {
            absolute_path: path.absolute_path_with_ext(root),
            relative_path: path.relative_path(),
            title: path.title(),
            created: stamp.clone(),
            modified: stamp,
            tags: Vec::new(),
        };
        assert(strings(note.tags@) =~= Seq::empty());
        note.add_tags(tags);
        note
    }

    /// A new note at `path` below `root` with the given tags, made now.
    /// What the clock says is not known; all the rest is.
    pub fn new(path: &NotePath, root: &str, tags: &[String]) -> (note: Note)
        ensures
            note@ == Note::spec_stamped(path@, root@, strings(tags@), note@.created),
            note.wf(),
    {
        Note::stamped(path, root, tags, local_timestamp(timestamp_format()))
    }

    /// The record that `bytes` are read as, where they hold one.
    pub open spec fn spec_deserialize(bytes: Seq<u8>) -> Option<Record> {
        match decoded(bytes) {
            Some(r) => Some(read_back(r)),
            None => None,
        }
    }

    /// The identity of the note and the bytes that the index keeps for it.
    /// This always succeeds.
    pub fn serialize(&self) -> (r: Result<(u64, Vec<u8>), Error>)
        ensures
            r is Ok,
            r matches Ok(kv) ==> kv.0 == self.spec_id() && kv.1@ == encoded_record(self@),
            r matches Ok(kv) ==> Note::spec_deserialize(kv.1@) == Some(read_back(self@)),
    {
        let id = self.id();
        match encode_fields(
            &self.absolute_path,
            &self.relative_path,
            &self.title,
            &self.created,
            &self.modified,
            &self.tags,
        ) {
            Ok(bytes) => {
                let len = bytes.len();
                proof {
                    lemma_decoded(bytes@, self@);
                }
                Ok((id, bytes))
            },
            Err(_) => Err(Error::Serialize),
        }
    }

    /// Reads a note from the bytes that the index keeps. This succeeds
    /// exactly where the bytes begin with a record; a tag that the record
    /// names more than once is kept once.
    pub fn deserialize(record: &[u8]) -> (r: Result<Note, Error>)
        ensures
            r is Ok <==> Note::spec_deserialize(record@) is Some,
            r matches Ok(note) ==> Some(note@) == Note::spec_deserialize(record@) && note.wf(),
            r matches Err(e) ==> e == Error::Deserialize,
    {
        let len = record.len();
        match decode_fields(record) {
            Ok(fields) => {
                let ghost found = Record {
                    absolute_path: fields.0@,
                    relative_path: fields.1@,
                    title: fields.2@,
                    created: fields.3@,
                    modified: fields.4@,
                    tags: strings(fields.5@),
                };
                proof {
                    lemma_decoded(record@, found);
                    lemma_read_back(found);
                }
                let (absolute_path, relative_path, title, created, modified, tags) = fields;
                let mut note = Note {
                    absolute_path,
                    relative_path,
                    title,
                    created,
                    modified,
                    tags: Vec::new(),
                };
                assert(strings(note.tags@) =~= Seq::empty());
                note.add_tags(tags.as_slice());
                Ok(note)
            },
            Err(_) => Err(Error::Deserialize),
        }
    }

    /// A second note that holds what this one holds.
    pub fn duplicate(&self) -> (note: Note)
        ensures
            note@ == self@,
    {
        let mut tags: Vec<String> = Vec::new();
        let mut i: usize = 0;
        while i < self.tags.len()
            invariant
                i <= self.tags.len(),
                strings(tags@) == strings(self.tags@).take(i as int),
            decreases self.tags.len() - i,
        {
            let ghost list = strings(tags@);
            tags.push(self.tags[i].clone());
            assert(strings(tags@) =~= list.push(self.tags[i as int]@));
            assert(strings(self.tags@).take(i + 1) =~= strings(self.tags@).take(i as int).push(
                self.tags[i as int]@,
            ));
            i += 1;
        }
        assert(strings(self.tags@).take(self.tags.len() as int) =~= strings(self.tags@));
        Note {
            absolute_path: self.absolute_path.clone(),
            relative_path: self.relative_path.clone(),
            title: self.title.clone(),
            created: self.created.clone(),
            modified: self.modified.clone(),
            tags,
        }
    }

    /// Adds each of `tags` that the note does not have yet.
    pub fn add_tags(&mut self, tags: &[String])
        ensures
            final(self)@ == (Record { tags: with_tags(old(self)@.tags, strings(tags@)), ..old(self)@ }),
            final(self).tag_set() == old(self).tag_set().union(strings(tags@).to_set()),
            old(self).wf() ==> final(self).wf(),
    {
        proof {
            lemma_with_tags(self@.tags, strings(tags@));
        }
        let ghost before = self@.tags;
        let ghost added = strings(tags@);
        let mut i: usize = 0;
        assert(added.take(0) =~= Seq::empty());
        while i < tags.len()
            invariant
                i <= tags.len(),
                added == strings(tags@),
                self@ == (Record { tags: with_tags(before, added.take(i as int)), ..old(self)@ }),
            decreases tags.len() - i,
        {
            let tag = &tags[i];
            proof {
                assert(added.take(i + 1).drop_last() =~= added.take(i as int));
                assert(added.take(i + 1).last() == tag@);
            }
            if !holds(self.tags.as_slice(), tag) {
                let ghost list = strings(self.tags@);
                self.tags.push(tag.clone());
                assert(strings(self.tags@) =~= list.push(tag@));
            }
            i += 1;
        }
        assert(added.take(tags.len() as int) =~= added);
    }

    /// Removes each of `tags` that the note has.
    pub fn remove_tags(&mut self, tags: &[String])
        ensures
            final(self)@ == (Record {
                tags: without_tags(old(self)@.tags, strings(tags@)),
                ..old(self)@
            }),
            final(self).tag_set() == old(self).tag_set().difference(strings(tags@).to_set()),
            old(self).wf() ==> final(self).wf(),
    {
        proof {
            lemma_without_tags(self@.tags, strings(tags@));
        }
        let ghost before = self@.tags;
        let ghost removed = strings(tags@);
        let ghost keep = |t: Seq<char>| !removed.contains(t);
        let mut kept: Vec<String> = Vec::new();
        let mut i: usize = 0;
        assert(before.take(0).filter(keep) =~= Seq::empty()) by {
            before.take(0).lemma_filter_len(keep);
        }
        while i < self.tags.len()
            invariant
                i <= self.tags.len(),
                self@ == old(self)@,
                before == self@.tags,
                removed == strings(tags@),
                keep == |t: Seq<char>| !removed.contains(t),
                strings(kept@) == before.take(i as int).filter(keep),
            decreases self.tags.len() - i,
        {
            let tag = &self.tags[i];
            proof {
                assert(before.take(i + 1) =~= before.take(i as int).push(tag@));
                lemma_filter_push(before.take(i as int), tag@, keep);
            }
            if !holds(tags, tag) {
                let ghost list = strings(kept@);
                kept.push(tag.clone());
                assert(strings(kept@) =~= list.push(tag@));
            }
            i += 1;
        }
        assert(before.take(self.tags.len() as int) =~= before);
        self.tags = kept;
    }
}

/// Filtering a list with one more member at its end.
pub proof fn lemma_filter_push<A>(s: Seq<A>, a: A, pred: spec_fn(A) -> bool)
    ensures
        s.push(a).filter(pred) == if pred(a) {
            s.filter(pred).push(a)
        } else {
            s.filter(pred)
        },
{
    reveal(Seq::filter);
    assert(s.push(a).drop_last() =~= s);
}

} // verus!
