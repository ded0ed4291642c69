use vstd::bytes::*;
use vstd::prelude::*;
use vstd::slice::slice_to_vec;

use crate::codec::encoded_record;
use crate::codec::Record;
use crate::codec::strings;
use crate::effect::Effect;
use crate::effect::EffectView;
use crate::error::Error;
use crate::hashing::text_hash;
use crate::note::holds;
use crate::note::lemma_filter_push;
use crate::note::Note;
use crate::note::read_back;
use crate::note::with_tags;
use crate::note::without_tags;
use crate::path::NotePath;

verus! {

/// What the store holds: identities and the bytes kept under them, in the
/// order of a scan. An entry whose key is not the key of an identity has
/// none; a scan reads it all the same.
pub type Stored = Seq<(Option<u64>, Seq<u8>)>;

/// Some entry of `entries` stands under `id`.
pub open spec fn has_key(entries: Stored, id: u64) -> bool {
    exists|i: int| 0 <= i < entries.len() && (#[trigger] entries[i]).0 == Some(id)
}

/// No identity stands twice. Entries without an identity may be many.
pub open spec fn distinct_keys(entries: Stored) -> bool {
    forall|i: int, j: int|
        0 <= i < entries.len() && 0 <= j < entries.len() && i != j && (#[trigger] entries[i]).0 is Some
            ==> entries[i].0 != (#[trigger] entries[j]).0
}

/// The bytes kept under `id`, where there are any.
pub open spec fn lookup(entries: Stored, id: u64) -> Option<Seq<u8>> {
    if has_key(entries, id) {
        Some(entries[choose|i: int| 0 <= i < entries.len() && (#[trigger] entries[i]).0 == Some(id)].1)
    } else {
        None
    }
}

/// `entries` after `bytes` were put under `id`: in the place of what stood
/// there, or at the end.
pub open spec fn put(entries: Stored, id: u64, bytes: Seq<u8>) -> Stored {
    if has_key(entries, id) {
        Seq::new(
            entries.len(),
            |i: int|
                if entries[i].0 == Some(id) {
                    (Some(id), bytes)
                } else {
                    entries[i]
                },
        )
    } else {
        entries.push((Some(id), bytes))
    }
}

/// `entries` without what stood under `id`.
pub open spec fn deleted(entries: Stored, id: u64) -> Stored {
    entries.filter(|e: (Option<u64>, Seq<u8>)| e.0 != Some(id))
}

/// Pairs of identity and bytes, the bytes as plain values.
pub open spec fn pairs_view(v: Seq<(Option<u64>, Vec<u8>)>) -> Stored {
    v.map_values(|e: (Option<u64>, Vec<u8>)| (e.0, e.1@))
}

/// Putting keeps identities distinct, and what stands under them.
pub proof fn lemma_put(entries: Stored, id: u64, bytes: Seq<u8>)
    requires
        distinct_keys(entries),
    ensures
        distinct_keys(put(entries, id, bytes)),
        lookup(put(entries, id, bytes), id) == Some(bytes),
        forall|other: u64|
            other != id ==> lookup(put(entries, id, bytes), other) == lookup(entries, other),
        forall|other: u64| has_key(put(entries, id, bytes), other) <==> other == id || has_key(entries, other),
{
    let after = put(entries, id, bytes);
    if has_key(entries, id) {
        let k = choose|i: int| 0 <= i < entries.len() && (#[trigger] entries[i]).0 == Some(id);
        assert(after[k].0 == Some(id));
    } else {
        assert(after[entries.len() as int].0 == Some(id));
    }
    assert(has_key(after, id));
    assert forall|other: u64| has_key(after, other) <==> other == id || has_key(entries, other) by {
        if has_key(after, other) {
            let i = choose|i: int| 0 <= i < after.len() && (#[trigger] after[i]).0 == Some(other);
            if other != id {
                assert(entries[i].0 == Some(other));
            }
        }
        if has_key(entries, other) {
            let i = choose|i: int| 0 <= i < entries.len() && (#[trigger] entries[i]).0 == Some(other);
            assert(after[i].0 == Some(other));
        }
    }
    assert forall|other: u64| other != id implies lookup(after, other) == lookup(
        entries,
        other,
    ) by {
        if has_key(entries, other) {
            let i = choose|i: int| 0 <= i < entries.len() && (#[trigger] entries[i]).0 == Some(other);
            let j = choose|j: int| 0 <= j < after.len() && (#[trigger] after[j]).0 == Some(other);
            assert(entries[j].0 == Some(other));
            assert(i == j);
        }
    }
}

/// Deleting keeps identities distinct, removes what stood under the
/// identity, and leaves the rest.
pub proof fn lemma_deleted(entries: Stored, id: u64)
    requires
        distinct_keys(entries),
    ensures
        distinct_keys(deleted(entries, id)),
        lookup(deleted(entries, id), id) is None,
        forall|other: u64| other != id ==> lookup(deleted(entries, id), other) == lookup(entries, other),
        !has_key(entries, id) ==> deleted(entries, id) == entries,
    decreases entries.len(),
{
    lemma_deleted_members(entries, id);
    let after = deleted(entries, id);
    assert forall|other: u64| other != id implies lookup(after, other) == lookup(
        entries,
        other,
    ) by {
        if has_key(entries, other) {
            let i = choose|i: int| 0 <= i < entries.len() && (#[trigger] entries[i]).0 == Some(other);
            assert(after.contains(entries[i]));
            let j = choose|j: int| 0 <= j < after.len() && (#[trigger] after[j]).0 == Some(other);
            assert(entries.contains(after[j]));
            let i2 = choose|i2: int| 0 <= i2 < entries.len() && entries[i2] == after[j];
            assert(i2 == i);
        } else if has_key(after, other) {
            let j = choose|j: int| 0 <= j < after.len() && (#[trigger] after[j]).0 == Some(other);
            assert(entries.contains(after[j]));
            let i2 = choose|i2: int| 0 <= i2 < entries.len() && entries[i2] == after[j];
            assert(entries[i2].0 == Some(other));
        }
    }
    if !has_key(entries, id) {
        lemma_deleted_absent(entries, id);
    }
}

/// Deleting under an identity that is not there leaves the entries as they
/// are.
proof fn lemma_deleted_absent(entries: Stored, id: u64)
    requires
        !has_key(entries, id),
    ensures
        deleted(entries, id) == entries,
    decreases entries.len(),
{
    reveal(Seq::filter);
    if entries.len() > 0 {
        let front = entries.drop_last();
        assert forall|i: int| 0 <= i < front.len() implies (#[trigger] front[i]).0 != Some(id) by {
            assert(entries[i].0 != Some(id));
        }
        lemma_deleted_absent(front, id);
        assert(entries[entries.len() - 1].0 != Some(id));
        assert(front.push(entries.last()) =~= entries);
    }
}

/// What deleting leaves: the entries under other identities, in their
/// order, each once.
proof fn lemma_deleted_members(entries: Stored, id: u64)
    requires
        distinct_keys(entries),
    ensures
        distinct_keys(deleted(entries, id)),
        !has_key(deleted(entries, id), id),
        forall|e: (Option<u64>, Seq<u8>)| deleted(entries, id).contains(e) <==> entries.contains(e) && e.0 != Some(id),
    decreases entries.len(),
{
    reveal(Seq::filter);
    let keep = |e: (Option<u64>, Seq<u8>)| e.0 != Some(id);
    let after = deleted(entries, id);
    if entries.len() > 0 {
        let front = entries.drop_last();
        let last = entries.last();
        assert(distinct_keys(front)) by {
            assert forall|i: int, j: int|
                0 <= i < front.len() && 0 <= j < front.len() && i != j && (#[trigger] front[i]).0 is Some
                implies front[i].0 != (#[trigger] front[j]).0 by {
                assert(front[i] == entries[i] && front[j] == entries[j]);
            }
        }
        lemma_deleted_members(front, id);
        let kept = deleted(front, id);
        assert forall|e: (Option<u64>, Seq<u8>)| after.contains(e) <==> entries.contains(e) && e.0 != Some(id) by {
            if entries.contains(e) {
                let i = choose|i: int| 0 <= i < entries.len() && entries[i] == e;
                if i < front.len() {
                    assert(front[i] == e);
                    assert(front.contains(e));
                }
            }
            if front.contains(e) {
                let i = choose|i: int| 0 <= i < front.len() && front[i] == e;
                assert(entries[i] == e);
            }
            assert(entries[entries.len() - 1] == last);
            if keep(last) {
                assert(after == kept.push(last));
                assert(kept.push(last)[kept.len() as int] == last);
                if after.contains(e) {
                    let i = choose|i: int| 0 <= i < after.len() && after[i] == e;
                    if i < kept.len() {
                        assert(kept[i] == e);
                        assert(kept.contains(e));
                    }
                }
                if kept.contains(e) {
                    let i = choose|i: int| 0 <= i < kept.len() && kept[i] == e;
                    assert(after[i] == e);
                }
            }
        }
        if keep(last) {
            assert forall|i: int, j: int|
                0 <= i < after.len() && 0 <= j < after.len() && i != j && (#[trigger] after[i]).0 is Some
                implies after[i].0 != (#[trigger] after[j]).0 by {
                if i < kept.len() && j < kept.len() {
                    assert(after[i] == kept[i] && after[j] == kept[j]);
                } else {
                    let m = if i < kept.len() { i } else { j };
                    assert(after[m] == kept[m]);
                    assert(kept.contains(kept[m]));
                    assert(front.contains(kept[m]));
                    let f = choose|f: int| 0 <= f < front.len() && front[f] == kept[m];
                    assert(entries[f] == kept[m]);
                    assert(entries[entries.len() - 1] == last);
                }
            }
        }
        assert(!has_key(after, id)) by {
            if has_key(after, id) {
                let i = choose|i: int| 0 <= i < after.len() && (#[trigger] after[i]).0 == Some(id);
                assert(after.contains(after[i]));
            }
        }
    } else {
        assert(after =~= Seq::empty());
    }
}

/// Where identities are distinct, deleting under one takes out the one
/// entry that stands there.
proof fn lemma_deleted_at(entries: Stored, id: u64, at: int)
    requires
        distinct_keys(entries),
        0 <= at < entries.len(),
        entries[at].0 == Some(id),
    ensures
        deleted(entries, id) == entries.remove(at),
    decreases entries.len(),
{
    reveal(Seq::filter);
    let front = entries.drop_last();
    let last = entries.last();
    assert(entries[entries.len() - 1] == last);
    if at == entries.len() - 1 {
        assert(!has_key(front, id)) by {
            if has_key(front, id) {
                let i = choose|i: int| 0 <= i < front.len() && (#[trigger] front[i]).0 == Some(id);
                assert(entries[i].0 == entries[at].0);
            }
        }
        lemma_deleted_absent(front, id);
        assert(entries.remove(at) =~= front);
    } else {
        assert(distinct_keys(front)) by {
            assert forall|i: int, j: int|
                0 <= i < front.len() && 0 <= j < front.len() && i != j && (#[trigger] front[i]).0 is Some
                implies front[i].0 != (#[trigger] front[j]).0 by {
                assert(front[i] == entries[i] && front[j] == entries[j]);
            }
        }
        assert(front[at] == entries[at]);
        lemma_deleted_at(front, id, at);
        assert(last.0 != entries[at].0);
        assert(entries.remove(at) =~= front.remove(at).push(last));
    }
}

/// What a look under `id` gives: nothing, the record read from the bytes
/// that stand there, or the refusal of bytes that hold no record.
pub open spec fn spec_get(entries: Stored, id: u64) -> Result<Option<Record>, Error> {
    match lookup(entries, id) {
        None => Ok(None),
        Some(bytes) => match Note::spec_deserialize(bytes) {
            Some(record) => Ok(Some(record)),
            None => Err(Error::Deserialize),
        },
    }
}

/// Every entry holds a record.
pub open spec fn readable(entries: Stored) -> bool {
    forall|i: int| 0 <= i < entries.len() ==> Note::spec_deserialize((#[trigger] entries[i]).1) is Some
}

/// The records that the entries hold, in the order of a scan.
pub open spec fn records(entries: Stored) -> Seq<Record> {
    Seq::new(entries.len(), |i: int| Note::spec_deserialize(entries[i].1)->0)
}

/// The notes of `v`, each as its record.
pub open spec fn views(v: Seq<Note>) -> Seq<Record> {
    v.map_values(|n: Note| n@)
}

/// The test for a title.
pub open spec fn has_title(title: Seq<char>) -> spec_fn(Record) -> bool {
    |r: Record| r.title == title
}

/// The test for a relative path.
pub open spec fn has_path(path: Seq<char>) -> spec_fn(Record) -> bool {
    |r: Record| r.relative_path == path
}

/// The record has at least one of `tags`.
pub open spec fn shares_tag(r: Record, tags: Seq<Seq<char>>) -> bool {
    exists|i: int| 0 <= i < r.tags.len() && tags.contains(#[trigger] r.tags[i])
}

/// The test for having any of `tags`.
pub open spec fn has_any_tag(tags: Seq<Seq<char>>) -> spec_fn(Record) -> bool {
    |r: Record| shares_tag(r, tags)
}

/// What a search gives: the records that pass the test, in the order of a
/// scan, where every entry holds a record.
pub open spec fn spec_find(entries: Stored, test: spec_fn(Record) -> bool) -> Result<
    Seq<Record>,
    Error,
> {
    if readable(entries) {
        Ok(records(entries).filter(test))
    } else {
        Err(Error::Deserialize)
    }
}

/// The write that a change of tags handed back, as plain values.
pub open spec fn write_of(r: Result<Option<Effect>, Error>) -> Result<Option<EffectView>, Error> {
    match r {
        Ok(Some(write)) => Ok(Some(write@)),
        Ok(None) => Ok(None),
        Err(e) => Err(e),
    }
}

/// What a change of the tags under `id` does. Bytes that hold no record
/// are refused. Where nothing stands under `id`, nothing happens. Else the
/// record gets its new tags (`tags` added if `adding`, taken away if not)
/// and is put back under the identity of its own path.
pub open spec fn retagged(
    before: Stored,
    after: Stored,
    id: u64,
    tags: Seq<Seq<char>>,
    adding: bool,
    r: Result<Option<EffectView>, Error>,
) -> bool {
    match spec_get(before, id) {
        Err(e) => r == Err::<Option<EffectView>, Error>(e) && after == before,
        Ok(None) => r == Ok::<Option<EffectView>, Error>(None) && after == before,
        Ok(Some(record)) => {
            let changed = Record {
                tags: if adding {
                    with_tags(record.tags, tags)
                } else {
                    without_tags(record.tags, tags)
                },
                ..record
            };
            let key = text_hash(changed.absolute_path);
            r == Ok::<Option<EffectView>, Error>(
                Some(EffectView::Put { id: key, record: encoded_record(changed) }),
            ) && after == put(before, key, encoded_record(changed))
        },
    }
}

/// A record shares a tag with a list exactly where one of its tags stands
/// in the list: one is enough, and a record without tags shares none.
pub proof fn lemma_shares_tag(r: Record, tags: Seq<Seq<char>>)
    ensures
        shares_tag(r, tags) <==> exists|t: Seq<char>| r.tags.contains(t) && tags.contains(t),
        r.tags.len() == 0 ==> !shares_tag(r, tags),
        tags.len() == 0 ==> !shares_tag(r, tags),
{
    if shares_tag(r, tags) {
        let i = choose|i: int| 0 <= i < r.tags.len() && tags.contains(#[trigger] r.tags[i]);
        assert(r.tags.contains(r.tags[i]));
    }
    if exists|t: Seq<char>| r.tags.contains(t) && tags.contains(t) {
        let t = choose|t: Seq<char>| r.tags.contains(t) && tags.contains(t);
        let i = choose|i: int| 0 <= i < r.tags.len() && r.tags[i] == t;
        assert(tags.contains(r.tags[i]));
    }
}

/// A list of which one member passes a test is filtered to that member.
proof fn lemma_filter_one<A>(s: Seq<A>, test: spec_fn(A) -> bool, at: int)
    requires
        0 <= at < s.len(),
        forall|i: int| 0 <= i < s.len() ==> (test(#[trigger] s[i]) <==> i == at),
    ensures
        s.filter(test) == seq![s[at]],
    decreases s.len(),
{
    reveal(Seq::filter);
    let front = s.drop_last();
    if at == s.len() - 1 {
        lemma_filter_none(front, test);
        assert(seq![s[at]] =~= Seq::<A>::empty().push(s.last()));
    } else {
        assert(front[at] == s[at]);
        assert forall|i: int| 0 <= i < front.len() implies (test(#[trigger] front[i]) <==> i
            == at) by {
            assert(front[i] == s[i]);
        }
        lemma_filter_one(front, test, at);
        assert(!test(s[s.len() - 1]));
    }
}

/// A list of which no member passes a test is filtered to nothing.
proof fn lemma_filter_none<A>(s: Seq<A>, test: spec_fn(A) -> bool)
    requires
        forall|i: int| 0 <= i < s.len() ==> !test(#[trigger] s[i]),
    ensures
        s.filter(test) == Seq::<A>::empty(),
    decreases s.len(),
{
    reveal(Seq::filter);
    if s.len() > 0 {
        let front = s.drop_last();
        assert forall|i: int| 0 <= i < front.len() implies !test(#[trigger] front[i]) by {
            assert(front[i] == s[i]);
        }
        lemma_filter_none(front, test);
        assert(!test(s[s.len() - 1]));
    }
}

/// A note that was put into the index is found at its path: after the
/// record of a note was put under `id`, a search for its relative path
/// gives that note and no other, as long as no other entry holds a note at
/// that path.
pub proof fn lemma_put_then_find(entries: Stored, id: u64, record: Record)
    requires
        distinct_keys(entries),
        readable(entries),
        Note::spec_deserialize(encoded_record(record)) == Some(record),
        forall|i: int|
            0 <= i < entries.len() && (#[trigger] entries[i]).0 != Some(id) ==> records(
                entries,
            )[i].relative_path != record.relative_path,
    ensures
        spec_find(put(entries, id, encoded_record(record)), has_path(record.relative_path)) == Ok::<
            Seq<Record>,
            Error,
        >(seq![record]),
        spec_get(put(entries, id, encoded_record(record)), id) == Ok::<Option<Record>, Error>(
            Some(record),
        ),
{
    let bytes = encoded_record(record);
    let after = put(entries, id, bytes);
    let test = has_path(record.relative_path);
    lemma_put(entries, id, bytes);
    let at = if has_key(entries, id) {
        choose|i: int| 0 <= i < entries.len() && (#[trigger] entries[i]).0 == Some(id)
    } else {
        entries.len() as int
    };
    assert(after[at] == (Some(id), bytes));
    assert forall|i: int| 0 <= i < after.len() implies Note::spec_deserialize(
        (#[trigger] after[i]).1,
    ) is Some by {
        if i != at {
            assert(after[i] == entries[i]);
        }
    }
    let all = records(after);
    assert forall|i: int| 0 <= i < all.len() implies (test(#[trigger] all[i]) <==> i == at) by {
        if i != at {
            assert(after[i] == entries[i]);
            assert(entries[i].0 != Some(id));
            assert(all[i] == records(entries)[i]);
        }
    }
    lemma_filter_one(all, test, at);
}

/// What a look into the index gave, as plain values.
pub open spec fn got(r: Result<Option<Note>, Error>) -> Result<Option<Record>, Error> {
    match r {
        Ok(Some(note)) => Ok(Some(note@)),
        Ok(None) => Ok(None),
        Err(e) => Err(e),
    }
}

/// Where every entry holds a record, a look under any identity is not
/// refused.
pub proof fn lemma_readable_get(entries: Stored, id: u64)
    requires
        readable(entries),
    ensures
        spec_get(entries, id) is Ok,
{
    if has_key(entries, id) {
        let i = choose|i: int| 0 <= i < entries.len() && (#[trigger] entries[i]).0 == Some(id);
        assert(Note::spec_deserialize(entries[i].1) is Some);
    }
}

/// Every record stands under the identity of its own path.
pub open spec fn keyed_by_path(entries: Stored) -> bool {
    forall|i: int|
        0 <= i < entries.len() ==> (Note::spec_deserialize((#[trigger] entries[i]).1) matches Some(
            r,
        ) ==> entries[i].0 == Some(text_hash(r.absolute_path)))
}

/// Putting a record under the identity of its path keeps every record
/// under the identity of its own path.
pub proof fn lemma_put_keeps_keys(entries: Stored, record: Record)
    requires
        keyed_by_path(entries),
        Note::spec_deserialize(encoded_record(record)) == Some(read_back(record)),
    ensures
        keyed_by_path(put(entries, text_hash(record.absolute_path), encoded_record(record))),
{
    let id = text_hash(record.absolute_path);
    let after = put(entries, id, encoded_record(record));
    assert forall|i: int| 0 <= i < after.len() implies (Note::spec_deserialize(
        (#[trigger] after[i]).1,
    ) matches Some(r) ==> after[i].0 == Some(text_hash(r.absolute_path))) by {
        if after[i] != (Some(id), encoded_record(record)) {
            assert(after[i] == entries[i]);
        }
    }
}

/// What deleting leaves was there before.
proof fn lemma_deleted_within(entries: Stored, id: u64)
    ensures
        forall|e: (Option<u64>, Seq<u8>)| #[trigger]
            deleted(entries, id).contains(e) ==> entries.contains(e),
    decreases entries.len(),
{
    reveal(Seq::filter);
    if entries.len() > 0 {
        let front = entries.drop_last();
        let kept = deleted(front, id);
        lemma_deleted_within(front, id);
        assert forall|e: (Option<u64>, Seq<u8>)| deleted(entries, id).contains(e) implies entries.contains(
            e,
        ) by {
            let after = deleted(entries, id);
            let i = choose|i: int| 0 <= i < after.len() && after[i] == e;
            if i < kept.len() {
                assert(kept[i] == e);
                assert(kept.contains(e));
                assert(front.contains(e));
                let j = choose|j: int| 0 <= j < front.len() && front[j] == e;
                assert(front[j] == entries[j]);
            } else {
                assert(entries[entries.len() - 1] == e);
            }
        }
    }
}

/// Deleting keeps every record under the identity of its own path.
pub proof fn lemma_deleted_keeps_keys(entries: Stored, id: u64)
    requires
        keyed_by_path(entries),
    ensures
        keyed_by_path(deleted(entries, id)),
{
    let after = deleted(entries, id);
    assert forall|i: int| 0 <= i < after.len() implies (Note::spec_deserialize(
        (#[trigger] after[i]).1,
    ) matches Some(r) ==> after[i].0 == Some(text_hash(r.absolute_path))) by {
        lemma_deleted_within(entries, id);
        assert(deleted(entries, id).contains(after[i]));
        assert(entries.contains(after[i]));
        let j = choose|j: int| 0 <= j < entries.len() && entries[j] == after[i];
        assert(entries[j] == after[i]);
    }
}

/// The index of the notes: what the store holds under each identity. A
/// change of the index hands back the write that brings the store to the
/// same state.
pub struct Index {
    entries: Vec<(Option<u64>, Vec<u8>)>,
}

impl Index {
    /// What the index holds, in the order of a scan.
    pub closed spec fn stored(&self) -> Stored {
        pairs_view(self.entries@)
    }

    /// At most one record stands under an identity.
    pub open spec fn wf(&self) -> bool {
        distinct_keys(self.stored())
    }

    /// An index that holds nothing.
    pub fn new() -> (index: Index)
        ensures
            index.stored() == Seq::<(Option<u64>, Seq<u8>)>::empty(),
            index.wf(),
    {
        let index = Index { entries: Vec::new() };
        assert(index.stored() =~= Seq::empty());
        index
    }

    /// Where `id` stands among the entries.
    fn position(&self, id: u64) -> (r: Option<usize>)
        requires
            self.wf(),
        ensures
            r is Some <==> has_key(self.stored(), id),
            r matches Some(i) ==> i < self.stored().len() && self.stored()[i as int].0 == Some(id),
    {
        let mut i: usize = 0;
        while i < self.entries.len()
            invariant
                i <= self.entries.len(),
                forall|j: int| 0 <= j < i ==> (#[trigger] self.stored()[j]).0 != Some(id),
            decreases self.entries.len() - i,
        {
            let here = match self.entries[i].0 {
                Some(key) => key == id,
                None => false,
            };
            if here {
                assert(self.stored()[i as int].0 == Some(id));
                return Some(i);
            }
            i += 1;
        }
        None
    }

    /// Takes in an entry that the store holds already: `record` is put
    /// under `id`, over what stands there.
    pub fn load(&mut self, id: u64, record: Vec<u8>)
        requires
            old(self).wf(),
        ensures
            final(self).stored() == put(old(self).stored(), id, record@),
            final(self).wf(),
    {
        proof {
            lemma_put(self.stored(), id, record@);
        }
        let ghost before = self.stored();
        match self.position(id) {
            Some(i) => {
                self.entries.set(i, (Some(id), record));
                assert(self.stored() =~= put(before, id, record@)) by {
                    assert forall|j: int| 0 <= j < before.len() implies self.stored()[j] == put(
                        before,
                        id,
                        record@,
                    )[j] by {
                        if j != i {
                            assert(before[j].0 != before[i as int].0);
                        }
                    }
                }
            },
            None => {
                self.entries.push((Some(id), record));
                assert(self.stored() =~= put(before, id, record@));
            },
        }
    }

    /// Takes in an entry of the store by its key, and tells whether the
    /// key is the key of an identity. Where it is, the record is put under
    /// that identity. Where it is not, the record is kept without one, at
    /// the end: no look under an identity finds it, every scan reads it.
    pub fn take_in(&mut self, key: &[u8], record: Vec<u8>) -> (taken: bool)
        requires
            old(self).wf(),
        ensures
            final(self).wf(),
            taken == (key@.len() == 8),
            taken ==> final(self).stored() == put(
                old(self).stored(),
                spec_u64_from_le_bytes(key@),
                record@,
            ),
            !taken ==> final(self).stored() == old(self).stored().push((None, record@)),
    {
        match Index::id_of(key) {
            Some(id) => {
                self.load(id, record);
                true
            },
            None => {
                let ghost before = self.stored();
                self.entries.push((None, record));
                assert(self.stored() =~= before.push((None, record@)));
                false
            },
        }
    }

    /// The key of the store for `id`: its eight bytes, the low byte first.
    pub fn key_of(id: u64) -> (key: Vec<u8>)
        ensures
            key@ == spec_u64_to_le_bytes(id),
            key@.len() == 8,
    {
        u64_to_le_bytes(id)
    }

    /// The identity that a key of the store stands for, where it is the
    /// key of one.
    pub fn id_of(key: &[u8]) -> (id: Option<u64>)
        ensures
            id is Some <==> key@.len() == 8,
            id matches Some(i) ==> i == spec_u64_from_le_bytes(key@) && spec_u64_to_le_bytes(i)
                == key@,
    {
        if key.len() == 8 {
            proof {
                lemma_auto_spec_u64_to_from_le_bytes();
            }
            Some(u64_from_le_bytes(key))
        } else {
            None
        }
    }

    /// Puts the note under its identity, over what stands there. This
    /// always succeeds.
    pub fn insert(&mut self, note: &Note) -> (r: Result<Effect, Error>)
        requires
            old(self).wf(),
        ensures
            final(self).wf(),
            r is Ok,
            r matches Ok(write) ==> final(self).stored() == put(
                old(self).stored(),
                note.spec_id(),
                encoded_record(note@),
            ) && write@ == (EffectView::Put { id: note.spec_id(), record: encoded_record(note@) }),
            Note::spec_deserialize(encoded_record(note@)) == Some(read_back(note@)),
            keyed_by_path(old(self).stored()) ==> keyed_by_path(final(self).stored()),
    {
        match note.serialize() {
            Ok((id, record)) => {
                proof {
                    if keyed_by_path(self.stored()) {
                        lemma_put_keeps_keys(self.stored(), note@);
                    }
                }
                let write = Effect::Put { id, record: slice_to_vec(record.as_slice()) };
                self.load(id, record);
                Ok(write)
            },
            Err(e) => Err(e),
        }
    }

    /// Takes out what stands under `id`. Where nothing stands there the
    /// index stays as it is; the store is told to delete all the same.
    pub fn remove(&mut self, id: u64) -> (write: Effect)
        requires
            old(self).wf(),
        ensures
            final(self).wf(),
            final(self).stored() == deleted(old(self).stored(), id),
            write@ == (EffectView::Delete { id }),
            keyed_by_path(old(self).stored()) ==> keyed_by_path(final(self).stored()),
    {
        proof {
            lemma_deleted(self.stored(), id);
            if keyed_by_path(self.stored()) {
                lemma_deleted_keeps_keys(self.stored(), id);
            }
        }
        let ghost before = self.stored();
        match self.position(id) {
            Some(i) => {
                proof {
                    lemma_deleted_at(before, id, i as int);
                }
                self.entries.remove(i);
                assert(self.stored() =~= before.remove(i as int));
            },
            None => {},
        }
        Effect::Delete { id }
    }

    /// The note under `id`, where one stands there.
    pub fn get(&self, id: u64) -> (r: Result<Option<Note>, Error>)
        requires
            self.wf(),
        ensures
            got(r) == spec_get(self.stored(), id),
            r matches Ok(Some(note)) ==> note.wf(),
    {
        match self.position(id) {
            Some(i) => {
                proof {
                    let found = choose|j: int|
                        0 <= j < self.stored().len() && (#[trigger] self.stored()[j]).0 == Some(id);
                    assert(found == i);
                }
                match Note::deserialize(self.entries[i].1.as_slice()) {
                    Ok(note) => Ok(Some(note)),
                    Err(e) => Err(e),
                }
            },
            None => Ok(None),
        }
    }

    /// Every note of the index, in the order of a scan. One entry that
    /// holds no record fails the whole scan.
    pub fn get_all(&self) -> (r: Result<Vec<Note>, Error>)
        ensures
            r is Ok <==> readable(self.stored()),
            r matches Ok(notes) ==> views(notes@) == records(self.stored()),
            r matches Ok(notes) ==> forall|i: int| 0 <= i < notes.len() ==> (#[trigger] notes[i]).wf(),
            r matches Err(e) ==> e == Error::Deserialize,
    {
        let mut notes: Vec<Note> = Vec::new();
        let mut i: usize = 0;
        while i < self.entries.len()
            invariant
                i <= self.entries.len(),
                notes.len() == i,
                forall|j: int|
                    0 <= j < i ==> Note::spec_deserialize((#[trigger] self.stored()[j]).1) == Some(
                        notes[j]@,
                    ),
                forall|j: int| 0 <= j < i ==> (#[trigger] notes[j]).wf(),
            decreases self.entries.len() - i,
        {
            match Note::deserialize(self.entries[i].1.as_slice()) {
                Ok(note) => {
                    notes.push(note);
                },
                Err(e) => {
                    assert(Note::spec_deserialize(self.stored()[i as int].1) is None);
                    return Err(e);
                },
            }
            i += 1;
        }
        assert(views(notes@) =~= records(self.stored()));
        Ok(notes)
    }

    /// The notes that pass the test of `wanted`, in the order of a scan.
    fn search(&self, wanted: &Wanted) -> (r: Result<Vec<Note>, Error>)
        ensures
            r is Ok <==> readable(self.stored()),
            r matches Ok(notes) ==> Ok::<Seq<Record>, Error>(views(notes@)) == spec_find(
                self.stored(),
                wanted.test(),
            ),
            r matches Err(e) ==> e == Error::Deserialize,
    {
        let all = self.get_all()?;
        let ghost test = wanted.test();
        let mut found: Vec<Note> = Vec::new();
        let mut i: usize = 0;
        assert(views(all@).take(0).filter(test) =~= Seq::empty()) by {
            views(all@).take(0).lemma_filter_len(test);
        }
        while i < all.len()
            invariant
                i <= all.len(),
                test == wanted.test(),
                views(found@) == views(all@).take(i as int).filter(test),
            decreases all.len() - i,
        {
            proof {
                assert(views(all@).take(i + 1) =~= views(all@).take(i as int).push(all[i as int]@));
                lemma_filter_push(views(all@).take(i as int), all[i as int]@, test);
            }
            if wanted.passes(&all[i]) {
                let ghost list = views(found@);
                found.push(all[i].duplicate());
                assert(views(found@) =~= list.push(all[i as int]@));
            }
            i += 1;
        }
        assert(views(all@).take(all.len() as int) =~= views(all@));
        Ok(found)
    }

    /// The notes with this title, whatever their directory.
    pub fn find_by_title(&self, title: &str) -> (r: Result<Vec<Note>, Error>)
        ensures
            r is Ok <==> readable(self.stored()),
            r matches Ok(notes) ==> Ok::<Seq<Record>, Error>(views(notes@)) == spec_find(
                self.stored(),
                has_title(title@),
            ),
            r matches Err(e) ==> e == Error::Deserialize,
    {
        self.search(&Wanted::Title(title.to_owned()))
    }

    /// The notes at this relative path.
    pub fn find_by_path(&self, path: &NotePath) -> (r: Result<Vec<Note>, Error>)
        ensures
            r is Ok <==> readable(self.stored()),
            r matches Ok(notes) ==> Ok::<Seq<Record>, Error>(views(notes@)) == spec_find(
                self.stored(),
                has_path(path@.relative_path()),
            ),
            r matches Err(e) ==> e == Error::Deserialize,
    {
        self.search(&Wanted::Path(path.relative_path()))
    }

    /// The notes that have at least one of `tags`: any one is enough.
    pub fn find_by_tags(&self, tags: &[String]) -> (r: Result<Vec<Note>, Error>)
        ensures
            r is Ok <==> readable(self.stored()),
            r matches Ok(notes) ==> Ok::<Seq<Record>, Error>(views(notes@)) == spec_find(
                self.stored(),
                has_any_tag(strings(tags@)),
            ),
            r matches Err(e) ==> e == Error::Deserialize,
    {
        self.search(&Wanted::AnyTag(tags))
    }

    /// Adds tags to the note under `id`, and puts it back. Where no note
    /// stands under `id`, nothing happens.
    pub fn add_tags(&mut self, id: u64, tags: &[String]) -> (r: Result<Option<Effect>, Error>)
        requires
            old(self).wf(),
        ensures
            final(self).wf(),
            retagged(
                old(self).stored(),
                final(self).stored(),
                id,
                strings(tags@),
                true,
                write_of(r),
            ),
            keyed_by_path(old(self).stored()) ==> keyed_by_path(final(self).stored()),
    {
        match self.get(id)? {
            Some(note) => {
                let mut note = note;
                note.add_tags(tags);
                match self.insert(&note) {
                    Ok(write) => Ok(Some(write)),
                    Err(e) => Err(e),
                }
            },
            None => Ok(None),
        }
    }

    /// Takes tags from the note under `id`, and puts it back. Where no note
    /// stands under `id`, nothing happens.
    pub fn remove_tags(&mut self, id: u64, tags: &[String]) -> (r: Result<Option<Effect>, Error>)
        requires
            old(self).wf(),
        ensures
            final(self).wf(),
            retagged(
                old(self).stored(),
                final(self).stored(),
                id,
                strings(tags@),
                false,
                write_of(r),
            ),
            keyed_by_path(old(self).stored()) ==> keyed_by_path(final(self).stored()),
    {
        match self.get(id)? {
            Some(note) => {
                let mut note = note;
                note.remove_tags(tags);
                match self.insert(&note) {
                    Ok(write) => Ok(Some(write)),
                    Err(e) => Err(e),
                }
            },
            None => Ok(None),
        }
    }
}

/// What a search looks for.
enum Wanted<'a> {
    Title(String),
    Path(String),
    AnyTag(&'a [String]),
}

impl<'a> Wanted<'a> {
    /// The test that a record has to pass.
    spec fn test(&self) -> spec_fn(Record) -> bool {
        match self {
            Wanted::Title(title) => has_title(title@),
            Wanted::Path(path) => has_path(path@),
            Wanted::AnyTag(tags) => has_any_tag(strings(tags@)),
        }
    }

    /// Tells whether the note passes the test.
    fn passes(&self, note: &Note) -> (r: bool)
        ensures
            r == (self.test())(note@),
    {
        match self {
            Wanted::Title(title) => note.title == *title,
            Wanted::Path(path) => note.relative_path == *path,
            Wanted::AnyTag(tags) => shares(note, tags),
        }
    }
}

/// Tells whether the note has at least one of `tags`.
fn shares(note: &Note, tags: &[String]) -> (r: bool)
    ensures
        r == shares_tag(note@, strings(tags@)),
{
    let mut i: usize = 0;
    while i < note.tags.len()
        invariant
            i <= note.tags.len(),
            forall|j: int| 0 <= j < i ==> !strings(tags@).contains(#[trigger] note@.tags[j]),
        decreases note.tags.len() - i,
    {
        if holds(tags, &note.tags[i]) {
            assert(strings(tags@).contains(note@.tags[i as int]));
            return true;
        }
        i += 1;
    }
    false
}

} // verus!
