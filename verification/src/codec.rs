use vstd::bytes::*;
use vstd::prelude::*;
use vstd::utf8::*;

verus! {

/// What a note record holds, as plain values. The tags stand in the order
/// in which they are written.
pub struct Record {
    pub absolute_path: Seq<char>,
    pub relative_path: Seq<char>,
    pub title: Seq<char>,
    pub created: Seq<char>,
    pub modified: Seq<char>,
    pub tags: Seq<Seq<char>>,
}

impl Record {
    /// Two records that differ at most in the order and the repetition of
    /// their tags.
    pub open spec fn same_note(self, other: Record) -> bool {
        &&& self.absolute_path == other.absolute_path
        &&& self.relative_path == other.relative_path
        &&& self.title == other.title
        &&& self.created == other.created
        &&& self.modified == other.modified
        &&& self.tags.to_set() == other.tags.to_set()
    }
}

/// The strings of `v`, each as its characters.
pub open spec fn strings(v: Seq<String>) -> Seq<Seq<char>> {
    v.map_values(|s: String| s@)
}

/// A length on the wire: eight bytes, the low byte first.
pub open spec fn encoded_len(n: nat) -> Seq<u8> {
    spec_u64_to_le_bytes(n as u64)
}

/// A string on the wire: the length of its UTF-8 form, then that form.
pub open spec fn encoded_str(s: Seq<char>) -> Seq<u8> {
    encoded_len(encode_utf8(s).len()) + encode_utf8(s)
}

/// Strings on the wire, one after the other.
pub open spec fn encoded_strs(l: Seq<Seq<char>>) -> Seq<u8>
    decreases l.len(),
{
    if l.len() == 0 {
        Seq::empty()
    } else {
        encoded_str(l[0]) + encoded_strs(l.skip(1))
    }
}

/// A list of strings on the wire: how many there are, then each of them.
pub open spec fn encoded_list(l: Seq<Seq<char>>) -> Seq<u8> {
    encoded_len(l.len()) + encoded_strs(l)
}

/// A record on the wire: its five strings in the order of the fields, then
/// its tags.
pub open spec fn encoded_record(r: Record) -> Seq<u8> {
    encoded_str(r.absolute_path) + (encoded_str(r.relative_path) + (encoded_str(r.title) + (
    encoded_str(r.created) + (encoded_str(r.modified) + encoded_list(r.tags)))))
}

/// `bytes` begin with the record `r` as it stands on the wire.
pub open spec fn starts_with_record(bytes: Seq<u8>, r: Record) -> bool {
    encoded_record(r).is_prefix_of(bytes)
}

/// The record that `bytes` begin with, where they begin with one.
pub open spec fn decoded(bytes: Seq<u8>) -> Option<Record> {
    if exists|r: Record| starts_with_record(bytes, r) {
        Some(choose|r: Record| starts_with_record(bytes, r))
    } else {
        None
    }
}

/// Two lengths whose wire forms begin the same bytes are one length.
proof fn lemma_len_unique(n1: nat, x1: Seq<u8>, n2: nat, x2: Seq<u8>, bytes: Seq<u8>)
    requires
        bytes.len() <= u64::MAX,
        n1 <= bytes.len(),
        n2 <= bytes.len(),
        (encoded_len(n1) + x1).is_prefix_of(bytes),
        (encoded_len(n2) + x2).is_prefix_of(bytes),
    ensures
        n1 == n2,
        bytes.len() >= 8,
        x1.is_prefix_of(bytes.skip(8)),
        x2.is_prefix_of(bytes.skip(8)),
{
    lemma_auto_spec_u64_to_from_le_bytes();
    let e1 = encoded_len(n1);
    let e2 = encoded_len(n2);
    assert(e1.len() == 8 && e2.len() == 8);
    assert(e1 =~= bytes.take(8)) by {
        assert forall|i: int| 0 <= i < 8 implies e1[i] == bytes[i] by {
            assert((e1 + x1)[i] == e1[i]);
        }
    }
    assert(e2 =~= bytes.take(8)) by {
        assert forall|i: int| 0 <= i < 8 implies e2[i] == bytes[i] by {
            assert((e2 + x2)[i] == e2[i]);
        }
    }
    assert(spec_u64_from_le_bytes(e1) == n1 as u64);
    assert(spec_u64_from_le_bytes(e2) == n2 as u64);
    assert(x1 =~= (e1 + x1).skip(8));
    assert(x2 =~= (e2 + x2).skip(8));
    assert forall|i: int| 0 <= i < x1.len() implies x1[i] == bytes.skip(8)[i] by {
        assert((e1 + x1)[i + 8] == x1[i]);
    }
    assert forall|i: int| 0 <= i < x2.len() implies x2[i] == bytes.skip(8)[i] by {
        assert((e2 + x2)[i + 8] == x2[i]);
    }
}

/// Two strings whose wire forms begin the same bytes are one string, and
/// what follows either begins what follows it in the bytes.
proof fn lemma_str_unique(s1: Seq<char>, x1: Seq<u8>, s2: Seq<char>, x2: Seq<u8>, bytes: Seq<u8>)
    requires
        bytes.len() <= u64::MAX,
        (encoded_str(s1) + x1).is_prefix_of(bytes),
        (encoded_str(s2) + x2).is_prefix_of(bytes),
    ensures
        s1 == s2,
        encoded_str(s1).len() <= bytes.len(),
        x1.is_prefix_of(bytes.skip(encoded_str(s1).len() as int)),
        x2.is_prefix_of(bytes.skip(encoded_str(s1).len() as int)),
{
    lemma_auto_spec_u64_to_from_le_bytes();
    let u1 = encode_utf8(s1);
    let u2 = encode_utf8(s2);
    assert(encoded_str(s1) + x1 =~= encoded_len(u1.len()) + (u1 + x1));
    assert(encoded_str(s2) + x2 =~= encoded_len(u2.len()) + (u2 + x2));
    assert(u1.len() <= bytes.len());
    assert(u2.len() <= bytes.len());
    lemma_len_unique(u1.len(), u1 + x1, u2.len(), u2 + x2, bytes);
    let rest = bytes.skip(8);
    assert(u1 =~= rest.take(u1.len() as int)) by {
        assert forall|i: int| 0 <= i < u1.len() implies u1[i] == rest[i] by {
            assert((u1 + x1)[i] == u1[i]);
        }
    }
    assert(u2 =~= rest.take(u2.len() as int)) by {
        assert forall|i: int| 0 <= i < u2.len() implies u2[i] == rest[i] by {
            assert((u2 + x2)[i] == u2[i]);
        }
    }
    encode_utf8_decode_utf8(s1);
    encode_utf8_decode_utf8(s2);
    let k = encoded_str(s1).len() as int;
    assert(k == 8 + u1.len());
    assert forall|i: int| 0 <= i < x1.len() implies x1[i] == bytes.skip(k)[i] by {
        assert((u1 + x1)[i + u1.len()] == x1[i]);
        assert(rest[i + u1.len()] == bytes[i + k]);
    }
    assert forall|i: int| 0 <= i < x2.len() implies x2[i] == bytes.skip(k)[i] by {
        assert((u2 + x2)[i + u2.len()] == x2[i]);
        assert(rest[i + u2.len()] == bytes[i + k]);
    }
}

/// Every string on the wire takes at least the eight bytes of its length.
proof fn lemma_strs_len(l: Seq<Seq<char>>)
    ensures
        encoded_strs(l).len() >= 8 * l.len(),
    decreases l.len(),
{
    lemma_auto_spec_u64_to_from_le_bytes();
    if l.len() > 0 {
        lemma_strs_len(l.skip(1));
    }
}

/// Two lists of one length whose wire forms begin the same bytes are one list.
proof fn lemma_strs_unique(
    l1: Seq<Seq<char>>,
    x1: Seq<u8>,
    l2: Seq<Seq<char>>,
    x2: Seq<u8>,
    bytes: Seq<u8>,
)
    requires
        bytes.len() <= u64::MAX,
        l1.len() == l2.len(),
        (encoded_strs(l1) + x1).is_prefix_of(bytes),
        (encoded_strs(l2) + x2).is_prefix_of(bytes),
    ensures
        l1 == l2,
    decreases l1.len(),
{
    if l1.len() == 0 {
        assert(l1 =~= l2);
    } else {
        let t1 = l1.skip(1);
        let t2 = l2.skip(1);
        assert(encoded_strs(l1) + x1 =~= encoded_str(l1[0]) + (encoded_strs(t1) + x1));
        assert(encoded_strs(l2) + x2 =~= encoded_str(l2[0]) + (encoded_strs(t2) + x2));
        lemma_str_unique(l1[0], encoded_strs(t1) + x1, l2[0], encoded_strs(t2) + x2, bytes);
        lemma_strs_unique(t1, x1, t2, x2, bytes.skip(encoded_str(l1[0]).len() as int));
        assert(l1 =~= seq![l1[0]] + t1);
        assert(l2 =~= seq![l2[0]] + t2);
    }
}

/// Two lists whose wire forms begin the same bytes are one list.
proof fn lemma_list_unique(l1: Seq<Seq<char>>, l2: Seq<Seq<char>>, bytes: Seq<u8>)
    requires
        bytes.len() <= u64::MAX,
        encoded_list(l1).is_prefix_of(bytes),
        encoded_list(l2).is_prefix_of(bytes),
    ensures
        l1 == l2,
{
    lemma_strs_len(l1);
    lemma_strs_len(l2);
    lemma_len_unique(l1.len(), encoded_strs(l1), l2.len(), encoded_strs(l2), bytes);
    let empty = Seq::<u8>::empty();
    assert(encoded_strs(l1) + empty =~= encoded_strs(l1));
    assert(encoded_strs(l2) + empty =~= encoded_strs(l2));
    lemma_strs_unique(l1, empty, l2, empty, bytes.skip(8));
}

/// Bytes begin with at most one record.
pub proof fn lemma_record_unique(r1: Record, r2: Record, bytes: Seq<u8>)
    requires
        bytes.len() <= u64::MAX,
        starts_with_record(bytes, r1),
        starts_with_record(bytes, r2),
    ensures
        r1 == r2,
{
    let a1 = encoded_str(r1.relative_path) + (encoded_str(r1.title) + (encoded_str(r1.created) + (
    encoded_str(r1.modified) + encoded_list(r1.tags))));
    let a2 = encoded_str(r2.relative_path) + (encoded_str(r2.title) + (encoded_str(r2.created) + (
    encoded_str(r2.modified) + encoded_list(r2.tags))));
    lemma_str_unique(r1.absolute_path, a1, r2.absolute_path, a2, bytes);
    let bytes1 = bytes.skip(encoded_str(r1.absolute_path).len() as int);
    let b1 = encoded_str(r1.title) + (encoded_str(r1.created) + (encoded_str(r1.modified)
        + encoded_list(r1.tags)));
    let b2 = encoded_str(r2.title) + (encoded_str(r2.created) + (encoded_str(r2.modified)
        + encoded_list(r2.tags)));
    lemma_str_unique(r1.relative_path, b1, r2.relative_path, b2, bytes1);
    let bytes2 = bytes1.skip(encoded_str(r1.relative_path).len() as int);
    let c1 = encoded_str(r1.created) + (encoded_str(r1.modified) + encoded_list(r1.tags));
    let c2 = encoded_str(r2.created) + (encoded_str(r2.modified) + encoded_list(r2.tags));
    lemma_str_unique(r1.title, c1, r2.title, c2, bytes2);
    let bytes3 = bytes2.skip(encoded_str(r1.title).len() as int);
    let d1 = encoded_str(r1.modified) + encoded_list(r1.tags);
    let d2 = encoded_str(r2.modified) + encoded_list(r2.tags);
    lemma_str_unique(r1.created, d1, r2.created, d2, bytes3);
    let bytes4 = bytes3.skip(encoded_str(r1.created).len() as int);
    lemma_str_unique(r1.modified, encoded_list(r1.tags), r2.modified, encoded_list(r2.tags), bytes4);
    let bytes5 = bytes4.skip(encoded_str(r1.modified).len() as int);
    lemma_list_unique(r1.tags, r2.tags, bytes5);
}

/// What was written is what is read: the bytes of a record, whatever
/// follows them, decode to that record.
pub proof fn lemma_decode_encode(r: Record, rest: Seq<u8>)
    requires
        encoded_record(r).len() + rest.len() <= u64::MAX,
    ensures
        decoded(encoded_record(r) + rest) == Some(r),
{
    let bytes = encoded_record(r) + rest;
    assert(starts_with_record(bytes, r));
    let found = choose|f: Record| starts_with_record(bytes, f);
    lemma_record_unique(r, found, bytes);
}

/// Where bytes decode, they begin with the record they decode to, and with
/// no other.
pub proof fn lemma_decoded(bytes: Seq<u8>, r: Record)
    requires
        bytes.len() <= u64::MAX,
        starts_with_record(bytes, r),
    ensures
        decoded(bytes) == Some(r),
{
    let found = choose|f: Record| starts_with_record(bytes, f);
    lemma_record_unique(r, found, bytes);
}

/// The error type of `bincode`.
#[verifier::external_type_specification]
#[verifier::external_body]
pub struct ExErrorKind(bincode::ErrorKind);

/// Calls `bincode::serialize` on the six fields of a record, taken as a
/// tuple. Trusted: the call succeeds, since it writes strings and a list
/// of known length into a vector under no limit of size; and the bytes are
/// the five strings and then the list of tags, each string as the eight
/// little-endian bytes of its UTF-8 length followed by its UTF-8 bytes, the
/// list as the eight little-endian bytes of its length followed by its
/// strings.
#[verifier::external_body]
pub(crate) fn encode_fields(
    absolute_path: &String,
    relative_path: &String,
    title: &String,
    created: &String,
    modified: &String,
    tags: &Vec<String>,
) -> (r: Result<Vec<u8>, Box<bincode::ErrorKind>>)
    ensures
        r is Ok,
        r matches Ok(bytes) ==> bytes@ == encoded_record(
            (Record {
                absolute_path: absolute_path@,
                relative_path: relative_path@,
                title: title@,
                created: created@,
                modified: modified@,
                tags: strings(tags@),
            }),
        ),
{
    bincode::serialize(&(absolute_path, relative_path, title, created, modified, tags))
}

/// Calls `bincode::deserialize` for the six fields of a record, taken as a
/// tuple. Trusted: the call succeeds exactly where the bytes begin with a
/// record as `encode_fields` writes one (bytes after it are ignored), and
/// then returns the fields of that record.
#[verifier::external_body]
pub(crate) fn decode_fields(bytes: &[u8]) -> (r: Result<
    (String, String, String, String, String, Vec<String>),
    Box<bincode::ErrorKind>,
>)
    ensures
        r matches Ok(f) ==> starts_with_record(
            bytes@,
            (Record {
                absolute_path: f.0@,
                relative_path: f.1@,
                title: f.2@,
                created: f.3@,
                modified: f.4@,
                tags: strings(f.5@),
            }),
        ),
        (exists|rec: Record| starts_with_record(bytes@, rec)) ==> r is Ok,
{
    bincode::deserialize(bytes)
}

} // verus!
