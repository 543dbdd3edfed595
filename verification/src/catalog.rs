//! Catalog rows of segments: their keys, and the cursor that streams them.
//!
//! A segment's row sits under the key `[kind] || realm_id || name`. Rows are
//! ordered by key, byte by byte, and are read in batches: each batch resumes at
//! the last key of the one before it followed by a zero byte.

use crate::errors::PagedbError;
use vstd::prelude::*;
use vstd::slice::slice_subrange;

verus! {

/// What compaction reads of a segment's metadata.
///
/// `K` is the store's segment kind, which is passed on and not looked into.
#[derive(Debug)]
pub struct SegmentMeta<K> {
    /// The id under which the segment's file is found.
    pub segment_id: [u8; 16],
    /// The realm that the segment belongs to.
    pub realm_id: [u8; 16],
    /// The kind given to the segment when it was created.
    pub segment_kind: K,
    /// Pages in the file, with its header page and its footer page.
    pub page_count: u64,
    /// Bytes in the file that are not garbage.
    pub total_bytes: u64,
}

/// A catalog row that links a segment.
#[derive(Debug)]
pub struct SegmentRow<K> {
    /// The row's key.
    pub key: Vec<u8>,
    /// The metadata stored under it.
    pub meta: SegmentMeta<K>,
}

/// The key under which a segment of the given realm and name is linked.
pub open spec fn segment_key(kind: u8, realm_id: [u8; 16], name: Seq<u8>) -> Seq<u8> {
    seq![kind] + realm_id@ + name
}

/// The name bytes of a segment key.
pub open spec fn name_in_key(key: Seq<u8>) -> Seq<u8> {
    key.skip(17)
}

/// Whether `key` is the key of some segment of the given realm.
pub open spec fn is_segment_key(kind: u8, realm_id: [u8; 16], key: Seq<u8>) -> bool {
    key == segment_key(kind, realm_id, name_in_key(key))
}

/// A key that is a segment's key under any name is one under the name it holds,
/// and that name can be read back from it.
pub proof fn law_name_is_read_back(kind: u8, realm_id: [u8; 16], name: Seq<u8>)
    ensures
        name_in_key(segment_key(kind, realm_id, name)) == name,
        is_segment_key(kind, realm_id, segment_key(kind, realm_id, name)),
{
    assert(name_in_key(segment_key(kind, realm_id, name)) =~= name);
}

/// A key is a segment's key exactly where it has the kind byte in front and the
/// sixteen bytes of the realm behind it; all that follows is the name.
pub proof fn law_valid_keys(kind: u8, realm_id: [u8; 16], key: Seq<u8>)
    ensures
        is_segment_key(kind, realm_id, key) <==> key.len() >= 17 && key[0] == kind
            && key.subrange(1, 17) == realm_id@,
        key.len() >= 17 ==> name_in_key(key) == key.subrange(17, key.len() as int),
{
    let spelled = segment_key(kind, realm_id, name_in_key(key));
    if is_segment_key(kind, realm_id, key) {
        assert(spelled.subrange(1, 17) =~= realm_id@);
    }
    if key.len() >= 17 && key[0] == kind && key.subrange(1, 17) == realm_id@ {
        assert forall|j: int| 0 <= j < 16 implies key[j + 1] == #[trigger] realm_id@[j] by {
            assert(key.subrange(1, 17)[j] == realm_id@[j]);
        }
        assert forall|i: int| 0 <= i < key.len() implies #[trigger] key[i] == spelled[i] by {
            if 1 <= i < 17 {
                assert(realm_id@[i - 1] == key[i]);
            }
        }
        assert(key =~= spelled);
    }
}

/// Splits the name off a segment row's key, once the key agrees with the row's
/// own metadata.
///
/// `segment_row_kind` is the byte that starts every segment row's key.
pub fn validate_segment_key<'a, K, E>(
    segment_row_kind: u8,
    key: &'a [u8],
    meta: &SegmentMeta<K>,
) -> (name: Result<&'a [u8], PagedbError<E>>)
    ensures
        match name {
            Ok(name) => key@ == segment_key(segment_row_kind, meta.realm_id, name@),
            Err(e) => e is MalformedSegmentKey && forall|name: Seq<u8>|
                key@ != #[trigger] segment_key(segment_row_kind, meta.realm_id, name),
        },
        name is Ok <==> is_segment_key(segment_row_kind, meta.realm_id, key@),
        name matches Ok(name) ==> name@ == name_in_key(key@),
        name is Ok <==> key@.len() >= 17 && key@[0] == segment_row_kind && key@.subrange(1, 17)
            == meta.realm_id@,
        name matches Ok(name) ==> name@ == key@.subrange(17, key@.len() as int),
        name matches Err(e) ==> e is MalformedSegmentKey,
{
    proof {
        law_valid_keys(segment_row_kind, meta.realm_id, key@);
    }
    if key.len() < 17 || key[0] != segment_row_kind {
        return Err(PagedbError::MalformedSegmentKey);
    }
    let mut i: usize = 0;
    while i < 16
        invariant
            i <= 16,
            key@.len() >= 17,
            forall|j: int| 0 <= j < i ==> #[trigger] meta.realm_id@[j] == key@[j + 1],
        decreases 16 - i,
    {
        if key[i + 1] != meta.realm_id[i] {
            assert forall|name: Seq<u8>|
                key@ != #[trigger] segment_key(segment_row_kind, meta.realm_id, name) by {
                assert(segment_key(segment_row_kind, meta.realm_id, name)[i + 1]
                    == meta.realm_id@[i as int]);
            }
            return Err(PagedbError::MalformedSegmentKey);
        }
        i = i + 1;
    }
    let name: &'a [u8] = slice_subrange(key, 17, key.len());
    assert(name@ =~= name_in_key(key@));
    assert(key@ =~= segment_key(segment_row_kind, meta.realm_id, name@));
    Ok(name)
}

/// The order of catalog keys: byte by byte, a proper prefix first.
pub open spec fn key_lt(a: Seq<u8>, b: Seq<u8>) -> bool
    decreases a.len(),
{
    if b.len() == 0 {
        false
    } else if a.len() == 0 {
        true
    } else if a[0] != b[0] {
        a[0] < b[0]
    } else {
        key_lt(a.drop_first(), b.drop_first())
    }
}

/// The cursor that resumes right behind `key`.
pub open spec fn cursor_behind(key: Seq<u8>) -> Seq<u8> {
    key.push(0)
}

/// The cursor that resumes right behind `last_key`: the key followed by a zero
/// byte.
pub fn resume_cursor(last_key: &[u8]) -> (cursor: Vec<u8>)
    ensures
        cursor@ == cursor_behind(last_key@),
        cursor@ == last_key@ + seq![0u8],
{
    let mut cursor: Vec<u8> = Vec::new();
    cursor.extend_from_slice(last_key);
    cursor.push(0);
    assert(cursor@ =~= cursor_behind(last_key@));
    assert(cursor@ =~= last_key@ + seq![0u8]);
    cursor
}

/// No key comes before itself.
pub proof fn lemma_key_lt_irreflexive(a: Seq<u8>)
    ensures
        !key_lt(a, a),
    decreases a.len(),
{
    if a.len() > 0 {
        lemma_key_lt_irreflexive(a.drop_first());
    }
}

/// Of two keys, at most one comes before the other.
pub proof fn lemma_key_lt_asymmetric(a: Seq<u8>, b: Seq<u8>)
    ensures
        key_lt(a, b) ==> !key_lt(b, a),
    decreases a.len(),
{
    if a.len() > 0 && b.len() > 0 && a[0] == b[0] {
        lemma_key_lt_asymmetric(a.drop_first(), b.drop_first());
    }
}

/// The resume cursor is the very next key: a key comes before it exactly when
/// it is `last` or comes before `last`. A batch that resumes there neither
/// repeats a row nor skips one.
pub proof fn law_cursor_is_the_next_key(key: Seq<u8>, last: Seq<u8>)
    ensures
        key_lt(key, cursor_behind(last)) <==> key == last || key_lt(key, last),
    decreases key.len(),
{
    if key.len() == 0 {
        if last.len() == 0 {
            assert(key =~= last);
        }
    } else if last.len() == 0 {
        assert(cursor_behind(last)[0] == 0);
        if key[0] == 0 {
            assert(!key_lt(key.drop_first(), cursor_behind(last).drop_first()));
        }
    } else {
        assert(cursor_behind(last)[0] == last[0]);
        assert(cursor_behind(last).drop_first() =~= cursor_behind(last.drop_first()));
        law_cursor_is_the_next_key(key.drop_first(), last.drop_first());
        if key[0] == last[0] && key.drop_first() == last.drop_first() {
            assert(key =~= seq![key[0]] + key.drop_first());
            assert(last =~= seq![last[0]] + last.drop_first());
        }
    }
}

/// A cursor of the kind byte alone comes before no key that starts with that
/// byte, so a stream that starts there misses none of them.
pub proof fn law_first_cursor_misses_nothing(kind: u8, key: Seq<u8>)
    requires
        key.len() > 0,
        key[0] == kind,
    ensures
        !key_lt(key, seq![kind]),
{
    assert(!key_lt(key.drop_first(), seq![kind].drop_first()));
}

} // verus!
