//! The emitter: formats each resolved operation as one ASCII line and
//! appends it to the output buffer.
//!
//! Lines are `I <key> <value>`, `U <key> <value>`, `D <key>`, `P <key>` and
//! `R <key1> <key2>`: a one-byte tag, space-separated fields, a final
//! newline, no trailing whitespace. Keys and values are raw alphanumeric
//! byte strings, so no escaping is ever needed and each line holds exactly
//! one newline byte.

use crate::all_alnum;
use crate::is_alnum_byte;
use crate::Key;
use vstd::prelude::*;

verus! {

/// ASCII `I`, the tag of an insert line.
pub const TAG_INSERT: u8 = 73;

/// ASCII `U`, the tag of an update line.
pub const TAG_UPDATE: u8 = 85;

/// ASCII `D`, the tag of a delete line.
pub const TAG_DELETE: u8 = 68;

/// ASCII `P`, the tag of a point-query line.
pub const TAG_POINT_QUERY: u8 = 80;

/// ASCII `R`, the tag of a range-query line.
pub const TAG_RANGE_QUERY: u8 = 82;

/// ASCII space, the field separator.
pub const BYTE_SPACE: u8 = 32;

/// ASCII line feed, the line terminator.
pub const BYTE_NEWLINE: u8 = 10;

/// The bytes of a two-field line `<tag> <a> <b>\n`.
pub open spec fn two_field_line(tag: u8, a: Seq<u8>, b: Seq<u8>) -> Seq<u8> {
    seq![tag, BYTE_SPACE] + a + seq![BYTE_SPACE] + b + seq![BYTE_NEWLINE]
}

/// The bytes of a one-field line `<tag> <a>\n`.
pub open spec fn one_field_line(tag: u8, a: Seq<u8>) -> Seq<u8> {
    seq![tag, BYTE_SPACE] + a + seq![BYTE_NEWLINE]
}

/// The bytes of the line emitted for Insert(key, val).
pub open spec fn insert_line(key: Seq<u8>, val: Seq<u8>) -> Seq<u8> {
    two_field_line(TAG_INSERT, key, val)
}

/// The bytes of the line emitted for Update(key, val).
pub open spec fn update_line(key: Seq<u8>, val: Seq<u8>) -> Seq<u8> {
    two_field_line(TAG_UPDATE, key, val)
}

/// The bytes of the line emitted for Delete(key).
pub open spec fn delete_line(key: Seq<u8>) -> Seq<u8> {
    one_field_line(TAG_DELETE, key)
}

/// The bytes of the line emitted for PointQuery(key); empty point queries
/// emit the same shape of line.
pub open spec fn point_query_line(key: Seq<u8>) -> Seq<u8> {
    one_field_line(TAG_POINT_QUERY, key)
}

/// The bytes of the line emitted for RangeQuery(key1, key2).
pub open spec fn range_query_line(key1: Seq<u8>, key2: Seq<u8>) -> Seq<u8> {
    two_field_line(TAG_RANGE_QUERY, key1, key2)
}

/// How many newline bytes the sequence holds: the number of lines it ends.
pub open spec fn count_newlines(s: Seq<u8>) -> int
    decreases s.len(),
{
    if s.len() == 0 {
        0
    } else {
        count_newlines(s.drop_last()) + if s.last() == BYTE_NEWLINE {
            1int
        } else {
            0int
        }
    }
}

/// Newline counting distributes over concatenation.
pub proof fn lemma_count_newlines_add(a: Seq<u8>, b: Seq<u8>)
    ensures
        count_newlines(a + b) == count_newlines(a) + count_newlines(b),
    decreases b.len(),
{
    if b.len() == 0 {
        assert(a + b =~= a);
    } else {
        lemma_count_newlines_add(a, b.drop_last());
        assert((a + b).drop_last() =~= a + b.drop_last());
        assert((a + b).last() == b.last());
    }
}

/// An alphanumeric byte string holds no newline.
pub proof fn lemma_count_newlines_alnum(s: Seq<u8>)
    requires
        all_alnum(s),
    ensures
        count_newlines(s) == 0,
    decreases s.len(),
{
    if s.len() > 0 {
        assert(all_alnum(s.drop_last()));
        assert(is_alnum_byte(s.last()));
        lemma_count_newlines_alnum(s.drop_last());
    }
}

proof fn lemma_count_newlines_singleton(b: u8)
    ensures
        count_newlines(seq![b]) == if b == BYTE_NEWLINE {
            1int
        } else {
            0int
        },
{
    reveal_with_fuel(count_newlines, 2);
    assert(seq![b].drop_last() =~= Seq::<u8>::empty());
    assert(seq![b].last() == b);
}

proof fn lemma_count_newlines_pair(x: u8, y: u8)
    requires
        x != BYTE_NEWLINE,
        y != BYTE_NEWLINE,
    ensures
        count_newlines(seq![x, y]) == 0,
{
    lemma_count_newlines_singleton(x);
    assert(seq![x, y].drop_last() =~= seq![x]);
    assert(seq![x, y].last() == y);
}

/// A two-field line over alphanumeric fields holds exactly one newline, at
/// its end, and is 4 bytes longer than its fields.
pub proof fn lemma_two_field_line(tag: u8, a: Seq<u8>, b: Seq<u8>)
    requires
        tag != BYTE_NEWLINE,
        all_alnum(a),
        all_alnum(b),
    ensures
        count_newlines(two_field_line(tag, a, b)) == 1,
        two_field_line(tag, a, b).len() == a.len() + b.len() + 4,
{
    let line = two_field_line(tag, a, b);
    let head = seq![tag, BYTE_SPACE] + a + seq![BYTE_SPACE] + b;
    assert(line =~= head + seq![BYTE_NEWLINE]);
    lemma_count_newlines_add(head, seq![BYTE_NEWLINE]);
    lemma_count_newlines_singleton(BYTE_NEWLINE);
    lemma_count_newlines_singleton(BYTE_SPACE);
    lemma_count_newlines_add(seq![tag, BYTE_SPACE] + a + seq![BYTE_SPACE], b);
    lemma_count_newlines_add(seq![tag, BYTE_SPACE] + a, seq![BYTE_SPACE]);
    lemma_count_newlines_add(seq![tag, BYTE_SPACE], a);
    lemma_count_newlines_alnum(a);
    lemma_count_newlines_alnum(b);
    lemma_count_newlines_pair(tag, BYTE_SPACE);
}

/// A one-field line over an alphanumeric field holds exactly one newline, at
/// its end, and is 3 bytes longer than its field.
pub proof fn lemma_one_field_line(tag: u8, a: Seq<u8>)
    requires
        tag != BYTE_NEWLINE,
        all_alnum(a),
    ensures
        count_newlines(one_field_line(tag, a)) == 1,
        one_field_line(tag, a).len() == a.len() + 3,
{
    let head = seq![tag, BYTE_SPACE] + a;
    assert(one_field_line(tag, a) =~= head + seq![BYTE_NEWLINE]);
    lemma_count_newlines_add(head, seq![BYTE_NEWLINE]);
    lemma_count_newlines_singleton(BYTE_NEWLINE);
    lemma_count_newlines_add(seq![tag, BYTE_SPACE], a);
    lemma_count_newlines_alnum(a);
    lemma_count_newlines_pair(tag, BYTE_SPACE);
}

/// Appends every byte of `bytes` to the output buffer.
fn push_bytes(w: &mut Vec<u8>, bytes: &Key)
    ensures
        final (w)@ == old(w)@ + bytes@,
{
    let n = bytes.len();
    for i in 0..n
        invariant
            n == bytes@.len(),
            w@ == old(w)@ + bytes@.take(i as int),
    {
        w.push(bytes[i]);
        proof {
            assert(old(w)@ + bytes@.take(i + 1) =~= (old(w)@ + bytes@.take(i as int)).push(
                bytes@[i as int],
            ));
        }
    }
    proof {
        assert(bytes@.take(n as int) =~= bytes@);
    }
}

/// Formats resolved operations as ASCII lines into the output buffer.
pub struct AsciiWriter;

impl AsciiWriter {
    /// Appends the line `I <key> <val>\n`.
    pub fn write_insert(w: &mut Vec<u8>, key: &Key, val: &Key)
        ensures
            final (w)@ == old(w)@ + insert_line(key@, val@),
    {
        w.push(TAG_INSERT);
        w.push(BYTE_SPACE);
        push_bytes(w, key);
        w.push(BYTE_SPACE);
        push_bytes(w, val);
        w.push(BYTE_NEWLINE);
        proof {
            assert(final (w)@ =~= old(w)@ + insert_line(key@, val@));
        }
    }

    /// Appends the line `U <key> <val>\n`.
    pub fn write_update(w: &mut Vec<u8>, key: &Key, val: &Key)
        ensures
            final (w)@ == old(w)@ + update_line(key@, val@),
    {
        w.push(TAG_UPDATE);
        w.push(BYTE_SPACE);
        push_bytes(w, key);
        w.push(BYTE_SPACE);
        push_bytes(w, val);
        w.push(BYTE_NEWLINE);
        proof {
            assert(final (w)@ =~= old(w)@ + update_line(key@, val@));
        }
    }

    /// Appends the line `D <key>\n`.
    pub fn write_delete(w: &mut Vec<u8>, key: &Key)
        ensures
            final (w)@ == old(w)@ + delete_line(key@),
    {
        w.push(TAG_DELETE);
        w.push(BYTE_SPACE);
        push_bytes(w, key);
        w.push(BYTE_NEWLINE);
        proof {
            assert(final (w)@ =~= old(w)@ + delete_line(key@));
        }
    }

    /// Appends the line `P <key>\n`.
    pub fn write_point_query(w: &mut Vec<u8>, key: &Key)
        ensures
            final (w)@ == old(w)@ + point_query_line(key@),
    {
        w.push(TAG_POINT_QUERY);
        w.push(BYTE_SPACE);
        push_bytes(w, key);
        w.push(BYTE_NEWLINE);
        proof {
            assert(final (w)@ =~= old(w)@ + point_query_line(key@));
        }
    }

    /// Appends the line `R <key1> <key2>\n`.
    pub fn write_range_query(w: &mut Vec<u8>, key1: &Key, key2: &Key)
        ensures
            final (w)@ == old(w)@ + range_query_line(key1@, key2@),
    {
        w.push(TAG_RANGE_QUERY);
        w.push(BYTE_SPACE);
        push_bytes(w, key1);
        w.push(BYTE_SPACE);
        push_bytes(w, key2);
        w.push(BYTE_NEWLINE);
        proof {
            assert(final (w)@ =~= old(w)@ + range_query_line(key1@, key2@));
        }
    }
}

} // verus!
