//! Small operations on byte strings, with their meaning on sequences.

use vstd::prelude::*;
use vstd::string::*;
use vstd::utf8::*;

verus! {

/// The bytes of a string, as UTF-8.
pub open spec fn bytes_of(s: &str) -> Seq<u8> {
    s.spec_bytes()
}

/// The first index in `[from, to)` at which `text` holds `byte`, or `to` where
/// there is none.
pub open spec fn find_first(text: Seq<u8>, from: int, to: int, byte: u8) -> int
    decreases to - from,
{
    if from >= to {
        to
    } else if text[from] == byte {
        from
    } else {
        find_first(text, from + 1, to, byte)
    }
}

/// `find_first` returns an index in range, the byte stands there, and it
/// stands nowhere before.
pub proof fn lemma_find_first(text: Seq<u8>, from: int, to: int, byte: u8)
    requires
        from <= to,
    ensures
        from <= find_first(text, from, to, byte) <= to,
        find_first(text, from, to, byte) < to ==> text[find_first(text, from, to, byte)] == byte,
        forall|j: int| from <= j < find_first(text, from, to, byte) ==> text[j] != byte,
    decreases to - from,
{
    if from < to && text[from] != byte {
        lemma_find_first(text, from + 1, to, byte);
    }
}

/// Whether two byte strings are equal.
pub fn bytes_same(a: &[u8], b: &[u8]) -> (same: bool)
    ensures
        same == (a@ == b@),
{
    if a.len() != b.len() {
        return false;
    }
    let mut i: usize = 0;
    while i < a.len()
        invariant
            0 <= i <= a.len(),
            a.len() == b.len(),
            forall|j: int| 0 <= j < i ==> a@[j] == b@[j],
        decreases a.len() - i,
    {
        if a[i] != b[i] {
            return false;
        }
        i += 1;
    }
    assert(a@ =~= b@);
    true
}

/// Whether the bytes of `text` in `[from, to)` equal `other`.
pub fn range_same(text: &[u8], from: usize, to: usize, other: &[u8]) -> (same: bool)
    requires
        from <= to <= text.len(),
    ensures
        same == (text@.subrange(from as int, to as int) == other@),
{
    if to - from != other.len() {
        return false;
    }
    let mut i: usize = 0;
    while i < other.len()
        invariant
            0 <= i <= other.len(),
            from <= to <= text.len(),
            to - from == other.len(),
            forall|j: int| 0 <= j < i ==> text@[from + j] == other@[j],
        decreases other.len() - i,
    {
        if text[from + i] != other[i] {
            assert(text@.subrange(from as int, to as int)[i as int] != other@[i as int]);
            return false;
        }
        i += 1;
    }
    assert(text@.subrange(from as int, to as int) =~= other@);
    true
}

/// Whether two strings hold the same characters.
pub fn str_same(a: &str, b: &str) -> (same: bool)
    ensures
        same == (a@ == b@),
{
    let same = bytes_same(a.as_bytes(), b.as_bytes());
    proof {
        encode_utf8_decode_utf8(a@);
        encode_utf8_decode_utf8(b@);
    }
    same
}

/// Appends the bytes of `source` in `[from, to)` to `target`.
pub fn extend_range(target: &mut Vec<u8>, source: &[u8], from: usize, to: usize)
    requires
        from <= to <= source.len(),
    ensures
        final(target)@ == old(target)@ + source@.subrange(from as int, to as int),
{
    let mut i: usize = from;
    while i < to
        invariant
            from <= i <= to <= source.len(),
            target@ == old(target)@ + source@.subrange(from as int, i as int),
        decreases to - i,
    {
        target.push(source[i]);
        assert(source@.subrange(from as int, i + 1) =~= source@.subrange(from as int, i as int).push(
            source@[i as int],
        ));
        i += 1;
    }
}

/// A copy of the bytes of `source` in `[from, to)`.
pub fn copy_range(source: &[u8], from: usize, to: usize) -> (copy: Vec<u8>)
    requires
        from <= to <= source.len(),
    ensures
        copy@ == source@.subrange(from as int, to as int),
{
    let mut copy: Vec<u8> = Vec::new();
    extend_range(&mut copy, source, from, to);
    copy
}

/// The first index in `[from, to)` at which `text` holds `byte`, or `to`.
pub fn find_byte(text: &[u8], from: usize, to: usize, byte: u8) -> (at: usize)
    requires
        from <= to <= text.len(),
    ensures
        at == find_first(text@, from as int, to as int, byte),
        from <= at <= to,
{
    let mut i: usize = from;
    while i < to && text[i] != byte
        invariant
            from <= i <= to <= text.len(),
            find_first(text@, i as int, to as int, byte) == find_first(
                text@,
                from as int,
                to as int,
                byte,
            ),
        decreases to - i,
    {
        i += 1;
    }
    i
}

} // verus!
