//! The normal form of resource identifiers.
//!
//! An identifier with a scheme is brought into one form: the scheme is in
//! small letters, the hexadecimal digits of percent escapes are capitals, and
//! a file URI does not end in a slash. An identifier without a scheme, such as
//! a plain path, is left as it is.

use crate::bytes::{find_byte, find_first, lemma_find_first};
use crate::document::SLASH;
use crate::syntax::{is_letter, PERCENT};
use vstd::prelude::*;

verus! {

/// The byte after a scheme.
pub const COLON: u8 = 58u8;

/// A byte that may stand in a scheme.
pub open spec fn is_scheme_byte(byte: u8) -> bool {
    is_letter(byte) || (48 <= byte <= 57) || byte == 43 || byte == 45 || byte == 46
}

/// Whether all bytes of `uri` before `end` may stand in a scheme.
pub open spec fn scheme_bytes(uri: Seq<u8>, end: int) -> bool {
    forall|k: int| 0 <= k < end ==> is_scheme_byte(#[trigger] uri[k])
}

/// The length of the scheme of `uri`: the index of its first colon, if at
/// least two scheme bytes stand before it and the first is a letter; zero
/// where `uri` has no scheme.
pub open spec fn scheme_len(uri: Seq<u8>) -> int {
    let colon = find_first(uri, 0, uri.len() as int, COLON);
    if 2 <= colon < uri.len() && is_letter(uri[0]) && scheme_bytes(uri, colon) {
        colon
    } else {
        0
    }
}

/// A capital as its small letter.
pub open spec fn lowered(byte: u8) -> u8 {
    if 65 <= byte <= 90 {
        (byte + 32) as u8
    } else {
        byte
    }
}

/// A hexadecimal digit.
pub open spec fn is_hex(byte: u8) -> bool {
    (48 <= byte <= 57) || (65 <= byte <= 70) || (97 <= byte <= 102)
}

/// A small hexadecimal letter as its capital.
pub open spec fn raised(byte: u8) -> u8 {
    if 97 <= byte <= 102 {
        (byte - 32) as u8
    } else {
        byte
    }
}

/// Whether a percent escape starts at `i`: a percent sign and two
/// hexadecimal digits.
pub open spec fn escape_at(uri: Seq<u8>, i: int) -> bool {
    0 <= i && i + 2 < uri.len() && uri[i] == PERCENT && is_hex(uri[i + 1]) && is_hex(uri[i + 2])
}

/// Byte `i` of `uri` in its normal case.
pub open spec fn normal_byte(uri: Seq<u8>, i: int) -> u8 {
    if i < scheme_len(uri) {
        lowered(uri[i])
    } else if escape_at(uri, i - 1) || escape_at(uri, i - 2) {
        raised(uri[i])
    } else {
        uri[i]
    }
}

/// `uri` with every byte in its normal case.
pub open spec fn recased(uri: Seq<u8>) -> Seq<u8> {
    Seq::new(uri.len(), |i: int| normal_byte(uri, i))
}

/// How a file URI starts.
pub open spec fn file_prefix() -> Seq<u8> {
    seq![102u8, 105u8, 108u8, 101u8, 58u8, 47u8, 47u8, 47u8]
}

/// Whether `uri` is a file URI.
pub open spec fn is_file(uri: Seq<u8>) -> bool {
    uri.len() >= 8 && uri.subrange(0, 8) == file_prefix()
}

/// The length of `uri` without the slashes at its end, but no less than the
/// length of the prefix of a file URI.
pub open spec fn kept(uri: Seq<u8>) -> int
    decreases uri.len(),
{
    if uri.len() > 8 && uri.last() == SLASH {
        kept(uri.drop_last())
    } else {
        uri.len() as int
    }
}

/// The normal form of an identifier.
pub open spec fn normalized(uri: Seq<u8>) -> Seq<u8> {
    if scheme_len(uri) == 0 {
        uri
    } else {
        let cased = recased(uri);
        if is_file(cased) {
            cased.subrange(0, kept(cased))
        } else {
            cased
        }
    }
}

/// Whether an identifier is in normal form.
pub open spec fn is_normal(uri: Seq<u8>) -> bool {
    normalized(uri) == uri
}

proof fn lemma_kept(uri: Seq<u8>)
    ensures
        kept(uri) <= uri.len(),
        uri.len() >= 8 ==> kept(uri) >= 8,
        uri.len() < 8 ==> kept(uri) == uri.len(),
        kept(uri) > 8 ==> uri[kept(uri) - 1] != SLASH,
        forall|k: int| kept(uri) <= k < uri.len() ==> uri[k] == SLASH,
    decreases uri.len(),
{
    if uri.len() > 8 && uri.last() == SLASH {
        lemma_kept(uri.drop_last());
        let shorter = uri.drop_last();
        assert forall|k: int| kept(uri) <= k < uri.len() implies uri[k] == SLASH by {
            if k < uri.len() - 1 {
                assert(shorter[k] == uri[k]);
            }
        }
        if kept(uri) > 8 {
            assert(shorter[kept(shorter) - 1] == uri[kept(uri) - 1]);
        }
    }
}

proof fn lemma_kept_fixed(uri: Seq<u8>)
    requires
        uri.len() <= 8 || uri[uri.len() - 1] != SLASH,
    ensures
        kept(uri) == uri.len(),
{
}

proof fn lemma_first_colon_recased(uri: Seq<u8>, from: int)
    requires
        0 <= from <= uri.len(),
    ensures
        find_first(recased(uri), from, uri.len() as int, COLON) == find_first(
            uri,
            from,
            uri.len() as int,
            COLON,
        ),
    decreases uri.len() - from,
{
    if from < uri.len() {
        assert(recased(uri)[from] == normal_byte(uri, from));
        lemma_first_colon_recased(uri, from + 1);
    }
}

proof fn lemma_first_colon_prefix(uri: Seq<u8>, from: int, cut: int)
    requires
        0 <= from <= cut <= uri.len(),
        find_first(uri, from, uri.len() as int, COLON) < cut,
    ensures
        find_first(uri.subrange(0, cut), from, cut, COLON) == find_first(
            uri,
            from,
            uri.len() as int,
            COLON,
        ),
    decreases cut - from,
{
    lemma_find_first(uri, from, uri.len() as int, COLON);
    if from < cut {
        assert(uri.subrange(0, cut)[from] == uri[from]);
        if uri[from] != COLON {
            lemma_first_colon_prefix(uri, from + 1, cut);
        }
    }
}

/// Putting the bytes into their normal case keeps the scheme where it is.
proof fn lemma_scheme_recased(uri: Seq<u8>)
    ensures
        scheme_len(recased(uri)) == scheme_len(uri),
{
    let cased = recased(uri);
    lemma_first_colon_recased(uri, 0);
    let colon = find_first(uri, 0, uri.len() as int, COLON);
    lemma_find_first(uri, 0, uri.len() as int, COLON);
    if 2 <= colon < uri.len() {
        if is_letter(uri[0]) && scheme_bytes(uri, colon) {
            assert(scheme_len(uri) == colon);
            assert(cased[0] == normal_byte(uri, 0));
            assert forall|k: int| 0 <= k < colon implies is_scheme_byte(#[trigger] cased[k]) by {
                assert(cased[k] == normal_byte(uri, k));
                assert(is_scheme_byte(uri[k]));
            }
        } else {
            assert(scheme_len(uri) == 0);
            assert(cased[0] == normal_byte(uri, 0));
            if is_letter(uri[0]) {
                let k = choose|k: int| 0 <= k < colon && !is_scheme_byte(#[trigger] uri[k]);
                assert(cased[k] == normal_byte(uri, k));
                assert(!is_scheme_byte(cased[k]));
            }
        }
    }
}

/// Putting the bytes into their normal case keeps the escapes where they are.
proof fn lemma_escape_recased(uri: Seq<u8>, i: int)
    ensures
        escape_at(recased(uri), i) == escape_at(uri, i),
{
    let cased = recased(uri);
    if 0 <= i && i + 2 < uri.len() {
        assert(cased[i] == normal_byte(uri, i));
        assert(cased[i + 1] == normal_byte(uri, i + 1));
        assert(cased[i + 2] == normal_byte(uri, i + 2));
        let colon = find_first(uri, 0, uri.len() as int, COLON);
        lemma_find_first(uri, 0, uri.len() as int, COLON);
        if i < scheme_len(uri) {
            assert(is_scheme_byte(uri[i]));
        } else if i + 1 < scheme_len(uri) {
        } else if i + 2 < scheme_len(uri) {
        }
    }
}

/// Putting the bytes into their normal case twice is putting them into it
/// once.
proof fn lemma_recased_twice(uri: Seq<u8>)
    ensures
        recased(recased(uri)) == recased(uri),
{
    let cased = recased(uri);
    lemma_scheme_recased(uri);
    assert forall|i: int| 0 <= i < uri.len() implies normal_byte(cased, i) == cased[i] by {
        lemma_escape_recased(uri, i - 1);
        lemma_escape_recased(uri, i - 2);
        assert(cased[i] == normal_byte(uri, i));
    }
    assert(recased(cased) =~= cased);
}

/// The normal form of a normal form is that normal form.
pub proof fn lemma_normalized_is_normal(uri: Seq<u8>)
    ensures
        is_normal(normalized(uri)),
{
    if scheme_len(uri) != 0 {
        let cased = recased(uri);
        lemma_recased_twice(uri);
        lemma_scheme_recased(uri);
        if is_file(cased) {
            let cut = kept(cased);
            lemma_kept(cased);
            let short = cased.subrange(0, cut);
            assert(short.subrange(0, 8) =~= cased.subrange(0, 8));
            assert(file_prefix()[4] == COLON);
            assert(cased.subrange(0, 8)[0] == cased[0]);
            assert(cased.subrange(0, 8)[1] == cased[1]);
            assert(cased.subrange(0, 8)[2] == cased[2]);
            assert(cased.subrange(0, 8)[3] == cased[3]);
            assert(cased.subrange(0, 8)[4] == cased[4]);
            lemma_find_first(cased, 0, cased.len() as int, COLON);
            let colon = find_first(cased, 0, cased.len() as int, COLON);
            assert(colon <= 4);
            lemma_first_colon_prefix(cased, 0, cut);
            assert(scheme_len(cased) == colon);
            assert(short[0] == cased[0]);
            assert forall|k: int| 0 <= k < colon implies is_scheme_byte(#[trigger] short[k]) by {
                assert(short[k] == cased[k]);
                assert(is_scheme_byte(cased[k]));
            }
            assert(scheme_len(short) == colon);
            assert forall|i: int| 0 <= i < cut implies normal_byte(short, i) == short[i] by {
                assert(short[i] == cased[i]);
                assert(normal_byte(cased, i) == recased(cased)[i]);
                assert forall|j: int| j == i - 1 || j == i - 2 implies escape_at(short, j)
                    == escape_at(cased, j) by {
                    if 0 <= j {
                        if j + 2 < cut {
                            assert(short[j] == cased[j]);
                            assert(short[j + 1] == cased[j + 1]);
                            assert(short[j + 2] == cased[j + 2]);
                        } else if j + 2 < cased.len() {
                            assert(cased[j + 2] == SLASH);
                        }
                    }
                }
            }
            assert(recased(short) =~= short);
            lemma_kept_fixed(short);
            assert(short.subrange(0, kept(short)) =~= short);
        }
    }
}

/// An identifier without a scheme, such as a plain path, is in normal form.
pub proof fn lemma_plain_is_normal(uri: Seq<u8>)
    requires
        scheme_len(uri) == 0,
    ensures
        is_normal(uri),
{
}

/// The length of the scheme of `uri`.
fn scan_scheme(uri: &[u8]) -> (len: usize)
    ensures
        len == scheme_len(uri@),
        len < uri@.len() || len == 0,
{
    let colon = find_byte(uri, 0, uri.len(), COLON);
    if colon < 2 || colon >= uri.len() {
        return 0;
    }
    let first = uri[0];
    if !((65 <= first && first <= 90) || (97 <= first && first <= 122)) {
        return 0;
    }
    let mut k: usize = 0;
    while k < colon
        invariant
            0 <= k <= colon < uri.len(),
            2 <= colon,
            colon == find_first(uri@, 0, uri@.len() as int, COLON),
            is_letter(uri@[0]),
            forall|j: int| 0 <= j < k ==> is_scheme_byte(#[trigger] uri@[j]),
        decreases colon - k,
    {
        let byte = uri[k];
        if !((65 <= byte && byte <= 90) || (97 <= byte && byte <= 122) || (48 <= byte && byte <= 57)
            || byte == 43 || byte == 45 || byte == 46) {
            assert(!is_scheme_byte(uri@[k as int]));
            assert(!scheme_bytes(uri@, colon as int));
            return 0;
        }
        k += 1;
    }
    colon
}

/// Whether `byte` is a hexadecimal digit.
fn hex(byte: u8) -> (yes: bool)
    ensures
        yes == is_hex(byte),
{
    (48 <= byte && byte <= 57) || (65 <= byte && byte <= 70) || (97 <= byte && byte <= 102)
}

/// Whether a percent escape starts at `i`.
fn escape_starts(uri: &[u8], i: usize) -> (yes: bool)
    ensures
        yes == escape_at(uri@, i as int),
{
    i < uri.len() && uri.len() - i > 2 && uri[i] == PERCENT && hex(uri[i + 1]) && hex(uri[i + 2])
}

/// `uri` with every byte in its normal case.
fn recase(uri: &[u8], scheme: usize) -> (cased: Vec<u8>)
    requires
        scheme == scheme_len(uri@),
    ensures
        cased@ == recased(uri@),
{
    let mut cased: Vec<u8> = Vec::new();
    let mut i: usize = 0;
    while i < uri.len()
        invariant
            0 <= i <= uri.len(),
            scheme == scheme_len(uri@),
            cased@.len() == i,
            forall|k: int| 0 <= k < i ==> cased@[k] == normal_byte(uri@, k),
        decreases uri.len() - i,
    {
        let byte = uri[i];
        let in_escape = (i >= 1 && escape_starts(uri, i - 1)) || (i >= 2 && escape_starts(uri, i - 2));
        let normal = if i < scheme {
            if 65 <= byte && byte <= 90 {
                byte + 32
            } else {
                byte
            }
        } else if in_escape {
            if 97 <= byte && byte <= 102 {
                byte - 32
            } else {
                byte
            }
        } else {
            byte
        };
        cased.push(normal);
        i += 1;
    }
    assert(cased@ =~= recased(uri@));
    cased
}

/// Whether `uri` is a file URI.
fn starts_as_file(uri: &Vec<u8>) -> (yes: bool)
    ensures
        yes == is_file(uri@),
{
    if uri.len() < 8 {
        return false;
    }
    let yes = uri[0] == 102 && uri[1] == 105 && uri[2] == 108 && uri[3] == 101 && uri[4] == 58
        && uri[5] == 47 && uri[6] == 47 && uri[7] == 47;
    proof {
        let part = uri@.subrange(0, 8);
        if yes {
            assert(part =~= file_prefix());
        } else {
            assert(part[0] == uri@[0] && part[1] == uri@[1] && part[2] == uri@[2] && part[3] == uri@[3]);
            assert(part[4] == uri@[4] && part[5] == uri@[5] && part[6] == uri@[6] && part[7] == uri@[7]);
            assert(file_prefix()[0] == 102 && file_prefix()[1] == 105 && file_prefix()[2] == 108
                && file_prefix()[3] == 101);
            assert(file_prefix()[4] == 58 && file_prefix()[5] == 47 && file_prefix()[6] == 47
                && file_prefix()[7] == 47);
        }
    }
    yes
}

/// Takes the slashes off the end of a file URI.
fn strip(uri: &mut Vec<u8>)
    ensures
        final(uri)@ == old(uri)@.subrange(0, kept(old(uri)@)),
{
    while uri.len() > 8 && uri[uri.len() - 1] == SLASH
        invariant
            uri@.len() <= old(uri)@.len(),
            uri@ == old(uri)@.subrange(0, uri@.len() as int),
            kept(uri@) == kept(old(uri)@),
        decreases uri@.len(),
    {
        let ghost before = uri@;
        uri.pop();
        assert(uri@ =~= before.drop_last());
        assert(uri@ =~= old(uri)@.subrange(0, uri@.len() as int));
    }
    assert(old(uri)@.subrange(0, old(uri)@.len() as int) =~= old(uri)@);
}

/// Brings an identifier into its normal form.
pub fn normalize(uri: &[u8]) -> (normal: Vec<u8>)
    ensures
        normal@ == normalized(uri@),
        is_normal(normal@),
{
    proof {
        lemma_normalized_is_normal(uri@);
    }
    let scheme = scan_scheme(uri);
    if scheme == 0 {
        assert(uri@.subrange(0, uri@.len() as int) =~= uri@);
        return crate::bytes::copy_range(uri, 0, uri.len());
    }
    let mut cased = recase(uri, scheme);
    if starts_as_file(&cased) {
        strip(&mut cased);
    }
    cased
}

} // verus!
