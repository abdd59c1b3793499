//! Byte-string helpers: comparison, concatenation, search and big-endian reads.

use vstd::prelude::*;
use vstd::slice::{slice_subrange, slice_to_vec};

verus! {

/// The contents of each byte string of a list.
pub open spec fn contents(list: Seq<Vec<u8>>) -> Seq<Seq<u8>> {
    list.map_values(|v: Vec<u8>| v@)
}

/// The big-endian value of two bytes.
pub open spec fn be16(hi: u8, lo: u8) -> nat {
    (hi * 256 + lo) as nat
}

/// The big-endian value of a byte string of any length.
pub open spec fn be_value(bytes: Seq<u8>) -> nat
    decreases bytes.len(),
{
    if bytes.len() == 0 {
        0
    } else {
        be_value(bytes.drop_last()) * 256 + bytes.last() as nat
    }
}

/// Whether `needle` stands in `haystack` at offset `at`.
pub open spec fn occurs_at(haystack: Seq<u8>, needle: Seq<u8>, at: int) -> bool {
    &&& 0 <= at
    &&& at + needle.len() <= haystack.len()
    &&& haystack.subrange(at, at + needle.len()) == needle
}

/// Whether `at` is the smallest offset at which `needle` stands in `haystack`.
pub open spec fn first_occurrence(haystack: Seq<u8>, needle: Seq<u8>, at: int) -> bool {
    &&& occurs_at(haystack, needle, at)
    &&& forall|k: int| 0 <= k < at ==> !#[trigger] occurs_at(haystack, needle, k)
}

/// The offset of the first occurrence of `needle` in `haystack`, if there is one.
pub open spec fn search(haystack: Seq<u8>, needle: Seq<u8>) -> Option<int> {
    if exists|at: int| occurs_at(haystack, needle, at) {
        Some(choose|at: int| first_occurrence(haystack, needle, at))
    } else {
        None
    }
}

/// `bytes` without its leading zero bytes.
pub open spec fn strip_zeros(bytes: Seq<u8>) -> Seq<u8>
    decreases bytes.len(),
{
    if bytes.len() > 0 && bytes[0] == 0 {
        strip_zeros(bytes.drop_first())
    } else {
        bytes
    }
}

/// Byte-for-byte comparison.
pub fn bytes_equal(a: &[u8], b: &[u8]) -> (equal: bool)
    ensures
        equal == (a@ == b@),
{
    if a.len() != b.len() {
        return false;
    }
    let mut i: usize = 0;
    while i < a.len()
        invariant
            a.len() == b.len(),
            i <= a.len(),
            forall|k: int| 0 <= k < i ==> a@[k] == b@[k],
        decreases a.len() - i,
    {
        if a[i] != b[i] {
            return false;
        }
        i += 1;
    }
    assert(a@ =~= b@);
    true
}

/// Appends `tail` to `out`.
pub fn append_bytes(out: &mut Vec<u8>, tail: &[u8])
    ensures
        final(out)@ == old(out)@ + tail@,
{
    out.extend_from_slice(tail);
    assert(out@ =~= old(out)@ + tail@);
}

/// A fresh copy of `bytes`.
pub fn copy_bytes(bytes: &[u8]) -> (copy: Vec<u8>)
    ensures
        copy@ == bytes@,
{
    slice_to_vec(bytes)
}

/// Two byte strings, one after the other.
pub fn concat_bytes(head: &[u8], tail: &[u8]) -> (joined: Vec<u8>)
    ensures
        joined@ == head@ + tail@,
{
    let mut out = slice_to_vec(head);
    append_bytes(&mut out, tail);
    out
}

/// The first sixteen bytes as an array.
pub fn take_16(bytes: &[u8]) -> (array: [u8; 16])
    requires
        bytes@.len() >= 16,
    ensures
        array@ == bytes@.take(16),
{
    let mut array: [u8; 16] = [0u8; 16];
    let mut i: usize = 0;
    while i < 16
        invariant
            i <= 16,
            bytes@.len() >= 16,
            forall|k: int| 0 <= k < i ==> array@[k] == bytes@[k],
        decreases 16 - i,
    {
        array[i] = bytes[i];
        i += 1;
    }
    assert(array@ =~= bytes@.take(16));
    array
}

/// The first thirty-two bytes as an array.
pub fn take_32(bytes: &[u8]) -> (array: [u8; 32])
    requires
        bytes@.len() >= 32,
    ensures
        array@ == bytes@.take(32),
{
    let mut array: [u8; 32] = [0u8; 32];
    let mut i: usize = 0;
    while i < 32
        invariant
            i <= 32,
            bytes@.len() >= 32,
            forall|k: int| 0 <= k < i ==> array@[k] == bytes@[k],
        decreases 32 - i,
    {
        array[i] = bytes[i];
        i += 1;
    }
    assert(array@ =~= bytes@.take(32));
    array
}

/// Reads the big-endian 16-bit number at `at`.
pub fn read_be16(bytes: &[u8], at: usize) -> (value: u16)
    requires
        at + 1 < bytes@.len(),
    ensures
        value == be16(bytes@[at as int], bytes@[at + 1]),
{
    (bytes[at] as u16) * 256 + (bytes[at + 1] as u16)
}

/// Reads the big-endian 32-bit number at `at`.
pub fn read_be32(bytes: &[u8], at: usize) -> (value: u32)
    requires
        at + 3 < bytes@.len(),
    ensures
        value == be_value(bytes@.subrange(at as int, at + 4)),
{
    proof {
        lemma_be_value_4(bytes@.subrange(at as int, at + 4));
    }
    (bytes[at] as u32) * 0x1000000 + (bytes[at + 1] as u32) * 0x10000 + (bytes[at + 2] as u32)
        * 0x100 + (bytes[at + 3] as u32)
}

/// The big-endian value of four bytes, written out.
pub proof fn lemma_be_value_4(bytes: Seq<u8>)
    requires
        bytes.len() == 4,
    ensures
        be_value(bytes) == bytes[0] * 0x1000000 + bytes[1] * 0x10000 + bytes[2] * 0x100 + bytes[3],
{
    reveal_with_fuel(be_value, 5);
    assert(bytes.drop_last().drop_last().drop_last().drop_last().len() == 0);
}

/// The value of a byte string is at least that of each of its beginnings.
pub proof fn lemma_be_value_grows(bytes: Seq<u8>, n: int)
    requires
        0 <= n <= bytes.len(),
    ensures
        be_value(bytes) >= be_value(bytes.take(n)),
    decreases bytes.len(),
{
    if n < bytes.len() {
        lemma_be_value_grows(bytes.drop_last(), n);
        assert(bytes.drop_last().take(n) =~= bytes.take(n));
    } else {
        assert(bytes.take(n) =~= bytes);
    }
}

/// A first occurrence is the only one, and it is what `search` returns.
pub proof fn lemma_search_found(haystack: Seq<u8>, needle: Seq<u8>, at: int)
    requires
        first_occurrence(haystack, needle, at),
    ensures
        search(haystack, needle) == Some(at),
{
    let chosen = choose|k: int| first_occurrence(haystack, needle, k);
    assert(first_occurrence(haystack, needle, chosen));
    if chosen < at {
        assert(!occurs_at(haystack, needle, chosen));
    }
    if at < chosen {
        assert(!occurs_at(haystack, needle, at));
    }
}

/// Searches `haystack` for the first occurrence of `needle`.
pub fn find_bytes(haystack: &[u8], needle: &[u8]) -> (found: Option<usize>)
    ensures
        match found {
            Some(at) => search(haystack@, needle@) == Some(at as int) && at + needle.len()
                <= haystack.len(),
            None => search(haystack@, needle@) is None,
        },
{
    if haystack.len() < needle.len() {
        return None;
    }
    let last: usize = haystack.len() - needle.len();
    let mut at: usize = 0;
    loop
        invariant
            at <= last,
            needle.len() <= haystack.len(),
            last == haystack.len() - needle.len(),
            forall|k: int| 0 <= k < at ==> !#[trigger] occurs_at(haystack@, needle@, k),
        decreases last - at,
    {
        if bytes_equal(slice_subrange(haystack, at, at + needle.len()), needle) {
            proof {
                lemma_search_found(haystack@, needle@, at as int);
            }
            return Some(at);
        }
        assert(!occurs_at(haystack@, needle@, at as int));
        if at == last {
            return None;
        }
        at += 1;
    }
}

/// The part of `bytes` that follows its leading zero bytes.
pub fn without_leading_zeros(bytes: &[u8]) -> (stripped: &[u8])
    ensures
        stripped@ == strip_zeros(bytes@),
{
    let mut start: usize = 0;
    assert(bytes@.skip(0) =~= bytes@);
    while start < bytes.len() && bytes[start] == 0
        invariant
            start <= bytes@.len(),
            strip_zeros(bytes@.skip(start as int)) == strip_zeros(bytes@),
        decreases bytes.len() - start,
    {
        assert(bytes@.skip(start as int).drop_first() =~= bytes@.skip(start + 1));
        start += 1;
    }
    assert(bytes@.skip(start as int) =~= bytes@.subrange(start as int, bytes@.len() as int));
    slice_subrange(bytes, start, bytes.len())
}

/// Without its leading zeros, a byte string is the rest of it: what goes is zeros only, and
/// what stays does not begin with one.
pub proof fn law_leading_zeros_go(bytes: Seq<u8>)
    ensures
        ({
            let rest = strip_zeros(bytes);
            let gone = bytes.len() - rest.len();
            &&& 0 <= gone
            &&& rest == bytes.skip(gone)
            &&& forall|i: int| 0 <= i < gone ==> bytes[i] == 0
            &&& rest.len() > 0 ==> rest[0] != 0
        }),
    decreases bytes.len(),
{
    if bytes.len() > 0 && bytes[0] == 0 {
        let shorter = bytes.drop_first();
        law_leading_zeros_go(shorter);
        let rest = strip_zeros(bytes);
        let gone = bytes.len() - rest.len();
        assert(bytes.skip(gone) =~= shorter.skip(gone - 1));
        assert forall|i: int| 0 <= i < gone implies bytes[i] == 0 by {
            if i > 0 {
                assert(bytes[i] == shorter[i - 1]);
            }
        }
    } else {
        assert(bytes.skip(0) =~= bytes);
    }
}

/// A search finds the first place at which the searched bytes stand, and nothing exactly if
/// they stand nowhere.
pub proof fn law_search_finds_the_first(haystack: Seq<u8>, needle: Seq<u8>)
    ensures
        match search(haystack, needle) {
            Some(at) => {
                &&& 0 <= at <= haystack.len() - needle.len()
                &&& haystack.subrange(at, at + needle.len()) == needle
                &&& forall|k: int|
                    0 <= k < at ==> #[trigger] haystack.subrange(k, k + needle.len()) != needle
            },
            None => forall|k: int|
                0 <= k <= haystack.len() - needle.len() ==> #[trigger] haystack.subrange(
                    k,
                    k + needle.len(),
                ) != needle,
        },
{
    if exists|at: int| occurs_at(haystack, needle, at) {
        let some = choose|at: int| occurs_at(haystack, needle, at);
        let first = lemma_first_occurrence(haystack, needle, some);
        let at = search(haystack, needle)->0;
        assert(first_occurrence(haystack, needle, first));
        assert(first_occurrence(haystack, needle, at));
        assert forall|k: int| 0 <= k < at implies #[trigger] haystack.subrange(
            k,
            k + needle.len(),
        ) != needle by {
            assert(!occurs_at(haystack, needle, k));
        }
    } else {
        assert forall|k: int| 0 <= k <= haystack.len() - needle.len() implies #[trigger] haystack.subrange(
            k,
            k + needle.len(),
        ) != needle by {
            assert(!occurs_at(haystack, needle, k));
        }
    }
}

proof fn lemma_first_occurrence(haystack: Seq<u8>, needle: Seq<u8>, at: int) -> (first: int)
    requires
        occurs_at(haystack, needle, at),
    ensures
        first_occurrence(haystack, needle, first),
    decreases at,
{
    if exists|k: int| 0 <= k < at && #[trigger] occurs_at(haystack, needle, k) {
        let earlier = choose|k: int| 0 <= k < at && #[trigger] occurs_at(haystack, needle, k);
        lemma_first_occurrence(haystack, needle, earlier)
    } else {
        at
    }
}

/// The value of bytes is that of a number in base 256, the most significant one first.
pub proof fn law_big_endian_value(bytes: Seq<u8>, low: u8)
    ensures
        be_value(Seq::empty()) == 0,
        be_value(bytes.push(low)) == be_value(bytes) * 256 + low,
        be_value(seq![0u8] + bytes) == be_value(bytes),
        forall|hi: u8, lo: u8| #[trigger] be16(hi, lo) == be_value(seq![hi, lo]),
{
    assert(bytes.push(low).drop_last() =~= bytes);
    lemma_leading_zero(bytes);
    assert forall|hi: u8, lo: u8| #[trigger] be16(hi, lo) == be_value(seq![hi, lo]) by {
        reveal_with_fuel(be_value, 3);
        assert(seq![hi, lo].drop_last() =~= seq![hi]);
        assert(seq![hi].drop_last() =~= Seq::<u8>::empty());
    }
}

proof fn lemma_leading_zero(bytes: Seq<u8>)
    ensures
        be_value(seq![0u8] + bytes) == be_value(bytes),
    decreases bytes.len(),
{
    let longer = seq![0u8] + bytes;
    if bytes.len() == 0 {
        reveal_with_fuel(be_value, 2);
        assert(longer.drop_last() =~= Seq::<u8>::empty());
    } else {
        assert(longer.drop_last() =~= seq![0u8] + bytes.drop_last());
        lemma_leading_zero(bytes.drop_last());
    }
}

} // verus!
