//! Minimal DER (Distinguished Encoding Rules) writer and reader.
//!
//! The writer turns the raw modulus and exponent of a COSE RSA key into the
//! `RSAPublicKey` structure that signature verification expects. The reader
//! walks the few elements of a certificate that attestation looks into.

use vstd::prelude::*;
use vstd::slice::slice_subrange;

use crate::bytes::{append_bytes, be_value, lemma_be_value_grows};
use crate::error::{outcome, Failure, WebAuthnError};

verus! {

/// A DER length field: one byte below 128, else `0x81`, `0x82` or `0x84` and the
/// big-endian length in one, two or four bytes. Four bytes hold the length modulo
/// 2^32.
pub open spec fn length_field(len: nat) -> Seq<u8> {
    if len < 0x80 {
        seq![len as u8]
    } else if len <= 0xFF {
        seq![0x81u8, len as u8]
    } else if len <= 0xFFFF {
        seq![0x82u8, (len / 0x100) as u8, (len % 0x100) as u8]
    } else {
        seq![
            0x84u8,
            (len / 0x1000000 % 0x100) as u8,
            (len / 0x10000 % 0x100) as u8,
            (len / 0x100 % 0x100) as u8,
            (len % 0x100) as u8,
        ]
    }
}

/// A DER element: tag, length field, contents.
pub open spec fn element(tag: u8, contents: Seq<u8>) -> Seq<u8> {
    seq![tag] + length_field(contents.len()) + contents
}

/// The contents of a DER INTEGER for an unsigned big-endian number: a zero byte is
/// put before a number whose high bit is set, which would else read as negative.
pub open spec fn unsigned_contents(value: Seq<u8>) -> Seq<u8> {
    if value.len() > 0 && value[0] >= 0x80 {
        seq![0u8] + value
    } else {
        value
    }
}

/// A DER INTEGER for an unsigned big-endian number.
pub open spec fn unsigned_integer(value: Seq<u8>) -> Seq<u8> {
    element(0x02, unsigned_contents(value))
}

/// `RSAPublicKey ::= SEQUENCE { INTEGER n, INTEGER e }`.
pub open spec fn rsa_public_key(n: Seq<u8>, e: Seq<u8>) -> Result<Seq<u8>, Failure> {
    if n.len() == 0 {
        Err(Failure::InvalidPublicKey("RSA modulus (n) must not be empty"@))
    } else if e.len() == 0 {
        Err(Failure::InvalidPublicKey("RSA exponent (e) must not be empty"@))
    } else {
        Ok(element(0x30, unsigned_integer(n) + unsigned_integer(e)))
    }
}

/// Encodes a DER length field.
pub fn der_length(len: usize) -> (field: Vec<u8>)
    ensures
        field@ == length_field(len as nat),
{
    if len < 0x80 {
        vec![len as u8]
    } else if len <= 0xFF {
        vec![0x81, len as u8]
    } else if len <= 0xFFFF {
        vec![0x82, (len / 0x100) as u8, (len % 0x100) as u8]
    } else {
        vec![
            0x84,
            (len / 0x1000000 % 0x100) as u8,
            (len / 0x10000 % 0x100) as u8,
            (len / 0x100 % 0x100) as u8,
            (len % 0x100) as u8,
        ]
    }
}

fn der_element(tag: u8, contents: &[u8]) -> (out: Vec<u8>)
    ensures
        out@ == element(tag, contents@),
{
    let mut out: Vec<u8> = vec![tag];
    append_bytes(&mut out, der_length(contents.len()).as_slice());
    append_bytes(&mut out, contents);
    assert(out@ =~= element(tag, contents@));
    out
}

/// Wraps `contents` in a DER SEQUENCE (tag `0x30`).
pub fn der_sequence(contents: &[u8]) -> (out: Vec<u8>)
    ensures
        out@ == element(0x30, contents@),
{
    der_element(0x30, contents)
}

/// Encodes `value`, an unsigned big-endian number, as a DER INTEGER (tag `0x02`).
pub fn der_integer(value: &[u8]) -> (out: Vec<u8>)
    ensures
        out@ == unsigned_integer(value@),
{
    if value.len() > 0 && value[0] >= 0x80 {
        let mut padded: Vec<u8> = vec![0u8];
        append_bytes(&mut padded, value);
        assert(padded@ =~= unsigned_contents(value@));
        der_element(0x02, padded.as_slice())
    } else {
        der_element(0x02, value)
    }
}

/// Wraps `contents` in a DER BIT STRING (tag `0x03`) with no unused bits.
pub fn der_bit_string(contents: &[u8]) -> (out: Vec<u8>)
    ensures
        out@ == element(0x03, seq![0u8] + contents@),
{
    let mut bits: Vec<u8> = vec![0u8];
    append_bytes(&mut bits, contents);
    assert(bits@ =~= seq![0u8] + contents@);
    der_element(0x03, bits.as_slice())
}

/// Encodes `oid_bytes`, an OID value without tag and length, as a DER OID (tag `0x06`).
pub fn der_oid(oid_bytes: &[u8]) -> (out: Vec<u8>)
    ensures
        out@ == element(0x06, oid_bytes@),
{
    der_element(0x06, oid_bytes)
}

/// The two-byte DER NULL.
pub fn der_null() -> (out: Vec<u8>)
    ensures
        out@ == element(0x05, Seq::empty()),
        out@ == seq![0x05u8, 0x00u8],
{
    let out: Vec<u8> = vec![0x05, 0x00];
    assert(out@ =~= element(0x05, Seq::empty()));
    out
}

/// Builds a DER-encoded `RSAPublicKey` from raw modulus and exponent bytes.
pub fn rsa_components_to_der(n: &[u8], e: &[u8]) -> (r: Result<Vec<u8>, WebAuthnError>)
    ensures
        outcome(r) == rsa_public_key(n@, e@),
{
    if n.is_empty() {
        return Err(
            WebAuthnError::InvalidPublicKey("RSA modulus (n) must not be empty".to_string()),
        );
    }
    if e.is_empty() {
        return Err(
            WebAuthnError::InvalidPublicKey("RSA exponent (e) must not be empty".to_string()),
        );
    }
    let mut contents = der_integer(n);
    append_bytes(&mut contents, der_integer(e).as_slice());
    Ok(der_sequence(contents.as_slice()))
}

/// The header of the element at the start of `data`: how many bytes tag and length
/// field take, and the length that they announce.
pub open spec fn header(data: Seq<u8>) -> Option<(nat, nat)> {
    if data.len() < 2 {
        None
    } else if data[1] < 0x80 {
        Some((2, data[1] as nat))
    } else {
        let count = (data[1] - 0x80) as nat;
        if count == 0 || data.len() < 2 + count {
            None
        } else {
            Some((2 + count, be_value(data.subrange(2, 2 + count as int))))
        }
    }
}

/// The element at the start of `data` as tag, contents and what follows it.
pub open spec fn first_element(data: Seq<u8>) -> Option<(u8, Seq<u8>, Seq<u8>)> {
    match header(data) {
        Some((start, len)) => {
            if start + len <= data.len() {
                Some(
                    (
                        data[0],
                        data.subrange(start as int, (start + len) as int),
                        data.skip((start + len) as int),
                    ),
                )
            } else {
                None
            }
        },
        None => None,
    }
}

/// The contents of the element at the start of `data`, if its tag is `tag`.
pub open spec fn contents_of(data: Seq<u8>, tag: u8) -> Option<Seq<u8>> {
    match first_element(data) {
        Some((t, contents, _)) => if t == tag {
            Some(contents)
        } else {
            None
        },
        None => None,
    }
}

/// Reads one DER element: its tag, its contents and what follows it, or `None` if
/// `data` is too short.
pub fn der_parse_tlv(data: &[u8]) -> (r: Option<(u8, &[u8], &[u8])>)
    ensures
        match r {
            Some((tag, contents, rest)) => first_element(data@) == Some((tag, contents@, rest@)),
            None => first_element(data@) is None,
        },
{
    if data.len() < 2 {
        return None;
    }
    let mut len: usize = 0;
    let mut start: usize = 2;
    if data[1] < 0x80 {
        len = data[1] as usize;
    } else {
        let count: usize = (data[1] - 0x80) as usize;
        if count == 0 || data.len() < 2 + count {
            return None;
        }
        let ghost field = data@.subrange(2, 2 + count as int);
        let mut i: usize = 0;
        assert(field.take(0) =~= Seq::<u8>::empty());
        while i < count
            invariant
                i <= count,
                0 < count < 0x80,
                2 + count <= data.len(),
                data@[1] == 0x80 + count,
                field == data@.subrange(2, 2 + count as int),
                len == be_value(field.take(i as int)),
            decreases count - i,
        {
            proof {
                let longer = field.take(i + 1);
                assert(longer.drop_last() =~= field.take(i as int));
                assert(longer.last() == data@[2 + i]);
                lemma_be_value_grows(field, i + 1);
            }
            len = match len.checked_mul(256) {
                Some(shifted) => match shifted.checked_add(data[2 + i] as usize) {
                    Some(longer) => longer,
                    None => return None,
                },
                None => return None,
            };
            i += 1;
        }
        assert(field.take(count as int) =~= field);
        start = 2 + count;
    }
    match start.checked_add(len) {
        Some(end) => {
            if data.len() < end {
                return None;
            }
            let contents = slice_subrange(data, start, end);
            let rest = slice_subrange(data, end, data.len());
            assert(rest@ =~= data@.skip(end as int));
            Some((data[0], contents, rest))
        },
        None => None,
    }
}

/// Unwraps a DER SEQUENCE (tag `0x30`).
pub fn der_unwrap_sequence(data: &[u8]) -> (r: Option<&[u8]>)
    ensures
        match r {
            Some(contents) => contents_of(data@, 0x30) == Some(contents@),
            None => contents_of(data@, 0x30) is None,
        },
{
    match der_parse_tlv(data) {
        Some((tag, contents, _)) => if tag == 0x30 {
            Some(contents)
        } else {
            None
        },
        None => None,
    }
}

/// Unwraps a DER OCTET STRING (tag `0x04`).
pub fn der_unwrap_octet_string(data: &[u8]) -> (r: Option<&[u8]>)
    ensures
        match r {
            Some(contents) => contents_of(data@, 0x04) == Some(contents@),
            None => contents_of(data@, 0x04) is None,
        },
{
    match der_parse_tlv(data) {
        Some((tag, contents, _)) => if tag == 0x04 {
            Some(contents)
        } else {
            None
        },
        None => None,
    }
}

/// Reading back what was written: the first element of an encoded element followed
/// by anything is that element, for contents whose length four bytes can hold.
pub proof fn law_element_reads_back(tag: u8, contents: Seq<u8>, rest: Seq<u8>)
    requires
        contents.len() <= 0xFFFF_FFFF,
    ensures
        first_element(element(tag, contents) + rest) == Some((tag, contents, rest)),
{
    let len = contents.len();
    let field = length_field(len);
    let data = element(tag, contents) + rest;
    assert(data[0] == tag);
    assert(data[1] == field[0]);
    let start = 1 + field.len();
    assert(header(data) == Some((start, len))) by {
        if len >= 0x80 {
            let number = data.subrange(2, start as int);
            assert(number =~= field.drop_first());
            if len <= 0xFF {
                reveal_with_fuel(be_value, 2);
                assert(number.drop_last() =~= Seq::<u8>::empty());
            } else if len <= 0xFFFF {
                reveal_with_fuel(be_value, 3);
                assert(number.drop_last().drop_last() =~= Seq::<u8>::empty());
            } else {
                crate::bytes::lemma_be_value_4(number);
            }
            assert(be_value(number) == len);
            assert(data.subrange(2, 2 + (data[1] - 0x80)) =~= number);
        }
    }
    assert(data.subrange(start as int, (start + len) as int) =~= contents);
    assert(data.skip((start + len) as int) =~= rest);
}

/// An element starts with its tag, is at most six bytes longer than its contents, and
/// unwraps to them, alone or with something behind it.
pub proof fn law_element_unwraps(tag: u8, contents: Seq<u8>, rest: Seq<u8>)
    requires
        contents.len() <= 0xFFFF_FFFF,
    ensures
        contents_of(element(tag, contents) + rest, tag) == Some(contents),
        contents_of(element(tag, contents), tag) == Some(contents),
        contents.len() < element(tag, contents).len() <= contents.len() + 6,
        element(tag, contents)[0] == tag,
{
    law_element_reads_back(tag, contents, rest);
    law_element_reads_back(tag, contents, Seq::empty());
    assert(element(tag, contents) + Seq::<u8>::empty() =~= element(tag, contents));
}

/// The modulus and the exponent can be read back from an encoded RSA public key,
/// with at most one zero byte before each.
pub proof fn law_rsa_public_key_reads_back(n: Seq<u8>, e: Seq<u8>)
    requires
        n.len() > 0,
        e.len() > 0,
        n.len() + e.len() <= 0xFFFF_0000,
    ensures
        rsa_public_key(n, e) matches Ok(der) && contents_of(der, 0x30) matches Some(body)
            && first_element(body) matches Some((t1, c1, rest)) && first_element(rest) matches Some(
            (t2, c2, tail),
        ) && t1 == 0x02 && t2 == 0x02 && c1 == unsigned_contents(n) && c2 == unsigned_contents(e)
            && tail.len() == 0,
{
    let body = unsigned_integer(n) + unsigned_integer(e);
    law_element_reads_back(0x30, body, Seq::empty());
    assert(element(0x30, body) + Seq::<u8>::empty() =~= element(0x30, body));
    law_element_reads_back(0x02, unsigned_contents(n), unsigned_integer(e));
    law_element_reads_back(0x02, unsigned_contents(e), Seq::empty());
    assert(unsigned_integer(e) + Seq::<u8>::empty() =~= unsigned_integer(e));
}

/// A DER element is its tag, its length and its contents. The length is one byte below 128;
/// else a byte counts how many bytes it takes, one, two or four.
pub proof fn law_element_layout(tag: u8, contents: Seq<u8>)
    ensures
        ({
            let len = contents.len();
            let whole = element(tag, contents);
            &&& len < 128 ==> whole == seq![tag, len as u8] + contents
            &&& 128 <= len < 256 ==> whole == seq![tag, 0x81u8, len as u8] + contents
            &&& 256 <= len < 65536 ==> whole == seq![
                tag,
                0x82u8,
                (len / 256) as u8,
                (len % 256) as u8,
            ] + contents
            &&& 65536 <= len < 0x1_0000_0000 ==> {
                &&& whole.take(2) == seq![tag, 0x84u8]
                &&& be_value(whole.subrange(2, 6)) == len
                &&& whole.skip(6) == contents
            }
        }),
{
    let len = contents.len();
    let whole = element(tag, contents);
    if 65536 <= len && len < 0x1_0000_0000 {
        let number = whole.subrange(2, 6);
        assert(number =~= length_field(len).drop_first());
        crate::bytes::lemma_be_value_4(number);
        assert(whole.take(2) =~= seq![tag, 0x84u8]);
        assert(whole.skip(6) =~= contents);
    } else if len < 128 {
        assert(whole =~= seq![tag, len as u8] + contents);
    } else if len < 256 {
        assert(whole =~= seq![tag, 0x81u8, len as u8] + contents);
    } else if len < 65536 {
        assert(whole =~= seq![tag, 0x82u8, (len / 256) as u8, (len % 256) as u8] + contents);
    }
}

/// Reading divides the data: behind the tag and the length stand as many bytes of contents as
/// the length says, and behind them the rest. It fails exactly if there is no length, the
/// length is indefinite, or fewer bytes are there than it says.
pub proof fn law_reading_divides(data: Seq<u8>)
    ensures
        ({
            let long = data.len() >= 2 && data[1] >= 0x80;
            let start = if long {
                2 + (data[1] - 0x80)
            } else {
                2
            };
            let len = if long {
                be_value(data.subrange(2, start))
            } else {
                data[1] as nat
            };
            match first_element(data) {
                Some((tag, contents, rest)) => {
                    &&& data.len() >= 2 && data[1] != 0x80
                    &&& tag == data[0]
                    &&& contents.len() == len
                    &&& data == data.take(start) + contents + rest
                },
                None => {
                    ||| data.len() < 2
                    ||| data[1] == 0x80
                    ||| start > data.len()
                    ||| start + len > data.len()
                },
            }
        }),
        forall|tag: u8|
            #[trigger] contents_of(data, tag) == match first_element(data) {
                Some((found, contents, _)) if found == tag => Some(contents),
                _ => None,
            },
{
    if let Some((_, contents, rest)) = first_element(data) {
        let start = if data[1] >= 0x80 {
            2 + (data[1] - 0x80)
        } else {
            2
        };
        assert(data =~= data.take(start) + contents + rest);
    }
}

/// The integers of an RSA key have the values of modulus and exponent and are not negative: a
/// zero stands in front exactly where the first bit is set.
pub proof fn law_unsigned_integers(value: Seq<u8>)
    ensures
        be_value(unsigned_contents(value)) == be_value(value),
        value.len() > 0 ==> unsigned_contents(value)[0] < 0x80,
        value.len() > 0 && value[0] < 0x80 ==> unsigned_contents(value) == value,
        value.len() > 0 && value[0] >= 0x80 ==> unsigned_contents(value) == seq![0u8] + value,
        rsa_public_key(value, Seq::empty()) matches Err(failure) && failure is InvalidPublicKey,
        rsa_public_key(Seq::empty(), value) matches Err(failure) && failure is InvalidPublicKey,
{
    crate::bytes::law_big_endian_value(value, 0);
}

} // verus!
