//! Identifiers that are derived from names and nothing else: the same names give the same
//! identifier in every attempt.

use crate::text::byte_length;
use vstd::bytes::{
    lemma_auto_spec_u64_to_from_le_bytes, spec_u64_from_le_bytes, spec_u64_to_le_bytes,
    u64_to_le_bytes,
};
use vstd::prelude::*;
use vstd::utf8::{encode_utf8, encode_utf8_decode_utf8};

verus! {

/// The SHA-256 digest of bytes.
pub uninterp spec fn sha256(bytes: Seq<u8>) -> Seq<u8>;

/// `sha2::Sha256::digest` gives the 32 bytes of the digest, which depend on the bytes alone.
#[verifier::external_body]
fn hash(bytes: &[u8]) -> (digest: [u8; 32])
    ensures
        digest@ == sha256(bytes@),
{
    <sha2::Sha256 as sha2::Digest>::digest(bytes).into()
}

/// A name with its length before it.
pub open spec fn frame(name: Seq<char>) -> Seq<u8> {
    spec_u64_to_le_bytes(byte_length(name) as u64) + encode_utf8(name)
}

/// Names one after the other, each with its length before it, so that other names never give the
/// same bytes.
pub open spec fn frames(names: Seq<Seq<char>>) -> Seq<u8>
    decreases names.len(),
{
    if names.len() == 0 {
        seq![]
    } else {
        frame(names[0]) + frames(names.drop_first())
    }
}

pub open spec fn names_view(names: Seq<&str>) -> Seq<Seq<char>> {
    names.map_values(|name: &str| name@)
}

/// The digest of names.
pub open spec fn fingerprint_of(names: Seq<Seq<char>>) -> Seq<u8> {
    sha256(frames(names))
}

pub fn fingerprint(names: &[&str]) -> (digest: [u8; 32])
    ensures
        digest@ == fingerprint_of(names_view(names@)),
{
    let ghost all = names_view(names@);
    let mut bytes: Vec<u8> = Vec::new();
    let mut i: usize = 0;
    assert(all.skip(0) =~= all);
    assert(bytes@ + frames(all) =~= frames(all));
    while i < names.len()
        invariant
            i <= names.len(),
            all == names_view(names@),
            bytes@ + frames(all.skip(i as int)) == frames(all),
        decreases names.len() - i,
    {
        let name = names[i];
        let ghost before = bytes@;
        let ghost rest = all.skip(i as int);
        let content = name.as_bytes();
        let mut length = u64_to_le_bytes(content.len() as u64);
        bytes.append(&mut length);
        bytes.extend_from_slice(content);
        proof {
            assert(rest[0] == name@);
            assert(rest.drop_first() =~= all.skip(i + 1));
            assert(bytes@ =~= before + frame(name@));
            assert(bytes@ + frames(all.skip(i + 1)) =~= before + frames(rest));
        }
        i += 1;
    }
    assert(all.skip(i as int) =~= seq![]);
    assert(bytes@ =~= frames(all));
    hash(bytes.as_slice())
}

/// A hexadecimal digit in lower case.
pub open spec fn hex_digit(value: int) -> char {
    if value < 10 {
        (48 + value) as char
    } else {
        (87 + value) as char
    }
}

/// Bytes as two hexadecimal digits each.
pub open spec fn hex_text(bytes: Seq<u8>) -> Seq<char>
    decreases bytes.len(),
{
    if bytes.len() == 0 {
        seq![]
    } else {
        hex_text(bytes.drop_last()) + seq![
            hex_digit(bytes.last() as int / 16),
            hex_digit(bytes.last() as int % 16),
        ]
    }
}

/// A digit to the base 62: the figures, then the capitals, then the small letters.
pub open spec fn base62_digit(value: int) -> char {
    if value < 10 {
        (48 + value) as char
    } else if value < 36 {
        (55 + value) as char
    } else {
        (61 + value) as char
    }
}

/// Bytes as one digit to the base 62 each.
pub open spec fn base62_text(bytes: Seq<u8>) -> Seq<char> {
    bytes.map_values(|byte: u8| base62_digit(byte as int % 62))
}

fn push_hex(text: &mut String, byte: u8)
    ensures
        final(text)@ == old(text)@ + seq![
            hex_digit(byte as int / 16),
            hex_digit(byte as int % 16),
        ],
{
    let high: u8 = byte / 16;
    let low: u8 = byte % 16;
    text.push((if high < 10 { 48 + high } else { 87 + high }) as char);
    text.push((if low < 10 { 48 + low } else { 87 + low }) as char);
    assert(text@ =~= old(text)@ + seq![
        hex_digit(byte as int / 16),
        hex_digit(byte as int % 16),
    ]);
}

fn push_base62(text: &mut String, byte: u8)
    ensures
        final(text)@ == old(text)@.push(base62_digit(byte as int % 62)),
{
    let digit: u8 = byte % 62;
    text.push(
        (if digit < 10 {
            48 + digit
        } else if digit < 36 {
            55 + digit
        } else {
            61 + digit
        }) as char,
    );
}

/// A digest in hexadecimal digits.
pub fn hexadecimal(digest: &[u8; 32]) -> (text: String)
    ensures
        text@ == hex_text(digest@),
{
    let mut text = String::new();
    let mut i: usize = 0;
    while i < 32
        invariant
            i <= 32,
            text@ == hex_text(digest@.take(i as int)),
        decreases 32 - i,
    {
        assert(digest@.take(i + 1).drop_last() =~= digest@.take(i as int));
        push_hex(&mut text, digest[i]);
        i += 1;
    }
    assert(digest@.take(32) =~= digest@);
    text
}

/// An identifier from a digest: the prefix, 12 hexadecimal digits of its first bytes and 14
/// digits to the base 62 of the bytes that follow.
pub open spec fn identifier_of(prefix: Seq<char>, digest: Seq<u8>) -> Seq<char> {
    prefix + "_"@ + hex_text(digest.take(6)) + base62_text(digest.subrange(6, 20))
}

pub fn identifier_from(prefix: &str, digest: &[u8; 32]) -> (text: String)
    ensures
        text@ == identifier_of(prefix@, digest@),
{
    let mut text = prefix.to_owned();
    text.append("_");
    let ghost start = text@;
    let mut i: usize = 0;
    assert(start + hex_text(digest@.take(0)) =~= start);
    while i < 6
        invariant
            i <= 6,
            text@ == start + hex_text(digest@.take(i as int)),
        decreases 6 - i,
    {
        assert(digest@.take(i + 1).drop_last() =~= digest@.take(i as int));
        let ghost before = text@;
        push_hex(&mut text, digest[i]);
        assert(text@ =~= start + hex_text(digest@.take(i + 1)));
        i += 1;
    }
    let ghost middle = text@;
    assert(middle + base62_text(digest@.subrange(6, 6)) =~= middle);
    while i < 20
        invariant
            6 <= i <= 20,
            text@ == middle + base62_text(digest@.subrange(6, i as int)),
        decreases 20 - i,
    {
        push_base62(&mut text, digest[i]);
        assert(text@ =~= middle + base62_text(digest@.subrange(6, i + 1)));
        i += 1;
    }
    text
}

/// The digest of names in hexadecimal digits.
pub open spec fn digest_of(names: Seq<Seq<char>>) -> Seq<char> {
    hex_text(fingerprint_of(names))
}

pub fn digest(names: &[&str]) -> (text: String)
    ensures
        text@ == digest_of(names_view(names@)),
{
    hexadecimal(&fingerprint(names))
}

pub fn identifier(prefix: &str, names: &[&str]) -> (text: String)
    ensures
        text@ == identifier_of(prefix@, fingerprint_of(names_view(names@))),
{
    identifier_from(prefix, &fingerprint(names))
}

proof fn lemma_encode_injective(first: Seq<char>, second: Seq<char>)
    requires
        encode_utf8(first) == encode_utf8(second),
    ensures
        first == second,
{
    encode_utf8_decode_utf8(first);
    encode_utf8_decode_utf8(second);
}

/// Whether each name's length can be counted.
pub open spec fn countable(names: Seq<Seq<char>>) -> bool {
    forall|i: int| 0 <= i < names.len() ==> byte_length(#[trigger] names[i]) <= u64::MAX
}

/// Other names give other bytes: however names are cut, no two lists of them run together.
pub proof fn lemma_frames_injective(first: Seq<Seq<char>>, second: Seq<Seq<char>>)
    requires
        countable(first),
        countable(second),
        frames(first) == frames(second),
    ensures
        first == second,
    decreases first.len(),
{
    lemma_auto_spec_u64_to_from_le_bytes();
    if first.len() == 0 {
        if second.len() > 0 {
            assert(frames(second).len() == frame(second[0]).len() + frames(
                second.drop_first(),
            ).len());
            assert(frames(first).len() == 0);
        }
        assert(first =~= second);
    } else if second.len() == 0 {
        assert(frames(first).len() == frame(first[0]).len() + frames(first.drop_first()).len());
        assert(frames(second).len() == 0);
    } else {
        let bytes = frames(first);
        let left = spec_u64_to_le_bytes(byte_length(first[0]) as u64);
        let right = spec_u64_to_le_bytes(byte_length(second[0]) as u64);
        assert(left =~= bytes.take(8));
        assert(right =~= bytes.take(8));
        let count = byte_length(first[0]) as int;
        assert(byte_length(first[0]) as u64 == spec_u64_from_le_bytes(left));
        assert(byte_length(second[0]) as u64 == spec_u64_from_le_bytes(right));
        assert(byte_length(second[0]) == count);
        assert(encode_utf8(first[0]) =~= bytes.subrange(8, 8 + count));
        assert(encode_utf8(second[0]) =~= bytes.subrange(8, 8 + count));
        lemma_encode_injective(first[0], second[0]);
        assert(frames(first.drop_first()) =~= bytes.skip(8 + count));
        assert(frames(second.drop_first()) =~= bytes.skip(8 + count));
        assert forall|i: int| 0 <= i < first.drop_first().len() implies byte_length(
            #[trigger] first.drop_first()[i],
        ) <= u64::MAX by {
            assert(first.drop_first()[i] == first[i + 1]);
        }
        assert forall|i: int| 0 <= i < second.drop_first().len() implies byte_length(
            #[trigger] second.drop_first()[i],
        ) <= u64::MAX by {
            assert(second.drop_first()[i] == second[i + 1]);
        }
        lemma_frames_injective(first.drop_first(), second.drop_first());
        assert(first =~= seq![first[0]] + first.drop_first());
        assert(second =~= seq![second[0]] + second.drop_first());
    }
}

proof fn lemma_hex(bytes: Seq<u8>)
    ensures
        hex_text(bytes).len() == 2 * bytes.len(),
        forall|i: int|
            0 <= i < hex_text(bytes).len() ==> is_hex(#[trigger] hex_text(bytes)[i]),
    decreases bytes.len(),
{
    if bytes.len() > 0 {
        lemma_hex(bytes.drop_last());
        let before = hex_text(bytes.drop_last());
        assert forall|i: int| 0 <= i < hex_text(bytes).len() implies is_hex(
            #[trigger] hex_text(bytes)[i],
        ) by {
            if i < before.len() {
                assert(hex_text(bytes)[i] == before[i]);
            }
        }
    }
}

pub open spec fn is_hex(c: char) -> bool {
    '0' <= c <= '9' || 'a' <= c <= 'f'
}

pub open spec fn is_base62(c: char) -> bool {
    '0' <= c <= '9' || 'A' <= c <= 'Z' || 'a' <= c <= 'z'
}

/// An identifier is its prefix, an underscore and 26 characters: 12 hexadecimal digits and 14
/// digits to the base 62.
pub proof fn lemma_identifier_shape(prefix: Seq<char>, digest: Seq<u8>)
    requires
        digest.len() == 32,
    ensures
        ({
            let text = identifier_of(prefix, digest);
            let start = prefix.len() + 1;
            &&& text.len() == start + 26
            &&& text.take(start as int) == prefix.push('_')
            &&& forall|i: int| start <= i < start + 12 ==> is_hex(#[trigger] text[i])
            &&& forall|i: int| start + 12 <= i < start + 26 ==> is_base62(#[trigger] text[i])
        }),
{
    reveal_strlit("_");
    lemma_hex(digest.take(6));
    let text = identifier_of(prefix, digest);
    let start = prefix.len() + 1;
    assert(text.take(start as int) =~= prefix.push('_'));
    assert forall|i: int| start <= i < start + 12 implies is_hex(#[trigger] text[i]) by {
        assert(text[i] == hex_text(digest.take(6))[i - start]);
    }
    assert forall|i: int| start + 12 <= i < start + 26 implies is_base62(#[trigger] text[i]) by {
        assert(text[i] == base62_text(digest.subrange(6, 20))[i - start - 12]);
    }
}

/// A digest of 32 bytes is 64 hexadecimal digits.
pub proof fn lemma_digest_shape(digest: Seq<u8>)
    requires
        digest.len() == 32,
    ensures
        hex_text(digest).len() == 64,
        forall|i: int| 0 <= i < 64 ==> is_hex(#[trigger] hex_text(digest)[i]),
{
    lemma_hex(digest);
}

proof fn lemma_hex_digit_injective(first: int, second: int)
    requires
        0 <= first < 16,
        0 <= second < 16,
        hex_digit(first) == hex_digit(second),
    ensures
        first == second,
{
    assert(hex_digit(first) as int == if first < 10 { 48 + first } else { 87 + first });
    assert(hex_digit(second) as int == if second < 10 { 48 + second } else { 87 + second });
}

/// Other bytes have other hexadecimal digits.
pub proof fn lemma_hex_injective(first: Seq<u8>, second: Seq<u8>)
    requires
        hex_text(first) == hex_text(second),
    ensures
        first == second,
    decreases first.len(),
{
    lemma_hex(first);
    lemma_hex(second);
    assert(first.len() == second.len());
    if first.len() > 0 {
        let text = hex_text(first);
        let count = text.len();
        lemma_hex(first.drop_last());
        lemma_hex(second.drop_last());
        assert(text[count - 2] == hex_digit(first.last() as int / 16));
        assert(text[count - 1] == hex_digit(first.last() as int % 16));
        assert(text[count - 2] == hex_digit(second.last() as int / 16));
        assert(text[count - 1] == hex_digit(second.last() as int % 16));
        lemma_hex_digit_injective(first.last() as int / 16, second.last() as int / 16);
        lemma_hex_digit_injective(first.last() as int % 16, second.last() as int % 16);
        assert(hex_text(first.drop_last()) =~= text.take(count - 2));
        assert(hex_text(second.drop_last()) =~= text.take(count - 2));
        lemma_hex_injective(first.drop_last(), second.drop_last());
        assert(first =~= first.drop_last().push(first.last()));
        assert(second =~= second.drop_last().push(second.last()));
    } else {
        assert(first =~= second);
    }
}

/// Two lists of names have the same digest only if they are the same list, or if SHA-256 maps
/// two different strings of bytes to one digest.
pub proof fn lemma_same_digest_is_same_names(first: Seq<Seq<char>>, second: Seq<Seq<char>>)
    requires
        countable(first),
        countable(second),
        digest_of(first) == digest_of(second),
    ensures
        first == second || (frames(first) != frames(second) && sha256(frames(first)) == sha256(
            frames(second),
        )),
{
    lemma_hex_injective(fingerprint_of(first), fingerprint_of(second));
    if frames(first) == frames(second) {
        lemma_frames_injective(first, second);
    }
}

/// How a digit is written: the ten figures, then letters. To the base 62 the capital letters come
/// before the small ones.
pub open spec fn is_digit_of(c: char, value: int, capitals: bool) -> bool {
    if value < 10 {
        c as int == '0' as int + value
    } else if !capitals {
        c as int == 'a' as int + (value - 10)
    } else if value < 36 {
        c as int == 'A' as int + (value - 10)
    } else {
        c as int == 'a' as int + (value - 36)
    }
}

/// The hexadecimal text of bytes has two digits for each, the higher one first, in their order.
pub proof fn lemma_hex_spells_bytes(bytes: Seq<u8>)
    ensures
        hex_text(bytes).len() == 2 * bytes.len(),
        forall|i: int|
            0 <= i < bytes.len() ==> is_digit_of(
                hex_text(bytes)[2 * i],
                (#[trigger] bytes[i]) as int / 16,
                false,
            ) && is_digit_of(hex_text(bytes)[2 * i + 1], bytes[i] as int % 16, false),
    decreases bytes.len(),
{
    lemma_hex(bytes);
    if bytes.len() > 0 {
        let before = bytes.drop_last();
        lemma_hex(before);
        lemma_hex_spells_bytes(before);
        assert forall|i: int| 0 <= i < bytes.len() implies is_digit_of(
            hex_text(bytes)[2 * i],
            (#[trigger] bytes[i]) as int / 16,
            false,
        ) && is_digit_of(hex_text(bytes)[2 * i + 1], bytes[i] as int % 16, false) by {
            if i < before.len() {
                assert(before[i] == bytes[i]);
                assert(hex_text(bytes)[2 * i] == hex_text(before)[2 * i]);
                assert(hex_text(bytes)[2 * i + 1] == hex_text(before)[2 * i + 1]);
            }
        }
    }
}

/// An identifier spells out the first 20 bytes of the digest: the first 6 in hexadecimal, and of
/// each of the next 14 its remainder by 62, in one digit.
pub proof fn lemma_identifier_spells_the_digest(prefix: Seq<char>, digest: Seq<u8>)
    requires
        digest.len() == 32,
    ensures
        ({
            let text = identifier_of(prefix, digest);
            let start = prefix.len() + 1;
            &&& forall|i: int|
                0 <= i < 6 ==> is_digit_of(
                    text[start + 2 * i],
                    (#[trigger] digest[i]) as int / 16,
                    false,
                ) && is_digit_of(text[start + 2 * i + 1], digest[i] as int % 16, false)
            &&& forall|i: int|
                6 <= i < 20 ==> is_digit_of(
                    text[start + 6 + i],
                    (#[trigger] digest[i]) as int % 62,
                    true,
                )
        }),
{
    reveal_strlit("_");
    let text = identifier_of(prefix, digest);
    let start = prefix.len() + 1;
    let first = digest.take(6);
    lemma_hex_spells_bytes(first);
    assert forall|i: int| 0 <= i < 6 implies is_digit_of(
        text[start + 2 * i],
        (#[trigger] digest[i]) as int / 16,
        false,
    ) && is_digit_of(text[start + 2 * i + 1], digest[i] as int % 16, false) by {
        assert(first[i] == digest[i]);
        assert(text[start + 2 * i] == hex_text(first)[2 * i]);
        assert(text[start + 2 * i + 1] == hex_text(first)[2 * i + 1]);
    }
    assert forall|i: int| 6 <= i < 20 implies is_digit_of(
        text[start + 6 + i],
        (#[trigger] digest[i]) as int % 62,
        true,
    ) by {
        assert(text[start + 6 + i] == base62_text(digest.subrange(6, 20))[i - 6]);
    }
}

} // verus!
