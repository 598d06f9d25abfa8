//! The canonical byte form of the values that get hashed. Integers are eight
//! bytes, least significant first; byte strings and text carry their length
//! in front, so that consecutive fields cannot run into each other.

use vstd::bytes::{
    lemma_auto_spec_u64_to_from_le_bytes, spec_u64_from_le_bytes, spec_u64_to_le_bytes,
    u64_to_le_bytes,
};
use vstd::prelude::*;
use vstd::utf8::{decode_utf8, encode_utf8, encode_utf8_decode_utf8};

verus! {

/// Eight bytes holding `value`, least significant byte first.
pub open spec fn u64_field(value: u64) -> Seq<u8> {
    spec_u64_to_le_bytes(value)
}

/// `bytes` preceded by their count.
pub open spec fn bytes_field(bytes: Seq<u8>) -> Seq<u8> {
    u64_field(bytes.len() as u64) + bytes
}

/// The UTF-8 form of `text` preceded by its length in bytes.
pub open spec fn text_field(text: Seq<char>) -> Seq<u8> {
    bytes_field(encode_utf8(text))
}

/// One byte: 1 for `true`, 0 for `false`.
pub open spec fn flag_field(flag: bool) -> Seq<u8> {
    seq![if flag { 1u8 } else { 0u8 }]
}

/// Appends `value` to `buf`.
pub fn put_u64(buf: &mut Vec<u8>, value: u64)
    ensures
        final(buf)@ == old(buf)@ + u64_field(value),
{
    let mut bytes = u64_to_le_bytes(value);
    buf.append(&mut bytes);
}

/// Appends a single byte to `buf`.
pub fn put_u8(buf: &mut Vec<u8>, value: u8)
    ensures
        final(buf)@ == old(buf)@ + seq![value],
{
    buf.push(value);
    assert(buf@ =~= old(buf)@ + seq![value]);
}

/// Appends a flag to `buf`.
pub fn put_flag(buf: &mut Vec<u8>, flag: bool)
    ensures
        final(buf)@ == old(buf)@ + flag_field(flag),
{
    put_u8(buf, if flag { 1 } else { 0 });
}

/// Appends `bytes`, length first, to `buf`.
pub fn put_bytes(buf: &mut Vec<u8>, bytes: &[u8])
    ensures
        final(buf)@ == old(buf)@ + bytes_field(bytes@),
{
    put_u64(buf, bytes.len() as u64);
    let ghost before = buf@;
    buf.extend_from_slice(bytes);
    assert(buf@ =~= before + bytes@);
    assert(buf@ =~= old(buf)@ + bytes_field(bytes@));
}

/// Appends `text`, length first, to `buf`.
pub fn put_text(buf: &mut Vec<u8>, text: &str)
    ensures
        final(buf)@ == old(buf)@ + text_field(text@),
{
    put_bytes(buf, text.as_bytes());
}

/// Whether `bytes` are few enough for their count to fit the length field.
pub open spec fn fits(bytes: Seq<u8>) -> bool {
    bytes.len() <= u64::MAX
}

/// Two byte strings that begin with equally long parts and are equal have
/// equal parts and equal rests.
pub proof fn lemma_split_at_equal_length(
    a: Seq<u8>,
    rest_a: Seq<u8>,
    b: Seq<u8>,
    rest_b: Seq<u8>,
)
    requires
        a.len() == b.len(),
        a + rest_a == b + rest_b,
    ensures
        a == b,
        rest_a == rest_b,
{
    assert((a + rest_a).subrange(0, a.len() as int) =~= a);
    assert((b + rest_b).subrange(0, b.len() as int) =~= b);
    assert((a + rest_a).subrange(a.len() as int, (a + rest_a).len() as int) =~= rest_a);
    assert((b + rest_b).subrange(b.len() as int, (b + rest_b).len() as int) =~= rest_b);
}

/// An integer field can be read back: what follows it is told apart from
/// it, and the integer is the one that was written.
pub proof fn lemma_u64_field_reads_back(a: u64, rest_a: Seq<u8>, b: u64, rest_b: Seq<u8>)
    requires
        u64_field(a) + rest_a == u64_field(b) + rest_b,
    ensures
        a == b,
        rest_a == rest_b,
{
    lemma_auto_spec_u64_to_from_le_bytes();
    lemma_split_at_equal_length(u64_field(a), rest_a, u64_field(b), rest_b);
    assert(spec_u64_from_le_bytes(spec_u64_to_le_bytes(a)) == a);
    assert(spec_u64_from_le_bytes(spec_u64_to_le_bytes(b)) == b);
}

/// A field of bytes can be read back, if the bytes fit the length field.
pub proof fn lemma_bytes_field_reads_back(
    a: Seq<u8>,
    rest_a: Seq<u8>,
    b: Seq<u8>,
    rest_b: Seq<u8>,
)
    requires
        fits(a),
        fits(b),
        bytes_field(a) + rest_a == bytes_field(b) + rest_b,
    ensures
        a == b,
        rest_a == rest_b,
{
    assert(bytes_field(a) + rest_a =~= u64_field(a.len() as u64) + (a + rest_a));
    assert(bytes_field(b) + rest_b =~= u64_field(b.len() as u64) + (b + rest_b));
    lemma_u64_field_reads_back(a.len() as u64, a + rest_a, b.len() as u64, b + rest_b);
    lemma_split_at_equal_length(a, rest_a, b, rest_b);
}

/// A field of text can be read back, if the text fits the length field.
pub proof fn lemma_text_field_reads_back(
    a: Seq<char>,
    rest_a: Seq<u8>,
    b: Seq<char>,
    rest_b: Seq<u8>,
)
    requires
        fits(encode_utf8(a)),
        fits(encode_utf8(b)),
        text_field(a) + rest_a == text_field(b) + rest_b,
    ensures
        a == b,
        rest_a == rest_b,
{
    lemma_bytes_field_reads_back(encode_utf8(a), rest_a, encode_utf8(b), rest_b);
    encode_utf8_decode_utf8(a);
    encode_utf8_decode_utf8(b);
    assert(decode_utf8(encode_utf8(a)) == a);
    assert(decode_utf8(encode_utf8(b)) == b);
}

} // verus!
