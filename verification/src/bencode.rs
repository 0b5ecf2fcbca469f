//! Bencoding, as far as a metainfo dictionary needs it: integers, byte strings,
//! and the entries of a dictionary.
use crate::bytes::append;
use crate::text;
use vstd::prelude::*;

verus! {

/// An integer: `i`, the decimal digits, `e`.
pub open spec fn integer(n: nat) -> Seq<u8> {
    seq![105u8] + text::decimal(n) + seq![101u8]
}

/// A byte string: its length in decimal, `:`, the bytes.
pub open spec fn byte_string(data: Seq<u8>) -> Seq<u8> {
    text::decimal(data.len()) + seq![58u8] + data
}

/// An entry of a dictionary: the key, as a byte string, and the encoded value.
pub open spec fn entry(key: Seq<char>, value: Seq<u8>) -> Seq<u8> {
    byte_string(vstd::utf8::encode_utf8(key)) + value
}

#[verifier::external_type_specification]
#[verifier::external_body]
pub struct ExBencodeError(serde_bencode::Error);

/// `serde_bencode::to_bytes` of a `u64`: `i`, the decimal digits, `e`. It does
/// not fail.
#[verifier::external_body]
pub(crate) fn encode_integer(n: u64) -> (encoded: Result<Vec<u8>, serde_bencode::Error>)
    ensures
        encoded is Ok,
        encoded->Ok_0@ == integer(n as nat),
{
    serde_bencode::to_bytes(&n)
}

/// `serde_bencode::to_bytes` of a `serde_bytes::Bytes`: the length in decimal,
/// `:`, the bytes. It does not fail.
#[verifier::external_body]
pub(crate) fn encode_byte_string(data: &[u8]) -> (encoded: Result<Vec<u8>, serde_bencode::Error>)
    ensures
        encoded is Ok,
        encoded->Ok_0@ == byte_string(data@),
{
    serde_bencode::to_bytes(&serde_bytes::Bytes::new(data))
}

/// Appends an entry whose value is an integer to a dictionary.
pub(crate) fn put_integer(buf: &mut Vec<u8>, key: &str, n: u64) -> (put: Result<
    (),
    serde_bencode::Error,
>)
    ensures
        put is Ok,
        final(buf)@ == old(buf)@ + entry(key@, integer(n as nat)),
{
    let ghost before = buf@;
    append(buf, encode_byte_string(key.as_bytes())?.as_slice());
    append(buf, encode_integer(n)?.as_slice());
    assert(buf@ =~= before + entry(key@, integer(n as nat)));
    Ok(())
}

/// Appends an entry whose value is a byte string to a dictionary.
pub(crate) fn put_byte_string(buf: &mut Vec<u8>, key: &str, data: &[u8]) -> (put: Result<
    (),
    serde_bencode::Error,
>)
    ensures
        put is Ok,
        final(buf)@ == old(buf)@ + entry(key@, byte_string(data@)),
{
    let ghost before = buf@;
    append(buf, encode_byte_string(key.as_bytes())?.as_slice());
    append(buf, encode_byte_string(data)?.as_slice());
    assert(buf@ =~= before + entry(key@, byte_string(data@)));
    Ok(())
}

/// A run of bytes that ends at the first `stop` can be told from what follows it.
proof fn split_at_stop(a: Seq<u8>, b: Seq<u8>, stop: u8, ra: Seq<u8>, rb: Seq<u8>)
    requires
        a + seq![stop] + ra == b + seq![stop] + rb,
        forall|i: int| 0 <= i < a.len() ==> a[i] != stop,
        forall|i: int| 0 <= i < b.len() ==> b[i] != stop,
    ensures
        a == b,
        ra == rb,
{
    let s = a + seq![stop] + ra;
    let t = b + seq![stop] + rb;
    assert(s[a.len() as int] == stop);
    assert(t[b.len() as int] == stop);
    if a.len() < b.len() {
        assert(t[a.len() as int] == b[a.len() as int]);
    }
    if b.len() < a.len() {
        assert(s[b.len() as int] == a[b.len() as int]);
    }
    assert(a =~= s.take(a.len() as int));
    assert(b =~= t.take(a.len() as int));
    assert(ra =~= s.skip(a.len() as int + 1));
    assert(rb =~= t.skip(a.len() as int + 1));
}

/// Where two encodings start with an integer, they start with the same one, and
/// go on in the same way.
pub proof fn integer_is_self_delimiting(a: nat, b: nat, ra: Seq<u8>, rb: Seq<u8>)
    requires
        integer(a) + ra == integer(b) + rb,
    ensures
        a == b,
        ra == rb,
{
    text::decimal_is_digits(a);
    text::decimal_is_digits(b);
    let s = integer(a) + ra;
    let t = integer(b) + rb;
    assert(s.skip(1) =~= text::decimal(a) + seq![101u8] + ra);
    assert(t.skip(1) =~= text::decimal(b) + seq![101u8] + rb);
    split_at_stop(text::decimal(a), text::decimal(b), 101, ra, rb);
    text::decimal_is_injective(a, b);
}

/// Where two encodings start with a byte string, they start with the same one,
/// and go on in the same way.
pub proof fn byte_string_is_self_delimiting(a: Seq<u8>, b: Seq<u8>, ra: Seq<u8>, rb: Seq<u8>)
    requires
        byte_string(a) + ra == byte_string(b) + rb,
    ensures
        a == b,
        ra == rb,
{
    text::decimal_is_digits(a.len());
    text::decimal_is_digits(b.len());
    let s = byte_string(a) + ra;
    let t = byte_string(b) + rb;
    assert(s =~= text::decimal(a.len()) + seq![58u8] + (a + ra));
    assert(t =~= text::decimal(b.len()) + seq![58u8] + (b + rb));
    split_at_stop(text::decimal(a.len()), text::decimal(b.len()), 58, a + ra, b + rb);
    text::decimal_is_injective(a.len(), b.len());
    assert(a =~= (a + ra).take(a.len() as int));
    assert(b =~= (b + rb).take(a.len() as int));
    assert(ra =~= (a + ra).skip(a.len() as int));
    assert(rb =~= (b + rb).skip(a.len() as int));
}

} // verus!
