//! Reading bencoding back: what a dictionary of integers and byte strings says to
//! whoever gets it.
use crate::bencode;
use crate::metainfo::Info;
use crate::text;
use vstd::prelude::*;

verus! {

/// A value in a dictionary.
pub enum Value {
    Integer(int),
    Bytes(Seq<u8>),
}

/// How many digits `bytes` begins with.
pub open spec fn leading_digits(bytes: Seq<u8>) -> nat
    decreases bytes.len(),
{
    if bytes.len() > 0 && 48 <= bytes[0] <= 57 {
        1 + leading_digits(bytes.drop_first())
    } else {
        0
    }
}

/// Reads an integer, and gives what follows it.
#[verifier::opaque]
pub open spec fn read_integer(bytes: Seq<u8>) -> Option<(int, Seq<u8>)> {
    let count = leading_digits(bytes.skip(1)) as int;
    if bytes.len() > 1 + count && bytes[0] == 105 && count > 0 && bytes[1 + count] == 101 {
        Some((text::number_of(bytes.subrange(1, 1 + count)), bytes.skip(2 + count)))
    } else {
        None
    }
}

/// Reads a byte string, and gives what follows it.
#[verifier::opaque]
pub open spec fn read_byte_string(bytes: Seq<u8>) -> Option<(Seq<u8>, Seq<u8>)> {
    let count = leading_digits(bytes) as int;
    let from = count + 1;
    let to = from + text::number_of(bytes.take(count));
    if 0 < count < bytes.len() && bytes[count] == 58 && from <= to <= bytes.len() {
        Some((bytes.subrange(from, to), bytes.skip(to)))
    } else {
        None
    }
}

/// Reads a value, and gives what follows it.
#[verifier::opaque]
pub open spec fn read_value(bytes: Seq<u8>) -> Option<(Value, Seq<u8>)> {
    match read_integer(bytes) {
        Some((n, rest)) => Some((Value::Integer(n), rest)),
        None => match read_byte_string(bytes) {
            Some((data, rest)) => Some((Value::Bytes(data), rest)),
            None => None,
        },
    }
}

/// Reads the entries of a dictionary up to its end, and gives what follows it.
pub open spec fn read_entries(bytes: Seq<u8>) -> Option<(Seq<(Seq<u8>, Value)>, Seq<u8>)>
    decreases bytes.len(),
{
    if bytes.len() == 0 {
        None
    } else if bytes[0] == 101 {
        Some((Seq::empty(), bytes.skip(1)))
    } else {
        match read_byte_string(bytes) {
            None => None,
            Some((key, behind)) => match read_value(behind) {
                None => None,
                Some((value, next)) => if next.len() >= bytes.len() {
                    None
                } else {
                    match read_entries(next) {
                        None => None,
                        Some((entries, rest)) => Some((seq![(key, value)] + entries, rest)),
                    }
                },
            },
        }
    }
}

/// Reads a dictionary, and gives what follows it.
pub open spec fn read_dictionary(bytes: Seq<u8>) -> Option<(Seq<(Seq<u8>, Value)>, Seq<u8>)> {
    if bytes.len() > 0 && bytes[0] == 100 {
        read_entries(bytes.skip(1))
    } else {
        None
    }
}

/// The digits that something begins with end where something else follows.
proof fn digits_end(digits: Seq<u8>, rest: Seq<u8>)
    requires
        forall|i: int| 0 <= i < digits.len() ==> 48 <= #[trigger] digits[i] <= 57,
        rest.len() > 0,
        !(48 <= rest[0] <= 57),
    ensures
        leading_digits(digits + rest) == digits.len(),
    decreases digits.len(),
{
    if digits.len() > 0 {
        assert((digits + rest).drop_first() =~= digits.drop_first() + rest);
        digits_end(digits.drop_first(), rest);
    }
}

/// An encoded integer reads back, whatever follows it.
pub proof fn integer_reads_back(n: nat, rest: Seq<u8>)
    ensures
        read_integer(bencode::integer(n) + rest) == Some((n as int, rest)),
        read_value(bencode::integer(n) + rest) == Some((Value::Integer(n as int), rest)),
{
    reveal(read_integer);
    reveal(read_value);
    let digits = text::decimal(n);
    let bytes = bencode::integer(n) + rest;
    text::decimal_is_digits(n);
    text::decimal_spells_the_number(n);
    assert(bytes.skip(1) =~= digits + (seq![101u8] + rest));
    digits_end(digits, seq![101u8] + rest);
    let end = digits.len() as int + 1;
    assert(bytes.subrange(1, end) =~= digits);
    assert(bytes.skip(end + 1) =~= rest);
    assert(bytes[end] == 101);
}

/// An encoded byte string reads back, whatever follows it.
pub proof fn byte_string_reads_back(data: Seq<u8>, rest: Seq<u8>)
    ensures
        read_byte_string(bencode::byte_string(data) + rest) == Some((data, rest)),
        read_value(bencode::byte_string(data) + rest) == Some((Value::Bytes(data), rest)),
{
    reveal(read_integer);
    reveal(read_byte_string);
    reveal(read_value);
    let digits = text::decimal(data.len());
    let bytes = bencode::byte_string(data) + rest;
    let from = digits.len() as int + 1;
    text::decimal_is_digits(data.len());
    text::decimal_spells_the_number(data.len());
    assert(bytes =~= digits + (seq![58u8] + (data + rest)));
    digits_end(digits, seq![58u8] + (data + rest));
    assert(bytes.take(digits.len() as int) =~= digits);
    assert(bytes.subrange(from, from + data.len()) =~= data);
    assert(bytes.skip(from + data.len()) =~= rest);
    assert(bytes[0] == digits[0]);
}

/// An entry before entries that can be read is read with them.
proof fn entry_reads_back(
    key: Seq<char>,
    encoded: Seq<u8>,
    value: Value,
    tail: Seq<u8>,
    entries: Seq<(Seq<u8>, Value)>,
    rest: Seq<u8>,
)
    requires
        read_value(encoded + tail) == Some((value, tail)),
        read_entries(tail) == Some((entries, rest)),
    ensures
        read_entries(bencode::entry(key, encoded) + tail) == Some(
            (seq![(vstd::utf8::encode_utf8(key), value)] + entries, rest),
        ),
{
    let name = vstd::utf8::encode_utf8(key);
    let bytes = bencode::entry(key, encoded) + tail;
    text::decimal_is_digits(name.len());
    assert(bytes =~= bencode::byte_string(name) + (encoded + tail));
    byte_string_reads_back(name, encoded + tail);
    assert(bytes[0] == text::decimal(name.len())[0]);
}

/// The metainfo in bencoding is a dictionary of exactly four entries, the length,
/// the name, the length of a piece and the hashes, in this order, with nothing
/// behind it.
pub proof fn metainfo_reads_back_as_four_entries(info: Info)
    ensures
        read_dictionary(info.spec_bencode()) == Some(
            (
                seq![
                    (vstd::utf8::encode_utf8("length"@), Value::Integer(info.length as int)),
                    (
                        vstd::utf8::encode_utf8("name"@),
                        Value::Bytes(vstd::utf8::encode_utf8(info.name@)),
                    ),
                    (
                        vstd::utf8::encode_utf8("piece length"@),
                        Value::Integer(info.piece_length as int),
                    ),
                    (vstd::utf8::encode_utf8("pieces"@), Value::Bytes(info.pieces@)),
                ],
                Seq::<u8>::empty(),
            ),
        ),
{
    let name = vstd::utf8::encode_utf8(info.name@);
    let length = bencode::integer(info.length as nat);
    let piece_length = bencode::integer(info.piece_length as nat);
    let e3 = bencode::entry("piece length"@, piece_length);
    let e4 = bencode::entry("pieces"@, bencode::byte_string(info.pieces@));
    let v3 = (vstd::utf8::encode_utf8("piece length"@), Value::Integer(info.piece_length as int));
    let v4 = (vstd::utf8::encode_utf8("pieces"@), Value::Bytes(info.pieces@));
    let none = Seq::<(Seq<u8>, Value)>::empty();
    let nothing = Seq::<u8>::empty();
    let end = seq![101u8];
    let t4 = e4 + end;
    let r4 = seq![v4] + none;
    let t3 = e3 + t4;
    let r3 = seq![v3] + r4;
    assert(read_entries(end) == Some((none, nothing))) by {
        assert(end.skip(1) =~= nothing);
    }
    byte_string_reads_back(info.pieces@, end);
    entry_reads_back("pieces"@, bencode::byte_string(info.pieces@), v4.1, end, none, nothing);
    integer_reads_back(info.piece_length as nat, t4);
    entry_reads_back("piece length"@, piece_length, v3.1, t4, r4, nothing);
    first_two_read_back(info, t3, r3);
    four_in_a_row(
        bencode::entry("length"@, length),
        bencode::entry("name"@, bencode::byte_string(name)),
        e3,
        e4,
    );
    let v1 = (vstd::utf8::encode_utf8("length"@), Value::Integer(info.length as int));
    let v2 = (vstd::utf8::encode_utf8("name"@), Value::Bytes(name));
    assert(seq![v1] + (seq![v2] + r3) =~= seq![v1, v2, v3, v4]);
}

/// The first two entries of the metainfo are read with those behind them.
proof fn first_two_read_back(info: Info, tail: Seq<u8>, entries: Seq<(Seq<u8>, Value)>)
    requires
        read_entries(tail) == Some((entries, Seq::<u8>::empty())),
    ensures
        ({
            let name = vstd::utf8::encode_utf8(info.name@);
            let e1 = bencode::entry("length"@, bencode::integer(info.length as nat));
            let e2 = bencode::entry("name"@, bencode::byte_string(name));
            let v1 = (vstd::utf8::encode_utf8("length"@), Value::Integer(info.length as int));
            let v2 = (vstd::utf8::encode_utf8("name"@), Value::Bytes(name));
            read_entries(e1 + (e2 + tail)) == Some(
                (seq![v1] + (seq![v2] + entries), Seq::<u8>::empty()),
            )
        }),
{
    let name = vstd::utf8::encode_utf8(info.name@);
    let e2 = bencode::entry("name"@, bencode::byte_string(name));
    let v2 = (vstd::utf8::encode_utf8("name"@), Value::Bytes(name));
    let length = bencode::integer(info.length as nat);
    byte_string_reads_back(name, tail);
    entry_reads_back("name"@, bencode::byte_string(name), v2.1, tail, entries, Seq::empty());
    integer_reads_back(info.length as nat, e2 + tail);
    entry_reads_back(
        "length"@,
        length,
        Value::Integer(info.length as int),
        e2 + tail,
        seq![v2] + entries,
        Seq::empty(),
    );
}

/// Four entries between the ends of a dictionary, behind the first byte.
proof fn four_in_a_row(e1: Seq<u8>, e2: Seq<u8>, e3: Seq<u8>, e4: Seq<u8>)
    ensures
        (seq![100u8] + e1 + e2 + e3 + e4 + seq![101u8]).skip(1) == e1 + (e2 + (e3 + (e4
            + seq![101u8]))),
        (seq![100u8] + e1 + e2 + e3 + e4 + seq![101u8])[0] == 100,
        (seq![100u8] + e1 + e2 + e3 + e4 + seq![101u8]).len() > 0,
{
    assert((seq![100u8] + e1 + e2 + e3 + e4 + seq![101u8]).skip(1) =~= e1 + (e2 + (e3 + (e4
        + seq![101u8]))));
}

} // verus!
