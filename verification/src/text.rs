//! Text: numbers in decimal, percent-encoding and UTF-8.
use vstd::prelude::*;

verus! {

/// The decimal digits of `n`, as ASCII bytes, with no leading zeros.
pub open spec fn decimal(n: nat) -> Seq<u8>
    decreases n,
{
    if n < 10 {
        seq![(48 + n) as u8]
    } else {
        decimal(n / 10).push((48 + n % 10) as u8)
    }
}

/// The characters that ASCII bytes stand for.
pub open spec fn ascii(bytes: Seq<u8>) -> Seq<char> {
    bytes.map_values(|b: u8| b as char)
}

/// The digit `d` as text.
fn digit_text(d: u8) -> (text: &'static str)
    requires
        d < 10,
    ensures
        text@ == seq![(48 + d) as u8 as char],
{
    proof {
        reveal_strlit("0");
        reveal_strlit("1");
        reveal_strlit("2");
        reveal_strlit("3");
        reveal_strlit("4");
        reveal_strlit("5");
        reveal_strlit("6");
        reveal_strlit("7");
        reveal_strlit("8");
        reveal_strlit("9");
    }
    let text = match d {
        0 => "0",
        1 => "1",
        2 => "2",
        3 => "3",
        4 => "4",
        5 => "5",
        6 => "6",
        7 => "7",
        8 => "8",
        _ => "9",
    };
    assert(text@ =~= seq![(48 + d) as u8 as char]);
    text
}

/// Appends `n` in decimal to `text`.
pub fn push_decimal(text: &mut String, n: u64)
    ensures
        final(text)@ == old(text)@ + ascii(decimal(n as nat)),
    decreases n,
{
    let ghost before = text@;
    if n >= 10 {
        push_decimal(text, n / 10);
    }
    text.append(digit_text((n % 10) as u8));
    assert(text@ =~= before + ascii(decimal(n as nat)));
}

/// Whether percent-encoding leaves a byte as it is: letters, digits, and
/// `-`, `.`, `_`, `~`.
pub open spec fn is_unreserved(b: u8) -> bool {
    ||| 48 <= b <= 57
    ||| 65 <= b <= 90
    ||| 97 <= b <= 122
    ||| b == 45
    ||| b == 46
    ||| b == 95
    ||| b == 126
}

/// A digit of a hexadecimal number, in upper case.
pub open spec fn hex_digit(d: int) -> u8 {
    if d < 10 {
        (48 + d) as u8
    } else {
        (55 + d) as u8
    }
}

/// A byte in percent-encoding: itself, or `%` and its two hexadecimal digits.
pub open spec fn percent_byte(b: u8) -> Seq<u8> {
    if is_unreserved(b) {
        seq![b]
    } else {
        seq![37, hex_digit(b as int / 16), hex_digit(b as int % 16)]
    }
}

/// Bytes in percent-encoding, one after the other.
pub open spec fn percent_encoded(data: Seq<u8>) -> Seq<u8>
    decreases data.len(),
{
    if data.len() == 0 {
        Seq::empty()
    } else {
        percent_byte(data[0]) + percent_encoded(data.drop_first())
    }
}

/// `urlencoding::encode_binary`: percent-encodes every byte but letters, digits
/// and `-`, `.`, `_`, `~`, with hexadecimal digits in upper case.
#[verifier::external_body]
pub(crate) fn percent_encode(data: &[u8]) -> (text: String)
    ensures
        text@ == ascii(percent_encoded(data@)),
{
    urlencoding::encode_binary(data).into_owned()
}

#[verifier::external_type_specification]
#[verifier::external_body]
pub struct ExFromUtf8Error(std::string::FromUtf8Error);

/// `String::from_utf8` takes exactly the byte strings that are UTF-8, and gives
/// the text that they encode.
pub assume_specification[ String::from_utf8 ](vec: Vec<u8>) -> (decoded: Result<
    String,
    std::string::FromUtf8Error,
>)
    ensures
        decoded is Ok <==> vstd::utf8::valid_utf8(vec@),
        decoded is Ok ==> decoded->Ok_0@ == vstd::utf8::decode_utf8(vec@),
;

/// Decimal digits are digits, and there is at least one.
pub proof fn decimal_is_digits(n: nat)
    ensures
        decimal(n).len() > 0,
        forall|i: int| 0 <= i < decimal(n).len() ==> 48 <= #[trigger] decimal(n)[i] <= 57,
    decreases n,
{
    if n >= 10 {
        decimal_is_digits(n / 10);
    }
}

/// Different numbers have different digits.
pub proof fn decimal_is_injective(a: nat, b: nat)
    requires
        decimal(a) == decimal(b),
    ensures
        a == b,
    decreases a,
{
    decimal_is_digits(a / 10);
    decimal_is_digits(b / 10);
    assert(decimal(a).last() == (48 + a % 10) as u8);
    assert(decimal(b).last() == (48 + b % 10) as u8);
    if a >= 10 && b >= 10 {
        assert(decimal(a).drop_last() =~= decimal(a / 10));
        assert(decimal(b).drop_last() =~= decimal(b / 10));
        decimal_is_injective(a / 10, b / 10);
    }
}

/// Percent-encoding loses nothing: different bytes are encoded differently.
pub proof fn percent_encoding_is_injective(a: Seq<u8>, b: Seq<u8>)
    requires
        percent_encoded(a) == percent_encoded(b),
    ensures
        a == b,
    decreases a.len(),
{
    if a.len() == 0 || b.len() == 0 {
        assert(a =~= b);
    } else {
        let ea = percent_encoded(a);
        let eb = percent_encoded(b);
        let na = percent_byte(a[0]).len();
        let nb = percent_byte(b[0]).len();
        assert(ea[0] == percent_byte(a[0])[0]);
        assert(eb[0] == percent_byte(b[0])[0]);
        assert(na == nb);
        if na == 3 {
            assert(ea[1] == percent_byte(a[0])[1] && ea[2] == percent_byte(a[0])[2]);
            assert(eb[1] == percent_byte(b[0])[1] && eb[2] == percent_byte(b[0])[2]);
        }
        assert(a[0] == b[0]);
        assert(ea.skip(na as int) =~= percent_encoded(a.drop_first()));
        assert(eb.skip(nb as int) =~= percent_encoded(b.drop_first()));
        percent_encoding_is_injective(a.drop_first(), b.drop_first());
        assert(a =~= seq![a[0]] + a.drop_first());
        assert(b =~= seq![b[0]] + b.drop_first());
    }
}

/// The number that decimal digits spell.
pub open spec fn number_of(digits: Seq<u8>) -> int
    decreases digits.len(),
{
    if digits.len() == 0 {
        0
    } else {
        10 * number_of(digits.drop_last()) + (digits.last() - 48)
    }
}

/// The decimal digits of a number spell that number, and begin with a zero only
/// where it is all that they are.
pub proof fn decimal_spells_the_number(n: nat)
    ensures
        number_of(decimal(n)) == n,
        n > 0 ==> decimal(n)[0] != 48,
        decimal(0) == seq![48u8],
    decreases n,
{
    decimal_is_digits(n / 10);
    assert(decimal(n).last() == 48 + n % 10);
    if n < 10 {
        assert(decimal(n).drop_last() =~= Seq::<u8>::empty());
        assert(number_of(decimal(n).drop_last()) == 0);
    } else {
        assert(decimal(n).drop_last() =~= decimal(n / 10));
        decimal_spells_the_number(n / 10);
        assert(decimal(n)[0] == decimal(n / 10)[0]);
    }
    assert(decimal(0) =~= seq![48u8]);
}

/// The bytes that stand for ASCII characters.
pub open spec fn codes(text: Seq<char>) -> Seq<u8> {
    text.map_values(|c: char| c as u8)
}

/// ASCII bytes and the characters that they stand for are the same numbers.
pub proof fn ascii_keeps_codes(bytes: Seq<u8>)
    ensures
        ascii(bytes).len() == bytes.len(),
        forall|i: int| 0 <= i < bytes.len() ==> #[trigger] ascii(bytes)[i] as int == bytes[i],
        codes(ascii(bytes)) == bytes,
{
    assert(codes(ascii(bytes)) =~= bytes);
}

/// The number that a hexadecimal digit in upper case stands for.
pub open spec fn hex_value(digit: u8) -> int {
    if digit < 65 {
        digit - 48
    } else {
        digit - 55
    }
}

/// The bytes that were percent-encoded.
pub open spec fn percent_decoded(text: Seq<u8>) -> Seq<u8>
    decreases text.len(),
{
    if text.len() == 0 {
        Seq::empty()
    } else if text[0] == 37 && text.len() >= 3 {
        seq![(16 * hex_value(text[1]) + hex_value(text[2])) as u8] + percent_decoded(text.skip(3))
    } else {
        seq![text[0]] + percent_decoded(text.drop_first())
    }
}

/// A percent-encoded byte reads back, whatever follows it.
proof fn percent_byte_reads_back(byte: u8, tail: Seq<u8>)
    ensures
        percent_decoded(percent_byte(byte) + tail) == seq![byte] + percent_decoded(tail),
{
    let head = percent_byte(byte);
    let text = head + tail;
    assert(text[0] == head[0]);
    if is_unreserved(byte) {
        assert(text.drop_first() =~= tail);
    } else {
        let high = byte as int / 16;
        let low = byte as int % 16;
        assert(text[1] == hex_digit(high) && text[2] == hex_digit(low));
        assert(hex_value(hex_digit(high)) == high && hex_value(hex_digit(low)) == low);
        assert(text.skip(3) =~= tail);
    }
}

/// Percent-encoding reads back.
pub proof fn percent_encoding_reads_back(data: Seq<u8>)
    ensures
        percent_decoded(percent_encoded(data)) == data,
    decreases data.len(),
{
    if data.len() > 0 {
        percent_byte_reads_back(data[0], percent_encoded(data.drop_first()));
        percent_encoding_reads_back(data.drop_first());
        assert(seq![data[0]] + data.drop_first() =~= data);
    } else {
        assert(data =~= Seq::<u8>::empty());
    }
}

/// Percent-encoding goes byte by byte: letters, digits, `-`, `.`, `_` and `~` stand
/// for themselves, and any other byte becomes `%` and two hexadecimal digits in
/// upper case.
pub proof fn percent_encoding_goes_byte_by_byte(a: Seq<u8>, byte: u8, b: Seq<u8>)
    ensures
        ({
            let alone = percent_encoded(seq![byte]);
            let kept = 48 <= byte <= 57 || 65 <= byte <= 90 || 97 <= byte <= 122 || byte == 45
                || byte == 46 || byte == 95 || byte == 126;
            &&& percent_encoded(a + seq![byte] + b) == percent_encoded(a) + alone
                + percent_encoded(b)
            &&& kept ==> alone == seq![byte]
            &&& !kept ==> {
                &&& alone.len() == 3
                &&& alone[0] == 37
                &&& 48 <= alone[1] <= 57 || 65 <= alone[1] <= 70
                &&& 48 <= alone[2] <= 57 || 65 <= alone[2] <= 70
                &&& 16 * hex_value(alone[1]) + hex_value(alone[2]) == byte
            }
        }),
    decreases a.len(),
{
    assert(seq![byte].drop_first() =~= Seq::<u8>::empty());
    assert(percent_encoded(seq![byte].drop_first()) =~= Seq::<u8>::empty());
    assert(percent_encoded(seq![byte]) =~= percent_byte(byte));
    let whole = a + seq![byte] + b;
    if a.len() == 0 {
        assert(whole.drop_first() =~= b);
        assert(percent_encoded(whole) =~= percent_encoded(a) + percent_byte(byte) + percent_encoded(
            b,
        ));
    } else {
        percent_encoding_goes_byte_by_byte(a.drop_first(), byte, b);
        assert(whole.drop_first() =~= a.drop_first() + seq![byte] + b);
        assert(percent_encoded(whole) =~= percent_encoded(a) + percent_byte(byte) + percent_encoded(
            b,
        ));
    }
}

/// No percent-encoded byte is `&`, and no decimal digit is.
pub proof fn encodings_hold_no_ampersand(data: Seq<u8>, n: nat)
    ensures
        forall|i: int| 0 <= i < percent_encoded(data).len() ==> #[trigger] percent_encoded(data)[i]
            != 38,
        forall|i: int| 0 <= i < decimal(n).len() ==> #[trigger] decimal(n)[i] != 38,
    decreases data.len(),
{
    decimal_is_digits(n);
    if data.len() > 0 {
        encodings_hold_no_ampersand(data.drop_first(), n);
        let head = percent_byte(data[0]);
        let tail = percent_encoded(data.drop_first());
        assert forall|i: int| 0 <= i < percent_encoded(data).len() implies
            #[trigger] percent_encoded(data)[i] != 38 by {
            if i < head.len() {
                assert(percent_encoded(data)[i] == head[i]);
            } else {
                assert(percent_encoded(data)[i] == tail[i - head.len()]);
            }
        }
    }
}

} // verus!
