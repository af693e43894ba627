use vstd::prelude::*;
use crate::error::Error;

verus! {

/// The character that displays a single digit value below 16, lowercase.
pub open spec fn digit_char(v: u8) -> char
    recommends
        v < 16,
{
    if v == 0 {
        '0'
    } else if v == 1 {
        '1'
    } else if v == 2 {
        '2'
    } else if v == 3 {
        '3'
    } else if v == 4 {
        '4'
    } else if v == 5 {
        '5'
    } else if v == 6 {
        '6'
    } else if v == 7 {
        '7'
    } else if v == 8 {
        '8'
    } else if v == 9 {
        '9'
    } else if v == 10 {
        'a'
    } else if v == 11 {
        'b'
    } else if v == 12 {
        'c'
    } else if v == 13 {
        'd'
    } else if v == 14 {
        'e'
    } else {
        'f'
    }
}

/// Lowercase hex text of a byte sequence: two digits per byte, high nibble
/// first.
pub open spec fn hex_of_bytes(b: Seq<u8>) -> Seq<char>
    decreases b.len(),
{
    if b.len() == 0 {
        Seq::empty()
    } else {
        seq![digit_char(b[0] / 16), digit_char(b[0] % 16)] + hex_of_bytes(b.drop_first())
    }
}

pub open spec fn is_hex_digit(c: char) -> bool {
    let u = c as u32;
    (0x30 <= u && u <= 0x39) || (0x61 <= u && u <= 0x66) || (0x41 <= u && u <= 0x46)
}

/// The value of a hex digit character, either case.
pub open spec fn hex_digit_value(c: char) -> u8
    recommends
        is_hex_digit(c),
{
    let u = c as u32;
    if 0x30 <= u && u <= 0x39 {
        (u - 0x30) as u8
    } else if 0x61 <= u && u <= 0x66 {
        (u - 0x57) as u8
    } else {
        (u - 0x37) as u8
    }
}

/// Valid hex text: an even number of characters, all of them hex digits of
/// either case.
pub open spec fn valid_hex(s: Seq<char>) -> bool {
    s.len() % 2 == 0 && (forall|i: int| 0 <= i < s.len() ==> is_hex_digit(#[trigger] s[i]))
}

/// The bytes that valid hex text spells, one byte for each digit pair.
pub open spec fn bytes_of_hex(s: Seq<char>) -> Seq<u8>
    recommends
        valid_hex(s),
    decreases s.len(),
{
    if s.len() < 2 {
        Seq::empty()
    } else {
        seq![(hex_digit_value(s[0]) * 16 + hex_digit_value(s[1])) as u8] + bytes_of_hex(
            s.skip(2),
        )
    }
}

/// Relies on hex::encode: each input byte becomes two lowercase hex digits,
/// high nibble first, in input order.
#[verifier::external_body]
pub fn hex_encode(data: &[u8]) -> (r: String)
    ensures
        r@ == hex_of_bytes(data@),
{
    hex::encode(data)
}

/// Relies on hex::decode: it accepts exactly the even-length strings of hex
/// digits (either case) and returns the bytes their digit pairs spell.
#[verifier::external_body]
pub fn hex_decode(s: &str) -> (r: Result<Vec<u8>, Error>)
    ensures
        match r {
            Ok(b) => valid_hex(s@) && b@ == bytes_of_hex(s@),
            Err(e) => !valid_hex(s@) && e == Error::InvalidHex,
        },
{
    match hex::decode(s) {
        Ok(b) => Ok(b),
        Err(_) => Err(Error::InvalidHex),
    }
}

/// Writes a script given as hex text: the byte length it spells as a
/// compact-size count, then the bytes themselves; text that is not valid hex
/// is rejected and nothing is written.
pub fn push_blob_hex(out: &mut Vec<u8>, text: &str) -> (r: Result<usize, Error>)
    ensures
        match r {
            Ok(n) => valid_hex(text@) && final (out)@ == old(out)@ + crate::codec::spec_encode_blob(
                bytes_of_hex(text@),
            ) && n == crate::codec::spec_encode_blob(bytes_of_hex(text@)).len(),
            Err(e) => !valid_hex(text@) && e == Error::InvalidHex && final (out)@ == old(out)@,
        },
{
    let bytes = match hex_decode(text) {
        Ok(b) => b,
        Err(e) => {
            return Err(e);
        },
    };
    let start = out.len();
    crate::codec::push_blob(out, &bytes);
    Ok(out.len() - start)
}

/// Hex text never hides anything: it is twice as long as the bytes it spells,
/// and decoding what was encoded yields the original bytes.
pub proof fn lemma_hex_of_bytes_round_trip(b: Seq<u8>)
    ensures
        hex_of_bytes(b).len() == 2 * b.len(),
        valid_hex(hex_of_bytes(b)),
        bytes_of_hex(hex_of_bytes(b)) == b,
    decreases b.len(),
{
    if b.len() == 0 {
        assert(bytes_of_hex(hex_of_bytes(b)) =~= b);
    } else {
        lemma_hex_of_bytes_round_trip(b.drop_first());
        let s = hex_of_bytes(b);
        let rest = hex_of_bytes(b.drop_first());
        assert(s.skip(2) =~= rest);
        assert(valid_hex(s)) by {
            assert(forall|i: int| 0 <= i < rest.len() ==> s[i + 2] == #[trigger] rest[i]);
            assert forall|i: int| 0 <= i < s.len() implies is_hex_digit(#[trigger] s[i]) by {
                if i >= 2 {
                    assert(s[i] == rest[i - 2]);
                }
            }
        }
        assert(hex_digit_value(digit_char(b[0] / 16)) == b[0] / 16);
        assert(hex_digit_value(digit_char(b[0] % 16)) == b[0] % 16);
        assert((hex_digit_value(s[0]) * 16 + hex_digit_value(s[1])) as u8 == b[0]);
        assert(bytes_of_hex(s) =~= b);
    }
}

} // verus!
