use vstd::prelude::*;

verus! {

/// How many base units (satoshi) one display unit holds.
pub const SAT_PER_UNIT: u64 = 100_000_000;

/// The characters that a sequence of ASCII bytes spells.
pub open spec fn ascii_chars(b: Seq<u8>) -> Seq<char> {
    Seq::new(b.len(), |i: int| b[i] as char)
}

/// The shortest decimal digit string of `n` (just "0" for zero).
pub open spec fn spec_dec_digits(n: nat) -> Seq<u8>
    decreases n,
{
    if n < 10 {
        seq![(0x30 + n) as u8]
    } else {
        spec_dec_digits(n / 10).push((0x30 + n % 10) as u8)
    }
}

/// The decimal digit string of `n` padded with leading zeros to exactly
/// `width` digits (truncating high digits that do not fit).
pub open spec fn spec_dec_digits_fixed(n: nat, width: nat) -> Seq<u8>
    decreases width,
{
    if width == 0 {
        Seq::empty()
    } else {
        spec_dec_digits_fixed(n / 10, (width - 1) as nat).push((0x30 + n % 10) as u8)
    }
}

/// The decimal-fraction rendering of a satoshi amount: the whole display
/// units, a dot, and the remaining base units as exactly eight digits.
pub open spec fn spec_btc_bytes(sat: u64) -> Seq<u8> {
    spec_dec_digits((sat / SAT_PER_UNIT) as nat) + seq![0x2Eu8] + spec_dec_digits_fixed(
        (sat % SAT_PER_UNIT) as nat,
        8,
    )
}

pub open spec fn spec_btc_text(sat: u64) -> Seq<char> {
    ascii_chars(spec_btc_bytes(sat))
}

/// Relies on String::from_utf8: bytes below 0x80 are valid UTF-8 and decode
/// to exactly one character per byte, each the character of that code point.
#[verifier::external_body]
fn ascii_to_string(bytes: Vec<u8>) -> (r: String)
    requires
        forall|i: int| 0 <= i < bytes@.len() ==> bytes@[i] < 0x80,
    ensures
        r@ == ascii_chars(bytes@),
{
    String::from_utf8(bytes).unwrap()
}

/// Every character of a decimal digit string is a digit, hence ASCII.
proof fn lemma_dec_digits_ascii(n: nat)
    ensures
        forall|i: int|
            0 <= i < spec_dec_digits(n).len() ==> 0x30 <= #[trigger] spec_dec_digits(n)[i] <= 0x39,
    decreases n,
{
    if n >= 10 {
        lemma_dec_digits_ascii(n / 10);
        let s = spec_dec_digits(n / 10);
        assert forall|i: int| 0 <= i < spec_dec_digits(n).len() implies 0x30
            <= #[trigger] spec_dec_digits(n)[i] <= 0x39 by {
            if i < s.len() {
                assert(spec_dec_digits(n)[i] == s[i]);
            }
        }
    }
}

proof fn lemma_dec_digits_fixed_ascii(n: nat, width: nat)
    ensures
        forall|i: int|
            0 <= i < spec_dec_digits_fixed(n, width).len() ==> 0x30
                <= #[trigger] spec_dec_digits_fixed(n, width)[i] <= 0x39,
    decreases width,
{
    if width > 0 {
        lemma_dec_digits_fixed_ascii(n / 10, (width - 1) as nat);
        let s = spec_dec_digits_fixed(n / 10, (width - 1) as nat);
        assert forall|i: int| 0 <= i < spec_dec_digits_fixed(n, width).len() implies 0x30
            <= #[trigger] spec_dec_digits_fixed(n, width)[i] <= 0x39 by {
            if i < s.len() {
                assert(spec_dec_digits_fixed(n, width)[i] == s[i]);
            }
        }
    }
}

fn push_dec_digits(out: &mut Vec<u8>, n: u64)
    ensures
        final (out)@ == old(out)@ + spec_dec_digits(n as nat),
    decreases n,
{
    if n < 10 {
        out.push(0x30 + (n as u8));
        assert(out@ =~= old(out)@ + spec_dec_digits(n as nat));
    } else {
        push_dec_digits(out, n / 10);
        out.push(0x30 + ((n % 10) as u8));
        assert(out@ =~= old(out)@ + spec_dec_digits(n as nat));
    }
}

fn push_dec_digits_fixed(out: &mut Vec<u8>, n: u64, width: u64)
    ensures
        final (out)@ == old(out)@ + spec_dec_digits_fixed(n as nat, width as nat),
    decreases width,
{
    if width == 0 {
        assert(out@ =~= old(out)@ + spec_dec_digits_fixed(n as nat, 0));
    } else {
        push_dec_digits_fixed(out, n / 10, width - 1);
        out.push(0x30 + ((n % 10) as u8));
        assert(out@ =~= old(out)@ + spec_dec_digits_fixed(n as nat, width as nat));
    }
}

/// The decimal digit text of a 64-bit integer.
pub fn dec_string(n: u64) -> (r: String)
    ensures
        r@ == ascii_chars(spec_dec_digits(n as nat)),
{
    let mut bytes: Vec<u8> = Vec::new();
    push_dec_digits(&mut bytes, n);
    proof {
        lemma_dec_digits_ascii(n as nat);
        assert(bytes@ =~= spec_dec_digits(n as nat));
    }
    ascii_to_string(bytes)
}

/// An output amount in integer base units (satoshi).  The stored value is
/// always the integer; the decimal-fraction form exists only as a rendering.
#[derive(Clone, Copy, Debug, PartialEq, Eq, Structural)]
pub struct Amount(u64);

impl View for Amount {
    type V = u64;

    closed spec fn view(&self) -> u64 {
        self.0
    }
}

impl Amount {
    pub fn from_sat(satoshi: u64) -> (r: Amount)
        ensures
            r@ == satoshi,
    {
        Amount(satoshi)
    }

    /// The stored integer base-unit value.
    pub fn to_sat(&self) -> (r: u64)
        ensures
            r == self@,
    {
        self.0
    }

    /// Renders the amount as display units with an eight-digit decimal
    /// fraction, e.g. one whole unit as "1.00000000".
    pub fn to_btc_string(&self) -> (r: String)
        ensures
            r@ == spec_btc_text(self@),
    {
        let mut bytes: Vec<u8> = Vec::new();
        push_dec_digits(&mut bytes, self.0 / SAT_PER_UNIT);
        bytes.push(0x2E);
        push_dec_digits_fixed(&mut bytes, self.0 % SAT_PER_UNIT, 8);
        proof {
            lemma_dec_digits_ascii((self@ / SAT_PER_UNIT) as nat);
            lemma_dec_digits_fixed_ascii((self@ % SAT_PER_UNIT) as nat, 8);
            assert(bytes@ =~= spec_btc_bytes(self@));
        }
        ascii_to_string(bytes)
    }
}

} // verus!
