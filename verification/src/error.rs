use vstd::prelude::*;
use vstd::string::StringExecFns;

verus! {

/// Everything that can go wrong while turning text into bytes, decoding a
/// transaction from those bytes, or rendering the decoded structure.
#[derive(Clone, Copy, Debug, PartialEq, Eq, Structural)]
pub enum Error {
    /// The input text is not a valid hexadecimal encoding of a byte string.
    InvalidHex,
    /// The byte buffer ran out before a field could be fully read.
    Truncated,
    /// A zero input count was followed by a marker byte other than 1; the
    /// payload is the offending byte.
    UnsupportedSegwitFlag(u8),
    /// The decoded structure could not be rendered to the report format.
    SerializationFailure,
}

impl Error {
    /// A human-readable description of the error.
    pub fn describe(&self) -> (r: String)
        ensures
            match *self {
                Error::InvalidHex => r@ == "invalid hex input"@,
                Error::Truncated => r@ == "transaction data is truncated"@,
                Error::UnsupportedSegwitFlag(flag) => r@ == "unsupported segwit flag: "@
                    + crate::amount::ascii_chars(crate::amount::spec_dec_digits(flag as nat)),
                Error::SerializationFailure => r@ == "could not render the decoded transaction"@,
            },
    {
        match self {
            Error::InvalidHex => String::from_str("invalid hex input"),
            Error::Truncated => String::from_str("transaction data is truncated"),
            Error::UnsupportedSegwitFlag(flag) => {
                let mut s = String::from_str("unsupported segwit flag: ");
                let digits = crate::amount::dec_string(*flag as u64);
                s.append(digits.as_str());
                s
            },
            Error::SerializationFailure => String::from_str(
                "could not render the decoded transaction",
            ),
        }
    }
}

} // verus!
