use vstd::prelude::*;

mod error;
pub mod amount;
pub mod codec;
pub mod hashing;
pub mod hexstr;
pub mod transaction;

pub use error::Error;

use crate::hexstr::{bytes_of_hex, hex_decode, valid_hex};
use crate::transaction::{spec_read_transaction, Decodable, Transaction, TransactionView};

verus! {

/// Decodes a hex-encoded raw transaction into its structured form: the one
/// entry point a caller needs.  The text must be valid hex, and the bytes it
/// spells must form a complete transaction; trailing bytes after the
/// transaction are ignored, as a stream reader would leave them unread.
pub fn decode(transaction_hex: &str) -> (r: Result<Transaction, Error>)
    ensures
        match r {
            Ok(t) => valid_hex(transaction_hex@) && (match spec_read_transaction(
                bytes_of_hex(transaction_hex@),
                0,
            ) {
                Ok((tv, end)) => t@ == tv,
                Err(_) => false,
            }),
            Err(e) => (!valid_hex(transaction_hex@) && e == Error::InvalidHex) || (valid_hex(
                transaction_hex@,
            ) && spec_read_transaction(bytes_of_hex(transaction_hex@), 0) == Err::<
                (TransactionView, int),
                Error,
            >(e)),
        },
{
    let bytes = match hex_decode(transaction_hex) {
        Ok(b) => b,
        Err(e) => {
            return Err(e);
        },
    };
    match Transaction::consensus_decode(bytes.as_slice(), 0) {
        Ok((t, _consumed)) => Ok(t),
        Err(e) => Err(e),
    }
}

} // verus!
