use vstd::prelude::*;
use vstd::bytes::{spec_u32_to_le_bytes, spec_u64_to_le_bytes};
use crate::amount::Amount;
use crate::codec::{
    spec_read_u8, spec_read_u32, spec_read_u64, spec_read_compact_size, spec_read_blob,
    spec_encode_compact_size, spec_encode_blob, spec_prepend, lemma_prepend_empty,
    lemma_prepend_done, lemma_prepend_step, read_u8, read_u32, read_u64, read_compact_size,
    read_blob, push_u32, push_compact_size, push_blob,
};
use crate::error::Error;
use crate::hashing::{double_sha256, sha256_of};
use crate::hexstr::{hex_encode, hex_of_bytes};

verus! {

// ---------------------------------------------------------------------------
// Mathematical views of the decoded structures.
// ---------------------------------------------------------------------------

/// What one transaction input holds: the referenced transaction's raw
/// 32-byte identifier, the index of the spent output, the opaque unlocking
/// script, the sequence number, and the witness stack (empty unless the
/// buffer carried a witness section).
#[verifier::ext_equal]
pub struct TxInView {
    pub txid: Seq<u8>,
    pub output_index: u32,
    pub script_sig: Seq<u8>,
    pub sequence: u32,
    pub witness: Seq<Seq<u8>>,
}

/// What one transaction output holds: the amount in base units and the
/// opaque locking script.
#[verifier::ext_equal]
pub struct TxOutView {
    pub amount: u64,
    pub script_pubkey: Seq<u8>,
}

#[verifier::ext_equal]
pub struct TransactionView {
    pub version: u32,
    pub inputs: Seq<TxInView>,
    pub outputs: Seq<TxOutView>,
    pub lock_time: u32,
}

// ---------------------------------------------------------------------------
// Specification of the transaction wire format, reading side.
// ---------------------------------------------------------------------------

/// A raw 32-byte identifier, copied as it stands in the stream.
pub open spec fn spec_read_txid(b: Seq<u8>, pos: int) -> Result<(Seq<u8>, int), Error> {
    if 0 <= pos && pos + 32 <= b.len() {
        Ok((b.subrange(pos, pos + 32), pos + 32))
    } else {
        Err(Error::Truncated)
    }
}

/// One input in the base layout: identifier, output index, unlocking script,
/// sequence.  The witness stack is not part of this layout and starts empty.
pub open spec fn spec_read_txin(b: Seq<u8>, pos: int) -> Result<(TxInView, int), Error> {
    match spec_read_txid(b, pos) {
        Err(e) => Err(e),
        Ok((txid, p1)) => match spec_read_u32(b, p1) {
            Err(e) => Err(e),
            Ok((output_index, p2)) => match spec_read_blob(b, p2) {
                Err(e) => Err(e),
                Ok((script_sig, p3)) => match spec_read_u32(b, p3) {
                    Err(e) => Err(e),
                    Ok((sequence, p4)) => Ok((
                        TxInView {
                            txid,
                            output_index,
                            script_sig,
                            sequence,
                            witness: Seq::empty(),
                        },
                        p4,
                    )),
                },
            },
        },
    }
}

pub open spec fn spec_read_txins(b: Seq<u8>, pos: int, n: nat) -> Result<
    (Seq<TxInView>, int),
    Error,
>
    decreases n,
{
    if n == 0 {
        Ok((Seq::empty(), pos))
    } else {
        match spec_read_txin(b, pos) {
            Err(e) => Err(e),
            Ok((v, p)) => match spec_read_txins(b, p, (n - 1) as nat) {
                Err(e) => Err(e),
                Ok((s, q)) => Ok((seq![v] + s, q)),
            },
        }
    }
}

/// One output: an amount in base units, then the locking script.
pub open spec fn spec_read_txout(b: Seq<u8>, pos: int) -> Result<(TxOutView, int), Error> {
    match spec_read_u64(b, pos) {
        Err(e) => Err(e),
        Ok((amount, p1)) => match spec_read_blob(b, p1) {
            Err(e) => Err(e),
            Ok((script_pubkey, p2)) => Ok((TxOutView { amount, script_pubkey }, p2)),
        },
    }
}

pub open spec fn spec_read_txouts(b: Seq<u8>, pos: int, n: nat) -> Result<
    (Seq<TxOutView>, int),
    Error,
>
    decreases n,
{
    if n == 0 {
        Ok((Seq::empty(), pos))
    } else {
        match spec_read_txout(b, pos) {
            Err(e) => Err(e),
            Ok((v, p)) => match spec_read_txouts(b, p, (n - 1) as nat) {
                Err(e) => Err(e),
                Ok((s, q)) => Ok((seq![v] + s, q)),
            },
        }
    }
}

pub open spec fn spec_read_witness_items(b: Seq<u8>, pos: int, n: nat) -> Result<
    (Seq<Seq<u8>>, int),
    Error,
>
    decreases n,
{
    if n == 0 {
        Ok((Seq::empty(), pos))
    } else {
        match spec_read_blob(b, pos) {
            Err(e) => Err(e),
            Ok((v, p)) => match spec_read_witness_items(b, p, (n - 1) as nat) {
                Err(e) => Err(e),
                Ok((s, q)) => Ok((seq![v] + s, q)),
            },
        }
    }
}

/// One witness stack: a single count byte, then that many byte blobs.
pub open spec fn spec_read_witness(b: Seq<u8>, pos: int) -> Result<(Seq<Seq<u8>>, int), Error> {
    match spec_read_u8(b, pos) {
        Err(e) => Err(e),
        Ok((count, p)) => spec_read_witness_items(b, p, count as nat),
    }
}

pub open spec fn spec_read_witnesses(b: Seq<u8>, pos: int, n: nat) -> Result<
    (Seq<Seq<Seq<u8>>>, int),
    Error,
>
    decreases n,
{
    if n == 0 {
        Ok((Seq::empty(), pos))
    } else {
        match spec_read_witness(b, pos) {
            Err(e) => Err(e),
            Ok((v, p)) => match spec_read_witnesses(b, p, (n - 1) as nat) {
                Err(e) => Err(e),
                Ok((s, q)) => Ok((seq![v] + s, q)),
            },
        }
    }
}

/// Each input of `ins` given its witness stack from `wits`, in input order.
pub open spec fn spec_attach_witnesses(ins: Seq<TxInView>, wits: Seq<Seq<Seq<u8>>>) -> Seq<
    TxInView,
> {
    Seq::new(
        ins.len(),
        |i: int|
            TxInView {
                txid: ins[i].txid,
                output_index: ins[i].output_index,
                script_sig: ins[i].script_sig,
                sequence: ins[i].sequence,
                witness: wits[i],
            },
    )
}

/// The whole transaction.  A zero input count is the sole signal that the
/// buffer uses the witness layout: the next byte is then a marker whose only
/// supported value is 1, followed by the real input list, the outputs, one
/// witness stack per input, and the lock time.  A nonzero count means the
/// legacy layout: inputs, outputs, lock time.
pub open spec fn spec_read_transaction(b: Seq<u8>, pos: int) -> Result<
    (TransactionView, int),
    Error,
> {
    match spec_read_u32(b, pos) {
        Err(e) => Err(e),
        Ok((version, p1)) => match spec_read_compact_size(b, p1) {
            Err(e) => Err(e),
            Ok((count, p2)) => if count == 0 {
                match spec_read_u8(b, p2) {
                    Err(e) => Err(e),
                    Ok((flag, p3)) => if flag == 1 {
                        match spec_read_compact_size(b, p3) {
                            Err(e) => Err(e),
                            Ok((n_in, p4)) => match spec_read_txins(b, p4, n_in as nat) {
                                Err(e) => Err(e),
                                Ok((ins, p5)) => match spec_read_compact_size(b, p5) {
                                    Err(e) => Err(e),
                                    Ok((n_out, p6)) => match spec_read_txouts(b, p6, n_out as nat) {
                                        Err(e) => Err(e),
                                        Ok((outs, p7)) => match spec_read_witnesses(
                                            b,
                                            p7,
                                            ins.len(),
                                        ) {
                                            Err(e) => Err(e),
                                            Ok((wits, p8)) => match spec_read_u32(b, p8) {
                                                Err(e) => Err(e),
                                                Ok((lock_time, p9)) => Ok((
                                                    TransactionView {
                                                        version,
                                                        inputs: spec_attach_witnesses(ins, wits),
                                                        outputs: outs,
                                                        lock_time,
                                                    },
                                                    p9,
                                                )),
                                            },
                                        },
                                    },
                                },
                            },
                        }
                    } else {
                        Err(Error::UnsupportedSegwitFlag(flag))
                    },
                }
            } else {
                match spec_read_txins(b, p2, count as nat) {
                    Err(e) => Err(e),
                    Ok((ins, p3)) => match spec_read_compact_size(b, p3) {
                        Err(e) => Err(e),
                        Ok((n_out, p4)) => match spec_read_txouts(b, p4, n_out as nat) {
                            Err(e) => Err(e),
                            Ok((outs, p5)) => match spec_read_u32(b, p5) {
                                Err(e) => Err(e),
                                Ok((lock_time, p6)) => Ok((
                                    TransactionView {
                                        version,
                                        inputs: ins,
                                        outputs: outs,
                                        lock_time,
                                    },
                                    p6,
                                )),
                            },
                        },
                    },
                }
            },
        },
    }
}

// ---------------------------------------------------------------------------
// Specification of the transaction wire format, writing side.  Only the
// legacy (non-witness) layout is ever produced: this is also exactly the
// byte sequence the identifier is derived from.
// ---------------------------------------------------------------------------

pub open spec fn spec_encode_txin(i: TxInView) -> Seq<u8> {
    i.txid + spec_u32_to_le_bytes(i.output_index) + spec_encode_blob(i.script_sig)
        + spec_u32_to_le_bytes(i.sequence)
}

pub open spec fn spec_encode_txins(s: Seq<TxInView>) -> Seq<u8>
    decreases s.len(),
{
    if s.len() == 0 {
        Seq::empty()
    } else {
        spec_encode_txin(s[0]) + spec_encode_txins(s.drop_first())
    }
}

pub open spec fn spec_encode_txout(o: TxOutView) -> Seq<u8> {
    spec_u64_to_le_bytes(o.amount) + spec_encode_blob(o.script_pubkey)
}

pub open spec fn spec_encode_txouts(s: Seq<TxOutView>) -> Seq<u8>
    decreases s.len(),
{
    if s.len() == 0 {
        Seq::empty()
    } else {
        spec_encode_txout(s[0]) + spec_encode_txouts(s.drop_first())
    }
}

pub open spec fn spec_encode_transaction(t: TransactionView) -> Seq<u8> {
    spec_u32_to_le_bytes(t.version) + spec_encode_compact_size(t.inputs.len() as u64)
        + spec_encode_txins(t.inputs) + spec_encode_compact_size(t.outputs.len() as u64)
        + spec_encode_txouts(t.outputs) + spec_u32_to_le_bytes(t.lock_time)
}

/// The identifier a transaction's fields determine: two hash rounds over the
/// legacy encoding, in raw (unreversed) byte order.
pub open spec fn spec_txid(t: TransactionView) -> Seq<u8> {
    sha256_of(sha256_of(spec_encode_transaction(t)))
}

/// The decode capability: one implementation per wire type.  Each
/// implementation names the specification-level reader of its layout and
/// promises to agree with it exactly, error for error.
pub trait Decodable: Sized + View {
    /// What a read of this type at a position of a byte stream yields.
    spec fn spec_decoded(b: Seq<u8>, pos: int) -> Result<(Self::V, int), Error>;

    /// Reads one value, or reports why the stream cannot hold one.
    fn consensus_decode(data: &[u8], pos: usize) -> (r: Result<(Self, usize), Error>)
        ensures
            match r {
                Ok((v, end)) => Self::spec_decoded(data@, pos as int) == Ok::<
                    (Self::V, int),
                    Error,
                >((v@, end as int)) && pos < end <= data@.len(),
                Err(e) => Self::spec_decoded(data@, pos as int) == Err::<(Self::V, int), Error>(e),
            },
    ;
}

/// The encode capability: each implementation names the canonical byte form
/// of its type and promises to append exactly that form, returning how many
/// bytes it wrote.
pub trait Encodable: View {
    /// The canonical encoding of a value of this type.
    spec fn spec_encoded(v: Self::V) -> Seq<u8>;

    /// Appends the canonical encoding of `self` to the sink.
    fn consensus_encoder(&self, w: &mut Vec<u8>) -> (n: usize)
        ensures
            final (w)@ == old(w)@ + Self::spec_encoded(self@),
            n == Self::spec_encoded(self@).len(),
    ;
}

// ---------------------------------------------------------------------------
// The decoded structures.
// ---------------------------------------------------------------------------

/// A 32-byte transaction identifier, stored in the byte order the hash
/// produces; it is displayed in reverse byte order.
#[derive(Clone, Copy, Debug)]
pub struct Txid([u8; 32]);

impl View for Txid {
    type V = Seq<u8>;

    closed spec fn view(&self) -> Seq<u8> {
        self.0@
    }
}

impl DeepView for Txid {
    type V = Seq<u8>;

    open spec fn deep_view(&self) -> Seq<u8> {
        self.view()
    }
}

/// Relies on TryFrom<&[u8]> for [u8; 32]: conversion succeeds exactly on
/// 32-byte slices and copies the bytes unchanged.
#[verifier::external_body]
fn bytes32_of_slice(s: &[u8]) -> (r: [u8; 32])
    requires
        s@.len() == 32,
    ensures
        r@ == s@,
{
    s.try_into().unwrap()
}

impl Txid {
    pub fn from_hash(bytes: [u8; 32]) -> (r: Txid)
        ensures
            r@ == bytes@,
    {
        Txid(bytes)
    }

    /// The identifier of a raw serialized transaction: two hash rounds over
    /// its bytes.
    fn from_raw_transaction(tx: &Vec<u8>) -> (r: Txid)
        ensures
            r@ == sha256_of(sha256_of(tx@)),
    {
        Txid::from_hash(double_sha256(tx.as_slice()))
    }

    /// The identifier as it is displayed: the hex text of its bytes in
    /// reverse order.
    pub fn to_hex(&self) -> (r: String)
        ensures
            r@ == hex_of_bytes(self@.reverse()),
    {
        let mut rev: Vec<u8> = Vec::new();
        let mut i: usize = 32;
        while i > 0
            invariant
                i <= 32,
                self@.len() == 32,
                rev@.len() == 32 - i,
                forall|k: int| 0 <= k < rev@.len() ==> rev@[k] == self@[31 - k],
            decreases i,
        {
            i = i - 1;
            rev.push(self.0[i]);
        }
        proof {
            assert(rev@ =~= self@.reverse());
        }
        hex_encode(rev.as_slice())
    }
}

/// One transaction input, without/with its witness stack depending on the
/// layout the buffer used.
#[derive(Debug)]
pub struct TxIn {
    pub txid: Txid,
    pub output_index: u32,
    pub script_sig: Vec<u8>,
    pub sequence: u32,
    pub witness: Witness,
}

impl View for TxIn {
    type V = TxInView;

    open spec fn view(&self) -> TxInView {
        TxInView {
            txid: self.txid@,
            output_index: self.output_index,
            script_sig: self.script_sig@,
            sequence: self.sequence,
            witness: self.witness@,
        }
    }
}

impl DeepView for TxIn {
    type V = TxInView;

    open spec fn deep_view(&self) -> TxInView {
        self.view()
    }
}

/// A per-input stack of opaque byte blobs carrying witness data.
#[derive(Debug)]
pub struct Witness {
    content: Vec<Vec<u8>>,
}

impl View for Witness {
    type V = Seq<Seq<u8>>;

    closed spec fn view(&self) -> Seq<Seq<u8>> {
        self.content.deep_view()
    }
}

impl DeepView for Witness {
    type V = Seq<Seq<u8>>;

    open spec fn deep_view(&self) -> Seq<Seq<u8>> {
        self.view()
    }
}

impl Witness {
    /// An empty witness stack, the state of every input decoded from the
    /// legacy layout.
    pub fn new() -> (r: Witness)
        ensures
            r@ == Seq::<Seq<u8>>::empty(),
    {
        let w = Witness { content: Vec::new() };
        proof {
            assert(w@ =~= Seq::<Seq<u8>>::empty());
        }
        w
    }

    /// The witness items, outermost access for rendering.
    pub fn items(&self) -> (r: &Vec<Vec<u8>>)
        ensures
            r.deep_view() == self@,
    {
        &self.content
    }
}

/// One transaction output.
#[derive(Debug)]
pub struct TxOut {
    pub amount: Amount,
    pub script_pubkey: Vec<u8>,
}

impl View for TxOut {
    type V = TxOutView;

    open spec fn view(&self) -> TxOutView {
        TxOutView { amount: self.amount@, script_pubkey: self.script_pubkey@ }
    }
}

impl DeepView for TxOut {
    type V = TxOutView;

    open spec fn deep_view(&self) -> TxOutView {
        self.view()
    }
}

/// A decoded transaction.  The identifier is never stored: it is recomputed
/// from the fields on demand, so it can never drift from them.
#[derive(Debug)]
pub struct Transaction {
    pub version: u32,
    pub inputs: Vec<TxIn>,
    pub outputs: Vec<TxOut>,
    pub lock_time: u32,
}

impl View for Transaction {
    type V = TransactionView;

    open spec fn view(&self) -> TransactionView {
        TransactionView {
            version: self.version,
            inputs: self.inputs.deep_view(),
            outputs: self.outputs.deep_view(),
            lock_time: self.lock_time,
        }
    }
}

impl DeepView for Transaction {
    type V = TransactionView;

    open spec fn deep_view(&self) -> TransactionView {
        self.view()
    }
}

/// A variable-width unsigned count as it stands on the wire.
#[derive(Clone, Copy, Debug, PartialEq, Eq, Structural)]
pub struct CompactSize(pub u64);

impl View for CompactSize {
    type V = u64;

    open spec fn view(&self) -> u64 {
        self.0
    }
}

impl Decodable for CompactSize {
    /// A compact-size read accepts any syntactically valid form, minimal or
    /// not.
    open spec fn spec_decoded(b: Seq<u8>, pos: int) -> Result<(u64, int), Error> {
        spec_read_compact_size(b, pos)
    }

    fn consensus_decode(data: &[u8], pos: usize) -> Result<(CompactSize, usize), Error> {
        match read_compact_size(data, pos) {
            Ok((v, end)) => Ok((CompactSize(v), end)),
            Err(e) => Err(e),
        }
    }
}

impl Encodable for CompactSize {
    /// Only the canonical, minimal-length form is ever written.
    open spec fn spec_encoded(v: u64) -> Seq<u8> {
        spec_encode_compact_size(v)
    }

    fn consensus_encoder(&self, w: &mut Vec<u8>) -> usize {
        let start = w.len();
        push_compact_size(w, self.0);
        w.len() - start
    }
}

impl Decodable for u8 {
    open spec fn spec_decoded(b: Seq<u8>, pos: int) -> Result<(u8, int), Error> {
        spec_read_u8(b, pos)
    }

    fn consensus_decode(data: &[u8], pos: usize) -> Result<(u8, usize), Error> {
        read_u8(data, pos)
    }
}

impl Decodable for u16 {
    open spec fn spec_decoded(b: Seq<u8>, pos: int) -> Result<(u16, int), Error> {
        crate::codec::spec_read_u16(b, pos)
    }

    fn consensus_decode(data: &[u8], pos: usize) -> Result<(u16, usize), Error> {
        crate::codec::read_u16(data, pos)
    }
}

impl Decodable for u32 {
    open spec fn spec_decoded(b: Seq<u8>, pos: int) -> Result<(u32, int), Error> {
        spec_read_u32(b, pos)
    }

    fn consensus_decode(data: &[u8], pos: usize) -> Result<(u32, usize), Error> {
        read_u32(data, pos)
    }
}

impl Decodable for u64 {
    open spec fn spec_decoded(b: Seq<u8>, pos: int) -> Result<(u64, int), Error> {
        spec_read_u64(b, pos)
    }

    fn consensus_decode(data: &[u8], pos: usize) -> Result<(u64, usize), Error> {
        read_u64(data, pos)
    }
}

impl Encodable for u16 {
    open spec fn spec_encoded(v: u16) -> Seq<u8> {
        vstd::bytes::spec_u16_to_le_bytes(v)
    }

    fn consensus_encoder(&self, w: &mut Vec<u8>) -> usize {
        let start = w.len();
        crate::codec::push_u16(w, *self);
        w.len() - start
    }
}

impl Encodable for u32 {
    open spec fn spec_encoded(v: u32) -> Seq<u8> {
        spec_u32_to_le_bytes(v)
    }

    fn consensus_encoder(&self, w: &mut Vec<u8>) -> usize {
        let start = w.len();
        push_u32(w, *self);
        w.len() - start
    }
}

impl Encodable for u64 {
    open spec fn spec_encoded(v: u64) -> Seq<u8> {
        spec_u64_to_le_bytes(v)
    }

    fn consensus_encoder(&self, w: &mut Vec<u8>) -> usize {
        let start = w.len();
        crate::codec::push_u64(w, *self);
        w.len() - start
    }
}

/// Reads a 32-byte identifier as a value.
pub fn read_txid(data: &[u8], pos: usize) -> (r: Result<(Txid, usize), Error>)
    ensures
        match r {
            Ok((v, end)) => spec_read_txid(data@, pos as int) == Ok::<(Seq<u8>, int), Error>((
                v@,
                end as int,
            )) && pos < end <= data@.len(),
            Err(e) => spec_read_txid(data@, pos as int) == Err::<(Seq<u8>, int), Error>(e),
        },
{
    if data.len() >= 32 && pos <= data.len() - 32 {
        let arr = bytes32_of_slice(&data[pos..pos + 32]);
        Ok((Txid::from_hash(arr), pos + 32))
    } else {
        Err(Error::Truncated)
    }
}

/// Reads an output amount: a little-endian 64-bit count of base units.
pub fn read_amount(data: &[u8], pos: usize) -> (r: Result<(Amount, usize), Error>)
    ensures
        match r {
            Ok((v, end)) => spec_read_u64(data@, pos as int) == Ok::<(u64, int), Error>((
                v@,
                end as int,
            )) && pos < end <= data@.len(),
            Err(e) => spec_read_u64(data@, pos as int) == Err::<(u64, int), Error>(e),
        },
{
    match read_u64(data, pos) {
        Ok((v, end)) => Ok((Amount::from_sat(v), end)),
        Err(e) => Err(e),
    }
}

/// Reads a length-prefixed opaque script.
pub fn read_script(data: &[u8], pos: usize) -> (r: Result<(Vec<u8>, usize), Error>)
    ensures
        match r {
            Ok((v, end)) => spec_read_blob(data@, pos as int) == Ok::<(Seq<u8>, int), Error>((
                v@,
                end as int,
            )) && pos < end <= data@.len(),
            Err(e) => spec_read_blob(data@, pos as int) == Err::<(Seq<u8>, int), Error>(e),
        },
{
    read_blob(data, pos)
}

/// Reads a length-prefixed script and renders it as lowercase hex text.
pub fn read_script_hex(data: &[u8], pos: usize) -> (r: Result<(String, usize), Error>)
    ensures
        match r {
            Ok((s, end)) => (match spec_read_blob(data@, pos as int) {
                Ok((bv, e2)) => s@ == hex_of_bytes(bv) && end as int == e2,
                Err(_) => false,
            }) && pos < end <= data@.len(),
            Err(e) => spec_read_blob(data@, pos as int) == Err::<(Seq<u8>, int), Error>(e),
        },
{
    match read_blob(data, pos) {
        Ok((bytes, end)) => Ok((hex_encode(bytes.as_slice()), end)),
        Err(e) => Err(e),
    }
}

impl Decodable for Txid {
    open spec fn spec_decoded(b: Seq<u8>, pos: int) -> Result<(Seq<u8>, int), Error> {
        spec_read_txid(b, pos)
    }

    fn consensus_decode(data: &[u8], pos: usize) -> Result<(Txid, usize), Error> {
        read_txid(data, pos)
    }
}

impl Decodable for TxIn {
    /// One input in the base layout; its witness stack starts empty.
    open spec fn spec_decoded(b: Seq<u8>, pos: int) -> Result<(TxInView, int), Error> {
        spec_read_txin(b, pos)
    }

    fn consensus_decode(data: &[u8], pos: usize) -> Result<(TxIn, usize), Error> {
        let (txid, p1) = match read_txid(data, pos) {
            Ok(x) => x,
            Err(e) => {
                return Err(e);
            },
        };
        let (output_index, p2) = match read_u32(data, p1) {
            Ok(x) => x,
            Err(e) => {
                return Err(e);
            },
        };
        let (script_sig, p3) = match read_script(data, p2) {
            Ok(x) => x,
            Err(e) => {
                return Err(e);
            },
        };
        let (sequence, p4) = match read_u32(data, p3) {
            Ok(x) => x,
            Err(e) => {
                return Err(e);
            },
        };
        let txin = TxIn { txid, output_index, script_sig, sequence, witness: Witness::new() };
        proof {
            let s = spec_read_txin(data@, pos as int);
            assert(s is Ok);
            assert(txin@ =~= s->Ok_0.0);
        }
        Ok((txin, p4))
    }
}

impl Decodable for TxOut {
    /// One output: the amount, then the locking script.
    open spec fn spec_decoded(b: Seq<u8>, pos: int) -> Result<(TxOutView, int), Error> {
        spec_read_txout(b, pos)
    }

    fn consensus_decode(data: &[u8], pos: usize) -> Result<(TxOut, usize), Error> {
        let (amount, p1) = match read_amount(data, pos) {
            Ok(x) => x,
            Err(e) => {
                return Err(e);
            },
        };
        let (script_pubkey, p2) = match read_script(data, p1) {
            Ok(x) => x,
            Err(e) => {
                return Err(e);
            },
        };
        let txout = TxOut { amount, script_pubkey };
        proof {
            let s = spec_read_txout(data@, pos as int);
            assert(s is Ok);
            assert(txout@ =~= s->Ok_0.0);
        }
        Ok((txout, p2))
    }
}

impl Decodable for Witness {
    /// One witness stack: a single count byte, then that many blobs.
    open spec fn spec_decoded(b: Seq<u8>, pos: int) -> Result<(Seq<Seq<u8>>, int), Error> {
        spec_read_witness(b, pos)
    }

    fn consensus_decode(data: &[u8], pos: usize) -> Result<(Witness, usize), Error> {
        let (count, start) = match read_u8(data, pos) {
            Ok(x) => x,
            Err(e) => {
                return Err(e);
            },
        };
        let mut items: Vec<Vec<u8>> = Vec::new();
        let mut p = start;
        let mut i: u8 = 0;
        proof {
            assert(items.deep_view() =~= Seq::<Seq<u8>>::empty());
            lemma_prepend_empty(spec_read_witness_items(data@, start as int, count as nat));
        }
        while i < count
            invariant
                i <= count,
                pos < p <= data@.len(),
                spec_read_u8(data@, pos as int) == Ok::<(u8, int), Error>((count, start as int)),
                spec_read_witness_items(data@, start as int, count as nat) == spec_prepend(
                    items.deep_view(),
                    spec_read_witness_items(data@, p as int, (count - i) as nat),
                ),
            decreases count - i,
        {
            let ghost pre = items.deep_view();
            let ghost prev = items;
            let ghost k = (count - i) as nat;
            let (blob, q) = match read_blob(data, p) {
                Ok(x) => x,
                Err(e) => {
                    proof {
                        assert(spec_read_witness_items(data@, p as int, k) == Err::<
                            (Seq<Seq<u8>>, int),
                            Error,
                        >(e));
                        assert(spec_read_witness_items(data@, start as int, count as nat) == Err::<
                            (Seq<Seq<u8>>, int),
                            Error,
                        >(e));
                        assert(spec_read_witness(data@, pos as int) == Err::<
                            (Seq<Seq<u8>>, int),
                            Error,
                        >(e));
                    }
                    return Err(e);
                },
            };
            let ghost blob_snap = blob;
            proof {
                let rest = spec_read_witness_items(data@, q as int, (k - 1) as nat);
                assert(spec_read_witness_items(data@, p as int, k) == (match rest {
                    Ok((s, q2)) => Ok::<(Seq<Seq<u8>>, int), Error>((seq![blob@] + s, q2)),
                    Err(e) => Err(e),
                }));
                lemma_prepend_step(pre, blob@, rest);
            }
            items.push(blob);
            proof {
                lemma_vec_deep_view_push(prev, items, blob_snap);
                assert(blob_snap.deep_view() =~= blob_snap@);
                assert(items.deep_view() == pre.push(blob_snap@));
            }
            p = q;
            i = i + 1;
        }
        proof {
            lemma_prepend_done(items.deep_view(), p as int);
        }
        let w = Witness { content: items };
        Ok((w, p))
    }
}

/// A push seen through the deep view: the new element's view is appended.
proof fn lemma_vec_deep_view_push<T: DeepView>(prev: Vec<T>, cur: Vec<T>, x: T)
    requires
        cur@ == prev@.push(x),
    ensures
        cur.deep_view() == prev.deep_view().push(x.deep_view()),
{
    assert forall|i: int| 0 <= i < cur.deep_view().len() implies cur.deep_view()[i]
        == prev.deep_view().push(x.deep_view())[i] by {
        if i < prev@.len() {
            assert(cur@[i] == prev@[i]);
        } else {
            assert(cur@[i] == x);
        }
    }
    assert(cur.deep_view() =~= prev.deep_view().push(x.deep_view()));
}

/// Reads `count` inputs in the base layout, in stream order.
pub fn read_txins(data: &[u8], pos: usize, count: u64) -> (r: Result<(Vec<TxIn>, usize), Error>)
    requires
        pos <= data@.len(),
    ensures
        match r {
            Ok((v, end)) => spec_read_txins(data@, pos as int, count as nat) == Ok::<
                (Seq<TxInView>, int),
                Error,
            >((v.deep_view(), end as int)) && pos <= end <= data@.len(),
            Err(e) => spec_read_txins(data@, pos as int, count as nat) == Err::<
                (Seq<TxInView>, int),
                Error,
            >(e),
        },
{
    let mut items: Vec<TxIn> = Vec::new();
    let mut p = pos;
    let mut i: u64 = 0;
    proof {
        assert(items.deep_view() =~= Seq::<TxInView>::empty());
        lemma_prepend_empty(spec_read_txins(data@, pos as int, count as nat));
    }
    while i < count
        invariant
            i <= count,
            pos <= p <= data@.len(),
            spec_read_txins(data@, pos as int, count as nat) == spec_prepend(
                items.deep_view(),
                spec_read_txins(data@, p as int, (count - i) as nat),
            ),
        decreases count - i,
    {
        let ghost pre = items.deep_view();
        let ghost prev = items;
        let ghost k = (count - i) as nat;
        let (txin, q) = match TxIn::consensus_decode(data, p) {
            Ok(x) => x,
            Err(e) => {
                return Err(e);
            },
        };
        let ghost txin_snap = txin;
        proof {
            let rest = spec_read_txins(data@, q as int, (k - 1) as nat);
            assert(spec_read_txins(data@, p as int, k) == (match rest {
                Ok((s, q2)) => Ok::<(Seq<TxInView>, int), Error>((seq![txin@] + s, q2)),
                Err(e) => Err(e),
            }));
            lemma_prepend_step(pre, txin@, rest);
        }
        items.push(txin);
        proof {
            lemma_vec_deep_view_push(prev, items, txin_snap);
            assert(items.deep_view() == pre.push(txin_snap@));
        }
        p = q;
        i = i + 1;
    }
    proof {
        lemma_prepend_done(items.deep_view(), p as int);
    }
    Ok((items, p))
}

/// Reads `count` outputs, in stream order.
pub fn read_txouts(data: &[u8], pos: usize, count: u64) -> (r: Result<(Vec<TxOut>, usize), Error>)
    requires
        pos <= data@.len(),
    ensures
        match r {
            Ok((v, end)) => spec_read_txouts(data@, pos as int, count as nat) == Ok::<
                (Seq<TxOutView>, int),
                Error,
            >((v.deep_view(), end as int)) && pos <= end <= data@.len(),
            Err(e) => spec_read_txouts(data@, pos as int, count as nat) == Err::<
                (Seq<TxOutView>, int),
                Error,
            >(e),
        },
{
    let mut items: Vec<TxOut> = Vec::new();
    let mut p = pos;
    let mut i: u64 = 0;
    proof {
        assert(items.deep_view() =~= Seq::<TxOutView>::empty());
        lemma_prepend_empty(spec_read_txouts(data@, pos as int, count as nat));
    }
    while i < count
        invariant
            i <= count,
            pos <= p <= data@.len(),
            spec_read_txouts(data@, pos as int, count as nat) == spec_prepend(
                items.deep_view(),
                spec_read_txouts(data@, p as int, (count - i) as nat),
            ),
        decreases count - i,
    {
        let ghost pre = items.deep_view();
        let ghost prev = items;
        let ghost k = (count - i) as nat;
        let (txout, q) = match TxOut::consensus_decode(data, p) {
            Ok(x) => x,
            Err(e) => {
                return Err(e);
            },
        };
        let ghost txout_snap = txout;
        proof {
            let rest = spec_read_txouts(data@, q as int, (k - 1) as nat);
            assert(spec_read_txouts(data@, p as int, k) == (match rest {
                Ok((s, q2)) => Ok::<(Seq<TxOutView>, int), Error>((seq![txout@] + s, q2)),
                Err(e) => Err(e),
            }));
            lemma_prepend_step(pre, txout@, rest);
        }
        items.push(txout);
        proof {
            lemma_vec_deep_view_push(prev, items, txout_snap);
            assert(items.deep_view() == pre.push(txout_snap@));
        }
        p = q;
        i = i + 1;
    }
    proof {
        lemma_prepend_done(items.deep_view(), p as int);
    }
    Ok((items, p))
}

/// Reads one witness stack per input, in input order.
pub fn read_witnesses(data: &[u8], pos: usize, count: usize) -> (r: Result<
    (Vec<Witness>, usize),
    Error,
>)
    requires
        pos <= data@.len(),
    ensures
        match r {
            Ok((v, end)) => spec_read_witnesses(data@, pos as int, count as nat) == Ok::<
                (Seq<Seq<Seq<u8>>>, int),
                Error,
            >((v.deep_view(), end as int)) && pos <= end <= data@.len() && v.deep_view().len()
                == count,
            Err(e) => spec_read_witnesses(data@, pos as int, count as nat) == Err::<
                (Seq<Seq<Seq<u8>>>, int),
                Error,
            >(e),
        },
{
    let mut items: Vec<Witness> = Vec::new();
    let mut p = pos;
    let mut i: usize = 0;
    proof {
        assert(items.deep_view() =~= Seq::<Seq<Seq<u8>>>::empty());
        lemma_prepend_empty(spec_read_witnesses(data@, pos as int, count as nat));
    }
    while i < count
        invariant
            i <= count,
            pos <= p <= data@.len(),
            items.deep_view().len() == i,
            spec_read_witnesses(data@, pos as int, count as nat) == spec_prepend(
                items.deep_view(),
                spec_read_witnesses(data@, p as int, (count - i) as nat),
            ),
        decreases count - i,
    {
        let ghost pre = items.deep_view();
        let ghost prev = items;
        let ghost k = (count - i) as nat;
        let (w, q) = match Witness::consensus_decode(data, p) {
            Ok(x) => x,
            Err(e) => {
                return Err(e);
            },
        };
        let ghost w_snap = w;
        proof {
            let rest = spec_read_witnesses(data@, q as int, (k - 1) as nat);
            assert(spec_read_witnesses(data@, p as int, k) == (match rest {
                Ok((s, q2)) => Ok::<(Seq<Seq<Seq<u8>>>, int), Error>((seq![w@] + s, q2)),
                Err(e) => Err(e),
            }));
            lemma_prepend_step(pre, w@, rest);
        }
        items.push(w);
        proof {
            lemma_vec_deep_view_push(prev, items, w_snap);
            assert(items.deep_view() == pre.push(w_snap@));
        }
        p = q;
        i = i + 1;
    }
    proof {
        lemma_prepend_done(items.deep_view(), p as int);
    }
    Ok((items, p))
}

// ---------------------------------------------------------------------------
// Encoding.  Only the legacy layout is produced: version, inputs without
// their witness stacks, outputs, lock time.  This is also the exact byte
// sequence the identifier is derived from.
// ---------------------------------------------------------------------------

/// Splitting a record list splits its encoding.
pub proof fn lemma_encode_txins_concat(a: Seq<TxInView>, b: Seq<TxInView>)
    ensures
        spec_encode_txins(a + b) == spec_encode_txins(a) + spec_encode_txins(b),
    decreases a.len(),
{
    if a.len() == 0 {
        assert(a + b =~= b);
        assert(Seq::<u8>::empty() + spec_encode_txins(b) =~= spec_encode_txins(b));
    } else {
        lemma_encode_txins_concat(a.drop_first(), b);
        assert((a + b).drop_first() =~= a.drop_first() + b);
        assert((a + b)[0] == a[0]);
        assert(spec_encode_txin(a[0]) + (spec_encode_txins(a.drop_first()) + spec_encode_txins(b))
            =~= (spec_encode_txin(a[0]) + spec_encode_txins(a.drop_first())) + spec_encode_txins(
            b,
        ));
    }
}

pub proof fn lemma_encode_txouts_concat(a: Seq<TxOutView>, b: Seq<TxOutView>)
    ensures
        spec_encode_txouts(a + b) == spec_encode_txouts(a) + spec_encode_txouts(b),
    decreases a.len(),
{
    if a.len() == 0 {
        assert(a + b =~= b);
        assert(Seq::<u8>::empty() + spec_encode_txouts(b) =~= spec_encode_txouts(b));
    } else {
        lemma_encode_txouts_concat(a.drop_first(), b);
        assert((a + b).drop_first() =~= a.drop_first() + b);
        assert((a + b)[0] == a[0]);
        assert(spec_encode_txout(a[0]) + (spec_encode_txouts(a.drop_first()) + spec_encode_txouts(
            b,
        )) =~= (spec_encode_txout(a[0]) + spec_encode_txouts(a.drop_first()))
            + spec_encode_txouts(b));
    }
}

impl Encodable for Txid {
    /// An identifier is written as its raw 32 bytes, unreversed.
    open spec fn spec_encoded(v: Seq<u8>) -> Seq<u8> {
        v
    }

    fn consensus_encoder(&self, w: &mut Vec<u8>) -> usize {
        let start = w.len();
        w.extend_from_slice(self.0.as_slice());
        w.len() - start
    }
}

impl Encodable for Amount {
    /// An amount is written as a little-endian 64-bit count of base units.
    open spec fn spec_encoded(v: u64) -> Seq<u8> {
        spec_u64_to_le_bytes(v)
    }

    fn consensus_encoder(&self, w: &mut Vec<u8>) -> usize {
        let start = w.len();
        crate::codec::push_u64(w, self.to_sat());
        w.len() - start
    }
}

impl Encodable for TxIn {
    /// The base layout of one input; the witness stack is never written.
    open spec fn spec_encoded(v: TxInView) -> Seq<u8> {
        spec_encode_txin(v)
    }

    fn consensus_encoder(&self, w: &mut Vec<u8>) -> usize {
        let start = w.len();
        self.txid.consensus_encoder(w);
        push_u32(w, self.output_index);
        push_blob(w, &self.script_sig);
        push_u32(w, self.sequence);
        assert(w@ =~= old(w)@ + spec_encode_txin(self@));
        w.len() - start
    }
}

impl Encodable for TxOut {
    /// One output: the amount, then the locking script.
    open spec fn spec_encoded(v: TxOutView) -> Seq<u8> {
        spec_encode_txout(v)
    }

    fn consensus_encoder(&self, w: &mut Vec<u8>) -> usize {
        let start = w.len();
        self.amount.consensus_encoder(w);
        push_blob(w, &self.script_pubkey);
        assert(w@ =~= old(w)@ + spec_encode_txout(self@));
        w.len() - start
    }
}

/// Appends the input count and then each input's base layout, in order.
pub fn push_txins(w: &mut Vec<u8>, inputs: &Vec<TxIn>)
    ensures
        final (w)@ == old(w)@ + spec_encode_compact_size(inputs@.len() as u64) + spec_encode_txins(
            inputs.deep_view(),
        ),
{
    let ghost s = inputs.deep_view();
    push_compact_size(w, inputs.len() as u64);
    let ghost w1 = w@;
    let mut i: usize = 0;
    while i < inputs.len()
        invariant
            i <= inputs@.len(),
            s == inputs.deep_view(),
            s.len() == inputs@.len(),
            w@ == w1 + spec_encode_txins(s.take(i as int)),
        decreases inputs@.len() - i,
    {
        let ghost wpre = w@;
        inputs[i].consensus_encoder(w);
        proof {
            assert(inputs@[i as int].deep_view() == s[i as int]);
            assert(s.take(i as int).push(s[i as int]) =~= s.take(i as int) + seq![s[i as int]]);
            assert(s.take(i + 1) =~= s.take(i as int) + seq![s[i as int]]);
            lemma_encode_txins_concat(s.take(i as int), seq![s[i as int]]);
            assert(seq![s[i as int]].drop_first() =~= Seq::<TxInView>::empty());
            assert(spec_encode_txins(Seq::<TxInView>::empty()) == Seq::<u8>::empty());
            assert(spec_encode_txins(seq![s[i as int]]) == spec_encode_txin(seq![s[i as int]][0])
                + spec_encode_txins(seq![s[i as int]].drop_first()));
            assert(spec_encode_txins(seq![s[i as int]]) =~= spec_encode_txin(s[i as int]));
            assert(w@ =~= w1 + spec_encode_txins(s.take(i + 1)));
        }
        i = i + 1;
    }
    proof {
        assert(s.take(s.len() as int) =~= s);
    }
}

/// Appends the output count and then each output, in order.
pub fn push_txouts(w: &mut Vec<u8>, outputs: &Vec<TxOut>)
    ensures
        final (w)@ == old(w)@ + spec_encode_compact_size(outputs@.len() as u64)
            + spec_encode_txouts(outputs.deep_view()),
{
    let ghost s = outputs.deep_view();
    push_compact_size(w, outputs.len() as u64);
    let ghost w1 = w@;
    let mut i: usize = 0;
    while i < outputs.len()
        invariant
            i <= outputs@.len(),
            s == outputs.deep_view(),
            s.len() == outputs@.len(),
            w@ == w1 + spec_encode_txouts(s.take(i as int)),
        decreases outputs@.len() - i,
    {
        outputs[i].consensus_encoder(w);
        proof {
            assert(outputs@[i as int].deep_view() == s[i as int]);
            assert(s.take(i + 1) =~= s.take(i as int) + seq![s[i as int]]);
            lemma_encode_txouts_concat(s.take(i as int), seq![s[i as int]]);
            assert(seq![s[i as int]].drop_first() =~= Seq::<TxOutView>::empty());
            assert(spec_encode_txouts(Seq::<TxOutView>::empty()) == Seq::<u8>::empty());
            assert(spec_encode_txouts(seq![s[i as int]]) == spec_encode_txout(seq![s[i as int]][0])
                + spec_encode_txouts(seq![s[i as int]].drop_first()));
            assert(spec_encode_txouts(seq![s[i as int]]) =~= spec_encode_txout(s[i as int]));
            assert(w@ =~= w1 + spec_encode_txouts(s.take(i + 1)));
        }
        i = i + 1;
    }
    proof {
        assert(s.take(s.len() as int) =~= s);
    }
}

impl Encodable for Transaction {
    /// The legacy serialization of the whole transaction.  Witness stacks
    /// are intentionally omitted, so only transactions decoded from the
    /// legacy layout round-trip to their original bytes.
    open spec fn spec_encoded(v: TransactionView) -> Seq<u8> {
        spec_encode_transaction(v)
    }

    fn consensus_encoder(&self, w: &mut Vec<u8>) -> usize {
        let start = w.len();
        push_u32(w, self.version);
        push_txins(w, &self.inputs);
        push_txouts(w, &self.outputs);
        push_u32(w, self.lock_time);
        assert(w@ =~= old(w)@ + spec_encode_transaction(self@));
        w.len() - start
    }
}

impl Transaction {
    /// The serialized transaction as a fresh byte vector.
    pub fn serialize(&self) -> (r: Vec<u8>)
        ensures
            r@ == spec_encode_transaction(self@),
    {
        let mut out: Vec<u8> = Vec::new();
        let _written = self.consensus_encoder(&mut out);
        proof {
            assert(Seq::<u8>::empty() + spec_encode_transaction(self@) =~= spec_encode_transaction(
                self@,
            ));
        }
        out
    }

    /// The content-derived identifier: two hash rounds over the legacy
    /// serialization of the fields, computed on demand and never stored.
    pub fn compute_txid(&self) -> (r: Txid)
        ensures
            r@ == spec_txid(self@),
    {
        let txid_data = self.serialize();
        Txid::from_raw_transaction(&txid_data)
    }
}

impl Decodable for Transaction {
    /// A whole transaction.  A zero input count switches to the witness
    /// layout: the next byte must then be the marker 1, anything else is
    /// rejected as an unsupported marker.
    open spec fn spec_decoded(b: Seq<u8>, pos: int) -> Result<(TransactionView, int), Error> {
        spec_read_transaction(b, pos)
    }

    #[verifier::loop_isolation(false)]
    fn consensus_decode(data: &[u8], pos: usize) -> Result<(Transaction, usize), Error> {
        let (version, p1) = match read_u32(data, pos) {
            Ok(x) => x,
            Err(e) => {
                return Err(e);
            },
        };
        let (count, p2) = match read_compact_size(data, p1) {
            Ok(x) => x,
            Err(e) => {
                return Err(e);
            },
        };
        if count == 0 {
            let (flag, p3) = match read_u8(data, p2) {
                Ok(x) => x,
                Err(e) => {
                    return Err(e);
                },
            };
            if flag != 1 {
                return Err(Error::UnsupportedSegwitFlag(flag));
            }
            let (n_in, p4) = match read_compact_size(data, p3) {
                Ok(x) => x,
                Err(e) => {
                    return Err(e);
                },
            };
            let (mut inputs, p5) = match read_txins(data, p4, n_in) {
                Ok(x) => x,
                Err(e) => {
                    return Err(e);
                },
            };
            let (n_out, p6) = match read_compact_size(data, p5) {
                Ok(x) => x,
                Err(e) => {
                    return Err(e);
                },
            };
            let (outputs, p7) = match read_txouts(data, p6, n_out) {
                Ok(x) => x,
                Err(e) => {
                    return Err(e);
                },
            };
            let (mut wits, p8) = match read_witnesses(data, p7, inputs.len()) {
                Ok(x) => x,
                Err(e) => {
                    return Err(e);
                },
            };
            let (lock_time, p9) = match read_u32(data, p8) {
                Ok(x) => x,
                Err(e) => {
                    return Err(e);
                },
            };
            let ghost ins0 = inputs.deep_view();
            let ghost wits0 = wits.deep_view();
            let ghost target = spec_attach_witnesses(ins0, wits0);
            let mut merged: Vec<TxIn> = Vec::new();
            let mut j: usize = 0;
            let total = inputs.len();
            proof {
                assert(merged.deep_view() =~= target.take(0));
                assert(inputs.deep_view() =~= ins0.skip(0));
                assert(wits.deep_view() =~= wits0.skip(0));
            }
            while j < total
                invariant
                    j <= total,
                    inputs.deep_view() == ins0.skip(j as int),
                    wits.deep_view() == wits0.skip(j as int),
                    merged.deep_view() == target.take(j as int),
                decreases total - j,
            {
                let ghost inputs_pre = inputs;
                let ghost wits_pre = wits;
                let ghost merged_pre = merged;
                let mut txin = inputs.remove(0);
                let w = wits.remove(0);
                proof {
                    assert(txin@ == ins0.skip(j as int)[0]);
                    assert(txin@ == ins0[j as int]);
                    assert(w@ == wits0.skip(j as int)[0]);
                    assert(w@ == wits0[j as int]);
                    assert(inputs.deep_view() =~= ins0.skip(j + 1)) by {
                        assert(inputs@ == inputs_pre@.remove(0));
                        assert forall|m: int| 0 <= m < inputs@.len() implies inputs.deep_view()[m]
                            == ins0.skip(j + 1)[m] by {
                            assert(inputs@[m] == inputs_pre@[m + 1]);
                            assert(inputs_pre.deep_view()[m + 1] == ins0.skip(j as int)[m + 1]);
                        }
                    }
                    assert(wits.deep_view() =~= wits0.skip(j + 1)) by {
                        assert(wits@ == wits_pre@.remove(0));
                        assert forall|m: int| 0 <= m < wits@.len() implies wits.deep_view()[m]
                            == wits0.skip(j + 1)[m] by {
                            assert(wits@[m] == wits_pre@[m + 1]);
                            assert(wits_pre.deep_view()[m + 1] == wits0.skip(j as int)[m + 1]);
                        }
                    }
                }
                txin.witness = w;
                proof {
                    assert(txin@ =~= target[j as int]);
                }
                let ghost txin_snap = txin;
                merged.push(txin);
                proof {
                    lemma_vec_deep_view_push(merged_pre, merged, txin_snap);
                    assert(merged.deep_view() =~= target.take(j + 1));
                }
                j = j + 1;
            }
            let t = Transaction { version, inputs: merged, outputs, lock_time };
            proof {
                assert(merged.deep_view() == target.take(total as int));
                assert(target.take(total as int) =~= target);
                let s = spec_read_transaction(data@, pos as int);
                assert(s is Ok);
                assert(t@ =~= s->Ok_0.0);
            }
            Ok((t, p9))
        } else {
            let (inputs, p3) = match read_txins(data, p2, count) {
                Ok(x) => x,
                Err(e) => {
                    return Err(e);
                },
            };
            let (n_out, p4) = match read_compact_size(data, p3) {
                Ok(x) => x,
                Err(e) => {
                    return Err(e);
                },
            };
            let (outputs, p5) = match read_txouts(data, p4, n_out) {
                Ok(x) => x,
                Err(e) => {
                    return Err(e);
                },
            };
            let (lock_time, p6) = match read_u32(data, p5) {
                Ok(x) => x,
                Err(e) => {
                    return Err(e);
                },
            };
            let t = Transaction { version, inputs, outputs, lock_time };
            proof {
                let s = spec_read_transaction(data@, pos as int);
                assert(s is Ok);
                assert(t@ =~= s->Ok_0.0);
            }
            Ok((t, p6))
        }
    }
}

// ---------------------------------------------------------------------------
// Laws of the transaction codec.
// ---------------------------------------------------------------------------

/// Decoding is a function of the bytes alone, and the identifier is a
/// function of the decoded fields alone: re-decoding the same buffer can
/// never yield a different transaction or a different identifier.
pub proof fn lemma_decode_deterministic(
    b: Seq<u8>,
    pos: int,
    t1: TransactionView,
    n1: int,
    t2: TransactionView,
    n2: int,
)
    requires
        spec_read_transaction(b, pos) == Ok::<(TransactionView, int), Error>((t1, n1)),
        spec_read_transaction(b, pos) == Ok::<(TransactionView, int), Error>((t2, n2)),
    ensures
        t1 == t2,
        n1 == n2,
        spec_txid(t1) == spec_txid(t2),
{
}

/// A buffer shorter than the minimal legacy header (a 4-byte version and at
/// least one count byte) never decodes: it always fails as truncated.
pub proof fn lemma_short_buffer_truncated(b: Seq<u8>)
    requires
        b.len() < 5,
    ensures
        spec_read_transaction(b, 0) == Err::<(TransactionView, int), Error>(Error::Truncated),
{
}

/// A zero input count makes the next byte a witness marker, and every marker
/// value but 1 is rejected, carrying the offending byte.
pub proof fn lemma_unsupported_segwit_flag(b: Seq<u8>)
    requires
        b.len() >= 6,
        b[4] == 0,
        b[5] != 1,
    ensures
        spec_read_transaction(b, 0) == Err::<(TransactionView, int), Error>(
            Error::UnsupportedSegwitFlag(b[5]),
        ),
{
}

pub open spec fn wf_txin(i: TxInView) -> bool {
    i.txid.len() == 32 && i.script_sig.len() <= u64::MAX && i.witness.len() == 0
}

pub open spec fn wf_txout(o: TxOutView) -> bool {
    o.script_pubkey.len() <= u64::MAX
}

/// A transaction the legacy layout can carry at all: at least one input (a
/// zero count would read back as a witness marker), counts and script
/// lengths that fit the wire's 64-bit fields, 32-byte identifiers, and no
/// witness data (the legacy layout has nowhere to put it).
pub open spec fn wf_legacy(t: TransactionView) -> bool {
    1 <= t.inputs.len() <= u64::MAX && t.outputs.len() <= u64::MAX && (forall|i: int|
        0 <= i < t.inputs.len() ==> wf_txin(#[trigger] t.inputs[i])) && (forall|i: int|
        0 <= i < t.outputs.len() ==> wf_txout(#[trigger] t.outputs[i]))
}

proof fn lemma_read_txid_of_encoding(b: Seq<u8>, pos: int, txid: Seq<u8>)
    requires
        txid.len() == 32,
        0 <= pos,
        pos + 32 <= b.len(),
        b.subrange(pos, pos + 32) == txid,
    ensures
        spec_read_txid(b, pos) == Ok::<(Seq<u8>, int), Error>((txid, pos + 32)),
{
}

proof fn lemma_read_txin_of_encoding(b: Seq<u8>, pos: int, v: TxInView)
    requires
        wf_txin(v),
        0 <= pos,
        pos + spec_encode_txin(v).len() <= b.len(),
        b.subrange(pos, pos + spec_encode_txin(v).len() as int) == spec_encode_txin(v),
    ensures
        spec_read_txin(b, pos) == Ok::<(TxInView, int), Error>((
            v,
            pos + spec_encode_txin(v).len(),
        )),
{
    vstd::bytes::lemma_auto_spec_u16_to_from_le_bytes();
    vstd::bytes::lemma_auto_spec_u32_to_from_le_bytes();
    vstd::bytes::lemma_auto_spec_u64_to_from_le_bytes();
    let enc = spec_encode_txin(v);
    let s = b.subrange(pos, pos + enc.len() as int);
    let blob = crate::codec::spec_encode_blob(v.script_sig);
    let o1 = pos + 32;
    let o2 = o1 + 4;
    let o3 = o2 + blob.len() as int;
    let o4 = o3 + 4;
    assert(enc.len() == 32 + 4 + blob.len() + 4);
    assert(b.subrange(pos, o1) =~= s.subrange(0, 32));
    assert(s.subrange(0, 32) =~= v.txid);
    lemma_read_txid_of_encoding(b, pos, v.txid);
    assert(b.subrange(o1, o1 + 4) =~= s.subrange(32, 36));
    assert(s.subrange(32, 36) =~= spec_u32_to_le_bytes(v.output_index));
    crate::codec::lemma_read_u32_of_encoding(b, o1, v.output_index);
    assert(b.subrange(o2, o3) =~= s.subrange(36, 36 + blob.len() as int));
    assert(s.subrange(36, 36 + blob.len() as int) =~= blob);
    crate::codec::lemma_read_blob_of_encoding(b, o2, v.script_sig);
    assert(b.subrange(o3, o4) =~= s.subrange(36 + blob.len() as int, enc.len() as int));
    assert(s.subrange(36 + blob.len() as int, enc.len() as int) =~= spec_u32_to_le_bytes(
        v.sequence,
    ));
    crate::codec::lemma_read_u32_of_encoding(b, o3, v.sequence);
    let r = spec_read_txin(b, pos);
    assert(r is Ok);
    assert(v.witness =~= Seq::<Seq<u8>>::empty());
    assert(r->Ok_0.0 =~= v);
}

proof fn lemma_read_txins_of_encoding(b: Seq<u8>, pos: int, s: Seq<TxInView>)
    requires
        forall|i: int| 0 <= i < s.len() ==> wf_txin(#[trigger] s[i]),
        0 <= pos,
        pos + spec_encode_txins(s).len() <= b.len(),
        b.subrange(pos, pos + spec_encode_txins(s).len() as int) == spec_encode_txins(s),
    ensures
        spec_read_txins(b, pos, s.len()) == Ok::<(Seq<TxInView>, int), Error>((
            s,
            pos + spec_encode_txins(s).len(),
        )),
    decreases s.len(),
{
    if s.len() == 0 {
        assert(spec_read_txins(b, pos, 0) == Ok::<(Seq<TxInView>, int), Error>((
            Seq::empty(),
            pos,
        )));
        assert(s =~= Seq::<TxInView>::empty());
    } else {
        let enc = spec_encode_txins(s);
        let whole = b.subrange(pos, pos + enc.len() as int);
        let e0 = spec_encode_txin(s[0]);
        let rest = spec_encode_txins(s.drop_first());
        assert(enc == e0 + rest);
        let mid = pos + e0.len() as int;
        assert(b.subrange(pos, mid) =~= whole.subrange(0, e0.len() as int));
        assert(whole.subrange(0, e0.len() as int) =~= e0);
        lemma_read_txin_of_encoding(b, pos, s[0]);
        assert(b.subrange(mid, mid + rest.len() as int) =~= whole.subrange(
            e0.len() as int,
            enc.len() as int,
        ));
        assert(whole.subrange(e0.len() as int, enc.len() as int) =~= rest);
        assert(forall|i: int|
            0 <= i < s.drop_first().len() ==> wf_txin(#[trigger] s.drop_first()[i]));
        lemma_read_txins_of_encoding(b, mid, s.drop_first());
        assert(seq![s[0]] + s.drop_first() =~= s);
    }
}

proof fn lemma_read_txout_of_encoding(b: Seq<u8>, pos: int, v: TxOutView)
    requires
        wf_txout(v),
        0 <= pos,
        pos + spec_encode_txout(v).len() <= b.len(),
        b.subrange(pos, pos + spec_encode_txout(v).len() as int) == spec_encode_txout(v),
    ensures
        spec_read_txout(b, pos) == Ok::<(TxOutView, int), Error>((
            v,
            pos + spec_encode_txout(v).len(),
        )),
{
    vstd::bytes::lemma_auto_spec_u16_to_from_le_bytes();
    vstd::bytes::lemma_auto_spec_u32_to_from_le_bytes();
    vstd::bytes::lemma_auto_spec_u64_to_from_le_bytes();
    let enc = spec_encode_txout(v);
    let s = b.subrange(pos, pos + enc.len() as int);
    let blob = crate::codec::spec_encode_blob(v.script_pubkey);
    let o1 = pos + 8;
    let o2 = o1 + blob.len() as int;
    assert(enc.len() == 8 + blob.len());
    assert(b.subrange(pos, o1) =~= s.subrange(0, 8));
    assert(s.subrange(0, 8) =~= spec_u64_to_le_bytes(v.amount));
    crate::codec::lemma_read_u64_of_encoding(b, pos, v.amount);
    assert(b.subrange(o1, o2) =~= s.subrange(8, enc.len() as int));
    assert(s.subrange(8, enc.len() as int) =~= blob);
    crate::codec::lemma_read_blob_of_encoding(b, o1, v.script_pubkey);
    let r = spec_read_txout(b, pos);
    assert(r is Ok);
    assert(r->Ok_0.0 =~= v);
}

proof fn lemma_read_txouts_of_encoding(b: Seq<u8>, pos: int, s: Seq<TxOutView>)
    requires
        forall|i: int| 0 <= i < s.len() ==> wf_txout(#[trigger] s[i]),
        0 <= pos,
        pos + spec_encode_txouts(s).len() <= b.len(),
        b.subrange(pos, pos + spec_encode_txouts(s).len() as int) == spec_encode_txouts(s),
    ensures
        spec_read_txouts(b, pos, s.len()) == Ok::<(Seq<TxOutView>, int), Error>((
            s,
            pos + spec_encode_txouts(s).len(),
        )),
    decreases s.len(),
{
    if s.len() == 0 {
        assert(s =~= Seq::<TxOutView>::empty());
    } else {
        let enc = spec_encode_txouts(s);
        let whole = b.subrange(pos, pos + enc.len() as int);
        let e0 = spec_encode_txout(s[0]);
        let rest = spec_encode_txouts(s.drop_first());
        assert(enc == e0 + rest);
        let mid = pos + e0.len() as int;
        assert(b.subrange(pos, mid) =~= whole.subrange(0, e0.len() as int));
        assert(whole.subrange(0, e0.len() as int) =~= e0);
        lemma_read_txout_of_encoding(b, pos, s[0]);
        assert(b.subrange(mid, mid + rest.len() as int) =~= whole.subrange(
            e0.len() as int,
            enc.len() as int,
        ));
        assert(whole.subrange(e0.len() as int, enc.len() as int) =~= rest);
        assert(forall|i: int|
            0 <= i < s.drop_first().len() ==> wf_txout(#[trigger] s.drop_first()[i]));
        lemma_read_txouts_of_encoding(b, mid, s.drop_first());
        assert(seq![s[0]] + s.drop_first() =~= s);
    }
}

/// Legacy round trip: the canonical serialization of any well-formed
/// non-witness transaction decodes back to exactly that transaction,
/// consuming every byte.  So re-encoding a transaction decoded from such a
/// serialization reproduces the original bytes; the property cannot cover
/// buffers that use a non-minimal count encoding, nor the witness layout,
/// which the encoder intentionally never produces.
pub proof fn lemma_legacy_round_trip(t: TransactionView)
    requires
        wf_legacy(t),
    ensures
        spec_read_transaction(spec_encode_transaction(t), 0) == Ok::<
            (TransactionView, int),
            Error,
        >((t, spec_encode_transaction(t).len() as int)),
{
    vstd::bytes::lemma_auto_spec_u16_to_from_le_bytes();
    vstd::bytes::lemma_auto_spec_u32_to_from_le_bytes();
    vstd::bytes::lemma_auto_spec_u64_to_from_le_bytes();
    let b = spec_encode_transaction(t);
    let c1 = spec_u32_to_le_bytes(t.version);
    let c2 = spec_encode_compact_size(t.inputs.len() as u64);
    let c3 = spec_encode_txins(t.inputs);
    let c4 = spec_encode_compact_size(t.outputs.len() as u64);
    let c5 = spec_encode_txouts(t.outputs);
    let c6 = spec_u32_to_le_bytes(t.lock_time);
    assert(c1.len() == 4);
    let p1 = c1.len() as int;
    let p2 = p1 + c2.len() as int;
    let p3 = p2 + c3.len() as int;
    let p4 = p3 + c4.len() as int;
    let p5 = p4 + c5.len() as int;
    let p6 = p5 + c6.len() as int;
    assert(b.len() == p6);
    assert(b.subrange(0, p1) =~= c1);
    crate::codec::lemma_read_u32_of_encoding(b, 0, t.version);
    assert(b.subrange(p1, p2) =~= c2);
    crate::codec::lemma_read_compact_size_of_encoding(b, p1, t.inputs.len() as u64);
    assert((t.inputs.len() as u64) as nat == t.inputs.len());
    assert(b.subrange(p2, p3) =~= c3);
    lemma_read_txins_of_encoding(b, p2, t.inputs);
    assert(b.subrange(p3, p4) =~= c4);
    crate::codec::lemma_read_compact_size_of_encoding(b, p3, t.outputs.len() as u64);
    assert((t.outputs.len() as u64) as nat == t.outputs.len());
    assert(b.subrange(p4, p5) =~= c5);
    lemma_read_txouts_of_encoding(b, p4, t.outputs);
    assert(b.subrange(p5, p6) =~= c6);
    crate::codec::lemma_read_u32_of_encoding(b, p5, t.lock_time);
    let r = spec_read_transaction(b, 0);
    assert(t.inputs.len() as u64 != 0);
    assert(r is Ok);
    assert(r->Ok_0.0 =~= t);
}

} // verus!
