use vstd::prelude::*;
use vstd::string::*;
use crate::hex::{bytes_of_hex, from_hex, hex_of, is_hex, to_hex};
use crate::types::Error;

verus! {

/// Number of bytes in a secret scalar.
pub const SECRET_KEY_SIZE: usize = 32;

/// Order of the secp256k1 group, big-endian.
pub open spec fn curve_order() -> Seq<u8> {
    seq![
        0xFFu8, 0xFF, 0xFF, 0xFF, 0xFF, 0xFF, 0xFF, 0xFF,
        0xFF, 0xFF, 0xFF, 0xFF, 0xFF, 0xFF, 0xFF, 0xFE,
        0xBA, 0xAE, 0xDC, 0xE6, 0xAF, 0x48, 0xA0, 0x3B,
        0xBF, 0xD2, 0x5E, 0x8C, 0xD0, 0x36, 0x41, 0x41,
    ]
}

fn curve_order_bytes() -> (r: [u8; SECRET_KEY_SIZE])
    ensures
        r@ == curve_order(),
{
    let r: [u8; SECRET_KEY_SIZE] = [
        0xFF, 0xFF, 0xFF, 0xFF, 0xFF, 0xFF, 0xFF, 0xFF,
        0xFF, 0xFF, 0xFF, 0xFF, 0xFF, 0xFF, 0xFF, 0xFE,
        0xBA, 0xAE, 0xDC, 0xE6, 0xAF, 0x48, 0xA0, 0x3B,
        0xBF, 0xD2, 0x5E, 0x8C, 0xD0, 0x36, 0x41, 0x41,
    ];
    assert(r@ =~= curve_order());
    r
}

/// `a` comes before `b` in lexicographic order (for byte strings of one
/// length, the order of the big-endian numbers they encode).
pub open spec fn lex_less(a: Seq<u8>, b: Seq<u8>) -> bool {
    exists|k: int|
        0 <= k < a.len() && k < b.len() && a.take(k) == b.take(k) && #[trigger] a[k] < b[k]
}

/// The raw encoding of a secret scalar: 32 bytes, big-endian, neither zero
/// nor at least the group order.
pub open spec fn is_valid_scalar(b: Seq<u8>) -> bool {
    &&& b.len() == SECRET_KEY_SIZE
    &&& exists|i: int| 0 <= i < b.len() && #[trigger] b[i] != 0
    &&& lex_less(b, curve_order())
}

/// A blinding factor: a secret scalar that hides an output's value inside
/// its commitment.
#[derive(Clone, Copy, Debug, PartialEq, Eq)]
pub struct BlindingFactor([u8; SECRET_KEY_SIZE]);

impl BlindingFactor {
    /// The scalar's raw bytes.
    pub closed spec fn bytes(&self) -> Seq<u8> {
        self.0@
    }

    /// The scalar's raw bytes encode a valid scalar.
    pub open spec fn wf(&self) -> bool {
        is_valid_scalar(self.bytes())
    }

    /// The scalar's raw bytes.
    pub fn as_bytes(&self) -> (r: &[u8])
        ensures
            r@ == self.bytes(),
    {
        self.0.as_slice()
    }

    /// Reads a blinding factor from the raw bytes of its scalar.
    pub fn from_slice(data: &[u8]) -> (r: Result<BlindingFactor, Error>)
        ensures
            r is Ok <==> is_valid_scalar(data@),
            r is Ok ==> r->Ok_0.bytes() == data@ && r->Ok_0.wf(),
            r is Err ==> r->Err_0 is Format,
    {
        if data.len() != SECRET_KEY_SIZE {
            return Err(Error::Format(String::from_str("Invalid blinding factor length")));
        }
        let order = curve_order_bytes();
        let mut nonzero = false;
        let mut decided = false;
        let mut less = false;
        let mut i: usize = 0;
        while i < SECRET_KEY_SIZE
            invariant
                i <= SECRET_KEY_SIZE,
                data@.len() == SECRET_KEY_SIZE,
                order@ == curve_order(),
                nonzero <==> exists|j: int| 0 <= j < i && #[trigger] data@[j] != 0,
                !decided ==> data@.take(i as int) == order@.take(i as int),
                decided ==> (less <==> lex_less(data@, order@)),
                !decided ==> !less,
            decreases SECRET_KEY_SIZE - i,
        {
            let x = data[i];
            let y = order[i];
            if x != 0 {
                assert(data@[i as int] != 0);
                nonzero = true;
            }
            if !decided {
                if x < y {
                    assert(data@.take(i as int) == order@.take(i as int));
                    assert(data@[i as int] < order@[i as int]);
                    assert(lex_less(data@, order@));
                    decided = true;
                    less = true;
                } else if x > y {
                    assert forall|k: int|
                        0 <= k < data@.len() && k < order@.len() && data@.take(k) == order@.take(k)
                            implies !(#[trigger] data@[k] < order@[k]) by {
                        if k < i {
                            assert(data@[k] == data@.take(i as int)[k]);
                            assert(order@[k] == order@.take(i as int)[k]);
                        } else if k > i {
                            assert(data@[i as int] == data@.take(k)[i as int]);
                            assert(order@[i as int] == order@.take(k)[i as int]);
                        }
                    }
                    assert(!lex_less(data@, order@));
                    decided = true;
                } else {
                    assert(data@.take(i + 1) =~= data@.take(i as int).push(x));
                    assert(order@.take(i + 1) =~= order@.take(i as int).push(y));
                }
            }
            i = i + 1;
        }
        if !decided {
            assert forall|k: int|
                0 <= k < data@.len() && k < order@.len() && data@.take(k) == order@.take(k)
                    implies !(#[trigger] data@[k] < order@[k]) by {
                assert(data@[k] == data@.take(SECRET_KEY_SIZE as int)[k]);
                assert(order@[k] == order@.take(SECRET_KEY_SIZE as int)[k]);
            }
        }
        if !nonzero || !less {
            return Err(Error::Format(String::from_str("Invalid blinding factor")));
        }
        let a: [u8; SECRET_KEY_SIZE] = [
            data[0], data[1], data[2], data[3], data[4], data[5], data[6], data[7],
            data[8], data[9], data[10], data[11], data[12], data[13], data[14], data[15],
            data[16], data[17], data[18], data[19], data[20], data[21], data[22], data[23],
            data[24], data[25], data[26], data[27], data[28], data[29], data[30], data[31],
        ];
        assert(a@ =~= data@);
        Ok(BlindingFactor(a))
    }
}

/// The envelope that carries a partial transaction between the two parties:
/// the amount, the hex of the blinding factor sum's raw scalar, and the hex
/// of the transaction's canonical serialization.
#[derive(Debug, Clone)]
pub struct PartialTx {
    pub amount: u64,
    pub blind_sum: String,
    pub tx: String,
}

impl View for PartialTx {
    type V = (u64, Seq<char>, Seq<char>);

    open spec fn view(&self) -> (u64, Seq<char>, Seq<char>) {
        (self.amount, self.blind_sum@, self.tx@)
    }
}

/// The envelope for an amount, a blinding factor's scalar bytes and a
/// serialized transaction.
pub open spec fn envelope_of(amount: u64, blind: Seq<u8>, tx: Seq<u8>) -> (u64, Seq<char>, Seq<char>) {
    (amount, hex_of(blind), hex_of(tx))
}

/// What an envelope carries: the amount, the scalar bytes and the serialized
/// transaction; `None` when either hex field is malformed or the scalar is
/// not valid.
pub open spec fn contents_of(e: (u64, Seq<char>, Seq<char>)) -> Option<(u64, Seq<u8>, Seq<u8>)> {
    if is_hex(e.1) && is_valid_scalar(bytes_of_hex(e.1)) && is_hex(e.2) {
        Some((e.0, bytes_of_hex(e.1), bytes_of_hex(e.2)))
    } else {
        None
    }
}

/// Builds the envelope for a partial transaction not yet completed by the
/// receiver; `tx` is the transaction's canonical serialization.
pub fn encode_partial_tx(receive_amount: u64, blind_sum: &BlindingFactor, tx: &[u8]) -> (r: PartialTx)
    ensures
        r@ == envelope_of(receive_amount, blind_sum.bytes(), tx@),
{
    PartialTx { amount: receive_amount, blind_sum: to_hex(blind_sum.as_bytes()), tx: to_hex(tx) }
}

/// Reads the amount, the blinding factor sum and the serialized transaction
/// out of an envelope. Malformed hex or an invalid scalar is a format error.
pub fn decode_partial_tx(partial_tx: &PartialTx) -> (r: Result<(u64, BlindingFactor, Vec<u8>), Error>)
    ensures
        r is Ok <==> contents_of(partial_tx@) is Some,
        r is Ok ==> ({
            let (a, b, t) = r->Ok_0;
            contents_of(partial_tx@) == Some((a, b.bytes(), t@)) && b.wf()
        }),
        r is Err ==> r->Err_0 is Format,
{
    let blind_bin = match from_hex(partial_tx.blind_sum.as_str()) {
        Some(b) => b,
        None => {
            return Err(Error::Format(String::from_str("Invalid hex")));
        },
    };
    let blinding = match BlindingFactor::from_slice(blind_bin.as_slice()) {
        Ok(b) => b,
        Err(e) => {
            return Err(e);
        },
    };
    let tx_bin = match from_hex(partial_tx.tx.as_str()) {
        Some(t) => t,
        None => {
            return Err(Error::Format(String::from_str("Invalid hex")));
        },
    };
    Ok((partial_tx.amount, blinding, tx_bin))
}

/// Decoding an encoded envelope gives back the amount, the blinding factor
/// and the transaction that went in.
pub proof fn lemma_envelope_round_trip(amount: u64, blind: BlindingFactor, tx: Seq<u8>)
    requires
        blind.wf(),
    ensures
        contents_of(envelope_of(amount, blind.bytes(), tx)) == Some((amount, blind.bytes(), tx)),
{
    crate::hex::lemma_hex_round_trip(blind.bytes());
    crate::hex::lemma_hex_round_trip(tx);
}

} // verus!
