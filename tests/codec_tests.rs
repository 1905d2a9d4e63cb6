use wallet::codec::{decode_partial_tx, encode_partial_tx, BlindingFactor, PartialTx};
use wallet::types::Error;

fn blind() -> BlindingFactor {
    let mut b = [0u8; 32];
    for (i, x) in b.iter_mut().enumerate() {
        *x = i as u8 + 1;
    }
    BlindingFactor::from_slice(&b).unwrap()
}

#[test]
fn encode_writes_hex_fields() {
    let p = encode_partial_tx(42, &blind(), &[0xde, 0xad]);
    assert_eq!(p.amount, 42);
    assert_eq!(p.blind_sum, "0102030405060708090a0b0c0d0e0f101112131415161718191a1b1c1d1e1f20");
    assert_eq!(p.tx, "dead");
}

#[test]
fn envelope_round_trip() {
    let b = blind();
    let tx = vec![1u8, 2, 3, 250];
    let p = encode_partial_tx(1000, &b, &tx);
    let (a, b2, t2) = decode_partial_tx(&p).unwrap();
    assert_eq!(a, 1000);
    assert_eq!(b2, b);
    assert_eq!(t2, tx);
}

#[test]
fn decode_rejects_malformed_hex() {
    let good = encode_partial_tx(1, &blind(), &[1, 2]);
    let bad_blind = PartialTx { amount: 1, blind_sum: "zz".to_string(), tx: good.tx.clone() };
    assert!(matches!(decode_partial_tx(&bad_blind), Err(Error::Format(_))));
    let bad_tx = PartialTx { amount: 1, blind_sum: good.blind_sum.clone(), tx: "123".to_string() };
    assert!(matches!(decode_partial_tx(&bad_tx), Err(Error::Format(_))));
}

#[test]
fn decode_rejects_invalid_scalar() {
    let zero = PartialTx { amount: 1, blind_sum: "00".repeat(32), tx: String::new() };
    assert!(matches!(decode_partial_tx(&zero), Err(Error::Format(_))));
    let order = "fffffffffffffffffffffffffffffffebaaedce6af48a03bbfd25e8cd0364141";
    let at_order = PartialTx { amount: 1, blind_sum: order.to_string(), tx: String::new() };
    assert!(matches!(decode_partial_tx(&at_order), Err(Error::Format(_))));
    let short = PartialTx { amount: 1, blind_sum: "01".repeat(31), tx: String::new() };
    assert!(matches!(decode_partial_tx(&short), Err(Error::Format(_))));
}

#[test]
fn blinding_factor_bounds() {
    let below = "fffffffffffffffffffffffffffffffebaaedce6af48a03bbfd25e8cd0364140";
    let bytes = wallet::hex::from_hex(below).unwrap();
    assert!(BlindingFactor::from_slice(&bytes).is_ok());
    let mut one = [0u8; 32];
    one[31] = 1;
    let b = BlindingFactor::from_slice(&one).unwrap();
    assert_eq!(b.as_bytes(), &one[..]);
    assert!(BlindingFactor::from_slice(&[0xff; 32]).is_err());
}
