use vstd::prelude::*;

verus! {

/// Base fee charged per unit of transaction weight when none is given.
pub const DEFAULT_BASE_FEE: u64 = 10;

/// Weight of a transaction: four per output, minus one per input, plus one,
/// never below one.
pub open spec fn tx_weight(input_len: int, output_len: int) -> int {
    let w = 4 * output_len - input_len + 1;
    if w < 1 { 1 } else { w }
}

/// The fee for a transaction, saturated at the largest `u64`.
pub open spec fn fee_spec(input_len: int, output_len: int, base_fee: int) -> int {
    let f = tx_weight(input_len, output_len) * base_fee;
    if f > u64::MAX { u64::MAX as int } else { f }
}

/// The base fee actually used: the given one, or the default.
pub open spec fn base_fee_of(base_fee: Option<u64>) -> int {
    match base_fee {
        Some(bf) => bf as int,
        None => DEFAULT_BASE_FEE as int,
    }
}

/// Transaction fee calculation: `max(1, 4 * outputs - inputs + 1) * base_fee`,
/// saturating at `u64::MAX` instead of wrapping.
pub fn tx_fee(input_len: usize, output_len: usize, base_fee: Option<u64>) -> (r: u64)
    ensures
        r == fee_spec(input_len as int, output_len as int, base_fee_of(base_fee)),
        r >= base_fee_of(base_fee),
{
    let use_base_fee: u64 = match base_fee {
        Some(bf) => bf,
        None => DEFAULT_BASE_FEE,
    };
    let plus: i128 = 4 * (output_len as i128) + 1;
    let minus: i128 = input_len as i128;
    let weight: u128 = if plus - minus < 1 { 1 } else { (plus - minus) as u128 };
    assert(weight == tx_weight(input_len as int, output_len as int));
    if weight > u64::MAX as u128 {
        if use_base_fee == 0 {
            assert(weight * 0 == 0) by (nonlinear_arith);
            0
        } else {
            assert(weight * use_base_fee >= weight) by (nonlinear_arith)
                requires use_base_fee >= 1;
            u64::MAX
        }
    } else {
        assert(weight * use_base_fee <= u64::MAX * u64::MAX) by (nonlinear_arith)
            requires weight <= u64::MAX, use_base_fee <= u64::MAX;
        let f: u128 = weight * (use_base_fee as u128);
        assert(f >= use_base_fee) by (nonlinear_arith)
            requires f == weight * use_base_fee, weight >= 1;
        if f > u64::MAX as u128 {
            u64::MAX
        } else {
            f as u64
        }
    }
}

} // verus!
