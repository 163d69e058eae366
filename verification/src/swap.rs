//! Quoting a swap from its encoded request.
use vstd::prelude::*;
use crate::bytes::{le_value, read_u64};
use crate::curve::{curve_output, lemma_output_is_rest, net_input};
use crate::fee::{fee_num_for, fee_numerator, FEE_DENOMINATOR};

verus! {

/// Bytes of storage that a pool keeps between trades.
pub const STORAGE_SIZE: usize = 1024;

/// Bytes of an encoded swap request: side, input amount, the two reserves, storage.
pub const SWAP_REQUEST_SIZE: usize = 25 + STORAGE_SIZE;

/// A request for a quote.
pub struct ComputeSwapInstruction {
    /// 0 to pay Y for X, 1 to pay X for Y.
    pub side: u8,
    /// What the trader pays.
    pub input_amount: u64,
    /// The pool's X reserve.
    pub reserve_x: u64,
    /// The pool's Y reserve.
    pub reserve_y: u64,
    /// The pool's storage.
    pub storage: [u8; STORAGE_SIZE],
}

/// Whether `decoded` holds the fields that stand one after another at the start of `data`.
pub open spec fn decodes_to(data: Seq<u8>, decoded: ComputeSwapInstruction) -> bool {
    &&& decoded.side == data[0]
    &&& decoded.input_amount == le_value(data, 1, 8)
    &&& decoded.reserve_x == le_value(data, 9, 8)
    &&& decoded.reserve_y == le_value(data, 17, 8)
    &&& decoded.storage@ == data.subrange(25, SWAP_REQUEST_SIZE as int)
}

/// What a pool of reserves `reserve_x` and `reserve_y` pays for `input`: X on side 0, Y on
/// side 1. An empty reserve or another side is quoted zero.
pub open spec fn swap_output(
    side: u8,
    input: int,
    reserve_x: int,
    reserve_y: int,
    burst_level: int,
) -> int {
    let net = net_input(input, fee_numerator(reserve_x, reserve_y, burst_level));
    if reserve_x == 0 || reserve_y == 0 {
        0
    } else if side == 0 {
        curve_output(reserve_y, reserve_x, net)
    } else if side == 1 {
        curve_output(reserve_x, reserve_y, net)
    } else {
        0
    }
}

/// The quote for an encoded request; zero where the request is too short. The burst level is
/// the second field of the storage that the request carries.
pub open spec fn quote(data: Seq<u8>) -> int {
    if data.len() < SWAP_REQUEST_SIZE {
        0
    } else {
        swap_output(
            data[0],
            le_value(data, 1, 8) as int,
            le_value(data, 9, 8) as int,
            le_value(data, 17, 8) as int,
            le_value(data, 33, 8) as int,
        )
    }
}

/// What `wincode::deserialize` reports where it cannot read a value.
#[verifier::external_type_specification]
#[verifier::external_body]
pub struct ExReadError(wincode::ReadError);

/// Calls `wincode::deserialize` for the five fields of a request in their order. In the crate's
/// default configuration a `u8` is one byte, a `u64` is eight bytes in little-endian order, an
/// array is its bytes, and a tuple is its members one after another. The call is claimed to fail
/// exactly where fewer bytes are given than the fields take; bytes after the last field are
/// ignored.
#[verifier::external_body]
fn decode_instruction(data: &[u8]) -> (decoded: Result<
    ComputeSwapInstruction,
    wincode::ReadError,
>)
    ensures
        decoded is Ok <==> data@.len() >= SWAP_REQUEST_SIZE,
        decoded matches Ok(fields) ==> decodes_to(data@, fields),
{
    let (side, input_amount, reserve_x, reserve_y, storage): (
        u8,
        u64,
        u64,
        u64,
        [u8; STORAGE_SIZE],
    ) = wincode::deserialize(data)?;
    Ok(ComputeSwapInstruction { side, input_amount, reserve_x, reserve_y, storage })
}

/// Bounds on the intermediate results of a quote.
proof fn lemma_quote_fits(reserve_in: u128, reserve_out: u128, input: u128, fee_num: u128)
    requires
        0 < reserve_in <= u64::MAX,
        reserve_out <= u64::MAX,
        input <= u64::MAX,
        fee_num <= FEE_DENOMINATOR,
    ensures
        0 <= input * fee_num <= u64::MAX * FEE_DENOMINATOR,
        0 <= net_input(input as int, fee_num as int) <= u64::MAX,
        reserve_in * reserve_out <= u64::MAX * u64::MAX,
{
    assert(0 <= input * fee_num <= u64::MAX * FEE_DENOMINATOR) by (nonlinear_arith)
        requires
            0 <= input <= u64::MAX,
            0 <= fee_num <= FEE_DENOMINATOR,
    ;
    assert(reserve_in * reserve_out <= u64::MAX * u64::MAX) by (nonlinear_arith)
        requires
            0 < reserve_in <= u64::MAX,
            0 <= reserve_out <= u64::MAX,
    ;
}

/// Quotes the swap that `data` encodes: the output amount, or zero where `data` is too short,
/// a reserve is empty or the side is unknown.
pub fn compute_swap(data: &[u8]) -> (output: u64)
    ensures
        output == quote(data@),
{
    let decoded: ComputeSwapInstruction = match decode_instruction(data) {
        Ok(decoded) => decoded,
        Err(_) => return 0,
    };

    let side: u8 = decoded.side;
    let input_amount: u128 = decoded.input_amount as u128;
    let reserve_x: u128 = decoded.reserve_x as u128;
    let reserve_y: u128 = decoded.reserve_y as u128;

    if reserve_x == 0 || reserve_y == 0 {
        return 0;
    }
    let burst_level: u64 = read_u64(&decoded.storage, 8);
    proof {
        reveal_with_fuel(le_value, 9);
        assert(burst_level == le_value(data@, 33, 8));
    }
    let fee_num: u128 = fee_num_for(reserve_x, reserve_y, burst_level);
    proof {
        lemma_quote_fits(reserve_x, reserve_y, input_amount, fee_num);
        lemma_quote_fits(reserve_y, reserve_x, input_amount, fee_num);
    }
    let k: u128 = reserve_x * reserve_y;

    match side {
        0 => {
            let net_y: u128 = input_amount * fee_num / FEE_DENOMINATOR;
            let new_ry: u128 = reserve_y + net_y;
            let k_div: u128 = (k + new_ry - 1) / new_ry;
            proof {
                lemma_output_is_rest(reserve_y as int, reserve_x as int, net_y as int);
            }
            reserve_x.saturating_sub(k_div) as u64
        },
        1 => {
            let net_x: u128 = input_amount * fee_num / FEE_DENOMINATOR;
            let new_rx: u128 = reserve_x + net_x;
            let k_div: u128 = (k + new_rx - 1) / new_rx;
            proof {
                lemma_output_is_rest(reserve_x as int, reserve_y as int, net_x as int);
            }
            reserve_y.saturating_sub(k_div) as u64
        },
        _ => 0,
    }
}

/// A request is its side in one byte, then the input amount, the X reserve and the Y reserve in
/// eight each, then 1024 bytes of storage, and nothing more or less is read from it.
pub proof fn law_request_layout(data: Seq<u8>, decoded: ComputeSwapInstruction)
    requires
        data.len() >= 1049,
    ensures
        decodes_to(data, decoded) <==> {
            &&& decoded.side == data[0]
            &&& decoded.input_amount == le_value(data, 1, 8)
            &&& decoded.reserve_x == le_value(data, 9, 8)
            &&& decoded.reserve_y == le_value(data, 17, 8)
            &&& forall|k: int| 0 <= k < 1024 ==> decoded.storage@[k] == data[25 + k]
        },
{
    if forall|k: int| 0 <= k < 1024 ==> decoded.storage@[k] == data[25 + k] {
        assert(decoded.storage@ =~= data.subrange(25, 1049));
    }
    if decoded.storage@ == data.subrange(25, 1049) {
        assert forall|k: int| 0 <= k < 1024 implies decoded.storage@[k] == data[25 + k] by {
            assert(data.subrange(25, 1049)[k] == data[25 + k]);
        }
    }
}

} // verus!
