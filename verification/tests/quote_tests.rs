use lb_quote::bin::{Bin, BinArray};
use lb_quote::bitmap::BinArrayBitmapExtension;
use lb_quote::constants::MIN_BIN_ID;
use lb_quote::errors::QuoteError;
use lb_quote::lb_pair::{LbPair, StaticParameters, VariableParameters};
use lb_quote::price::get_price_from_id;
use lb_quote::quote::{
    get_bin_array_indices_for_swap, quote_exact_in, quote_exact_out, validate_swap_activation,
    Clock,
};
use lb_quote::token::{MintInfo, TransferFee, TransferFeeConfig};

const ONE: u128 = 1u128 << 64;

fn base_pool(bin_step: u16, active_id: i32, base_factor: u16) -> LbPair {
    LbPair {
        active_id,
        bin_step,
        status: 0,
        pair_type: 0,
        activation_type: 0,
        activation_point: 0,
        token_mint_x_program_flag: 0,
        token_mint_y_program_flag: 0,
        parameters: StaticParameters {
            base_factor,
            filter_period: 10,
            decay_period: 100,
            reduction_factor: 5000,
            variable_fee_control: 0,
            max_volatility_accumulator: 350_000,
            protocol_share: 0,
            base_fee_power_factor: 0,
        },
        v_parameters: VariableParameters {
            volatility_accumulator: 0,
            volatility_reference: 0,
            index_reference: 0,
            last_update_timestamp: 1000,
        },
        bin_array_bitmap: [0u64; 16],
    }
}

fn set_internal_bit(pool: &mut LbPair, idx: i32) {
    let k = (idx + 512) as usize;
    pool.bin_array_bitmap[k / 64] |= 1u64 << (k % 64);
}

fn empty_bin() -> Bin {
    Bin { amount_x: 0, amount_y: 0, price: 0, liquidity_supply: 0 }
}

fn bin_array(index: i64) -> BinArray {
    BinArray { index, bins: vec![empty_bin(); 70] }
}

fn clock_at(ts: i64) -> Clock {
    Clock { slot: 42, epoch: 3, unix_timestamp: ts }
}

fn plain_mint() -> MintInfo {
    MintInfo { transfer_fee_config: None }
}

/// Pool with bin step 10 and one bin of Y at the neutral price, fully
/// filled; the active bin sits on it.
fn single_y_bin_setup() -> (LbPair, Vec<BinArray>) {
    let mut pool = base_pool(10, 0, 10000);
    set_internal_bit(&mut pool, 0);
    let mut arr = bin_array(0);
    arr.bins[0].amount_y = 1_000_000_000;
    (pool, vec![arr])
}

#[test]
fn exact_in_partial_single_bin() {
    let (pool, arrays) = single_y_bin_setup();
    let q = quote_exact_in(
        &pool,
        1_000_000,
        true,
        &arrays,
        None,
        &clock_at(1000),
        &plain_mint(),
        &plain_mint(),
    )
    .unwrap();
    // fee rate 10^6 of 10^9: fee 1000, the rest converts at price one.
    assert_eq!(q.fee, 1000);
    assert_eq!(q.amount_out, 999_000);
    assert!(q.amount_out < 1_000_000_000);
    assert!(q.fee > 0);
}

#[test]
fn exact_in_is_deterministic() {
    let (pool, arrays) = single_y_bin_setup();
    let a = quote_exact_in(
        &pool,
        123_456,
        true,
        &arrays,
        None,
        &clock_at(1000),
        &plain_mint(),
        &plain_mint(),
    )
    .unwrap();
    let b = quote_exact_in(
        &pool,
        123_456,
        true,
        &arrays,
        None,
        &clock_at(1000),
        &plain_mint(),
        &plain_mint(),
    )
    .unwrap();
    assert_eq!(a, b);
}

#[test]
fn exact_in_traverses_three_bin_arrays() {
    let mut pool = base_pool(10, 0, 10000);
    for idx in [1, 2, 3] {
        set_internal_bit(&mut pool, idx);
    }
    let mut arr1 = bin_array(1);
    arr1.bins[0].amount_x = 1000;
    let mut arr2 = bin_array(2);
    arr2.bins[0].amount_x = 1000;
    let mut arr3 = bin_array(3);
    arr3.bins[0].amount_x = 500_000_000;
    let arrays = vec![arr1, arr2, arr3];
    let amount_in: u64 = 5000;
    let q = quote_exact_in(
        &pool,
        amount_in,
        false,
        &arrays,
        None,
        &clock_at(1000),
        &plain_mint(),
        &plain_mint(),
    )
    .unwrap();

    // The same walk, one public per-bin swap at a time.
    let mut amount_left = amount_in;
    let mut expected_out: u64 = 0;
    let mut expected_fee: u64 = 0;
    for (id, reserve) in [(70, 1000u64), (140, 1000), (210, 500_000_000)] {
        let price = get_price_from_id(id, 10).unwrap();
        let mut bin = empty_bin();
        bin.amount_x = reserve;
        let res = bin.swap(amount_left, price, false, &pool, None).unwrap();
        amount_left -= res.amount_in_with_fees;
        expected_out += res.amount_out;
        expected_fee += res.fee;
        if amount_left == 0 {
            break;
        }
    }
    assert_eq!(amount_left, 0);
    assert!(expected_out > 2000);
    assert_eq!(q.amount_out, expected_out);
    assert_eq!(q.fee, expected_fee);
}

#[test]
fn exact_out_beyond_reserves_is_out_of_liquidity() {
    let mut pool = base_pool(10, 0, 10000);
    set_internal_bit(&mut pool, 0);
    let mut arr = bin_array(0);
    arr.bins[0].amount_y = 1000;
    let arrays = vec![arr];
    let r = quote_exact_out(
        &pool,
        5000,
        true,
        &arrays,
        None,
        &clock_at(1000),
        &plain_mint(),
        &plain_mint(),
    );
    assert_eq!(r.unwrap_err(), QuoteError::PoolOutOfLiquidity);
}

#[test]
fn long_idle_interval_resets_volatility_reference() {
    let mut pool = base_pool(10, 7, 10000);
    pool.v_parameters.volatility_accumulator = 40_000;
    pool.v_parameters.volatility_reference = 123;
    pool.v_parameters.last_update_timestamp = 0;
    // elapsed 1000 is past the decay period of 100: full reset.
    pool.update_references(1000).unwrap();
    assert_eq!(pool.v_parameters.volatility_reference, 0);
    assert_eq!(pool.v_parameters.index_reference, 7);
    pool.update_volatility_accumulator().unwrap();
    assert_eq!(pool.v_parameters.volatility_accumulator, 0);
}

#[test]
fn permission_pool_before_activation_is_disabled() {
    let (mut pool, arrays) = single_y_bin_setup();
    pool.pair_type = 1;
    pool.activation_type = 1;
    pool.activation_point = 5000;
    let r = quote_exact_in(
        &pool,
        1_000_000,
        true,
        &arrays,
        None,
        &clock_at(1000),
        &plain_mint(),
        &plain_mint(),
    );
    assert_eq!(r.unwrap_err(), QuoteError::PairDisabled);
    assert_eq!(
        validate_swap_activation(&pool, 1000, 42),
        Err(QuoteError::PairDisabled)
    );
    assert_eq!(validate_swap_activation(&pool, 6000, 42), Ok(()));
}

#[test]
fn round_trip_differs_by_at_most_one_per_bin() {
    let (pool, arrays) = single_y_bin_setup();
    let amount_in: u64 = 1_000_000;
    let fwd = quote_exact_in(
        &pool,
        amount_in,
        true,
        &arrays,
        None,
        &clock_at(1000),
        &plain_mint(),
        &plain_mint(),
    )
    .unwrap();
    let back = quote_exact_out(
        &pool,
        fwd.amount_out,
        true,
        &arrays,
        None,
        &clock_at(1000),
        &plain_mint(),
        &plain_mint(),
    )
    .unwrap();
    // One bin crossed: the reconstructed input is within one unit.
    let diff = if back.amount_in > amount_in {
        back.amount_in - amount_in
    } else {
        amount_in - back.amount_in
    };
    assert!(diff <= 1, "diff {}", diff);
}

#[test]
fn disabled_pool_is_rejected() {
    let (mut pool, arrays) = single_y_bin_setup();
    pool.status = 1;
    let r = quote_exact_in(
        &pool,
        1_000_000,
        true,
        &arrays,
        None,
        &clock_at(1000),
        &plain_mint(),
        &plain_mint(),
    );
    assert_eq!(r.unwrap_err(), QuoteError::PairDisabled);
}

#[test]
fn unknown_status_byte_fails_the_cast() {
    let (mut pool, arrays) = single_y_bin_setup();
    pool.status = 9;
    let r = quote_exact_in(
        &pool,
        1_000_000,
        true,
        &arrays,
        None,
        &clock_at(1000),
        &plain_mint(),
        &plain_mint(),
    );
    assert_eq!(r.unwrap_err(), QuoteError::TypeCastFailed);
}

#[test]
fn missing_bin_array_is_reported() {
    let mut pool = base_pool(10, 0, 10000);
    set_internal_bit(&mut pool, 0);
    let arrays: Vec<BinArray> = Vec::new();
    let r = quote_exact_in(
        &pool,
        1_000_000,
        true,
        &arrays,
        None,
        &clock_at(1000),
        &plain_mint(),
        &plain_mint(),
    );
    assert_eq!(r.unwrap_err(), QuoteError::BinArrayNotFound);
}

#[test]
fn walking_past_the_smallest_bin_id_is_insufficient_liquidity() {
    // The active bin sits at the global minimum inside an extension-covered
    // bin array with no reserves: one step down leaves the valid range. A
    // zero bin step keeps the price at that id representable in Q64.64.
    let mut pool = base_pool(0, MIN_BIN_ID, 10000);
    pool.v_parameters.index_reference = MIN_BIN_ID;
    let idx: i32 = MIN_BIN_ID / 70 - 1;
    assert_eq!(idx, -6338);
    let mut ext = BinArrayBitmapExtension {
        positive_bin_array_bitmap: [0u64; 96],
        negative_bin_array_bitmap: [0u64; 96],
    };
    let k = (-513 - idx) as usize;
    ext.negative_bin_array_bitmap[k / 64] |= 1u64 << (k % 64);
    let arrays = vec![bin_array(idx as i64)];
    let r = quote_exact_in(
        &pool,
        1_000_000,
        true,
        &arrays,
        Some(&ext),
        &clock_at(1000),
        &plain_mint(),
        &plain_mint(),
    );
    assert_eq!(r.unwrap_err(), QuoteError::InsufficientLiquidity);
}

#[test]
fn transfer_fee_mint_shrinks_the_paid_amount() {
    let (pool, arrays) = single_y_bin_setup();
    let fee_entry = TransferFee { epoch: 0, maximum_fee: 1_000_000, transfer_fee_basis_points: 100 };
    let fee_mint = MintInfo {
        transfer_fee_config: Some(TransferFeeConfig {
            older_transfer_fee: fee_entry,
            newer_transfer_fee: fee_entry,
        }),
    };
    let q = quote_exact_in(
        &pool,
        1_000_000,
        true,
        &arrays,
        None,
        &clock_at(1000),
        &fee_mint,
        &plain_mint(),
    )
    .unwrap();
    // 1% transfer fee leaves 990_000; AMM fee 990; converts at price one.
    assert_eq!(q.fee, 990);
    assert_eq!(q.amount_out, 989_010);
}

#[test]
fn index_collection_walks_in_search_order() {
    let mut pool = base_pool(10, 0, 10000);
    for idx in [1, 2, 3] {
        set_internal_bit(&mut pool, idx);
    }
    let up = get_bin_array_indices_for_swap(&pool, None, false, 3).unwrap();
    assert_eq!(up, vec![1, 2, 3]);
    let up_more = get_bin_array_indices_for_swap(&pool, None, false, 5).unwrap();
    assert_eq!(up_more, vec![1, 2, 3]);
    let down = get_bin_array_indices_for_swap(&pool, None, true, 3).unwrap();
    assert_eq!(down, Vec::<i32>::new());
}

#[test]
fn negative_timestamps_are_rejected() {
    let (pool, arrays) = single_y_bin_setup();
    let r = quote_exact_in(
        &pool,
        1_000_000,
        true,
        &arrays,
        None,
        &clock_at(-5),
        &plain_mint(),
        &plain_mint(),
    );
    assert_eq!(r.unwrap_err(), QuoteError::Overflow);
}

#[test]
fn zero_input_quotes_zero_without_touching_bins() {
    // No bin array is needed: the walk is never entered.
    let pool = base_pool(10, 0, 10000);
    let arrays: Vec<BinArray> = Vec::new();
    let q = quote_exact_in(
        &pool,
        0,
        true,
        &arrays,
        None,
        &clock_at(1000),
        &plain_mint(),
        &plain_mint(),
    )
    .unwrap();
    assert_eq!(q.amount_out, 0);
    assert_eq!(q.fee, 0);
    let qo = quote_exact_out(
        &pool,
        0,
        true,
        &arrays,
        None,
        &clock_at(1000),
        &plain_mint(),
        &plain_mint(),
    )
    .unwrap();
    assert_eq!(qo.amount_in, 0);
    assert_eq!(qo.fee, 0);
}
