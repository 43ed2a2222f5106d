use lb_quote::bin::{Bin, BinArray};
use lb_quote::bitmap::BinArrayBitmapExtension;
use lb_quote::constants::{MAX_BIN_ID, MIN_BIN_ID};
use lb_quote::errors::QuoteError;
use lb_quote::lb_pair::{LbPair, StaticParameters, TokenProgramFlags, VariableParameters};

const ONE: u128 = 1u128 << 64;

fn base_pool(bin_step: u16, active_id: i32, base_factor: u16) -> LbPair {
    LbPair {
        active_id,
        bin_step,
        status: 0,
        pair_type: 0,
        activation_type: 0,
        activation_point: 0,
        token_mint_x_program_flag: 0,
        token_mint_y_program_flag: 0,
        parameters: StaticParameters {
            base_factor,
            filter_period: 10,
            decay_period: 100,
            reduction_factor: 5000,
            variable_fee_control: 0,
            max_volatility_accumulator: 350_000,
            protocol_share: 0,
            base_fee_power_factor: 0,
        },
        v_parameters: VariableParameters {
            volatility_accumulator: 0,
            volatility_reference: 0,
            index_reference: 0,
            last_update_timestamp: 1000,
        },
        bin_array_bitmap: [0u64; 16],
    }
}

fn set_internal_bit(pool: &mut LbPair, idx: i32) {
    let k = (idx + 512) as usize;
    pool.bin_array_bitmap[k / 64] |= 1u64 << (k % 64);
}

#[test]
fn base_fee_formula_exact() {
    let pool = base_pool(10, 0, 5000);
    assert_eq!(pool.get_base_fee().unwrap(), 500_000);
    let mut pool2 = base_pool(1, 0, 1);
    pool2.parameters.base_fee_power_factor = 3;
    assert_eq!(pool2.get_base_fee().unwrap(), 10_000);
}

#[test]
fn base_fee_overflows_on_large_power_factor() {
    let mut pool = base_pool(1, 0, 1);
    pool.parameters.base_fee_power_factor = 40;
    assert_eq!(pool.get_base_fee(), Err(QuoteError::Overflow));
}

#[test]
fn variable_fee_formula_exact() {
    let mut pool = base_pool(10, 0, 5000);
    pool.parameters.variable_fee_control = 10_000;
    // ceil(10_000 * (3000 * 10)^2 / 10^11) == 90
    assert_eq!(pool.compute_variable_fee(3000).unwrap(), 90);
    assert_eq!(pool.compute_variable_fee(0).unwrap(), 0);
    pool.parameters.variable_fee_control = 0;
    assert_eq!(pool.compute_variable_fee(3000).unwrap(), 0);
}

#[test]
fn total_fee_is_capped() {
    let pool = base_pool(65535, 0, 65535);
    assert_eq!(pool.get_total_fee().unwrap(), 100_000_000);
}

#[test]
fn compute_fee_formulas_exact() {
    let pool = base_pool(10, 0, 5000);
    // rate 500_000: ceil(10^6 * 5*10^5 / (10^9 - 5*10^5)) == 501
    assert_eq!(pool.compute_fee(1_000_000).unwrap(), 501);
    // ceil(10^6 * 5*10^5 / 10^9) == 500
    assert_eq!(pool.compute_fee_from_amount(1_000_000).unwrap(), 500);
    assert_eq!(pool.compute_fee(0).unwrap(), 0);
    assert_eq!(pool.compute_fee_from_amount(0).unwrap(), 0);
}

#[test]
fn fee_is_monotone_on_samples() {
    let pool = base_pool(10, 0, 10000);
    let mut last = 0;
    for amount in [0u64, 1, 10, 999, 1_000_000, u64::MAX / 2, u64::MAX] {
        let fee = pool.compute_fee_from_amount(amount).unwrap();
        assert!(fee >= last);
        assert!(fee <= amount);
        last = fee;
    }
}

#[test]
fn protocol_fee_truncates() {
    let mut pool = base_pool(10, 0, 5000);
    pool.parameters.protocol_share = 2000;
    assert_eq!(pool.compute_protocol_fee(1000).unwrap(), 200);
    assert_eq!(pool.compute_protocol_fee(1).unwrap(), 0);
    pool.parameters.protocol_share = 65535;
    assert_eq!(pool.compute_protocol_fee(u64::MAX), Err(QuoteError::Overflow));
}

#[test]
fn references_decay_within_decay_period() {
    let mut pool = base_pool(10, 7, 5000);
    pool.v_parameters.volatility_accumulator = 40_000;
    pool.v_parameters.last_update_timestamp = 0;
    // elapsed 50: filter 10 <= 50 < decay 100, reduction 5000/10000
    pool.update_references(50).unwrap();
    assert_eq!(pool.v_parameters.index_reference, 7);
    assert_eq!(pool.v_parameters.volatility_reference, 20_000);
}

#[test]
fn references_are_idempotent_at_one_timestamp() {
    let mut pool = base_pool(10, 7, 5000);
    pool.v_parameters.volatility_accumulator = 40_000;
    pool.v_parameters.last_update_timestamp = 0;
    pool.update_references(50).unwrap();
    let once = pool;
    pool.update_references(50).unwrap();
    assert_eq!(pool.v_parameters, once.v_parameters);
    assert_eq!(pool.active_id, once.active_id);
}

#[test]
fn references_ignore_high_frequency_updates() {
    let mut pool = base_pool(10, 7, 5000);
    pool.v_parameters.volatility_reference = 123;
    pool.v_parameters.last_update_timestamp = 0;
    pool.update_references(5).unwrap();
    assert_eq!(pool.v_parameters.index_reference, 0);
    assert_eq!(pool.v_parameters.volatility_reference, 123);
}

#[test]
fn volatility_accumulator_counts_bin_distance() {
    let mut pool = base_pool(10, 5, 5000);
    pool.v_parameters.index_reference = 0;
    pool.update_volatility_accumulator().unwrap();
    assert_eq!(pool.v_parameters.volatility_accumulator, 50_000);
}

#[test]
fn volatility_accumulator_is_clamped() {
    let mut pool = base_pool(10, 100, 5000);
    pool.v_parameters.index_reference = 0;
    pool.update_volatility_accumulator().unwrap();
    assert_eq!(
        pool.v_parameters.volatility_accumulator,
        pool.parameters.max_volatility_accumulator
    );
}

#[test]
fn advance_active_bin_moves_and_bounds() {
    let mut pool = base_pool(10, 0, 5000);
    pool.advance_active_bin(false).unwrap();
    assert_eq!(pool.active_id, 1);
    pool.advance_active_bin(true).unwrap();
    pool.advance_active_bin(true).unwrap();
    assert_eq!(pool.active_id, -1);
    pool.active_id = MAX_BIN_ID;
    assert_eq!(pool.advance_active_bin(false), Err(QuoteError::InsufficientLiquidity));
    pool.active_id = MIN_BIN_ID;
    assert_eq!(pool.advance_active_bin(true), Err(QuoteError::InsufficientLiquidity));
}

#[test]
fn internal_navigator_finds_nearest_bits() {
    let mut pool = base_pool(10, 0, 5000);
    set_internal_bit(&mut pool, -3);
    set_internal_bit(&mut pool, 5);
    assert_eq!(pool.next_bin_array_index_with_liquidity_internal(true, 0), (-3, true));
    assert_eq!(pool.next_bin_array_index_with_liquidity_internal(false, 0), (5, true));
    assert_eq!(pool.next_bin_array_index_with_liquidity_internal(true, -3), (-3, true));
    assert_eq!(pool.next_bin_array_index_with_liquidity_internal(false, 6), (512, false));
    assert_eq!(pool.next_bin_array_index_with_liquidity_internal(true, -4), (-513, false));
}

#[test]
fn internal_navigator_reports_empty_bitmap() {
    let pool = base_pool(10, 0, 5000);
    assert_eq!(pool.next_bin_array_index_with_liquidity_internal(true, 511), (-513, false));
    assert_eq!(pool.next_bin_array_index_with_liquidity_internal(false, -512), (512, false));
}

fn ext_with_bits(pos: &[i32], neg: &[i32]) -> BinArrayBitmapExtension {
    let mut e = BinArrayBitmapExtension {
        positive_bin_array_bitmap: [0u64; 96],
        negative_bin_array_bitmap: [0u64; 96],
    };
    for &idx in pos {
        let k = (idx - 512) as usize;
        e.positive_bin_array_bitmap[k / 64] |= 1u64 << (k % 64);
    }
    for &idx in neg {
        let k = (-513 - idx) as usize;
        e.negative_bin_array_bitmap[k / 64] |= 1u64 << (k % 64);
    }
    e
}

#[test]
fn extension_navigator_searches_both_sides() {
    let e = ext_with_bits(&[600], &[-600]);
    assert_eq!(e.next_bin_array_index_with_liquidity(false, 512).unwrap(), (600, true));
    assert_eq!(e.next_bin_array_index_with_liquidity(true, 700).unwrap(), (600, true));
    assert_eq!(e.next_bin_array_index_with_liquidity(true, 599).unwrap(), (511, false));
    assert_eq!(e.next_bin_array_index_with_liquidity(true, -513).unwrap(), (-600, true));
    assert_eq!(e.next_bin_array_index_with_liquidity(false, -600).unwrap(), (-600, true));
    assert_eq!(e.next_bin_array_index_with_liquidity(false, -599).unwrap(), (-512, false));
    assert!(e.next_bin_array_index_with_liquidity(true, 7000).is_err());
    assert!(e.next_bin_array_index_with_liquidity(false, 0).is_err());
}

#[test]
fn bin_id_maps_to_floor_array_index() {
    assert_eq!(BinArray::bin_id_to_bin_array_index(0), 0);
    assert_eq!(BinArray::bin_id_to_bin_array_index(69), 0);
    assert_eq!(BinArray::bin_id_to_bin_array_index(70), 1);
    assert_eq!(BinArray::bin_id_to_bin_array_index(-1), -1);
    assert_eq!(BinArray::bin_id_to_bin_array_index(-70), -1);
    assert_eq!(BinArray::bin_id_to_bin_array_index(-71), -2);
}

#[test]
fn bin_array_range_checks() {
    let arr = BinArray {
        index: -1,
        bins: vec![Bin { amount_x: 0, amount_y: 0, price: 0, liquidity_supply: 0 }; 70],
    };
    assert!(arr.is_bin_id_within_range(-70));
    assert!(arr.is_bin_id_within_range(-1));
    assert!(!arr.is_bin_id_within_range(0));
    assert!(!arr.is_bin_id_within_range(-71));
}

#[test]
fn swap_exhausts_a_small_bin() {
    // rate 10^6: draining 100 units of Y at price one costs 100 + fee 1.
    let pool = base_pool(10, 0, 10000);
    let mut bin = Bin { amount_x: 0, amount_y: 100, price: ONE, liquidity_supply: 0 };
    let res = bin.swap(200, ONE, true, &pool, None).unwrap();
    assert_eq!(res.amount_in_with_fees, 101);
    assert_eq!(res.amount_out, 100);
    assert_eq!(res.fee, 1);
    // Conservation: what entered the bin is the paid amount net of fee.
    assert_eq!(bin.amount_x, 100);
    assert_eq!(bin.amount_y, 0);
}

#[test]
fn swap_partial_fill_charges_fee_from_amount() {
    let pool = base_pool(10, 0, 10000);
    let mut bin = Bin { amount_x: 0, amount_y: 1_000_000_000, price: ONE, liquidity_supply: 0 };
    let res = bin.swap(1_000_000, ONE, true, &pool, None).unwrap();
    assert_eq!(res.fee, 1000);
    assert_eq!(res.amount_in_with_fees, 1_000_000);
    assert_eq!(res.amount_out, 999_000);
    assert!(res.amount_out <= 1_000_000_000);
    assert_eq!(bin.amount_x, 999_000);
    assert_eq!(bin.amount_y, 1_000_000_000 - 999_000);
}

#[test]
fn swap_splits_protocol_and_host_fee() {
    let mut pool = base_pool(10, 0, 10000);
    pool.parameters.protocol_share = 5000;
    let mut bin = Bin { amount_x: 0, amount_y: 1_000_000_000, price: ONE, liquidity_supply: 0 };
    let res = bin.swap(10_000, ONE, true, &pool, Some(3000)).unwrap();
    assert_eq!(res.fee, 10);
    assert_eq!(res.host_fee, 1);
    assert_eq!(res.protocol_fee_after_host_fee, 4);
}

#[test]
fn amount_conversions_are_identity_at_price_one() {
    assert_eq!(Bin::get_amount_out(500, ONE, true).unwrap(), 500);
    assert_eq!(Bin::get_amount_out(500, ONE, false).unwrap(), 500);
    assert_eq!(Bin::get_amount_in(500, ONE, true).unwrap(), 500);
    assert_eq!(Bin::get_amount_in(500, ONE, false).unwrap(), 500);
}

#[test]
fn max_amount_in_rounds_up() {
    let bin = Bin { amount_x: 0, amount_y: 100, price: 0, liquidity_supply: 0 };
    // price 1.5 in Q64.64: draining 100 Y needs ceil(100 / 1.5) == 67 X.
    let price = ONE + ONE / 2;
    assert_eq!(bin.get_max_amount_in(price, true).unwrap(), 67);
    let bin_x = Bin { amount_x: 100, amount_y: 0, price: 0, liquidity_supply: 0 };
    assert_eq!(bin_x.get_max_amount_in(price, false).unwrap(), 150);
}

#[test]
fn calculate_out_amount_scales_by_share() {
    let bin = Bin { amount_x: 100, amount_y: 50, price: 0, liquidity_supply: 200 };
    assert_eq!(bin.calculate_out_amount(100).unwrap(), (50, 25));
    let empty = Bin { amount_x: 100, amount_y: 50, price: 0, liquidity_supply: 0 };
    assert_eq!(empty.calculate_out_amount(100), Err(QuoteError::MathDomain));
}

#[test]
fn bin_price_is_memoized() {
    let mut bin = Bin { amount_x: 0, amount_y: 0, price: 0, liquidity_supply: 0 };
    let p = bin.get_or_store_bin_price(100, 10).unwrap();
    assert_eq!(bin.price, p);
    let mut pre_set = Bin { amount_x: 0, amount_y: 0, price: 777, liquidity_supply: 0 };
    assert_eq!(pre_set.get_or_store_bin_price(100, 10).unwrap(), 777);
}

#[test]
fn token_program_flags_decode() {
    let mut pool = base_pool(10, 0, 5000);
    pool.token_mint_y_program_flag = 1;
    assert_eq!(
        pool.get_token_programs().unwrap(),
        (TokenProgramFlags::TokenProgram, TokenProgramFlags::TokenProgram2022)
    );
    pool.token_mint_x_program_flag = 9;
    assert_eq!(pool.get_token_programs(), Err(QuoteError::TypeCastFailed));
}
