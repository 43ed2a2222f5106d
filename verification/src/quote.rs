//! The quote driver: activation checks, bin-array discovery in search
//! order, and the exact-in / exact-out loops over a local copy of the pool
//! snapshot. No caller-visible state is mutated.

use vstd::prelude::*;

use crate::bin::{spec_amount_in_calc, spec_bin_id_to_bin_array_index, spec_max_amount_in,
    spec_max_amount_out,
    spec_swap_gross, spec_swap_ok, Bin, BinArray};
use crate::bitmap::{ext_bit, ext_covers, BinArrayBitmapExtension};
use crate::constants::{BIN_ARRAY_BITMAP_SIZE, BINS_PER_ARRAY, EXTENSION_BITMAP_BITS, MAX_BIN_ID, MIN_BIN_ID};
use crate::errors::QuoteError;
use crate::price::{spec_price_from_id, spec_price_ok};
use crate::lb_pair::{ActivationType, LbPair, PairStatus, PairType, VariableParameters};
use crate::token::{transfer_fee_excluded_amount, transfer_fee_included_amount, MintInfo};

verus! {

/// Result of an exact-in quote: what comes out, and the fee paid.
#[derive(Clone, Copy, Debug, PartialEq, Eq, Structural)]
pub struct SwapExactInQuote {
    pub amount_out: u64,
    pub fee: u64,
}

/// Result of an exact-out quote: what must go in, and the fee paid.
#[derive(Clone, Copy, Debug, PartialEq, Eq, Structural)]
pub struct SwapExactOutQuote {
    pub amount_in: u64,
    pub fee: u64,
}

/// Snapshot of the chain clock a quote is evaluated at.
#[derive(Clone, Copy, Debug, PartialEq, Eq, Structural)]
pub struct Clock {
    pub slot: u64,
    pub epoch: u64,
    pub unix_timestamp: i64,
}

/// A pool accepts swaps when it is enabled and, for permissioned pools,
/// its activation point has passed.
pub open spec fn spec_activation_ok(p: LbPair, current_timestamp: u64, current_slot: u64) -> bool {
    &&& p.status == 0
    &&& p.pair_type <= 3
    &&& (p.pair_type == 1 ==> p.activation_type <= 1 && (if p.activation_type == 0 {
        current_slot
    } else {
        current_timestamp
    }) >= p.activation_point)
}

/// The exact outcome of the activation check, error kinds included.
pub open spec fn spec_validate_swap_activation(
    p: LbPair,
    current_timestamp: u64,
    current_slot: u64,
) -> Result<(), QuoteError> {
    if p.status > 1 {
        Err(QuoteError::TypeCastFailed)
    } else if p.status == 1 {
        Err(QuoteError::PairDisabled)
    } else if p.pair_type > 3 {
        Err(QuoteError::TypeCastFailed)
    } else if p.pair_type == 1 {
        if p.activation_type > 1 {
            Err(QuoteError::TypeCastFailed)
        } else if (if p.activation_type == 0 {
            current_slot
        } else {
            current_timestamp
        }) < p.activation_point {
            Err(QuoteError::PairDisabled)
        } else {
            Ok(())
        }
    } else {
        Ok(())
    }
}

/// Rejects quoting on pools that are disabled or not yet activated.
pub fn validate_swap_activation(
    lb_pair: &LbPair,
    current_timestamp: u64,
    current_slot: u64,
) -> (r: Result<(), QuoteError>)
    ensures
        r == spec_validate_swap_activation(*lb_pair, current_timestamp, current_slot),
        match r {
            Ok(()) => spec_activation_ok(*lb_pair, current_timestamp, current_slot),
            Err(e) => !spec_activation_ok(*lb_pair, current_timestamp, current_slot) && ((e
                == QuoteError::TypeCastFailed && (lb_pair.status > 1 || (lb_pair.status == 0
                && lb_pair.pair_type > 3) || (lb_pair.status == 0 && lb_pair.pair_type == 1
                && lb_pair.activation_type > 1))) || (e == QuoteError::PairDisabled && (
            lb_pair.status == 1 || (lb_pair.status == 0 && lb_pair.pair_type == 1
                && lb_pair.activation_type <= 1 && (if lb_pair.activation_type == 0 {
                current_slot
            } else {
                current_timestamp
            }) < lb_pair.activation_point)))),
        },
{
    let status = lb_pair.status()?;
    if status != PairStatus::Enabled {
        return Err(QuoteError::PairDisabled);
    }
    let pair_type = lb_pair.pair_type()?;
    if pair_type == PairType::Permission {
        let activation_type = lb_pair.activation_type()?;
        let current_point = match activation_type {
            ActivationType::Slot => current_slot,
            ActivationType::Timestamp => current_timestamp,
        };
        if current_point < lb_pair.activation_point {
            return Err(QuoteError::PairDisabled);
        }
    }
    Ok(())
}

/// Whether a bin-array index holds liquidity, consulting the internal
/// bitmap inside its range and the extension outside it.
pub open spec fn spec_has_liquidity(
    p: LbPair,
    ext: Option<&BinArrayBitmapExtension>,
    idx: int,
) -> bool {
    if -BIN_ARRAY_BITMAP_SIZE <= idx < BIN_ARRAY_BITMAP_SIZE {
        p.internal_bit(idx)
    } else {
        match ext {
            Option::Some(e) => ext_covers(idx) && ext_bit(*e, idx),
            Option::None => false,
        }
    }
}

/// No bin-array index strictly between the bounds holds liquidity.
pub open spec fn spec_no_liquidity_between(
    p: LbPair,
    ext: Option<&BinArrayBitmapExtension>,
    lo: int,
    hi: int,
) -> bool {
    forall|j: int| lo < j < hi ==> !spec_has_liquidity(p, ext, j)
}

/// Whether the search cannot proceed at a cursor: outside the internal
/// bitmap, with no extension to consult or outside the extension's range.
pub open spec fn spec_search_blocked(ext: Option<&BinArrayBitmapExtension>, c: int) -> bool {
    &&& !(-BIN_ARRAY_BITMAP_SIZE <= c < BIN_ARRAY_BITMAP_SIZE)
    &&& (match ext {
        Option::Some(_) => !ext_covers(c),
        Option::None => true,
    })
}

/// Nearest liquid bin-array index at or below `c`: the walk steps down
/// until it meets liquidity, a blocked cursor, or the end of all coverage.
pub open spec fn spec_nearest_liquid_down(
    p: LbPair,
    ext: Option<&BinArrayBitmapExtension>,
    c: int,
) -> Option<int>
    decreases c + BIN_ARRAY_BITMAP_SIZE + EXTENSION_BITMAP_BITS + 2,
{
    if c < -BIN_ARRAY_BITMAP_SIZE - EXTENSION_BITMAP_BITS - 1 {
        Option::None
    } else if spec_search_blocked(ext, c) {
        Option::None
    } else if spec_has_liquidity(p, ext, c) {
        Option::Some(c)
    } else {
        spec_nearest_liquid_down(p, ext, c - 1)
    }
}

/// Nearest liquid bin-array index at or above `c`, mirroring the downward
/// walk.
pub open spec fn spec_nearest_liquid_up(
    p: LbPair,
    ext: Option<&BinArrayBitmapExtension>,
    c: int,
) -> Option<int>
    decreases BIN_ARRAY_BITMAP_SIZE + EXTENSION_BITMAP_BITS + 1 - c,
{
    if c > BIN_ARRAY_BITMAP_SIZE + EXTENSION_BITMAP_BITS {
        Option::None
    } else if spec_search_blocked(ext, c) {
        Option::None
    } else if spec_has_liquidity(p, ext, c) {
        Option::Some(c)
    } else {
        spec_nearest_liquid_up(p, ext, c + 1)
    }
}

/// Nearest liquid bin-array index from `c` in the direction of the swap.
pub open spec fn spec_nearest_liquid(
    p: LbPair,
    ext: Option<&BinArrayBitmapExtension>,
    swap_for_y: bool,
    c: int,
) -> Option<int> {
    if swap_for_y {
        spec_nearest_liquid_down(p, ext, c)
    } else {
        spec_nearest_liquid_up(p, ext, c)
    }
}

/// A stretch with neither liquidity nor blockage does not change what the
/// downward walk finds.
proof fn lemma_nearest_down_skip(
    p: LbPair,
    ext: Option<&BinArrayBitmapExtension>,
    c: int,
    c2: int,
)
    requires
        c2 <= c,
        forall|j: int| c2 < j <= c ==> !spec_has_liquidity(p, ext, j),
        forall|j: int| c2 < j <= c ==> !spec_search_blocked(ext, j),
    ensures
        spec_nearest_liquid_down(p, ext, c) == spec_nearest_liquid_down(p, ext, c2),
    decreases c - c2,
{
    if c > c2 {
        assert(!spec_search_blocked(ext, c));
        assert(c >= -BIN_ARRAY_BITMAP_SIZE - EXTENSION_BITMAP_BITS);
        lemma_nearest_down_skip(p, ext, c - 1, c2);
    }
}

/// A stretch with neither liquidity nor blockage does not change what the
/// upward walk finds.
proof fn lemma_nearest_up_skip(p: LbPair, ext: Option<&BinArrayBitmapExtension>, c: int, c2: int)
    requires
        c <= c2,
        forall|j: int| c <= j < c2 ==> !spec_has_liquidity(p, ext, j),
        forall|j: int| c <= j < c2 ==> !spec_search_blocked(ext, j),
    ensures
        spec_nearest_liquid_up(p, ext, c) == spec_nearest_liquid_up(p, ext, c2),
    decreases c2 - c,
{
    if c < c2 {
        assert(!spec_search_blocked(ext, c));
        assert(c <= BIN_ARRAY_BITMAP_SIZE + EXTENSION_BITMAP_BITS);
        lemma_nearest_up_skip(p, ext, c + 1, c2);
    }
}

/// What the walk finds is liquid and lies on its side of the start.
pub proof fn lemma_nearest_found(
    p: LbPair,
    ext: Option<&BinArrayBitmapExtension>,
    swap_for_y: bool,
    c: int,
    t: int,
)
    requires
        spec_nearest_liquid(p, ext, swap_for_y, c) == Option::Some(t),
    ensures
        spec_has_liquidity(p, ext, t),
        swap_for_y ==> t <= c,
        !swap_for_y ==> t >= c,
    decreases (if swap_for_y {
        c + BIN_ARRAY_BITMAP_SIZE + EXTENSION_BITMAP_BITS + 2
    } else {
        BIN_ARRAY_BITMAP_SIZE + EXTENSION_BITMAP_BITS + 1 - c
    }),
{
    if swap_for_y {
        if !(c < -BIN_ARRAY_BITMAP_SIZE - EXTENSION_BITMAP_BITS - 1) && !spec_search_blocked(
            ext,
            c,
        ) && !spec_has_liquidity(p, ext, c) {
            lemma_nearest_found(p, ext, swap_for_y, c - 1, t);
        }
    } else {
        if !(c > BIN_ARRAY_BITMAP_SIZE + EXTENSION_BITMAP_BITS) && !spec_search_blocked(ext, c)
            && !spec_has_liquidity(p, ext, c) {
            lemma_nearest_found(p, ext, swap_for_y, c + 1, t);
        }
    }
}

/// Collects up to `take_count` bin-array indices with liquidity in search
/// order, starting from the active bin's array: descending for a swap for
/// Y, ascending otherwise. The indices come nearest first with no liquid
/// index skipped, each is what the walk finds from one past its
/// predecessor, and fewer than `take_count` come back only when the walk is
/// exhausted past the last one.
pub fn get_bin_array_indices_for_swap(
    lb_pair: &LbPair,
    bitmap_extension: Option<&BinArrayBitmapExtension>,
    swap_for_y: bool,
    take_count: u8,
) -> (r: Result<Vec<i32>, QuoteError>)
    ensures
        match r {
            Ok(v) => {
                let start0 = spec_bin_id_to_bin_array_index(lb_pair.active_id as int);
                &&& v@.len() <= take_count
                &&& (forall|k: int|
                    0 <= k < v@.len() ==> spec_has_liquidity(
                        *lb_pair,
                        bitmap_extension,
                        #[trigger] v@[k] as int,
                    ))
                &&& (swap_for_y ==> (forall|k: int|
                    0 <= k < v@.len() - 1 ==> #[trigger] v@[k + 1] < v@[k]) && (v@.len() > 0
                    ==> v@[0] <= start0 && spec_no_liquidity_between(
                    *lb_pair,
                    bitmap_extension,
                    v@[0] as int,
                    start0 + 1,
                )) && (forall|k: int|
                    0 <= k < v@.len() - 1 ==> spec_no_liquidity_between(
                        *lb_pair,
                        bitmap_extension,
                        #[trigger] v@[k + 1] as int,
                        v@[k] as int,
                    )))
                &&& (!swap_for_y ==> (forall|k: int|
                    0 <= k < v@.len() - 1 ==> #[trigger] v@[k + 1] > v@[k]) && (v@.len() > 0
                    ==> v@[0] >= start0 && spec_no_liquidity_between(
                    *lb_pair,
                    bitmap_extension,
                    start0 - 1,
                    v@[0] as int,
                )) && (forall|k: int|
                    0 <= k < v@.len() - 1 ==> spec_no_liquidity_between(
                        *lb_pair,
                        bitmap_extension,
                        #[trigger] v@[k] as int,
                        v@[k + 1] as int,
                    )))
                &&& (take_count > 0 ==> (match spec_nearest_liquid(
                    *lb_pair,
                    bitmap_extension,
                    swap_for_y,
                    start0,
                ) {
                    Option::Some(t) => v@.len() > 0 && v@[0] == t,
                    Option::None => v@.len() == 0,
                }))
                &&& (forall|k: int|
                    1 <= k < v@.len() ==> spec_nearest_liquid(
                        *lb_pair,
                        bitmap_extension,
                        swap_for_y,
                        v@[k - 1] + (if swap_for_y {
                            -1int
                        } else {
                            1int
                        }),
                    ) == Option::Some((#[trigger] v@[k]) as int))
                &&& (v@.len() < take_count ==> spec_nearest_liquid(
                    *lb_pair,
                    bitmap_extension,
                    swap_for_y,
                    (if v@.len() == 0 {
                        start0
                    } else {
                        v@[v@.len() - 1] + (if swap_for_y {
                            -1int
                        } else {
                            1int
                        })
                    }),
                ) is None)
            },
            Err(_) => false,
        },
{
    let mut start_bin_array_idx = BinArray::bin_id_to_bin_array_index(lb_pair.active_id);
    let ghost start0: int = start_bin_array_idx as int;
    let mut bin_array_idx: Vec<i32> = Vec::new();
    let mut done = false;
    while !done && bin_array_idx.len() < take_count as usize
        invariant
            bin_array_idx@.len() <= take_count,
            forall|k: int|
                0 <= k < bin_array_idx@.len() ==> spec_has_liquidity(
                    *lb_pair,
                    bitmap_extension,
                    #[trigger] bin_array_idx@[k] as int,
                ),
            done ==> spec_search_blocked(bitmap_extension, start_bin_array_idx as int),
            forall|k: int|
                1 <= k < bin_array_idx@.len() ==> spec_nearest_liquid(
                    *lb_pair,
                    bitmap_extension,
                    swap_for_y,
                    bin_array_idx@[k - 1] + (if swap_for_y {
                        -1int
                    } else {
                        1int
                    }),
                ) == Option::Some((#[trigger] bin_array_idx@[k]) as int),
            bin_array_idx@.len() > 0 ==> spec_nearest_liquid(
                *lb_pair,
                bitmap_extension,
                swap_for_y,
                start0,
            ) == Option::Some(bin_array_idx@[0] as int) && spec_nearest_liquid(
                *lb_pair,
                bitmap_extension,
                swap_for_y,
                bin_array_idx@[bin_array_idx@.len() - 1] + (if swap_for_y {
                    -1int
                } else {
                    1int
                }),
            ) == spec_nearest_liquid(
                *lb_pair,
                bitmap_extension,
                swap_for_y,
                start_bin_array_idx as int,
            ),
            bin_array_idx@.len() == 0 ==> spec_nearest_liquid(
                *lb_pair,
                bitmap_extension,
                swap_for_y,
                start0,
            ) == spec_nearest_liquid(
                *lb_pair,
                bitmap_extension,
                swap_for_y,
                start_bin_array_idx as int,
            ),
            swap_for_y ==> {
                &&& (forall|k: int|
                    0 <= k < bin_array_idx@.len() - 1 ==> #[trigger] bin_array_idx@[k + 1]
                        < bin_array_idx@[k])
                &&& (forall|k: int|
                    0 <= k < bin_array_idx@.len() - 1 ==> spec_no_liquidity_between(
                        *lb_pair,
                        bitmap_extension,
                        #[trigger] bin_array_idx@[k + 1] as int,
                        bin_array_idx@[k] as int,
                    ))
                &&& (bin_array_idx@.len() > 0 ==> bin_array_idx@[0] <= start0
                    && spec_no_liquidity_between(
                    *lb_pair,
                    bitmap_extension,
                    bin_array_idx@[0] as int,
                    start0 + 1,
                ) && start_bin_array_idx < bin_array_idx@[bin_array_idx@.len() - 1]
                    && spec_no_liquidity_between(
                    *lb_pair,
                    bitmap_extension,
                    start_bin_array_idx as int,
                    bin_array_idx@[bin_array_idx@.len() - 1] as int,
                ))
                &&& (bin_array_idx@.len() == 0 ==> start_bin_array_idx <= start0
                    && spec_no_liquidity_between(
                    *lb_pair,
                    bitmap_extension,
                    start_bin_array_idx as int,
                    start0 + 1,
                ))
            },
            !swap_for_y ==> {
                &&& (forall|k: int|
                    0 <= k < bin_array_idx@.len() - 1 ==> #[trigger] bin_array_idx@[k + 1]
                        > bin_array_idx@[k])
                &&& (forall|k: int|
                    0 <= k < bin_array_idx@.len() - 1 ==> spec_no_liquidity_between(
                        *lb_pair,
                        bitmap_extension,
                        #[trigger] bin_array_idx@[k] as int,
                        bin_array_idx@[k + 1] as int,
                    ))
                &&& (bin_array_idx@.len() > 0 ==> bin_array_idx@[0] >= start0
                    && spec_no_liquidity_between(
                    *lb_pair,
                    bitmap_extension,
                    start0 - 1,
                    bin_array_idx@[0] as int,
                ) && start_bin_array_idx > bin_array_idx@[bin_array_idx@.len() - 1]
                    && spec_no_liquidity_between(
                    *lb_pair,
                    bitmap_extension,
                    bin_array_idx@[bin_array_idx@.len() - 1] as int,
                    start_bin_array_idx as int,
                ))
                &&& (bin_array_idx@.len() == 0 ==> start_bin_array_idx >= start0
                    && spec_no_liquidity_between(
                    *lb_pair,
                    bitmap_extension,
                    start0 - 1,
                    start_bin_array_idx as int,
                ))
            },
        decreases (if done {
            0int
        } else {
            1int
        }), (if swap_for_y {
            2_200_000_000int + start_bin_array_idx
        } else {
            2_200_000_000int - start_bin_array_idx
        }),
    {
        let increment: i32 = if swap_for_y {
            -1
        } else {
            1
        };
        let ghost c: int = start_bin_array_idx as int;
        let ghost old_seq = bin_array_idx@;
        let ghost front: int = if swap_for_y {
            if old_seq.len() == 0 {
                start0 + 1
            } else {
                old_seq[old_seq.len() - 1] as int
            }
        } else {
            if old_seq.len() == 0 {
                start0 - 1
            } else {
                old_seq[old_seq.len() - 1] as int
            }
        };
        if start_bin_array_idx > BIN_ARRAY_BITMAP_SIZE - 1
            || start_bin_array_idx < -BIN_ARRAY_BITMAP_SIZE {
            // Outside the internal bitmap: consult the extension, if any.
            match bitmap_extension {
                Option::Some(extension) => {
                    match extension.next_bin_array_index_with_liquidity(
                        swap_for_y,
                        start_bin_array_idx,
                    ) {
                        Ok((next_bin_array_idx, has_liquidity)) => {
                            proof {
                                let a = next_bin_array_idx as int;
                                if swap_for_y {
                                    assert forall|j: int|
                                        next_bin_array_idx < j < front implies !spec_has_liquidity(
                                        *lb_pair,
                                        bitmap_extension,
                                        j,
                                    ) by {
                                        if j <= c {
                                            assert(!crate::bitmap::ext_bit(*extension, j));
                                        }
                                    }
                                    assert forall|j: int|
                                        a < j <= c implies !spec_has_liquidity(
                                        *lb_pair,
                                        bitmap_extension,
                                        j,
                                    ) && !spec_search_blocked(bitmap_extension, j) by {
                                        assert(!crate::bitmap::ext_bit(*extension, j));
                                    }
                                    lemma_nearest_down_skip(*lb_pair, bitmap_extension, c, a);
                                } else {
                                    assert forall|j: int|
                                        front < j < next_bin_array_idx implies !spec_has_liquidity(
                                        *lb_pair,
                                        bitmap_extension,
                                        j,
                                    ) by {
                                        if j >= c {
                                            assert(!crate::bitmap::ext_bit(*extension, j));
                                        }
                                    }
                                    assert forall|j: int|
                                        c <= j < a implies !spec_has_liquidity(
                                        *lb_pair,
                                        bitmap_extension,
                                        j,
                                    ) && !spec_search_blocked(bitmap_extension, j) by {
                                        assert(!crate::bitmap::ext_bit(*extension, j));
                                    }
                                    lemma_nearest_up_skip(*lb_pair, bitmap_extension, c, a);
                                }
                                if has_liquidity {
                                    assert(spec_has_liquidity(*lb_pair, bitmap_extension, a));
                                    assert(!spec_search_blocked(bitmap_extension, a));
                                }
                            }
                            if has_liquidity {
                                bin_array_idx.push(next_bin_array_idx);
                                start_bin_array_idx = next_bin_array_idx + increment;
                                proof {
                                    assert(bin_array_idx@ == old_seq.push(next_bin_array_idx));
                                }
                            } else {
                                start_bin_array_idx = next_bin_array_idx;
                            }
                        },
                        Err(_) => {
                            // Out of the extension's search range: the walk
                            // cannot continue in this direction.
                            done = true;
                        },
                    }
                },
                Option::None => {
                    done = true;
                },
            }
        } else {
            let (next_bin_array_idx, has_liquidity) =
                lb_pair.next_bin_array_index_with_liquidity_internal(
                swap_for_y,
                start_bin_array_idx,
            );
            proof {
                let a = next_bin_array_idx as int;
                if swap_for_y {
                    assert forall|j: int|
                        next_bin_array_idx < j < front implies !spec_has_liquidity(
                        *lb_pair,
                        bitmap_extension,
                        j,
                    ) by {
                        if j <= c {
                            assert(!lb_pair.internal_bit(j));
                        }
                    }
                    assert forall|j: int|
                        a < j <= c implies !spec_has_liquidity(*lb_pair, bitmap_extension, j)
                            && !spec_search_blocked(bitmap_extension, j) by {
                        assert(!lb_pair.internal_bit(j));
                    }
                    lemma_nearest_down_skip(*lb_pair, bitmap_extension, c, a);
                } else {
                    assert forall|j: int|
                        front < j < next_bin_array_idx implies !spec_has_liquidity(
                        *lb_pair,
                        bitmap_extension,
                        j,
                    ) by {
                        if j >= c {
                            assert(!lb_pair.internal_bit(j));
                        }
                    }
                    assert forall|j: int|
                        c <= j < a implies !spec_has_liquidity(*lb_pair, bitmap_extension, j)
                            && !spec_search_blocked(bitmap_extension, j) by {
                        assert(!lb_pair.internal_bit(j));
                    }
                    lemma_nearest_up_skip(*lb_pair, bitmap_extension, c, a);
                }
                if has_liquidity {
                    assert(spec_has_liquidity(*lb_pair, bitmap_extension, a));
                    assert(!spec_search_blocked(bitmap_extension, a));
                }
            }
            if has_liquidity {
                bin_array_idx.push(next_bin_array_idx);
                start_bin_array_idx = next_bin_array_idx + increment;
                proof {
                    assert(bin_array_idx@ == old_seq.push(next_bin_array_idx));
                }
            } else {
                // Sentinel one step past the internal bitmap: the opposite
                // bitmap is consulted on the next pass.
                start_bin_array_idx = next_bin_array_idx;
            }
        }
    }
    proof {
        if done {
            if swap_for_y {
                assert(spec_nearest_liquid_down(
                    *lb_pair,
                    bitmap_extension,
                    start_bin_array_idx as int,
                ) is None);
            } else {
                assert(spec_nearest_liquid_up(
                    *lb_pair,
                    bitmap_extension,
                    start_bin_array_idx as int,
                ) is None);
            }
        }
    }
    Ok(bin_array_idx)
}

/// Position of the first bin array with the given index in the list, if
/// any.
pub open spec fn spec_find_bin_array(arrays: Seq<BinArray>, index: int, k: nat) -> Option<int>
    decreases arrays.len() - k,
{
    if k >= arrays.len() {
        Option::None
    } else if arrays[k as int].index == index {
        Option::Some(k as int)
    } else {
        spec_find_bin_array(arrays, index, k + 1)
    }
}

/// Position of the bin array with the given index in the supplied list:
/// the first match.
fn find_bin_array(bin_arrays: &Vec<BinArray>, index: i32) -> (r: Option<usize>)
    ensures
        match r {
            Some(p) => spec_find_bin_array(bin_arrays@, index as int, 0) == Option::Some(p as int)
                && p < bin_arrays@.len() && bin_arrays@[p as int].index == index as i64,
            None => spec_find_bin_array(bin_arrays@, index as int, 0) is None && (forall|k: int|
                0 <= k < bin_arrays@.len() ==> (#[trigger] bin_arrays@[k]).index
                    != index as i64),
        },
{
    let mut k: usize = 0;
    let n = bin_arrays.len();
    while k < n
        invariant
            k <= n,
            n == bin_arrays@.len(),
            forall|j: int| 0 <= j < k ==> (#[trigger] bin_arrays@[j]).index != index as i64,
            spec_find_bin_array(bin_arrays@, index as int, 0) == spec_find_bin_array(
                bin_arrays@,
                index as int,
                k as nat,
            ),
        decreases n - k,
    {
        if bin_arrays[k].index == index as i64 {
            return Some(k);
        }
        k = k + 1;
    }
    None
}

/// The active bin jumps to the near edge of a liquid bin array found past a
/// gap; the jump strictly advances in the direction of the swap.
proof fn lemma_jump_progress(active_id: int, idx: int, swap_for_y: bool)
    requires
        swap_for_y ==> idx <= active_id / BINS_PER_ARRAY as int,
        !swap_for_y ==> idx >= active_id / BINS_PER_ARRAY as int,
        !(idx * BINS_PER_ARRAY <= active_id <= idx * BINS_PER_ARRAY + (BINS_PER_ARRAY - 1)),
    ensures
        swap_for_y ==> idx * BINS_PER_ARRAY + (BINS_PER_ARRAY - 1) < active_id,
        !swap_for_y ==> idx * BINS_PER_ARRAY > active_id,
{
    let w = BINS_PER_ARRAY as int;
    let f = active_id / w;
    vstd::arithmetic::div_mod::lemma_fundamental_div_mod(active_id, w);
    vstd::arithmetic::div_mod::lemma_mod_division_less_than_divisor(active_id, w);
    if idx == f {
        assert(idx * w == w * f) by (nonlinear_arith)
            requires
                idx == f,
        ;
        assert(false);
    }
    if swap_for_y {
        vstd::arithmetic::mul::lemma_mul_inequality(idx + 1, f, w);
        assert((idx + 1) * w == idx * w + w && f * w == w * f) by (nonlinear_arith);
    } else {
        vstd::arithmetic::mul::lemma_mul_inequality(f + 1, idx, w);
        assert((f + 1) * w == f * w + w && f * w == w * f) by (nonlinear_arith);
    }
}

/// A bin array found by `spec_find_bin_array` carries the searched index.
proof fn lemma_find_bin_array_index(arrays: Seq<BinArray>, index: int, k: nat, p: int)
    requires
        spec_find_bin_array(arrays, index, k) == Option::Some(p),
    ensures
        k <= p < arrays.len(),
        arrays[p].index == index,
    decreases arrays.len() - k,
{
    if k < arrays.len() && arrays[k as int].index != index {
        lemma_find_bin_array_index(arrays, index, k + 1, p);
    }
}

/// One-bin-per-pass walk of an exact-in quote, mirroring the executable
/// loop exactly: find the nearest liquid bin array, jump to its near edge
/// when the active bin lies outside it, otherwise update the volatility
/// accumulator and consume or step over the active bin.
pub open spec fn spec_quote_in_loop(
    arrays: Seq<BinArray>,
    ext: Option<&BinArrayBitmapExtension>,
    swap_for_y: bool,
    pool: LbPair,
    amount_left: u64,
    total_out: u64,
    total_fee: u64,
) -> Result<(u64, u64), QuoteError>
    decreases amount_left, (if swap_for_y {
        pool.active_id + 0x8000_0000
    } else {
        0x8000_0000 - pool.active_id
    }), 2int,
    via spec_quote_in_loop_decreases
{
    if amount_left == 0 {
        Ok((total_out, total_fee))
    } else {
        let start0 = spec_bin_id_to_bin_array_index(pool.active_id as int);
        match spec_nearest_liquid(pool, ext, swap_for_y, start0) {
            Option::None => Err(QuoteError::PoolOutOfLiquidity),
            Option::Some(idx) => match spec_find_bin_array(arrays, idx, 0) {
                Option::None => Err(QuoteError::BinArrayNotFound),
                Option::Some(p) => {
                    let arr = arrays[p];
                    if !(arr.spec_lower_bin_id() <= pool.active_id <= arr.spec_upper_bin_id()) {
                        let target: int = if swap_for_y {
                            arr.spec_upper_bin_id()
                        } else {
                            arr.spec_lower_bin_id()
                        };
                        spec_quote_in_loop(
                            arrays,
                            ext,
                            swap_for_y,
                            LbPair { active_id: target as i32, ..pool },
                            amount_left,
                            total_out,
                            total_fee,
                        )
                    } else {
                        let pool2 = spec_pool_after_vac(pool);
                        let bin = arr.bins@[pool.active_id - arr.spec_lower_bin_id()];
                        if bin.price == 0 && !spec_price_ok(pool.active_id as int, pool.bin_step) {
                            Err(QuoteError::Overflow)
                        } else {
                            let price: u128 = if bin.price != 0 {
                                bin.price
                            } else {
                                spec_price_from_id(pool.active_id as int, pool.bin_step) as u128
                            };
                            if price == 0 {
                                // never reached in execution: a computed price is
                                // at least one
                                Err(QuoteError::Overflow)
                            } else if (if swap_for_y {
                                bin.amount_y == 0
                            } else {
                                bin.amount_x == 0
                            }) {
                                spec_quote_in_step_over(
                                    arrays,
                                    ext,
                                    swap_for_y,
                                    pool2,
                                    amount_left,
                                    total_out,
                                    total_fee,
                                )
                            } else if !spec_swap_ok(
                                bin,
                                amount_left,
                                price,
                                pool2,
                                swap_for_y,
                                Option::None,
                            ) {
                                Err(QuoteError::Overflow)
                            } else {
                                let g = spec_swap_gross(bin, amount_left, price, pool2, swap_for_y);
                                if total_out + g.1 > u64::MAX {
                                    Err(QuoteError::Overflow)
                                } else if total_fee + g.2 > u64::MAX {
                                    Err(QuoteError::Overflow)
                                } else if g.0 >= amount_left {
                                    Ok(((total_out + g.1) as u64, (total_fee + g.2) as u64))
                                } else {
                                    spec_quote_in_step_over(
                                        arrays,
                                        ext,
                                        swap_for_y,
                                        pool2,
                                        (amount_left - g.0) as u64,
                                        (total_out + g.1) as u64,
                                        (total_fee + g.2) as u64,
                                    )
                                }
                            }
                        }
                    }
                }
            },
        }
    }
}

/// Advances the active bin one step in the direction of the swap, then
/// resumes the walk; fails exactly as `advance_active_bin` does.
pub open spec fn spec_quote_in_step_over(
    arrays: Seq<BinArray>,
    ext: Option<&BinArrayBitmapExtension>,
    swap_for_y: bool,
    pool: LbPair,
    amount_left: u64,
    total_out: u64,
    total_fee: u64,
) -> Result<(u64, u64), QuoteError>
    decreases amount_left, (if swap_for_y {
        pool.active_id + 0x8000_0000
    } else {
        0x8000_0000 - pool.active_id
    }), 1int,
{
    let next: int = if swap_for_y {
        pool.active_id - 1
    } else {
        pool.active_id + 1
    };
    if !(i32::MIN <= next <= i32::MAX) {
        Err(QuoteError::Overflow)
    } else if !(MIN_BIN_ID <= next <= MAX_BIN_ID) {
        Err(QuoteError::InsufficientLiquidity)
    } else {
        spec_quote_in_loop(
            arrays,
            ext,
            swap_for_y,
            LbPair { active_id: next as i32, ..pool },
            amount_left,
            total_out,
            total_fee,
        )
    }
}

#[via_fn]
proof fn spec_quote_in_loop_decreases(
    arrays: Seq<BinArray>,
    ext: Option<&BinArrayBitmapExtension>,
    swap_for_y: bool,
    pool: LbPair,
    amount_left: u64,
    total_out: u64,
    total_fee: u64,
) {
    if amount_left != 0 {
        let start0 = spec_bin_id_to_bin_array_index(pool.active_id as int);
        match spec_nearest_liquid(pool, ext, swap_for_y, start0) {
            Option::None => (),
            Option::Some(idx) => {
                lemma_nearest_found(pool, ext, swap_for_y, start0, idx);
                match spec_find_bin_array(arrays, idx, 0) {
                    Option::None => (),
                    Option::Some(p) => {
                        lemma_find_bin_array_index(arrays, idx, 0, p);
                        let arr = arrays[p];
                        if !(arr.spec_lower_bin_id() <= pool.active_id
                            <= arr.spec_upper_bin_id()) {
                            lemma_jump_progress(pool.active_id as int, idx, swap_for_y);
                        } else {
                            let pool2 = spec_pool_after_vac(pool);
                            let bin = arr.bins@[pool.active_id - arr.spec_lower_bin_id()];
                            if !(bin.price == 0 && !spec_price_ok(
                                pool.active_id as int,
                                pool.bin_step,
                            )) {
                                let price: u128 = if bin.price != 0 {
                                    bin.price
                                } else {
                                    spec_price_from_id(
                                        pool.active_id as int,
                                        pool.bin_step,
                                    ) as u128
                                };
                                if price != 0 && !(if swap_for_y {
                                    bin.amount_y == 0
                                } else {
                                    bin.amount_x == 0
                                }) && spec_swap_ok(
                                    bin,
                                    amount_left,
                                    price,
                                    pool2,
                                    swap_for_y,
                                    Option::None,
                                ) {
                                    crate::bin::lemma_swap_consumes(
                                        bin,
                                        amount_left,
                                        price,
                                        pool2,
                                        swap_for_y,
                                    );
                                }
                            }
                        }
                    },
                }
            },
        }
    }
}

/// The out-side finish of an exact-in quote: the walk's totals with the
/// output adjusted by the out mint's transfer fee.
pub open spec fn spec_finish_in(mint_out: MintInfo, epoch: u64, w: Result<(u64, u64), QuoteError>) -> Result<
    SwapExactInQuote,
    QuoteError,
> {
    match w {
        Err(e) => Err(e),
        Ok((total_out, total_fee)) => {
            let out_excl = crate::token::spec_transfer_fee_excluded(mint_out, total_out, epoch);
            if out_excl < 0 {
                Err(QuoteError::Overflow)
            } else {
                Ok(SwapExactInQuote { amount_out: out_excl as u64, fee: total_fee })
            }
        },
    }
}

/// The exact outcome of an exact-in quote, error kinds included.
pub open spec fn spec_quote_exact_in(
    lb_pair: LbPair,
    amount_in: u64,
    swap_for_y: bool,
    arrays: Seq<BinArray>,
    ext: Option<&BinArrayBitmapExtension>,
    clock: Clock,
    mint_x: MintInfo,
    mint_y: MintInfo,
) -> Result<SwapExactInQuote, QuoteError> {
    if clock.unix_timestamp < 0 {
        Err(QuoteError::Overflow)
    } else {
        let ts = clock.unix_timestamp as u64;
        match spec_validate_swap_activation(lb_pair, ts, clock.slot) {
            Err(e) => Err(e),
            Ok(u) => {
                if !lb_pair.spec_update_references_ok(clock.unix_timestamp) {
                    Err(QuoteError::Overflow)
                } else {
                    let pool = lb_pair.spec_update_references(clock.unix_timestamp);
                    let in_mint = if swap_for_y {
                        mint_x
                    } else {
                        mint_y
                    };
                    let out_mint = if swap_for_y {
                        mint_y
                    } else {
                        mint_x
                    };
                    let excl = crate::token::spec_transfer_fee_excluded(
                        in_mint,
                        amount_in,
                        clock.epoch,
                    );
                    if excl < 0 {
                        Err(QuoteError::Overflow)
                    } else {
                        spec_finish_in(
                            out_mint,
                            clock.epoch,
                            spec_quote_in_loop(arrays, ext, swap_for_y, pool, excl as u64, 0, 0),
                        )
                    }
                }
            },
        }
    }
}

/// The pool as the volatility tracker leaves it after one bin traversal.
pub open spec fn spec_pool_after_vac(pool: LbPair) -> LbPair {
    LbPair {
        v_parameters: VariableParameters {
            volatility_accumulator: pool.spec_updated_volatility_accumulator() as u32,
            ..pool.v_parameters
        },
        ..pool
    }
}

/// Exact-in quote: how much comes out, and at what fee, when `amount_in`
/// is paid in. Works on a local copy of the pool snapshot; nothing the
/// caller owns is changed. The walk advances one bin per pass: the
/// navigator names the nearest liquid bin array from the current active
/// bin, and the active bin is consumed, stepped over, or jumped to that
/// array's near edge. The result equals `spec_quote_exact_in` exactly,
/// error kinds included. A negative clock timestamp is rejected outright
/// as `Overflow`, by choice: chain timestamps are non-negative, and
/// rejecting early keeps the activation comparison and the reference
/// update on one signedness.
#[verifier::rlimit(100)]
pub fn quote_exact_in(
    lb_pair: &LbPair,
    amount_in: u64,
    swap_for_y: bool,
    bin_arrays: &Vec<BinArray>,
    bitmap_extension: Option<&BinArrayBitmapExtension>,
    clock: &Clock,
    mint_x: &MintInfo,
    mint_y: &MintInfo,
) -> (r: Result<SwapExactInQuote, QuoteError>)
    requires
        forall|k: int| 0 <= k < bin_arrays@.len() ==> (#[trigger] bin_arrays@[k]).wf(),
    ensures
        r == spec_quote_exact_in(
            *lb_pair,
            amount_in,
            swap_for_y,
            bin_arrays@,
            bitmap_extension,
            *clock,
            *mint_x,
            *mint_y,
        ),
        (r matches Ok(q) ==> q.fee <= amount_in),
{
    let ghost expected = spec_quote_exact_in(
        *lb_pair,
        amount_in,
        swap_for_y,
        bin_arrays@,
        bitmap_extension,
        *clock,
        *mint_x,
        *mint_y,
    );
    let ghost out_mint_spec: MintInfo = if swap_for_y {
        *mint_y
    } else {
        *mint_x
    };
    if clock.unix_timestamp < 0 {
        return Err(QuoteError::Overflow);
    }
    let current_timestamp = clock.unix_timestamp as u64;
    validate_swap_activation(lb_pair, current_timestamp, clock.slot)?;
    let mut pool = *lb_pair;
    pool.update_references(clock.unix_timestamp)?;
    let (in_mint, out_mint) = if swap_for_y {
        (mint_x, mint_y)
    } else {
        (mint_y, mint_x)
    };
    let transfer_fee_excluded_amount_in = transfer_fee_excluded_amount(
        in_mint,
        amount_in,
        clock.epoch,
    )?;
    let mut amount_left = transfer_fee_excluded_amount_in;
    let mut total_amount_out: u64 = 0;
    let mut total_fee: u64 = 0;
    while amount_left > 0
        invariant
            clock.unix_timestamp >= 0,
            spec_activation_ok(*lb_pair, clock.unix_timestamp as u64, clock.slot),
            forall|k: int| 0 <= k < bin_arrays@.len() ==> (#[trigger] bin_arrays@[k]).wf(),
            total_fee as int + amount_left as int <= transfer_fee_excluded_amount_in as int,
            transfer_fee_excluded_amount_in <= amount_in,
            out_mint_spec == (if swap_for_y {
                *mint_y
            } else {
                *mint_x
            }),
            expected == spec_quote_exact_in(
                *lb_pair,
                amount_in,
                swap_for_y,
                bin_arrays@,
                bitmap_extension,
                *clock,
                *mint_x,
                *mint_y,
            ),
            expected == spec_finish_in(
                out_mint_spec,
                clock.epoch,
                spec_quote_in_loop(
                    bin_arrays@,
                    bitmap_extension,
                    swap_for_y,
                    pool,
                    amount_left,
                    total_amount_out,
                    total_fee,
                ),
            ),
        decreases amount_left, (if swap_for_y {
            pool.active_id as int + 0x8000_0000
        } else {
            0x8000_0000int - pool.active_id as int
        }),
    {
        let ghost pool_at_entry = pool;
        let ghost w0: Result<(u64, u64), QuoteError> = spec_quote_in_loop(
            bin_arrays@,
            bitmap_extension,
            swap_for_y,
            pool,
            amount_left,
            total_amount_out,
            total_fee,
        );
        let ghost start0g: int = spec_bin_id_to_bin_array_index(pool.active_id as int);
        let indices = get_bin_array_indices_for_swap(&pool, bitmap_extension, swap_for_y, 1)?;
        if indices.len() == 0 {
            proof {
                assert(spec_nearest_liquid(pool, bitmap_extension, swap_for_y, start0g)
                    is None);
                assert(w0 == Err::<(u64, u64), QuoteError>(QuoteError::PoolOutOfLiquidity));
            }
            return Err(QuoteError::PoolOutOfLiquidity);
        }
        let active_bin_array_idx = indices[0];
        proof {
            assert(spec_nearest_liquid(pool, bitmap_extension, swap_for_y, start0g)
                == Option::Some(active_bin_array_idx as int));
        }
        let pos = match find_bin_array(bin_arrays, active_bin_array_idx) {
            Some(p) => p,
            None => {
                proof {
                    assert(w0 == Err::<(u64, u64), QuoteError>(QuoteError::BinArrayNotFound));
                }
                return Err(QuoteError::BinArrayNotFound);
            },
        };
        let active_bin_array = &bin_arrays[pos];
        if !active_bin_array.is_bin_id_within_range(pool.active_id) {
            // The nearest liquidity sits past a stretch of empty bin
            // arrays: move the active bin to the found array's near edge.
            proof {
                lemma_jump_progress(
                    pool.active_id as int,
                    active_bin_array.index as int,
                    swap_for_y,
                );
            }
            let lower = (active_bin_array.index * BINS_PER_ARRAY as i64) as i32;
            pool.active_id = if swap_for_y {
                lower + (BINS_PER_ARRAY - 1)
            } else {
                lower
            };
            proof {
                assert(w0 == spec_quote_in_loop(
                    bin_arrays@,
                    bitmap_extension,
                    swap_for_y,
                    pool,
                    amount_left,
                    total_amount_out,
                    total_fee,
                ));
            }
        } else {
            let ghost bin_g = active_bin_array.bins@[pool.active_id - active_bin_array.spec_lower_bin_id()];
            match pool.update_volatility_accumulator() {
                Ok(()) => (),
                Err(e) => {
                    return Err(e);
                },
            }
            proof {
                assert(pool == spec_pool_after_vac(pool_at_entry));
            }
            let bin_pos = active_bin_array.bin_position(pool.active_id);
            let mut active_bin = active_bin_array.bins[bin_pos];
            let price = match active_bin.get_or_store_bin_price(pool.active_id, pool.bin_step) {
                Ok(v) => v,
                Err(e) => {
                    proof {
                        assert(w0 == Err::<(u64, u64), QuoteError>(QuoteError::Overflow));
                    }
                    return Err(e);
                },
            };
            proof {
                assert(active_bin.amount_x == bin_g.amount_x && active_bin.amount_y
                    == bin_g.amount_y);
            }
            if !active_bin.is_empty(!swap_for_y) {
                let ghost bin0 = active_bin;
                proof {
                    assert(spec_swap_ok(
                        bin0,
                        amount_left,
                        price,
                        pool,
                        swap_for_y,
                        Option::None,
                    ) == spec_swap_ok(bin_g, amount_left, price, pool, swap_for_y, Option::None));
                    assert(spec_swap_gross(bin0, amount_left, price, pool, swap_for_y)
                        == spec_swap_gross(bin_g, amount_left, price, pool, swap_for_y));
                }
                let res = match active_bin.swap(amount_left, price, swap_for_y, &pool, None) {
                    Ok(v) => v,
                    Err(e) => {
                        proof {
                            assert(w0 == Err::<(u64, u64), QuoteError>(QuoteError::Overflow));
                        }
                        return Err(e);
                    },
                };
                proof {
                    crate::bin::lemma_swap_consumes(bin0, amount_left, price, pool, swap_for_y);
                }
                amount_left = amount_left - res.amount_in_with_fees;
                if total_amount_out > u64::MAX - res.amount_out {
                    proof {
                        assert(w0 == Err::<(u64, u64), QuoteError>(QuoteError::Overflow));
                    }
                    return Err(QuoteError::Overflow);
                }
                total_amount_out = total_amount_out + res.amount_out;
                if total_fee > u64::MAX - res.fee {
                    proof {
                        assert(w0 == Err::<(u64, u64), QuoteError>(QuoteError::Overflow));
                    }
                    return Err(QuoteError::Overflow);
                }
                total_fee = total_fee + res.fee;
            }
            if amount_left > 0 {
                proof {
                    assert(w0 == spec_quote_in_step_over(
                        bin_arrays@,
                        bitmap_extension,
                        swap_for_y,
                        pool,
                        amount_left,
                        total_amount_out,
                        total_fee,
                    ));
                }
                match pool.advance_active_bin(swap_for_y) {
                    Ok(()) => (),
                    Err(e) => {
                        return Err(e);
                    },
                }
                proof {
                    assert(w0 == spec_quote_in_loop(
                        bin_arrays@,
                        bitmap_extension,
                        swap_for_y,
                        pool,
                        amount_left,
                        total_amount_out,
                        total_fee,
                    ));
                }
            } else {
                proof {
                    assert(w0 == Ok::<(u64, u64), QuoteError>((total_amount_out, total_fee)));
                }
            }
        }
    }
    let transfer_fee_excluded_amount_out = transfer_fee_excluded_amount(
        out_mint,
        total_amount_out,
        clock.epoch,
    )?;
    Ok(SwapExactInQuote { amount_out: transfer_fee_excluded_amount_out, fee: total_fee })
}

/// One-bin-per-pass walk of an exact-out quote, mirroring the executable
/// loop exactly: drain the active bin whole while the wanted output covers
/// its reserve, convert the remainder at the bin price otherwise.
pub open spec fn spec_quote_out_loop(
    arrays: Seq<BinArray>,
    ext: Option<&BinArrayBitmapExtension>,
    swap_for_y: bool,
    pool: LbPair,
    amount_out_left: u64,
    total_in: u64,
    total_fee: u64,
) -> Result<(u64, u64), QuoteError>
    decreases amount_out_left, (if swap_for_y {
        pool.active_id + 0x8000_0000
    } else {
        0x8000_0000 - pool.active_id
    }), 2int,
    via spec_quote_out_loop_decreases
{
    if amount_out_left == 0 {
        Ok((total_in, total_fee))
    } else {
        let start0 = spec_bin_id_to_bin_array_index(pool.active_id as int);
        match spec_nearest_liquid(pool, ext, swap_for_y, start0) {
            Option::None => Err(QuoteError::PoolOutOfLiquidity),
            Option::Some(idx) => match spec_find_bin_array(arrays, idx, 0) {
                Option::None => Err(QuoteError::BinArrayNotFound),
                Option::Some(p) => {
                    let arr = arrays[p];
                    if !(arr.spec_lower_bin_id() <= pool.active_id <= arr.spec_upper_bin_id()) {
                        let target: int = if swap_for_y {
                            arr.spec_upper_bin_id()
                        } else {
                            arr.spec_lower_bin_id()
                        };
                        spec_quote_out_loop(
                            arrays,
                            ext,
                            swap_for_y,
                            LbPair { active_id: target as i32, ..pool },
                            amount_out_left,
                            total_in,
                            total_fee,
                        )
                    } else {
                        let pool2 = spec_pool_after_vac(pool);
                        let bin = arr.bins@[pool.active_id - arr.spec_lower_bin_id()];
                        if bin.price == 0 && !spec_price_ok(pool.active_id as int, pool.bin_step) {
                            Err(QuoteError::Overflow)
                        } else {
                            let price: u128 = if bin.price != 0 {
                                bin.price
                            } else {
                                spec_price_from_id(pool.active_id as int, pool.bin_step) as u128
                            };
                            if price == 0 {
                                // never reached in execution: a computed price is
                                // at least one
                                Err(QuoteError::Overflow)
                            } else if (if swap_for_y {
                                bin.amount_y == 0
                            } else {
                                bin.amount_x == 0
                            }) {
                                spec_quote_out_step_over(
                                    arrays,
                                    ext,
                                    swap_for_y,
                                    pool2,
                                    amount_out_left,
                                    total_in,
                                    total_fee,
                                )
                            } else {
                                let max_out = spec_max_amount_out(bin, swap_for_y);
                                if amount_out_left >= max_out {
                                    let max_in = spec_max_amount_in(bin, price, swap_for_y);
                                    if max_in > u64::MAX {
                                        Err(QuoteError::Overflow)
                                    } else if !pool2.spec_total_fee_ok() {
                                        Err(QuoteError::Overflow)
                                    } else {
                                        let max_fee = pool2.spec_compute_fee(max_in as u64);
                                        if total_in + max_in > u64::MAX {
                                            Err(QuoteError::Overflow)
                                        } else if total_fee + max_fee > u64::MAX {
                                            Err(QuoteError::Overflow)
                                        } else if amount_out_left == max_out {
                                            Ok(
                                                (
                                                    (total_in + max_in) as u64,
                                                    (total_fee + max_fee) as u64,
                                                ),
                                            )
                                        } else {
                                            spec_quote_out_step_over(
                                                arrays,
                                                ext,
                                                swap_for_y,
                                                pool2,
                                                (amount_out_left - max_out) as u64,
                                                (total_in + max_in) as u64,
                                                (total_fee + max_fee) as u64,
                                            )
                                        }
                                    }
                                } else {
                                    let amount_in = spec_amount_in_calc(
                                        amount_out_left,
                                        price,
                                        swap_for_y,
                                    );
                                    if amount_in > u64::MAX {
                                        Err(QuoteError::Overflow)
                                    } else if !pool2.spec_total_fee_ok() {
                                        Err(QuoteError::Overflow)
                                    } else {
                                        let fee = pool2.spec_compute_fee(amount_in as u64);
                                        if total_in + amount_in > u64::MAX {
                                            Err(QuoteError::Overflow)
                                        } else if total_fee + fee > u64::MAX {
                                            Err(QuoteError::Overflow)
                                        } else {
                                            Ok(
                                                (
                                                    (total_in + amount_in) as u64,
                                                    (total_fee + fee) as u64,
                                                ),
                                            )
                                        }
                                    }
                                }
                            }
                        }
                    }
                }
            },
        }
    }
}

/// Advances the active bin one step in the direction of the swap, then
/// resumes the exact-out walk; fails exactly as `advance_active_bin` does.
pub open spec fn spec_quote_out_step_over(
    arrays: Seq<BinArray>,
    ext: Option<&BinArrayBitmapExtension>,
    swap_for_y: bool,
    pool: LbPair,
    amount_out_left: u64,
    total_in: u64,
    total_fee: u64,
) -> Result<(u64, u64), QuoteError>
    decreases amount_out_left, (if swap_for_y {
        pool.active_id + 0x8000_0000
    } else {
        0x8000_0000 - pool.active_id
    }), 1int,
{
    let next: int = if swap_for_y {
        pool.active_id - 1
    } else {
        pool.active_id + 1
    };
    if !(i32::MIN <= next <= i32::MAX) {
        Err(QuoteError::Overflow)
    } else if !(MIN_BIN_ID <= next <= MAX_BIN_ID) {
        Err(QuoteError::InsufficientLiquidity)
    } else {
        spec_quote_out_loop(
            arrays,
            ext,
            swap_for_y,
            LbPair { active_id: next as i32, ..pool },
            amount_out_left,
            total_in,
            total_fee,
        )
    }
}

#[via_fn]
proof fn spec_quote_out_loop_decreases(
    arrays: Seq<BinArray>,
    ext: Option<&BinArrayBitmapExtension>,
    swap_for_y: bool,
    pool: LbPair,
    amount_out_left: u64,
    total_in: u64,
    total_fee: u64,
) {
    if amount_out_left != 0 {
        let start0 = spec_bin_id_to_bin_array_index(pool.active_id as int);
        match spec_nearest_liquid(pool, ext, swap_for_y, start0) {
            Option::None => (),
            Option::Some(idx) => {
                lemma_nearest_found(pool, ext, swap_for_y, start0, idx);
                match spec_find_bin_array(arrays, idx, 0) {
                    Option::None => (),
                    Option::Some(p) => {
                        lemma_find_bin_array_index(arrays, idx, 0, p);
                        let arr = arrays[p];
                        if !(arr.spec_lower_bin_id() <= pool.active_id
                            <= arr.spec_upper_bin_id()) {
                            lemma_jump_progress(pool.active_id as int, idx, swap_for_y);
                        }
                    },
                }
            },
        }
    }
}

/// The in-side finish of an exact-out quote: the fee folds into the total
/// input, which the in mint's transfer fee then grosses up.
pub open spec fn spec_finish_out(
    mint_in: MintInfo,
    epoch: u64,
    w: Result<(u64, u64), QuoteError>,
) -> Result<SwapExactOutQuote, QuoteError> {
    match w {
        Err(e) => Err(e),
        Ok((total_in, total_fee)) => {
            if total_in + total_fee > u64::MAX {
                Err(QuoteError::Overflow)
            } else {
                let with_fee = (total_in + total_fee) as u64;
                let grossed = crate::token::spec_transfer_fee_included(mint_in, with_fee, epoch);
                if grossed > u64::MAX {
                    Err(QuoteError::Overflow)
                } else {
                    Ok(SwapExactOutQuote { amount_in: grossed as u64, fee: total_fee })
                }
            }
        },
    }
}

/// The exact outcome of an exact-out quote, error kinds included.
pub open spec fn spec_quote_exact_out(
    lb_pair: LbPair,
    amount_out: u64,
    swap_for_y: bool,
    arrays: Seq<BinArray>,
    ext: Option<&BinArrayBitmapExtension>,
    clock: Clock,
    mint_x: MintInfo,
    mint_y: MintInfo,
) -> Result<SwapExactOutQuote, QuoteError> {
    if clock.unix_timestamp < 0 {
        Err(QuoteError::Overflow)
    } else {
        let ts = clock.unix_timestamp as u64;
        match spec_validate_swap_activation(lb_pair, ts, clock.slot) {
            Err(e) => Err(e),
            Ok(u) => {
                if !lb_pair.spec_update_references_ok(clock.unix_timestamp) {
                    Err(QuoteError::Overflow)
                } else {
                    let pool = lb_pair.spec_update_references(clock.unix_timestamp);
                    let in_mint = if swap_for_y {
                        mint_x
                    } else {
                        mint_y
                    };
                    let out_mint = if swap_for_y {
                        mint_y
                    } else {
                        mint_x
                    };
                    let included = crate::token::spec_transfer_fee_included(
                        out_mint,
                        amount_out,
                        clock.epoch,
                    );
                    if included > u64::MAX {
                        Err(QuoteError::Overflow)
                    } else {
                        spec_finish_out(
                            in_mint,
                            clock.epoch,
                            spec_quote_out_loop(
                                arrays,
                                ext,
                                swap_for_y,
                                pool,
                                included as u64,
                                0,
                                0,
                            ),
                        )
                    }
                }
            },
        }
    }
}

/// Exact-out quote: how much must be paid in, and at what fee, so that
/// `amount_out` comes out. Works on a local copy of the pool snapshot;
/// nothing the caller owns is changed. The walk advances one bin per pass,
/// as in the exact-in quote, and the result equals `spec_quote_exact_out`
/// exactly, error kinds included; negative clock timestamps are rejected
/// as in the exact-in quote.
pub fn quote_exact_out(
    lb_pair: &LbPair,
    amount_out: u64,
    swap_for_y: bool,
    bin_arrays: &Vec<BinArray>,
    bitmap_extension: Option<&BinArrayBitmapExtension>,
    clock: &Clock,
    mint_x: &MintInfo,
    mint_y: &MintInfo,
) -> (r: Result<SwapExactOutQuote, QuoteError>)
    requires
        forall|k: int| 0 <= k < bin_arrays@.len() ==> (#[trigger] bin_arrays@[k]).wf(),
    ensures
        r == spec_quote_exact_out(
            *lb_pair,
            amount_out,
            swap_for_y,
            bin_arrays@,
            bitmap_extension,
            *clock,
            *mint_x,
            *mint_y,
        ),
        (r matches Ok(q) ==> q.fee <= q.amount_in),
{
    let ghost expected = spec_quote_exact_out(
        *lb_pair,
        amount_out,
        swap_for_y,
        bin_arrays@,
        bitmap_extension,
        *clock,
        *mint_x,
        *mint_y,
    );
    let ghost in_mint_spec: MintInfo = if swap_for_y {
        *mint_x
    } else {
        *mint_y
    };
    if clock.unix_timestamp < 0 {
        return Err(QuoteError::Overflow);
    }
    let current_timestamp = clock.unix_timestamp as u64;
    validate_swap_activation(lb_pair, current_timestamp, clock.slot)?;
    let mut pool = *lb_pair;
    pool.update_references(clock.unix_timestamp)?;
    let (in_mint, out_mint) = if swap_for_y {
        (mint_x, mint_y)
    } else {
        (mint_y, mint_x)
    };
    let mut amount_out_left = transfer_fee_included_amount(out_mint, amount_out, clock.epoch)?;
    let mut total_amount_in: u64 = 0;
    let mut total_fee: u64 = 0;
    while amount_out_left > 0
        invariant
            clock.unix_timestamp >= 0,
            spec_activation_ok(*lb_pair, clock.unix_timestamp as u64, clock.slot),
            forall|k: int| 0 <= k < bin_arrays@.len() ==> (#[trigger] bin_arrays@[k]).wf(),
            in_mint_spec == (if swap_for_y {
                *mint_x
            } else {
                *mint_y
            }),
            expected == spec_quote_exact_out(
                *lb_pair,
                amount_out,
                swap_for_y,
                bin_arrays@,
                bitmap_extension,
                *clock,
                *mint_x,
                *mint_y,
            ),
            expected == spec_finish_out(
                in_mint_spec,
                clock.epoch,
                spec_quote_out_loop(
                    bin_arrays@,
                    bitmap_extension,
                    swap_for_y,
                    pool,
                    amount_out_left,
                    total_amount_in,
                    total_fee,
                ),
            ),
        decreases amount_out_left, (if swap_for_y {
            pool.active_id as int + 0x8000_0000
        } else {
            0x8000_0000int - pool.active_id as int
        }),
    {
        let ghost pool_at_entry = pool;
        let ghost w0: Result<(u64, u64), QuoteError> = spec_quote_out_loop(
            bin_arrays@,
            bitmap_extension,
            swap_for_y,
            pool,
            amount_out_left,
            total_amount_in,
            total_fee,
        );
        let ghost start0g: int = spec_bin_id_to_bin_array_index(pool.active_id as int);
        let indices = get_bin_array_indices_for_swap(&pool, bitmap_extension, swap_for_y, 1)?;
        if indices.len() == 0 {
            proof {
                assert(spec_nearest_liquid(pool, bitmap_extension, swap_for_y, start0g)
                    is None);
                assert(w0 == Err::<(u64, u64), QuoteError>(QuoteError::PoolOutOfLiquidity));
            }
            return Err(QuoteError::PoolOutOfLiquidity);
        }
        let active_bin_array_idx = indices[0];
        proof {
            assert(spec_nearest_liquid(pool, bitmap_extension, swap_for_y, start0g)
                == Option::Some(active_bin_array_idx as int));
        }
        let pos = match find_bin_array(bin_arrays, active_bin_array_idx) {
            Some(p) => p,
            None => {
                proof {
                    assert(w0 == Err::<(u64, u64), QuoteError>(QuoteError::BinArrayNotFound));
                }
                return Err(QuoteError::BinArrayNotFound);
            },
        };
        let active_bin_array = &bin_arrays[pos];
        if !active_bin_array.is_bin_id_within_range(pool.active_id) {
            // The nearest liquidity sits past a stretch of empty bin
            // arrays: move the active bin to the found array's near edge.
            proof {
                lemma_jump_progress(
                    pool.active_id as int,
                    active_bin_array.index as int,
                    swap_for_y,
                );
            }
            let lower = (active_bin_array.index * BINS_PER_ARRAY as i64) as i32;
            pool.active_id = if swap_for_y {
                lower + (BINS_PER_ARRAY - 1)
            } else {
                lower
            };
            proof {
                assert(w0 == spec_quote_out_loop(
                    bin_arrays@,
                    bitmap_extension,
                    swap_for_y,
                    pool,
                    amount_out_left,
                    total_amount_in,
                    total_fee,
                ));
            }
        } else {
            let ghost bin_g = active_bin_array.bins@[pool.active_id
                - active_bin_array.spec_lower_bin_id()];
            match pool.update_volatility_accumulator() {
                Ok(()) => (),
                Err(e) => {
                    return Err(e);
                },
            }
            proof {
                assert(pool == spec_pool_after_vac(pool_at_entry));
            }
            let bin_pos = active_bin_array.bin_position(pool.active_id);
            let mut active_bin = active_bin_array.bins[bin_pos];
            let price = match active_bin.get_or_store_bin_price(pool.active_id, pool.bin_step) {
                Ok(v) => v,
                Err(e) => {
                    proof {
                        assert(w0 == Err::<(u64, u64), QuoteError>(QuoteError::Overflow));
                    }
                    return Err(e);
                },
            };
            proof {
                assert(active_bin.amount_x == bin_g.amount_x && active_bin.amount_y
                    == bin_g.amount_y);
                assert(spec_max_amount_in(active_bin, price, swap_for_y) == spec_max_amount_in(
                    bin_g,
                    price,
                    swap_for_y,
                ));
            }
            if !active_bin.is_empty(!swap_for_y) {
                let bin_max_amount_out = active_bin.get_max_amount_out(swap_for_y);
                if amount_out_left >= bin_max_amount_out {
                    let max_amount_in = match active_bin.get_max_amount_in(price, swap_for_y) {
                        Ok(v) => v,
                        Err(e) => {
                            proof {
                                assert(w0 == Err::<(u64, u64), QuoteError>(QuoteError::Overflow));
                            }
                            return Err(e);
                        },
                    };
                    let max_fee = match pool.compute_fee(max_amount_in) {
                        Ok(v) => v,
                        Err(e) => {
                            proof {
                                assert(w0 == Err::<(u64, u64), QuoteError>(QuoteError::Overflow));
                            }
                            return Err(e);
                        },
                    };
                    if total_amount_in > u64::MAX - max_amount_in {
                        proof {
                            assert(w0 == Err::<(u64, u64), QuoteError>(QuoteError::Overflow));
                        }
                        return Err(QuoteError::Overflow);
                    }
                    total_amount_in = total_amount_in + max_amount_in;
                    if total_fee > u64::MAX - max_fee {
                        proof {
                            assert(w0 == Err::<(u64, u64), QuoteError>(QuoteError::Overflow));
                        }
                        return Err(QuoteError::Overflow);
                    }
                    total_fee = total_fee + max_fee;
                    amount_out_left = amount_out_left - bin_max_amount_out;
                } else {
                    let amount_in = match Bin::get_amount_in(amount_out_left, price, swap_for_y) {
                        Ok(v) => v,
                        Err(e) => {
                            proof {
                                assert(w0 == Err::<(u64, u64), QuoteError>(QuoteError::Overflow));
                            }
                            return Err(e);
                        },
                    };
                    let fee = match pool.compute_fee(amount_in) {
                        Ok(v) => v,
                        Err(e) => {
                            proof {
                                assert(w0 == Err::<(u64, u64), QuoteError>(QuoteError::Overflow));
                            }
                            return Err(e);
                        },
                    };
                    if total_amount_in > u64::MAX - amount_in {
                        proof {
                            assert(w0 == Err::<(u64, u64), QuoteError>(QuoteError::Overflow));
                        }
                        return Err(QuoteError::Overflow);
                    }
                    total_amount_in = total_amount_in + amount_in;
                    if total_fee > u64::MAX - fee {
                        proof {
                            assert(w0 == Err::<(u64, u64), QuoteError>(QuoteError::Overflow));
                        }
                        return Err(QuoteError::Overflow);
                    }
                    total_fee = total_fee + fee;
                    amount_out_left = 0;
                }
            }
            if amount_out_left > 0 {
                proof {
                    assert(w0 == spec_quote_out_step_over(
                        bin_arrays@,
                        bitmap_extension,
                        swap_for_y,
                        pool,
                        amount_out_left,
                        total_amount_in,
                        total_fee,
                    ));
                }
                match pool.advance_active_bin(swap_for_y) {
                    Ok(()) => (),
                    Err(e) => {
                        return Err(e);
                    },
                }
                proof {
                    assert(w0 == spec_quote_out_loop(
                        bin_arrays@,
                        bitmap_extension,
                        swap_for_y,
                        pool,
                        amount_out_left,
                        total_amount_in,
                        total_fee,
                    ));
                }
            } else {
                proof {
                    assert(w0 == Ok::<(u64, u64), QuoteError>((total_amount_in, total_fee)));
                }
            }
        }
    }
    if total_amount_in > u64::MAX - total_fee {
        return Err(QuoteError::Overflow);
    }
    total_amount_in = total_amount_in + total_fee;
    let total_amount_in_grossed = transfer_fee_included_amount(
        in_mint,
        total_amount_in,
        clock.epoch,
    )?;
    Ok(SwapExactOutQuote { amount_in: total_amount_in_grossed, fee: total_fee })
}

} // verus!
