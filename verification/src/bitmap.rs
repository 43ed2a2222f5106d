//! Bit-level view of the liquidity bitmaps, the scan primitives the
//! navigators are built on, and the optional bitmap extension that covers
//! bin-array indices outside the pool's internal range.

use vstd::prelude::*;

use crate::constants::{BIN_ARRAY_BITMAP_SIZE, EXTENSION_BITMAP_BITS, EXTENSION_BITMAP_LIMBS};
use crate::errors::QuoteError;

verus! {

/// Bit `k` of a little-endian limb vector.
pub open spec fn limb_bit(limbs: Seq<u64>, k: int) -> bool {
    (limbs[k / 64] >> ((k % 64) as u64)) & 1u64 == 1u64
}

/// Smallest set bit at position `from` or above, if any.
pub fn scan_bit_up(limbs: &[u64], from: usize) -> (r: Option<usize>)
    requires
        limbs@.len() <= 1024,
        from <= limbs@.len() * 64,
    ensures
        match r {
            Some(k) => from <= k < limbs@.len() * 64 && limb_bit(limbs@, k as int) && (forall|
                j: int,
            |
                from <= j < k ==> !limb_bit(limbs@, j)),
            None => forall|j: int| from <= j < limbs@.len() * 64 ==> !limb_bit(limbs@, j),
        },
{
    let n = limbs.len();
    let mut k = from;
    while k < n * 64
        invariant
            n == limbs@.len() <= 1024,
            from <= k <= n * 64,
            forall|j: int| from <= j < k ==> !limb_bit(limbs@, j),
        decreases n * 64 - k,
    {
        let limb = limbs[k / 64];
        let bit = (limb >> ((k % 64) as u64)) & 1;
        if bit == 1 {
            return Some(k);
        }
        k = k + 1;
    }
    None
}

/// Largest set bit at position `from` or below, if any.
pub fn scan_bit_down(limbs: &[u64], from: usize) -> (r: Option<usize>)
    requires
        limbs@.len() <= 1024,
        from < limbs@.len() * 64,
    ensures
        match r {
            Some(k) => k <= from && limb_bit(limbs@, k as int) && (forall|j: int|
                k < j <= from ==> !limb_bit(limbs@, j)),
            None => forall|j: int| 0 <= j <= from ==> !limb_bit(limbs@, j),
        },
{
    let mut kk = from + 1;
    while kk > 0
        invariant
            limbs@.len() <= 1024,
            from < limbs@.len() * 64,
            kk <= from + 1,
            forall|j: int| kk <= j <= from ==> !limb_bit(limbs@, j),
        decreases kk,
    {
        let k = kk - 1;
        let limb = limbs[k / 64];
        let bit = (limb >> ((k % 64) as u64)) & 1;
        if bit == 1 {
            return Some(k);
        }
        kk = k;
    }
    None
}

/// Auxiliary bitmap for bin-array indices outside the pool's internal
/// range: the positive side covers `[512, 6655]`, the negative side
/// `[-6656, -513]`.
#[derive(Clone, Copy)]
pub struct BinArrayBitmapExtension {
    pub positive_bin_array_bitmap: [u64; 96],
    pub negative_bin_array_bitmap: [u64; 96],
}

/// Whether the extension covers a bin-array index.
pub open spec fn ext_covers(idx: int) -> bool {
    ||| BIN_ARRAY_BITMAP_SIZE <= idx < BIN_ARRAY_BITMAP_SIZE + EXTENSION_BITMAP_BITS
    ||| -BIN_ARRAY_BITMAP_SIZE - EXTENSION_BITMAP_BITS <= idx < -BIN_ARRAY_BITMAP_SIZE
}

/// Liquidity bit of a covered bin-array index.
pub open spec fn ext_bit(e: BinArrayBitmapExtension, idx: int) -> bool {
    if idx >= BIN_ARRAY_BITMAP_SIZE {
        limb_bit(e.positive_bin_array_bitmap@, idx - BIN_ARRAY_BITMAP_SIZE)
    } else {
        limb_bit(e.negative_bin_array_bitmap@, -BIN_ARRAY_BITMAP_SIZE - 1 - idx)
    }
}

impl BinArrayBitmapExtension {
    /// Next covered bin-array index with liquidity in the direction of the
    /// swap, starting at `start_array_index` inclusive. With the second
    /// component false the first is a handoff sentinel: one step past the
    /// searched side, so the caller consults the neighbouring bitmap next.
    /// Fails when the start index is outside the extension's range.
    pub fn next_bin_array_index_with_liquidity(
        &self,
        swap_for_y: bool,
        start_array_index: i32,
    ) -> (r: Result<(i32, bool), QuoteError>)
        ensures
            match r {
                Ok(p) => ext_covers(start_array_index as int) && {
                    let lo: int = if start_array_index >= BIN_ARRAY_BITMAP_SIZE {
                        BIN_ARRAY_BITMAP_SIZE as int
                    } else {
                        -BIN_ARRAY_BITMAP_SIZE - EXTENSION_BITMAP_BITS
                    };
                    let hi: int = if start_array_index >= BIN_ARRAY_BITMAP_SIZE {
                        BIN_ARRAY_BITMAP_SIZE + EXTENSION_BITMAP_BITS - 1
                    } else {
                        -BIN_ARRAY_BITMAP_SIZE - 1
                    };
                    if swap_for_y {
                        if p.1 {
                            lo <= p.0 <= start_array_index && ext_bit(*self, p.0 as int)
                                && (forall|j: int|
                                p.0 < j <= start_array_index ==> !ext_bit(*self, j))
                        } else {
                            p.0 == lo - 1 && (forall|j: int|
                                lo <= j <= start_array_index ==> !ext_bit(*self, j))
                        }
                    } else {
                        if p.1 {
                            start_array_index <= p.0 <= hi && ext_bit(*self, p.0 as int)
                                && (forall|j: int|
                                start_array_index <= j < p.0 ==> !ext_bit(*self, j))
                        } else {
                            p.0 == hi + 1 && (forall|j: int|
                                start_array_index <= j <= hi ==> !ext_bit(*self, j))
                        }
                    }
                },
                Err(e) => e == QuoteError::Overflow && !ext_covers(start_array_index as int),
            },
    {
        if start_array_index >= BIN_ARRAY_BITMAP_SIZE {
            if start_array_index >= BIN_ARRAY_BITMAP_SIZE + EXTENSION_BITMAP_BITS {
                return Err(QuoteError::Overflow);
            }
            let k = (start_array_index - BIN_ARRAY_BITMAP_SIZE) as usize;
            if swap_for_y {
                match scan_bit_down(self.positive_bin_array_bitmap.as_slice(), k) {
                    Some(found) => {
                        let idx = BIN_ARRAY_BITMAP_SIZE + found as i32;
                        proof {
                            assert forall|j: int| idx < j <= start_array_index implies !ext_bit(
                                *self,
                                j,
                            ) by {
                                assert(!limb_bit(
                                    self.positive_bin_array_bitmap@,
                                    j - BIN_ARRAY_BITMAP_SIZE,
                                ));
                            }
                        }
                        Ok((idx, true))
                    },
                    None => {
                        proof {
                            assert forall|j: int|
                                BIN_ARRAY_BITMAP_SIZE <= j <= start_array_index implies !ext_bit(
                                *self,
                                j,
                            ) by {
                                assert(!limb_bit(
                                    self.positive_bin_array_bitmap@,
                                    j - BIN_ARRAY_BITMAP_SIZE,
                                ));
                            }
                        }
                        Ok((BIN_ARRAY_BITMAP_SIZE - 1, false))
                    },
                }
            } else {
                match scan_bit_up(self.positive_bin_array_bitmap.as_slice(), k) {
                    Some(found) => {
                        let idx = BIN_ARRAY_BITMAP_SIZE + found as i32;
                        proof {
                            assert forall|j: int| start_array_index <= j < idx implies !ext_bit(
                                *self,
                                j,
                            ) by {
                                assert(!limb_bit(
                                    self.positive_bin_array_bitmap@,
                                    j - BIN_ARRAY_BITMAP_SIZE,
                                ));
                            }
                        }
                        Ok((idx, true))
                    },
                    None => {
                        proof {
                            assert forall|j: int|
                                start_array_index <= j < BIN_ARRAY_BITMAP_SIZE
                                    + EXTENSION_BITMAP_BITS implies !ext_bit(*self, j) by {
                                assert(!limb_bit(
                                    self.positive_bin_array_bitmap@,
                                    j - BIN_ARRAY_BITMAP_SIZE,
                                ));
                            }
                        }
                        Ok((BIN_ARRAY_BITMAP_SIZE + EXTENSION_BITMAP_BITS, false))
                    },
                }
            }
        } else {
            if start_array_index >= -BIN_ARRAY_BITMAP_SIZE
                || start_array_index < -BIN_ARRAY_BITMAP_SIZE - EXTENSION_BITMAP_BITS {
                return Err(QuoteError::Overflow);
            }
            // Negative side: bit k stands for index -513 - k, so moving
            // down in index moves up in bit position.
            let k = (-BIN_ARRAY_BITMAP_SIZE - 1 - start_array_index) as usize;
            if swap_for_y {
                match scan_bit_up(self.negative_bin_array_bitmap.as_slice(), k) {
                    Some(found) => {
                        let idx = -BIN_ARRAY_BITMAP_SIZE - 1 - found as i32;
                        proof {
                            assert forall|j: int| idx < j <= start_array_index implies !ext_bit(
                                *self,
                                j,
                            ) by {
                                assert(!limb_bit(
                                    self.negative_bin_array_bitmap@,
                                    -BIN_ARRAY_BITMAP_SIZE - 1 - j,
                                ));
                            }
                        }
                        Ok((idx, true))
                    },
                    None => {
                        proof {
                            assert forall|j: int|
                                -BIN_ARRAY_BITMAP_SIZE - EXTENSION_BITMAP_BITS <= j
                                    <= start_array_index implies !ext_bit(*self, j) by {
                                assert(!limb_bit(
                                    self.negative_bin_array_bitmap@,
                                    -BIN_ARRAY_BITMAP_SIZE - 1 - j,
                                ));
                            }
                        }
                        Ok((-BIN_ARRAY_BITMAP_SIZE - EXTENSION_BITMAP_BITS - 1, false))
                    },
                }
            } else {
                match scan_bit_down(self.negative_bin_array_bitmap.as_slice(), k) {
                    Some(found) => {
                        let idx = -BIN_ARRAY_BITMAP_SIZE - 1 - found as i32;
                        proof {
                            assert forall|j: int| start_array_index <= j < idx implies !ext_bit(
                                *self,
                                j,
                            ) by {
                                assert(!limb_bit(
                                    self.negative_bin_array_bitmap@,
                                    -BIN_ARRAY_BITMAP_SIZE - 1 - j,
                                ));
                            }
                        }
                        Ok((idx, true))
                    },
                    None => {
                        proof {
                            assert forall|j: int|
                                start_array_index <= j < -BIN_ARRAY_BITMAP_SIZE implies !ext_bit(
                                *self,
                                j,
                            ) by {
                                assert(!limb_bit(
                                    self.negative_bin_array_bitmap@,
                                    -BIN_ARRAY_BITMAP_SIZE - 1 - j,
                                ));
                            }
                        }
                        Ok((-BIN_ARRAY_BITMAP_SIZE, false))
                    },
                }
            }
        }
    }
}

} // verus!
