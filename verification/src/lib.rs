//! Readers for the nested archive formats of Nintendo Switch game
//! distribution: flat and hashed partition archives, gamecard images,
//! read-only filesystem images, content archives with their layered
//! decryption, and the content-meta tables that tie titles together.
//! Containers parse from any byte source and hand out bounded,
//! optionally decrypting readers, so the same interfaces nest from a
//! gamecard image all the way down to one table's bytes.

use vstd::prelude::*;

pub mod bytes;
pub mod crypto;
pub mod error;
pub mod formats;
pub mod io;
pub mod util;


verus! {

/// Aligns `value` down to the nearest multiple of `align` at or below it.
pub fn align_down(value: u64, align: u64) -> (r: u64)
    requires
        align > 0,
    ensures
        r == align * (value / align),
        r % align == 0,
        r <= value,
        value - r < align,
{
    proof {
        let q = value as int / align as int;
        vstd::arithmetic::div_mod::lemma_fundamental_div_mod(value as int, align as int);
        vstd::arithmetic::div_mod::lemma_mod_division_less_than_divisor(value as int, align as int);
        vstd::arithmetic::div_mod::lemma_mod_multiples_basic(q, align as int);
        assert(q * align as int == align as int * q) by (nonlinear_arith);
    }
    value / align * align
}

/// Aligns `value` up to the nearest multiple of `align` at or above it.
pub fn align_up(value: usize, align: usize) -> (r: usize)
    requires
        align > 0,
        value + align - 1 <= usize::MAX,
    ensures
        r as int % align as int == 0,
        value <= r,
        r - value < align,
{
    let bumped = value + (align - 1);
    proof {
        let q = bumped as int / align as int;
        vstd::arithmetic::div_mod::lemma_fundamental_div_mod(bumped as int, align as int);
        vstd::arithmetic::div_mod::lemma_mod_division_less_than_divisor(bumped as int, align as int);
        vstd::arithmetic::div_mod::lemma_mod_multiples_basic(q, align as int);
        assert(q * align as int == align as int * q) by (nonlinear_arith);
    }
    bumped / align * align
}

/// Rounds `size` up to the nearest multiple of `alignment`.
pub fn align_to(size: u64, alignment: u64) -> (r: u64)
    requires
        alignment > 0,
        size as int % alignment as int != 0 ==> size + (alignment - size as int % alignment as int)
            <= u64::MAX,
    ensures
        r % alignment == 0,
        size <= r,
        r - size < alignment,
{
    let remainder = size % alignment;
    if remainder == 0 {
        size
    } else {
        proof {
            vstd::arithmetic::div_mod::lemma_fundamental_div_mod(size as int, alignment as int);
            vstd::arithmetic::div_mod::lemma_mod_multiples_basic(
                (size as int / alignment as int) + 1,
                alignment as int,
            );
            assert((size + (alignment - size % alignment)) as int == ((size as int / alignment as int)
                + 1) * alignment as int) by (nonlinear_arith)
                requires
                    alignment > 0,
                    size as int == alignment as int * (size as int / alignment as int) + size as int
                        % alignment as int,
            ;
        }
        size + (alignment - remainder)
    }
}

} // verus!
