use vstd::prelude::*;

pub mod address;
pub mod chunks;
pub mod error;
pub mod hash;
pub mod pipeline;
pub mod progress;
pub mod store;

verus! {

/// Size of one transfer chunk, in bytes, unless a caller picks another.
pub const DEFAULT_CHUNK_SIZE: u64 = 40 * 1024;

/// Number of chunks needed to cover `file_size` bytes in pieces of
/// `chunk_size` bytes: the quotient, rounded up.
pub open spec fn spec_num_chunks(file_size: nat, chunk_size: nat) -> nat
    recommends
        chunk_size > 0,
{
    ((file_size + chunk_size - 1) / (chunk_size as int)) as nat
}

/// Divide and round up, without the overflow the textbook form
/// `(a + b - 1) / b` would risk near `u64::MAX`.
pub fn num_chunks(file_size: u64, chunk_size: u64) -> (n: u64)
    requires
        chunk_size > 0,
    ensures
        n == spec_num_chunks(file_size as nat, chunk_size as nat),
{
    let q: u64 = file_size / chunk_size;
    let r: u64 = file_size % chunk_size;
    proof {
        let fs = file_size as int;
        let cs = chunk_size as int;
        vstd::arithmetic::div_mod::lemma_fundamental_div_mod(fs, cs);
        if r == 0 {
            assert(fs + cs - 1 == cs * (q as int) + (cs - 1));
            vstd::arithmetic::div_mod::lemma_div_multiples_vanish_fancy(q as int, cs - 1, cs);
        } else {
            assert(cs * (q as int + 1) == cs * (q as int) + cs) by {
                vstd::arithmetic::mul::lemma_mul_is_distributive_add(cs, q as int, 1);
            }
            assert(fs + cs - 1 == cs * (q as int + 1) + (r - 1));
            vstd::arithmetic::div_mod::lemma_div_multiples_vanish_fancy(q as int + 1, r as int - 1, cs);
            assert(cs * (q as int) >= 2 * (q as int)) by {
                vstd::arithmetic::mul::lemma_mul_inequality(2, cs, q as int);
            }
        }
    }
    if r == 0 {
        q
    } else {
        q + 1
    }
}

} // verus!
