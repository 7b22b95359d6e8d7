//! Content-integrity digest used by the backup protocol.
//!
//! The digest folds every character of the content into a 64-bit
//! accumulator (a Fowler–Noll–Vo style xor-and-multiply round) and renders
//! it in decimal. It is a pure function of the content, so hashing the
//! same text always yields the same digest string.

use vstd::prelude::*;

verus! {

use crate::strutil::{spec_dec_string, u64_to_dec};
use vstd::string::StrSliceExecFns;

/// The fold seed.
pub open spec fn hash_offset() -> u64 {
    14695981039346656037u64
}

/// The fold multiplier.
pub open spec fn hash_prime() -> u64 {
    1099511628211u64
}

/// One round of the fold: mix a character into the accumulator.
pub open spec fn spec_hash_step(h: u64, c: char) -> u64 {
    (h ^ (c as u64)).wrapping_mul(hash_prime())
}

/// The accumulator after folding `s[i..]` into `h`.
pub open spec fn spec_hash_from(s: Seq<char>, i: int, h: u64) -> u64
    decreases s.len() - i,
{
    if i < 0 || i >= s.len() {
        h
    } else {
        spec_hash_from(s, i + 1, spec_hash_step(h, s[i]))
    }
}

/// The 64-bit digest of a content sequence.
pub open spec fn spec_content_hash(s: Seq<char>) -> u64 {
    spec_hash_from(s, 0, hash_offset())
}

/// The digest rendered in decimal, as the backup records store it.
pub open spec fn spec_hash_string(s: Seq<char>) -> Seq<char> {
    spec_dec_string(spec_content_hash(s) as int)
}

/// Computes the content-integrity digest of a text.
pub fn calculate_hash(content: &str) -> (r: String)
    ensures
        r@ == spec_hash_string(content@),
{
    let n = content.unicode_len();
    let mut h: u64 = 14695981039346656037u64;
    let mut i: usize = 0;
    while i < n
        invariant
            0 <= i <= n,
            n == content@.len(),
            spec_hash_from(content@, i as int, h) == spec_content_hash(content@),
        decreases n - i,
    {
        let c = content.get_char(i);
        h = (h ^ (c as u64)).wrapping_mul(1099511628211u64);
        i += 1;
    }
    u64_to_dec(h)
}

} // verus!
