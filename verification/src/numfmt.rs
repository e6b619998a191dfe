//! Decimal formatting of integers.

use vstd::prelude::*;
use crate::ser::{hex_digit, hex_digit_char};
use crate::shim::push_char;

verus! {

/// The decimal text of a number.
pub open spec fn dec_str(n: u64) -> Seq<char>
    decreases n,
{
    if n < 10 {
        seq![hex_digit(n as u32)]
    } else {
        dec_str(n / 10).push(hex_digit((n % 10) as u32))
    }
}

/// Append the decimal text of `n` to `out`.
pub fn push_u64(out: &mut String, n: u64)
    ensures
        final(out)@ == old(out)@ + dec_str(n),
    decreases n,
{
    if n < 10 {
        push_char(out, hex_digit_char(n as u32));
        proof {
            assert(final(out)@ =~= old(out)@ + dec_str(n));
        }
    } else {
        push_u64(out, n / 10);
        push_char(out, hex_digit_char((n % 10) as u32));
        proof {
            assert(final(out)@ =~= old(out)@ + dec_str(n));
        }
    }
}

/// The decimal text of a number.
pub fn u64_to_string(n: u64) -> (r: String)
    ensures
        r@ == dec_str(n),
{
    let mut out = String::new();
    push_u64(&mut out, n);
    proof {
        assert(out@ =~= dec_str(n));
    }
    out
}

} // verus!
