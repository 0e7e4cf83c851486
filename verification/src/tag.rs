//! Connection tags: the cosmetic prefix embedded in every echoed response.
//! A tag is either a process-wide five-digit verification code drawn once at
//! startup, or a worker identity (process id, connection number) rendered in
//! decimal.

use vstd::prelude::*;

verus! {

/// Decimal representation of `n` as ASCII digit bytes, most significant
/// digit first, with no leading zeroes (`0` is rendered as a single digit).
pub open spec fn dec_rep(n: nat) -> Seq<u8>
    decreases n,
{
    if n < 10 {
        seq![(48 + n) as u8]
    } else {
        dec_rep(n / 10).push((48 + n % 10) as u8)
    }
}

/// Every byte of a decimal representation is an ASCII digit.
pub proof fn lemma_dec_rep_digits(n: nat)
    ensures
        forall|i: int| 0 <= i < dec_rep(n).len() ==> 48 <= #[trigger] dec_rep(n)[i] <= 57,
    decreases n,
{
    if n >= 10 {
        lemma_dec_rep_digits(n / 10);
        assert(dec_rep(n) == dec_rep(n / 10).push((48 + n % 10) as u8));
        assert forall|i: int| 0 <= i < dec_rep(n).len() implies 48 <= #[trigger] dec_rep(n)[i]
            <= 57 by {
            if i < dec_rep(n / 10).len() {
                assert(dec_rep(n)[i] == dec_rep(n / 10)[i]);
            }
        }
    }
}

/// A five-digit code renders as exactly five digit bytes.
pub proof fn lemma_dec_rep_len_five(n: nat)
    requires
        10000 <= n < 100000,
    ensures
        dec_rep(n).len() == 5,
{
    let n1 = n / 10;
    let n2 = n1 / 10;
    let n3 = n2 / 10;
    let n4 = n3 / 10;
    assert(1000 <= n1 < 10000);
    assert(100 <= n2 < 1000);
    assert(10 <= n3 < 100);
    assert(1 <= n4 < 10);
    assert(dec_rep(n4).len() == 1);
    assert(dec_rep(n3).len() == 2);
    assert(dec_rep(n2).len() == 3);
    assert(dec_rep(n1).len() == 4);
    assert(dec_rep(n).len() == 5);
}

/// Render `n` in decimal, as the tag bytes for a worker identity.
pub fn render_decimal(n: u64) -> (r: Vec<u8>)
    ensures
        r@ == dec_rep(n as nat),
    decreases n,
{
    if n < 10 {
        let mut v: Vec<u8> = Vec::new();
        v.push(48 + (n as u8));
        proof {
            assert(v@ =~= dec_rep(n as nat));
        }
        v
    } else {
        let mut v = render_decimal(n / 10);
        v.push(48 + ((n % 10) as u8));
        v
    }
}

/// Relies on rand::random_range: a value sampled from the given range via the
/// thread-local generator always lies within that range.
#[verifier::external_body]
fn sample_verification_code() -> (code: u32)
    ensures
        10000 <= code < 100000,
{
    rand::random_range(10000u32..100000u32)
}

/// Draw a fresh five-digit verification code and render it as tag bytes.
pub fn fresh_code_tag() -> (t: Vec<u8>)
    ensures
        t@.len() == 5,
        forall|i: int| 0 <= i < t@.len() ==> 48 <= #[trigger] t@[i] <= 57,
        exists|c: nat| 10000 <= c < 100000 && t@ == dec_rep(c),
{
    let code = sample_verification_code();
    let t = render_decimal(code as u64);
    proof {
        lemma_dec_rep_len_five(code as nat);
        lemma_dec_rep_digits(code as nat);
    }
    t
}

} // verus!
