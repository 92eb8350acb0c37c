use vstd::prelude::*;

verus! {

/// `matches / known * 100` in units of 10^-5 percent, rounded half up;
/// no data when no event had a known outcome.
pub open spec fn rate_value(matches: nat, known: nat) -> Option<int> {
    if known == 0 {
        None
    } else {
        Some(((matches * 20000000 + known) / (2 * known)) as int)
    }
}

/// Detection rate of one mode from its event counts; `matches` counts the events
/// detected, `known` those with a known outcome, of which the detected are a part.
pub fn detection_rate(matches: u64, known: u64) -> (r: Option<i64>)
    requires
        matches <= known,
    ensures
        known == 0 ==> r is None,
        match r {
            Some(v) => rate_value(matches as nat, known as nat) == Some(v as int) && 0 <= v <= 10000000,
            None => rate_value(matches as nat, known as nat) is None,
        },
{
    if known == 0 {
        return None;
    }
    let x: u128 = (matches as u128) * 20000000u128 + known as u128;
    let b: u128 = 2u128 * (known as u128);
    let q: u128 = x / b;
    proof {
        vstd::arithmetic::div_mod::lemma_fundamental_div_mod(x as int, b as int);
        let r = x as int % b as int;
        assert(0 <= r < b);
        assert(x < 10000001 * b) by (nonlinear_arith)
            requires
                x == matches * 20000000 + known,
                b == 2 * known,
                matches <= known,
                known > 0,
        ;
        assert(q <= 10000000) by (nonlinear_arith)
            requires
                x == b * q + r,
                0 <= r,
                x < 10000001 * b,
                b > 0,
                q >= 0,
        ;
    }
    Some(q as i64)
}

} // verus!
