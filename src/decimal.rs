use vstd::prelude::*;

verus! {

/// Number of fixed-point units in one whole: values carry five decimal places.
pub const SCALE: i64 = 100000;

/// Largest integer part that still fits once scaled.
pub const MAX_WHOLE: u64 = 92233720368547;

pub open spec fn is_digit(b: u8) -> bool {
    48 <= b <= 57
}

pub open spec fn pow10(n: nat) -> nat
    decreases n,
{
    if n == 0 {
        1
    } else {
        10 * pow10((n - 1) as nat)
    }
}

/// Value of a run of decimal digits, most significant first.
pub open spec fn digits_value(s: Seq<u8>) -> nat
    decreases s.len(),
{
    if s.len() == 0 {
        0
    } else {
        digits_value(s.drop_last()) * 10 + (s.last() - 48) as nat
    }
}

/// Index of the first non-digit at or after `i` (or the length).
pub open spec fn run_end(s: Seq<u8>, i: int) -> int
    decreases s.len() - i,
{
    if i < 0 || i >= s.len() || !is_digit(s[i]) {
        i
    } else {
        run_end(s, i + 1)
    }
}

pub open spec fn sign_len(s: Seq<u8>) -> int {
    if s.len() > 0 && (s[0] == 43u8 || s[0] == 45u8) {
        1
    } else {
        0
    }
}

pub open spec fn is_negative(s: Seq<u8>) -> bool {
    s.len() > 0 && s[0] == 45u8
}

pub open spec fn int_end(s: Seq<u8>) -> int {
    run_end(s, sign_len(s))
}

pub open spec fn frac_digits(s: Seq<u8>) -> Seq<u8> {
    if int_end(s) < s.len() {
        s.subrange(int_end(s) + 1, s.len() as int)
    } else {
        Seq::empty()
    }
}

/// `[+-]? digit+ ('.' digit+)?`
pub open spec fn is_literal(s: Seq<u8>) -> bool {
    &&& int_end(s) > sign_len(s)
    &&& int_end(s) == s.len() || (s[int_end(s)] == 46u8 && int_end(s) + 1 < s.len()
        && forall|k: int| int_end(s) + 1 <= k < s.len() ==> is_digit(#[trigger] s[k]))
}

pub open spec fn first5(f: Seq<u8>) -> Seq<u8> {
    if f.len() <= 5 {
        f
    } else {
        f.subrange(0, 5)
    }
}

/// Fraction digits in units of 10^-5, rounded half away from zero.
pub open spec fn frac_units(f: Seq<u8>) -> nat {
    digits_value(first5(f)) * pow10((5 - first5(f).len()) as nat) + if f.len() > 5 && f[5] >= 53u8 {
        1nat
    } else {
        0nat
    }
}

pub open spec fn literal_magnitude(s: Seq<u8>) -> nat {
    digits_value(s.subrange(sign_len(s), int_end(s))) * 100000 + frac_units(frac_digits(s))
}

/// The fixed-point value a decimal literal denotes, if it is one and fits in `i64`.
pub open spec fn literal_value(s: Seq<u8>) -> Option<int> {
    if is_literal(s) && literal_magnitude(s) <= i64::MAX {
        Some(if is_negative(s) { -literal_magnitude(s) } else { literal_magnitude(s) as int })
    } else {
        None
    }
}

proof fn lemma_run_end(s: Seq<u8>, a: int, b: int)
    requires
        0 <= a <= b <= s.len(),
        forall|k: int| a <= k < b ==> is_digit(#[trigger] s[k]),
        b == s.len() || !is_digit(s[b]),
    ensures
        run_end(s, a) == b,
    decreases b - a,
{
    if a < b {
        lemma_run_end(s, a + 1, b);
    }
}

proof fn lemma_pow10_5()
    ensures
        pow10(0) == 1,
        pow10(1) == 10,
        pow10(2) == 100,
        pow10(3) == 1000,
        pow10(4) == 10000,
        pow10(5) == 100000,
{
    reveal_with_fuel(pow10, 6);
}

/// Parses a decimal literal into fixed-point units of 10^-5.
pub fn parse_decimal(s: &[u8]) -> (r: Option<i64>)
    ensures
        match r {
            Some(v) => literal_value(s@) == Some(v as int),
            None => literal_value(s@) is None,
        },
{
    let n = s.len();
    let mut i: usize = 0;
    let negative = n > 0 && s[0] == 45u8;
    if n > 0 && (s[0] == 43u8 || s[0] == 45u8) {
        i = 1;
    }
    let start = i;
    let mut whole: u64 = 0;
    let mut big = false;
    while i < n && 48u8 <= s[i] && s[i] <= 57u8
        invariant
            start == sign_len(s@),
            n == s.len(),
            start <= i <= n,
            forall|k: int| start <= k < i ==> is_digit(#[trigger] s@[k]),
            !big ==> whole == digits_value(s@.subrange(start as int, i as int)),
            !big ==> whole <= MAX_WHOLE,
            big ==> digits_value(s@.subrange(start as int, i as int)) > MAX_WHOLE,
        decreases n - i,
    {
        proof {
            let p = s@.subrange(start as int, i as int);
            let q = s@.subrange(start as int, i + 1);
            assert(q.drop_last() =~= p);
            assert(q.last() == s@[i as int]);
        }
        let d = (s[i] - 48u8) as u64;
        if !big {
            if whole > MAX_WHOLE / 10 || whole * 10 + d > MAX_WHOLE {
                big = true;
            } else {
                whole = whole * 10 + d;
            }
        }
        i = i + 1;
    }
    proof {
        lemma_run_end(s@, start as int, i as int);
    }
    let int_stop = i;
    if int_stop == start || big {
        return None;
    }
    let mut units: u64 = 0;
    let mut count: usize = 0;
    let mut round_up = false;
    if i < n {
        if s[i] != 46u8 || i + 1 == n {
            return None;
        }
        i = i + 1;
        let fstart = i;
        while i < n
            invariant
                fstart == int_stop + 1,
                int_end(s@) == int_stop,
                int_stop < fstart <= i <= n,
                n == s.len(),
                count == i - fstart,
                forall|k: int| fstart <= k < i ==> is_digit(#[trigger] s@[k]),
                units == digits_value(first5(s@.subrange(fstart as int, i as int))),
                units < pow10(first5(s@.subrange(fstart as int, i as int)).len()),
                round_up == (count > 5 && s@[fstart + 5] >= 53u8),
            decreases n - i,
        {
            if s[i] < 48u8 || s[i] > 57u8 {
                assert(!is_digit(s@[i as int]));
                assert(int_end(s@) == int_stop);
                assert(!is_literal(s@));
                return None;
            }
            let d = (s[i] - 48u8) as u64;
            proof {
                let p = s@.subrange(fstart as int, i as int);
                let q = s@.subrange(fstart as int, i + 1);
                lemma_pow10_5();
                if count < 5 {
                    assert(first5(q) =~= q);
                    assert(q.drop_last() =~= p);
                    assert(first5(p) =~= p);
                    assert(units * 10 + d < pow10((p.len() + 1) as nat)) by (nonlinear_arith)
                        requires
                            units < pow10(p.len() as nat),
                            d <= 9,
                            pow10((p.len() + 1) as nat) == 10 * pow10(p.len() as nat),
                    ;
                } else {
                    assert(first5(q) =~= first5(p));
                }
            }
            if count < 5 {
                units = units * 10 + d;
            } else if count == 5 {
                round_up = d >= 5;
            }
            count = count + 1;
            i = i + 1;
        }
        proof {
            let f = s@.subrange(fstart as int, n as int);
            assert(frac_digits(s@) =~= f);
        }
    } else {
        proof {
            assert(frac_digits(s@) =~= Seq::<u8>::empty());
            assert(first5(Seq::<u8>::empty()) =~= Seq::<u8>::empty());
        }
    }
    let ghost f = frac_digits(s@);
    let ghost flen = first5(f).len();
    proof {
        lemma_pow10_5();
        assert(s@.subrange(start as int, int_stop as int) =~= s@.subrange(sign_len(s@), int_end(s@)));
    }
    let mut pad: usize = if count < 5 { count } else { 5 };
    assert(pad == flen);
    assert(units == digits_value(first5(f))) by {
        if int_stop < n {
            assert(f =~= s@.subrange(int_stop + 1, n as int));
        }
    }
    assert((pad - flen) as nat == 0);
    assert(units == digits_value(first5(f)) * pow10(0));
    while pad < 5
        invariant
            flen <= pad <= 5,
            units == digits_value(first5(f)) * pow10((pad - flen) as nat),
            units < pow10(pad as nat),
        decreases 5 - pad,
    {
        proof {
            lemma_pow10_5();
            let a = digits_value(first5(f));
            let e = (pad - flen) as nat;
            assert(pow10(e + 1) == 10 * pow10(e));
            assert(pow10((pad + 1) as nat) == 10 * pow10(pad as nat));
            assert(a * pow10(e + 1) == units * 10) by (nonlinear_arith)
                requires
                    units == a * pow10(e),
                    pow10(e + 1) == 10 * pow10(e),
            ;
        }
        units = units * 10;
        pad = pad + 1;
    }
    let magnitude: u64 = whole * 100000 + units + if round_up { 1u64 } else { 0u64 };
    if magnitude > 9223372036854775807u64 {
        return None;
    }
    if negative {
        Some(-(magnitude as i64))
    } else {
        Some(magnitude as i64)
    }
}

/// Decimal digits of `n`, most significant first, without leading zeros.
pub open spec fn nat_digits(n: nat) -> Seq<u8>
    decreases n,
{
    if n < 10 {
        seq![(48 + n) as u8]
    } else {
        nat_digits(n / 10).push((48 + n % 10) as u8)
    }
}

/// The last `w` decimal digits of `n`, zero-padded.
pub open spec fn padded_digits(n: nat, w: nat) -> Seq<u8>
    decreases w,
{
    if w == 0 {
        Seq::empty()
    } else {
        padded_digits(n / 10, (w - 1) as nat).push((48 + n % 10) as u8)
    }
}

/// Text of a fixed-point value: an optional minus, the whole part, a point and five decimals.
pub open spec fn decimal_text(v: int) -> Seq<u8> {
    let m: nat = if v < 0 { (-v) as nat } else { v as nat };
    (if v < 0 { seq![45u8] } else { Seq::empty() }) + nat_digits(m / 100000) + seq![46u8]
        + padded_digits(m % 100000, 5)
}

fn push_digits(out: &mut Vec<u8>, n: u64)
    ensures
        final(out)@ == old(out)@ + nat_digits(n as nat),
    decreases n,
{
    if n >= 10 {
        push_digits(out, n / 10);
    }
    out.push((48 + n % 10) as u8);
    assert(out@ =~= old(out)@ + nat_digits(n as nat));
}

fn push_padded(out: &mut Vec<u8>, n: u64, w: u64)
    ensures
        final(out)@ == old(out)@ + padded_digits(n as nat, w as nat),
    decreases w,
{
    if w > 0 {
        push_padded(out, n / 10, w - 1);
        out.push((48 + n % 10) as u8);
        assert(out@ =~= old(out)@ + padded_digits(n as nat, w as nat));
    } else {
        assert(out@ =~= old(out)@ + padded_digits(n as nat, w as nat));
    }
}

/// Writes a fixed-point value as decimal text with five decimals (`8750000` as `87.50000`).
pub fn format_decimal(v: i64) -> (r: Vec<u8>)
    ensures
        r@ == decimal_text(v as int),
{
    let mut out: Vec<u8> = Vec::new();
    let m: u64 = if v < 0 {
        if v == i64::MIN { 9223372036854775808u64 } else { (-v) as u64 }
    } else {
        v as u64
    };
    if v < 0 {
        out.push(45u8);
    }
    push_digits(&mut out, m / 100000);
    out.push(46u8);
    push_padded(&mut out, m % 100000, 5);
    proof {
        assert(out@ =~= decimal_text(v as int));
    }
    out
}

proof fn lemma_nat_digits(n: nat)
    ensures
        nat_digits(n).len() >= 1,
        digits_value(nat_digits(n)) == n,
        forall|k: int| 0 <= k < nat_digits(n).len() ==> is_digit(#[trigger] nat_digits(n)[k]),
    decreases n,
{
    if n >= 10 {
        lemma_nat_digits(n / 10);
        assert(nat_digits(n).drop_last() =~= nat_digits(n / 10));
        assert(nat_digits(n).last() as int == 48 + n % 10);
        assert(digits_value(nat_digits(n)) == digits_value(nat_digits(n / 10)) * 10 + (n % 10) as nat);
        assert(n == (n / 10) * 10 + n % 10);
        assert forall|k: int| 0 <= k < nat_digits(n).len() implies is_digit(#[trigger] nat_digits(n)[k]) by {
            if k < nat_digits(n).len() - 1 {
                assert(nat_digits(n)[k] == nat_digits(n / 10)[k]);
            }
        }
    } else {
        assert(nat_digits(n).drop_last() =~= Seq::<u8>::empty());
        assert(nat_digits(n).last() as int == 48 + n);
        assert(digits_value(nat_digits(n)) == digits_value(Seq::<u8>::empty()) * 10 + n);
    }
}

proof fn lemma_padded_digits(n: nat, w: nat)
    ensures
        padded_digits(n, w).len() == w,
        digits_value(padded_digits(n, w)) == n % pow10(w),
        forall|k: int| 0 <= k < w ==> is_digit(#[trigger] padded_digits(n, w)[k]),
    decreases w,
{
    if w > 0 {
        let w1 = (w - 1) as nat;
        lemma_padded_digits(n / 10, w1);
        assert(padded_digits(n, w).drop_last() =~= padded_digits(n / 10, w1));
        assert(pow10(w) == 10 * pow10(w1));
        assert(pow10(w1) > 0) by {
            lemma_pow10_positive(w1);
        }
        vstd::arithmetic::div_mod::lemma_mod_breakdown(n as int, 10, pow10(w1) as int);
        assert forall|k: int| 0 <= k < w implies is_digit(#[trigger] padded_digits(n, w)[k]) by {
            if k < w - 1 {
                assert(padded_digits(n, w)[k] == padded_digits(n / 10, w1)[k]);
            }
        }
    } else {
        assert(n % 1 == 0);
    }
}

proof fn lemma_pow10_positive(w: nat)
    ensures
        pow10(w) > 0,
    decreases w,
{
    if w > 0 {
        lemma_pow10_positive((w - 1) as nat);
    }
}

/// Writing a value as decimal text and reading the text back gives the value again
/// (every `i64` but the one whose magnitude exceeds `i64::MAX`).
pub proof fn lemma_decimal_round_trip(v: i64)
    requires
        v > i64::MIN,
    ensures
        literal_value(decimal_text(v as int)) == Some(v as int),
{
    let s = decimal_text(v as int);
    let m: nat = if v < 0 { (-v) as nat } else { v as nat };
    let sl: int = if v < 0 { 1 } else { 0 };
    let w = nat_digits(m / 100000);
    let f = padded_digits(m % 100000, 5);
    lemma_nat_digits(m / 100000);
    lemma_padded_digits(m % 100000, 5);
    lemma_pow10_5();
    let e = sl + w.len();
    assert(s.len() == e + 6);
    assert forall|k: int| sl <= k < e implies is_digit(#[trigger] s[k]) by {
        assert(s[k] == w[k - sl]);
    }
    assert(s[e] == 46u8);
    assert(sign_len(s) == sl) by {
        if v >= 0 {
            assert(s[0] == w[0]);
        }
    }
    lemma_run_end(s, sl, e);
    assert(int_end(s) == e);
    assert(s.subrange(sl, e) =~= w);
    assert(frac_digits(s) =~= f);
    assert forall|k: int| e + 1 <= k < s.len() implies is_digit(#[trigger] s[k]) by {
        assert(s[k] == f[k - e - 1]);
    }
    assert(first5(f) == f);
    vstd::arithmetic::div_mod::lemma_small_mod((m % 100000) as nat, 100000);
    assert(digits_value(f) == m % 100000);
    assert(frac_units(f) == digits_value(f) * pow10(0));
    assert(frac_units(f) == m % 100000);
    assert(literal_magnitude(s) == m);
}

} // verus!
