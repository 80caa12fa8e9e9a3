//! Decimal strings to fixed-point integers scaled by 10^8, truncating toward zero.

use vstd::prelude::*;
use crate::text::chars_of;

verus! {

pub open spec fn is_digit(c: char) -> bool {
    '0' <= c && c <= '9'
}

pub open spec fn digit_val(c: char) -> int {
    c as int - '0' as int
}

pub open spec fn all_digits(s: Seq<char>) -> bool {
    forall|i: int| 0 <= i < s.len() ==> is_digit(#[trigger] s[i])
}

/// The value of a string of decimal digits.
pub open spec fn digits_value(s: Seq<char>) -> int
    decreases s.len(),
{
    if s.len() == 0 {
        0
    } else {
        digits_value(s.drop_last()) * 10 + digit_val(s.last())
    }
}

/// The number of leading digits of `s`.
pub open spec fn digit_run(s: Seq<char>) -> int
    decreases s.len(),
{
    if s.len() > 0 && is_digit(s[0]) {
        1 + digit_run(s.drop_first())
    } else {
        0
    }
}

pub open spec fn pow10(n: nat) -> int
    decreases n,
{
    if n == 0 {
        1
    } else {
        10 * pow10((n - 1) as nat)
    }
}

/// The first eight fractional digits, padded with zeros: the fraction scaled by 10^8.
pub open spec fn frac8(f: Seq<char>) -> int {
    digits_value((f + Seq::new(8, |i: int| '0')).take(8))
}

/// The largest magnitude, scaled, that a signed 64-bit integer holds.
pub open spec fn max_scaled() -> int {
    0x7fff_ffff_ffff_ffff
}

/// `[-]digits[.digits]` with at least one digit, scaled by 10^8 and truncated toward
/// zero; `None` when the text has another form or the magnitude does not fit in `i64`.
pub open spec fn scaled_decimal(s: Seq<char>) -> Option<int> {
    let neg = s.len() > 0 && s[0] == '-';
    let body = if neg {
        s.drop_first()
    } else {
        s
    };
    let k = digit_run(body);
    let ip = body.take(k);
    let rest = body.skip(k);
    let fp = if rest.len() > 0 {
        rest.skip(1)
    } else {
        Seq::empty()
    };
    let well_formed = (rest.len() == 0 || (rest[0] == '.' && all_digits(fp))) && ip.len() + fp.len()
        > 0;
    let mag = digits_value(ip) * 100_000_000 + frac8(fp);
    if well_formed && mag <= max_scaled() {
        Some(
            if neg {
                -mag
            } else {
                mag
            },
        )
    } else {
        None
    }
}

pub proof fn lemma_digits_value_nonneg(s: Seq<char>)
    requires
        all_digits(s),
    ensures
        digits_value(s) >= 0,
    decreases s.len(),
{
    if s.len() > 0 {
        lemma_digits_value_nonneg(s.drop_last());
    }
}

proof fn lemma_digit_run(s: Seq<char>, i: int)
    requires
        0 <= i <= s.len(),
        all_digits(s.take(i)),
        i == s.len() || !is_digit(s[i]),
    ensures
        digit_run(s) == i,
    decreases i,
{
    if i > 0 {
        assert(is_digit(s.take(i)[0]));
        assert(s.drop_first().take(i - 1) =~= s.take(i).drop_first());
        lemma_digit_run(s.drop_first(), i - 1);
    }
}

proof fn lemma_digits_value_zeros(s: Seq<char>, k: nat)
    ensures
        digits_value(s + Seq::new(k, |i: int| '0')) == digits_value(s) * pow10(k),
    decreases k,
{
    if k > 0 {
        let z = Seq::new(k, |i: int| '0');
        let z1 = Seq::new((k - 1) as nat, |i: int| '0');
        assert((s + z).drop_last() =~= s + z1);
        lemma_digits_value_zeros(s, (k - 1) as nat);
        assert(digits_value(s) * pow10((k - 1) as nat) * 10 == digits_value(s) * pow10(k))
            by (nonlinear_arith)
            requires pow10(k) == 10 * pow10((k - 1) as nat);
    }
}

fn is_digit_char(c: char) -> (r: bool)
    ensures
        r == is_digit(c),
{
    '0' <= c && c <= '9'
}

/// Scans the digits of `cs` from `from`; their value when it is at most `cap`.
fn scan_digits(cs: &Vec<char>, from: usize, cap: u64) -> (r: (usize, Option<u64>))
    requires
        from <= cs@.len(),
        cap <= 1_000_000_000_000_000,
    ensures
        from <= r.0 <= cs@.len(),
        all_digits(cs@.subrange(from as int, r.0 as int)),
        r.0 == cs@.len() || !is_digit(cs@[r.0 as int]),
        match r.1 {
            Some(v) => v == digits_value(cs@.subrange(from as int, r.0 as int)) && v <= cap,
            None => digits_value(cs@.subrange(from as int, r.0 as int)) > cap,
        },
{
    let n = cs.len();
    let mut acc: u64 = 0;
    let mut over = false;
    let mut i: usize = from;
    while i < n && is_digit_char(cs[i])
        invariant
            n == cs@.len(),
            from <= i <= n,
            cap <= 1_000_000_000_000_000,
            all_digits(cs@.subrange(from as int, i as int)),
            !over ==> acc == digits_value(cs@.subrange(from as int, i as int)) && acc <= cap,
            over ==> digits_value(cs@.subrange(from as int, i as int)) > cap,
        decreases n - i,
    {
        let d = cs[i];
        let dv = (d as u32 - '0' as u32) as u64;
        proof {
            let pre = cs@.subrange(from as int, i as int);
            assert(cs@.subrange(from as int, i + 1) =~= pre.push(d));
            assert(pre.push(d).drop_last() =~= pre);
            lemma_digits_value_nonneg(pre);
        }
        if !over {
            let next = acc * 10 + dv;
            if next > cap {
                over = true;
            } else {
                acc = next;
            }
        }
        i = i + 1;
    }
    if over {
        (i, None)
    } else {
        (i, Some(acc))
    }
}

/// Scans the fraction digits of `cs` from `from`, keeping the value of the first eight.
fn scan_fraction(cs: &Vec<char>, from: usize) -> (r: (usize, u64))
    requires
        from <= cs@.len(),
    ensures
        from <= r.0 <= cs@.len(),
        all_digits(cs@.subrange(from as int, r.0 as int)),
        r.0 == cs@.len() || !is_digit(cs@[r.0 as int]),
        r.1 == digits_value(
            cs@.subrange(from as int, r.0 as int).take(
                if r.0 - from < 8 {
                    r.0 - from
                } else {
                    8
                },
            ),
        ),
{
    let n = cs.len();
    let mut acc: u64 = 0;
    let mut i: usize = from;
    while i < n && is_digit_char(cs[i])
        invariant
            n == cs@.len(),
            from <= i <= n,
            all_digits(cs@.subrange(from as int, i as int)),
            acc == digits_value(
                cs@.subrange(from as int, i as int).take(if i - from < 8 { i - from } else { 8 }),
            ),
            i - from < 8 ==> acc < pow10((i - from) as nat),
        decreases n - i,
    {
        let d = cs[i];
        proof {
            let pre = cs@.subrange(from as int, i as int);
            assert(cs@.subrange(from as int, i + 1) =~= pre.push(d));
            if i - from < 8 {
                assert(pre.push(d).take(i - from + 1) =~= pre.push(d));
                assert(pre.take(i - from) =~= pre);
                assert(pre.push(d).drop_last() =~= pre);
                assert(pow10((i - from + 1) as nat) == 10 * pow10((i - from) as nat));
                lemma_pow10_le8((i - from + 1) as nat);
            } else {
                assert(pre.push(d).take(8) =~= pre.take(8));
            }
        }
        if i - from < 8 {
            acc = acc * 10 + (d as u32 - '0' as u32) as u64;
        }
        i = i + 1;
    }
    (i, acc)
}

/// The first eight digits of `f`, padded with zeros, as a number.
fn fraction_scaled(Ghost(f): Ghost<Seq<char>>, first: u64, taken: usize) -> (r: u64)
    requires
        taken == (if f.len() < 8 { f.len() } else { 8 }),
        first == digits_value(f.take(taken as int)),
        all_digits(f),
    ensures
        r == frac8(f),
        r < 100_000_000,
{
    let ghost zeros = Seq::new(8, |j: int| '0');
    let mut acc = first;
    let mut p: usize = taken;
    proof {
        assert((f + zeros).take(p as int) =~= f.take(p as int));
        lemma_digits_below_pow10(f.take(p as int));
        lemma_pow10_le8(p as nat);
    }
    while p < 8
        invariant
            taken <= p <= 8,
            zeros == Seq::new(8, |j: int| '0'),
            p > taken ==> f.len() < 8,
            taken == (if f.len() < 8 { f.len() } else { 8 }),
            acc == digits_value((f + zeros).take(p as int)),
            acc < pow10(p as nat),
        decreases 8 - p,
    {
        proof {
            assert(f.len() <= p);
            assert((f + zeros)[p as int] == zeros[p - f.len()]);
            assert((f + zeros).take(p + 1) =~= (f + zeros).take(p as int).push('0'));
            assert((f + zeros).take(p as int).push('0').drop_last() =~= (f + zeros).take(p as int));
            assert(pow10((p + 1) as nat) == 10 * pow10(p as nat));
            lemma_pow10_le8((p + 1) as nat);
        }
        acc = acc * 10;
        p = p + 1;
    }
    proof {
        lemma_pow10_le8(8);
    }
    acc
}

proof fn lemma_digits_below_pow10(s: Seq<char>)
    requires
        all_digits(s),
    ensures
        0 <= digits_value(s) < pow10(s.len()),
    decreases s.len(),
{
    if s.len() > 0 {
        lemma_digits_below_pow10(s.drop_last());
        assert(pow10(s.len()) == 10 * pow10((s.len() - 1) as nat));
    }
}

/// Parses `[-]digits[.digits]` into an integer scaled by 10^8, truncating digits past
/// the eighth decimal toward zero.
pub fn parse_scaled(s: &str) -> (r: Option<i64>)
    ensures
        match scaled_decimal(s@) {
            Some(v) => r is Some && r->0 == v,
            None => r is None,
        },
{
    let cs = chars_of(s);
    let n = cs.len();
    let neg = n > 0 && cs[0] == '-';
    let start: usize = if neg { 1 } else { 0 };
    let ghost body = if neg { cs@.drop_first() } else { cs@ };
    assert(body =~= cs@.subrange(start as int, n as int));
    let (iend, int_val) = scan_digits(&cs, start, 92_233_720_368);
    let ghost k = iend - start;
    let ghost ip = body.take(k);
    let ghost rest = body.skip(k);
    let ghost fp: Seq<char> = if rest.len() > 0 { rest.skip(1) } else { Seq::empty() };
    proof {
        assert(ip =~= cs@.subrange(start as int, iend as int));
        assert(rest =~= cs@.subrange(iend as int, n as int));
        lemma_digit_run(body, k);
        lemma_digits_value_nonneg(ip);
    }
    if iend < n && cs[iend] != '.' {
        return None;
    }
    let mut fend: usize = iend;
    let mut frac_first: u64 = 0;
    if iend < n {
        let (e, fv) = scan_fraction(&cs, iend + 1);
        fend = e;
        frac_first = fv;
        proof {
            assert(fp =~= cs@.subrange(iend + 1, n as int));
        }
        if fend < n {
            proof {
                assert(fp[fend - iend - 1] == cs@[fend as int]);
            }
            return None;
        }
    } else {
        assert(fp =~= Seq::<char>::empty());
        assert(fp.take(0) =~= Seq::<char>::empty());
    }
    if iend == start && fend <= iend + 1 {
        return None;
    }
    let taken: usize = if fend == iend { 0 } else if fend - (iend + 1) < 8 { fend - (iend + 1) } else { 8 };
    let frac = fraction_scaled(Ghost(fp), frac_first, taken);
    match int_val {
        None => {
            assert(digits_value(ip) * 100_000_000 > max_scaled()) by (nonlinear_arith)
                requires digits_value(ip) > 92_233_720_368;
            None
        },
        Some(iv) => {
            let mag: u64 = iv * 100_000_000 + frac;
            if mag > 0x7fff_ffff_ffff_ffffu64 {
                None
            } else if neg {
                Some(-(mag as i64))
            } else {
                Some(mag as i64)
            }
        },
    }
}

proof fn lemma_pow10_le8(n: nat)
    requires
        n <= 8,
    ensures
        1 <= pow10(n) <= 100_000_000,
    decreases n,
{
    reveal_with_fuel(pow10, 9);
    if n > 0 {
        lemma_pow10_le8((n - 1) as nat);
    }
}

proof fn lemma_pow10_add(a: nat, b: nat)
    ensures
        pow10(a + b) == pow10(a) * pow10(b),
    decreases a,
{
    if a > 0 {
        lemma_pow10_add((a - 1) as nat, b);
        assert(pow10(a + b) == 10 * pow10((a - 1 + b) as nat));
        assert(10 * (pow10((a - 1) as nat) * pow10(b)) == (10 * pow10((a - 1) as nat)) * pow10(b))
            by (nonlinear_arith);
    }
}

/// Scaling is exact: a non-negative decimal `ip.fp` with at most eight fractional
/// digits and a value of at most 2^55 / 10^8 parses to `v` with `v / 10^8` equal to it.
pub proof fn lemma_scaled_round_trip(ip: Seq<char>, fp: Seq<char>)
    requires
        all_digits(ip),
        all_digits(fp),
        fp.len() <= 8,
        ip.len() > 0,
        (digits_value(ip) * pow10(fp.len()) + digits_value(fp)) * 100_000_000 <= 0x80_0000_0000_0000
            * pow10(fp.len()),
    ensures
        ({
            let s = ip + seq!['.'] + fp;
            &&& scaled_decimal(s) is Some
            &&& scaled_decimal(s)->0 * pow10(fp.len()) == (digits_value(ip) * pow10(fp.len())
                + digits_value(fp)) * 100_000_000
        }),
{
    let s = ip + seq!['.'] + fp;
    let k = ip.len() as int;
    assert(s[0] == ip[0]);
    assert(s.take(k) =~= ip);
    lemma_digit_run(s, k);
    assert(s.skip(k) =~= seq!['.'] + fp);
    assert((seq!['.'] + fp).skip(1) =~= fp);
    let zeros = Seq::new(8, |j: int| '0');
    let z = Seq::new((8 - fp.len()) as nat, |j: int| '0');
    assert((fp + zeros).take(8) =~= fp + z);
    lemma_digits_value_zeros(fp, (8 - fp.len()) as nat);
    lemma_pow10_add((8 - fp.len()) as nat, fp.len());
    lemma_pow10_le8(8);
    reveal_with_fuel(pow10, 9);
    assert(pow10(8) == 100_000_000);
    lemma_digits_value_nonneg(ip);
    lemma_digits_value_nonneg(fp);
    lemma_pow10_le8(fp.len());
    let a = digits_value(ip);
    let b = digits_value(fp);
    let pl = pow10(fp.len());
    let pr = pow10((8 - fp.len()) as nat);
    let mag = a * 100_000_000 + b * pr;
    assert(mag * pl == (a * pl + b) * 100_000_000) by (nonlinear_arith)
        requires
            pr * pl == 100_000_000,
            mag == a * 100_000_000 + b * pr,
    ;
    assert(mag <= 0x80_0000_0000_0000) by (nonlinear_arith)
        requires
            mag * pl == (a * pl + b) * 100_000_000,
            (a * pl + b) * 100_000_000 <= 0x80_0000_0000_0000 * pl,
            pl >= 1,
    ;
}

} // verus!
