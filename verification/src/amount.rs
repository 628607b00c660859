//! Fixed-point decimal amounts with four fractional digits, held in `i64`
//! units of one ten-thousandth. This module gives the ingestion and
//! rendering collaborators verified conversions between byte strings and
//! units: parsing of non-negative decimal literals such as `12`, `12.5` or
//! `0.0001`, and formatting with exactly four fractional digits.

use vstd::prelude::*;

verus! {

/// ASCII code of `.`.
pub const DOT: u8 = 46;

/// ASCII code of `-`.
pub const MINUS: u8 = 45;

pub open spec fn is_ascii_digit(b: u8) -> bool {
    48 <= b <= 57
}

pub open spec fn digit_val(b: u8) -> int {
    b - 48
}

pub open spec fn all_digits(s: Seq<u8>) -> bool {
    forall|i: int| 0 <= i < s.len() ==> is_ascii_digit(#[trigger] s[i])
}

/// Numeric value of a big-endian string of decimal digit bytes.
pub open spec fn digits_val(s: Seq<u8>) -> int
    decreases s.len(),
{
    if s.len() == 0 {
        0
    } else {
        digits_val(s.drop_last()) * 10 + digit_val(s.last())
    }
}

pub open spec fn pow10(n: nat) -> int
    decreases n,
{
    if n == 0 {
        1
    } else {
        10 * pow10((n - 1) as nat)
    }
}

/// Scale factor that pads a fractional part of `n` digits to four digits.
pub open spec fn frac_scale(n: int) -> int {
    if n == 1 {
        1000
    } else if n == 2 {
        100
    } else if n == 3 {
        10
    } else {
        1
    }
}

/// A well-formed non-negative amount literal: a non-empty run of digits,
/// optionally followed by a dot and one to four fractional digits.
pub open spec fn amount_str_ok(s: Seq<u8>) -> bool {
    if s.contains(DOT) {
        let i = s.index_of(DOT);
        let ip = s.take(i);
        let fp = s.skip(i + 1);
        &&& ip.len() >= 1
        &&& all_digits(ip)
        &&& 1 <= fp.len() <= 4
        &&& all_digits(fp)
    } else {
        s.len() >= 1 && all_digits(s)
    }
}

/// Value of a well-formed amount literal, in units of one ten-thousandth.
pub open spec fn amount_str_val(s: Seq<u8>) -> int {
    if s.contains(DOT) {
        let i = s.index_of(DOT);
        let fp = s.skip(i + 1);
        digits_val(s.take(i)) * 10000 + digits_val(fp) * frac_scale(fp.len() as int)
    } else {
        digits_val(s) * 10000
    }
}

pub proof fn lemma_digits_val_nonneg(s: Seq<u8>)
    requires
        all_digits(s),
    ensures
        digits_val(s) >= 0,
    decreases s.len(),
{
    if s.len() > 0 {
        assert(all_digits(s.drop_last()));
        lemma_digits_val_nonneg(s.drop_last());
    }
}

pub proof fn lemma_digits_val_bound(s: Seq<u8>)
    requires
        all_digits(s),
    ensures
        digits_val(s) < pow10(s.len()),
    decreases s.len(),
{
    if s.len() > 0 {
        assert(all_digits(s.drop_last()));
        lemma_digits_val_bound(s.drop_last());
    }
}

/// Parses a non-negative fixed-point amount with up to four fractional
/// digits. Returns the value in units of one ten-thousandth, or `None` when
/// the bytes are not a well-formed amount literal or the value does not fit
/// in `i64`.
pub fn parse_amount(s: &[u8]) -> (r: Option<i64>)
    ensures
        r == if amount_str_ok(s@) && amount_str_val(s@) <= i64::MAX {
            Some(amount_str_val(s@) as i64)
        } else {
            None::<i64>
        },
{
    let n = s.len();
    // Find the first dot, if any.
    let mut dot: usize = n;
    let mut j: usize = 0;
    while j < n
        invariant
            0 <= j <= n,
            dot <= n,
            n == s@.len(),
            dot == n ==> forall|k: int| 0 <= k < j ==> s@[k] != DOT,
            dot < n ==> s@[dot as int] == DOT && (forall|k: int| 0 <= k < dot ==> s@[k] != DOT),
        decreases n - j,
    {
        if dot == n && s[j] == DOT {
            dot = j;
        }
        j = j + 1;
    }
    proof {
        if dot == n {
            assert(!s@.contains(DOT)) by {
                if s@.contains(DOT) {
                    let q = choose|q: int| 0 <= q < s@.len() && s@[q] == DOT;
                    assert(s@[q] != DOT);
                }
            }
        } else {
            assert(s@.contains(DOT));
            // Whichever dot position the specification picks lies at or
            // after the first one.
            assert(s@[s@.index_of(DOT)] == DOT);
            assert(s@.index_of(DOT) >= dot);
        }
    }
    let ip_len: usize = if dot < n {
        dot
    } else {
        n
    };
    if ip_len == 0 {
        // Empty input, or a leading dot: not a well-formed literal.
        proof {
            if s@.contains(DOT) {
                let q = s@.index_of(DOT);
                if q > 0 {
                    assert(s@.take(q)[0] == s@[0]);
                    assert(!is_ascii_digit(DOT));
                }
            }
        }
        return None;
    }
    // Accumulate the integer part; `big` records that its value has already
    // exceeded i64::MAX.
    let mut acc: u128 = 0;
    let mut big: bool = false;
    let mut i: usize = 0;
    while i < ip_len
        invariant
            0 <= i <= ip_len <= n,
            dot <= n,
            n == s@.len(),
            dot < n ==> ip_len == dot && s@[dot as int] == DOT && (forall|k: int|
                0 <= k < dot ==> s@[k] != DOT),
            dot == n ==> ip_len == n && !s@.contains(DOT),
            all_digits(s@.take(i as int)),
            !big ==> acc == digits_val(s@.take(i as int)) && acc <= i64::MAX,
            big ==> digits_val(s@.take(i as int)) > i64::MAX,
        decreases ip_len - i,
    {
        let b = s[i];
        if b < 48 || b > 57 {
            // A non-digit inside the integer part: whichever dot position
            // the specification picks, its integer part contains this byte.
            proof {
                if s@.contains(DOT) {
                    let q = s@.index_of(DOT);
                    assert(s@[q] == DOT && q >= dot);
                    assert(s@.take(q)[i as int] == s@[i as int]);
                    assert(!all_digits(s@.take(q)));
                } else {
                    assert(s@.take(n as int) =~= s@);
                    assert(s@[i as int] == b);
                    assert(!all_digits(s@));
                }
            }
            return None;
        }
        proof {
            assert(s@.take((i + 1) as int).drop_last() =~= s@.take(i as int));
            assert(s@.take((i + 1) as int).last() == s@[i as int]);
            assert(digits_val(s@.take((i + 1) as int)) == digits_val(s@.take(i as int)) * 10
                + digit_val(s@[i as int]));
        }
        let d: u128 = (b - 48) as u128;
        if !big {
            let acc2: u128 = acc * 10 + d;
            if acc2 > i64::MAX as u128 {
                big = true;
            } else {
                acc = acc2;
            }
        }
        i = i + 1;
    }
    // Fractional part: one to four digits after the dot, or none at all.
    let mut fv: u64 = 0;
    let mut f_len: usize = 0;
    if dot < n {
        f_len = n - dot - 1;
        if f_len < 1 || f_len > 4 {
            // Dot at the end, or too many fractional digits: whichever dot
            // position the specification picks, the literal is ill-formed.
            proof {
                assert(s@.contains(DOT));
                let q = s@.index_of(DOT);
                assert(s@[q] == DOT && q >= dot);
                if q == dot {
                    assert(s@.skip(q + 1).len() == f_len);
                } else {
                    assert(q > dot);
                    assert(s@.take(q)[dot as int] == DOT);
                    assert(!is_ascii_digit(DOT));
                    assert(!all_digits(s@.take(q)));
                }
            }
            return None;
        }
        let fp_ghost = Ghost(s@.skip(dot + 1));
        let mut k: usize = 0;
        while k < f_len
            invariant
                0 <= k <= f_len <= 4,
                dot < n,
                n == s@.len(),
                f_len == n - dot - 1,
                s@[dot as int] == DOT,
                forall|q: int| 0 <= q < dot ==> s@[q] != DOT,
                fp_ghost@ == s@.skip(dot + 1),
                all_digits(fp_ghost@.take(k as int)),
                fv == digits_val(fp_ghost@.take(k as int)),
                fv < pow10(k as nat),
            decreases f_len - k,
        {
            let b = s[dot + 1 + k];
            proof {
                assert(fp_ghost@[k as int] == s@[(dot + 1 + k) as int]);
            }
            if b < 48 || b > 57 {
                // A non-digit after the dot: whichever dot position the
                // specification picks, the literal is ill-formed.
                proof {
                    assert(s@.contains(DOT));
                    let q = s@.index_of(DOT);
                    if q == dot {
                        assert(s@.skip(q + 1)[k as int] == b);
                        assert(!all_digits(s@.skip(q + 1)));
                    } else {
                        assert(q > dot);
                        assert(s@.take(q)[dot as int] == DOT);
                        assert(!is_ascii_digit(DOT));
                        assert(!all_digits(s@.take(q)));
                    }
                }
                return None;
            }
            proof {
                assert(fp_ghost@.take((k + 1) as int).drop_last() =~= fp_ghost@.take(k as int));
                assert(fp_ghost@.take((k + 1) as int).last() == fp_ghost@[k as int]);
                assert(digits_val(fp_ghost@.take((k + 1) as int)) == digits_val(fp_ghost@.take(
                    k as int,
                )) * 10 + digit_val(fp_ghost@[k as int]));
                lemma_digits_val_bound(fp_ghost@.take((k + 1) as int));
                assert(pow10(0) == 1);
                assert(pow10(1) == 10);
                assert(pow10(2) == 100);
                assert(pow10(3) == 1000);
                assert(pow10(4) == 10000);
            }
            fv = fv * 10 + ((b - 48) as u64);
            k = k + 1;
        }
        proof {
            assert(fp_ghost@.take(f_len as int) =~= fp_ghost@);
            assert(all_digits(s@.skip(dot + 1)));
            assert(fv == digits_val(s@.skip(dot + 1)));
            assert(pow10(0) == 1);
            assert(pow10(1) == 10);
            assert(pow10(2) == 100);
            assert(pow10(3) == 1000);
            assert(pow10(4) == 10000);
            assert(fv < 10000);
        }
    }
    // Every byte has now been checked: the first dot is the only dot, so it
    // is the one the specification picks, and the literal is well-formed.
    proof {
        if dot < n {
            assert(s@.contains(DOT));
            let q = s@.index_of(DOT);
            assert(s@[q] == DOT);
            if q != dot {
                assert(q > dot);
                assert(s@.skip(dot + 1)[(q - dot - 1) as int] == s@[q]);
                assert(false);
            }
            assert(q == dot);
            assert(amount_str_ok(s@));
            assert(amount_str_val(s@) == digits_val(s@.take(dot as int)) * 10000 + digits_val(
                s@.skip(dot + 1),
            ) * frac_scale(f_len as int));
            lemma_digits_val_nonneg(s@.skip(dot + 1));
        } else {
            assert(s@.take(n as int) =~= s@);
            assert(amount_str_ok(s@));
            assert(amount_str_val(s@) == digits_val(s@) * 10000);
        }
    }
    let scale: u64 = if f_len == 1 {
        1000
    } else if f_len == 2 {
        100
    } else if f_len == 3 {
        10
    } else {
        1
    };
    let frac_part: u128 = if dot < n {
        (fv as u128) * (scale as u128)
    } else {
        0
    };
    if big {
        // The integer part alone exceeds the representable range.
        proof {
            assert(amount_str_val(s@) > i64::MAX);
        }
        return None;
    }
    let units: u128 = acc * 10000 + frac_part;
    if units > i64::MAX as u128 {
        return None;
    }
    Some(units as i64)
}

/// Decimal digit bytes of `n`, most significant first, with no leading
/// zeros (a single `0` for zero).
pub open spec fn dec_digits(n: nat) -> Seq<u8>
    decreases n,
{
    if n < 10 {
        seq![(48 + n) as u8]
    } else {
        dec_digits((n / 10) as nat).push((48 + n % 10) as u8)
    }
}

/// The four fractional digit bytes of `n < 10000`, padded with leading
/// zeros.
pub open spec fn dec_digits4(n: nat) -> Seq<u8> {
    seq![
        (48 + n / 1000 % 10) as u8,
        (48 + n / 100 % 10) as u8,
        (48 + n / 10 % 10) as u8,
        (48 + n % 10) as u8,
    ]
}

/// The rendering of `units` with exactly four fractional digits: an
/// optional minus sign, the whole part without leading zeros, a dot, and
/// four fractional digits.
pub open spec fn spec_format_amount(units: i64) -> Seq<u8> {
    let m = if units >= 0 {
        units as int
    } else {
        -(units as int)
    };
    let sign: Seq<u8> = if units < 0 {
        seq![MINUS]
    } else {
        Seq::empty()
    };
    sign + dec_digits((m / 10000) as nat) + seq![DOT] + dec_digits4((m % 10000) as nat)
}

/// Appends the decimal digits of `n`, most significant first.
fn push_dec_digits(n: u64, out: &mut Vec<u8>)
    ensures
        final(out)@ == old(out)@ + dec_digits(n as nat),
    decreases n,
{
    if n < 10 {
        out.push(48 + n as u8);
        proof {
            assert(out@ =~= old(out)@ + dec_digits(n as nat));
        }
    } else {
        push_dec_digits(n / 10, out);
        out.push(48 + (n % 10) as u8);
        proof {
            assert((n / 10) as nat == (n as nat) / 10);
            assert(out@ =~= old(out)@ + dec_digits(n as nat));
        }
    }
}

/// Renders a fixed-point amount with exactly four fractional digits, as the
/// report format asks.
pub fn format_amount(units: i64) -> (r: Vec<u8>)
    ensures
        r@ == spec_format_amount(units),
{
    let mut out: Vec<u8> = Vec::new();
    let mag: u64 = if units >= 0 {
        units as u64
    } else {
        out.push(MINUS);
        (-(units as i128)) as u64
    };
    push_dec_digits(mag / 10000, &mut out);
    out.push(DOT);
    let f: u64 = mag % 10000;
    out.push(48 + (f / 1000 % 10) as u8);
    out.push(48 + (f / 100 % 10) as u8);
    out.push(48 + (f / 10 % 10) as u8);
    out.push(48 + (f % 10) as u8);
    proof {
        assert(out@ =~= spec_format_amount(units));
    }
    out
}

} // verus!
