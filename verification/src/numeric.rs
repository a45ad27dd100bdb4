//! The permissive numeric extractor behind every numeric telemetry field.
//!
//! A value such as `"  47.50 Wh "` or `"100%"` is read by first turning each
//! comma into a period (a locale fix-up), then keeping only ASCII digits and
//! periods, and finally reading the remainder as one decimal number. Text
//! that yields no single number — no digit at all, or more than one period,
//! as in `"1,234.5"` whose fix-up leaves `"1.234.5"` — degrades silently to
//! zero; a missing field and an unreadable field are indistinguishable.

use vstd::prelude::*;
use vstd::string::*;

verus! {

/// One telemetry quantity: the exact decimal number `mantissa / 10^scale`,
/// kept in lowest form (no trailing fractional zero digits, and zero itself
/// is `0 / 10^0`), so that equal values are equal records.
#[derive(Clone, Copy, Debug, PartialEq, Eq, Structural)]
pub struct Decimal {
    pub mantissa: u64,
    pub scale: u64,
}

pub open spec fn is_digit(c: char) -> bool {
    '0' as u32 <= c as u32 && c as u32 <= '9' as u32
}

pub open spec fn digit_val(c: char) -> int {
    c as u32 - '0' as u32
}

/// The locale fix-up: a comma reads as a decimal point.
pub open spec fn comma_to_period(c: char) -> char {
    if c == ',' {
        '.'
    } else {
        c
    }
}

/// The characters the extractor keeps after the fix-up.
pub open spec fn is_kept(c: char) -> bool {
    is_digit(c) || c == '.'
}

/// The text after the comma fix-up and the digits-and-periods filter.
pub open spec fn cleaned(s: Seq<char>) -> Seq<char>
    decreases s.len(),
{
    if s.len() == 0 {
        Seq::empty()
    } else {
        let c = comma_to_period(s.last());
        if is_kept(c) {
            cleaned(s.drop_last()).push(c)
        } else {
            cleaned(s.drop_last())
        }
    }
}

pub open spec fn digit_count(s: Seq<char>) -> nat
    decreases s.len(),
{
    if s.len() == 0 {
        0
    } else {
        digit_count(s.drop_last()) + (if is_digit(s.last()) {
            1nat
        } else {
            0nat
        })
    }
}

pub open spec fn period_count(s: Seq<char>) -> nat
    decreases s.len(),
{
    if s.len() == 0 {
        0
    } else {
        period_count(s.drop_last()) + (if s.last() == '.' {
            1nat
        } else {
            0nat
        })
    }
}

/// The integer that the digits of `s` spell out in order, periods skipped.
pub open spec fn digits_value(s: Seq<char>) -> int
    decreases s.len(),
{
    if s.len() == 0 {
        0
    } else if is_digit(s.last()) {
        digits_value(s.drop_last()) * 10 + digit_val(s.last())
    } else {
        digits_value(s.drop_last())
    }
}

/// How many digits stand after a period.
pub open spec fn frac_len(s: Seq<char>) -> nat
    decreases s.len(),
{
    if s.len() > 0 && is_digit(s.last()) && period_count(s.drop_last()) > 0 {
        frac_len(s.drop_last()) + 1
    } else {
        0
    }
}

/// Lowest form of `m / 10^e`: divide out trailing fractional zeros.
pub open spec fn lowest_form(m: int, e: int) -> (int, int)
    decreases e,
{
    if e > 0 && m % 10 == 0 {
        lowest_form(m / 10, e - 1)
    } else {
        (m, e)
    }
}

/// Whether filtered text spells a single decimal number: at least one digit
/// and at most one period.
pub open spec fn well_formed_number(t: Seq<char>) -> bool {
    digit_count(t) >= 1 && period_count(t) <= 1
}

/// The number that already-filtered text denotes, zero when it is no single
/// number or its digits outgrow the machine word.
pub open spec fn decimal_of_cleaned(t: Seq<char>) -> Decimal {
    if well_formed_number(t) {
        let n = lowest_form(digits_value(t), frac_len(t) as int);
        if 0 <= n.0 <= u64::MAX && 0 <= n.1 <= u64::MAX {
            Decimal { mantissa: n.0 as u64, scale: n.1 as u64 }
        } else {
            Decimal { mantissa: 0, scale: 0 }
        }
    } else {
        Decimal { mantissa: 0, scale: 0 }
    }
}

/// What the extractor returns for raw field text.
pub open spec fn extracted(s: Seq<char>) -> Decimal {
    decimal_of_cleaned(cleaned(s))
}

proof fn lemma_lowest_form_reduced(m: int, e: int)
    ensures
        lowest_form(m, e).1 > 0 ==> lowest_form(m, e).0 % 10 != 0,
    decreases e,
{
    if e > 0 && m % 10 == 0 {
        lemma_lowest_form_reduced(m / 10, e - 1);
    }
}

/// An extracted number is in lowest form — no trailing fractional zero
/// digits, and zero itself carries no fraction — so numbers of equal value
/// are equal field for field.
pub proof fn lemma_extracted_lowest_form(s: Seq<char>)
    ensures
        extracted(s).scale > 0 ==> extracted(s).mantissa % 10 != 0,
        extracted(s).mantissa == 0 ==> extracted(s).scale == 0,
{
    let t = cleaned(s);
    if well_formed_number(t) {
        lemma_lowest_form_reduced(digits_value(t), frac_len(t) as int);
    }
}

proof fn lemma_digits_value_nonneg(s: Seq<char>)
    ensures
        digits_value(s) >= 0,
    decreases s.len(),
{
    if s.len() > 0 {
        lemma_digits_value_nonneg(s.drop_last());
    }
}

/// A longer prefix of digits never spells a smaller integer.
proof fn lemma_digits_value_prefix_mono(s: Seq<char>, i: int, j: int)
    requires
        0 <= i <= j <= s.len(),
    ensures
        digits_value(s.take(i)) <= digits_value(s.take(j)),
    decreases j - i,
{
    if i < j {
        lemma_digits_value_prefix_mono(s, i, j - 1);
        let u = s.take(j);
        assert(u.drop_last() =~= s.take(j - 1));
        lemma_digits_value_nonneg(s.take(j - 1));
    }
}

/// A sequence with a period at some position counts at least one period.
proof fn lemma_period_count_at_least_one(s: Seq<char>, k: int)
    requires
        0 <= k < s.len(),
        s[k] == '.',
    ensures
        period_count(s) >= 1,
    decreases s.len(),
{
    if k < s.len() - 1 {
        lemma_period_count_at_least_one(s.drop_last(), k);
    }
}

/// Two periods at distinct positions are both counted.
proof fn lemma_two_periods(s: Seq<char>, k1: int, k2: int)
    requires
        0 <= k1 < k2 < s.len(),
        s[k1] == '.',
        s[k2] == '.',
    ensures
        period_count(s) >= 2,
    decreases s.len(),
{
    if k2 == s.len() - 1 {
        lemma_period_count_at_least_one(s.drop_last(), k1);
    } else {
        lemma_two_periods(s.drop_last(), k1, k2);
    }
}

/// Every character the filter keeps is a digit or a period.
proof fn lemma_cleaned_only_kept(s: Seq<char>)
    ensures
        forall|j: int| 0 <= j < cleaned(s).len() ==> is_kept(#[trigger] cleaned(s)[j]),
    decreases s.len(),
{
    if s.len() > 0 {
        lemma_cleaned_only_kept(s.drop_last());
        let c = comma_to_period(s.last());
        if is_kept(c) {
            assert forall|j: int| 0 <= j < cleaned(s).len() implies is_kept(
                #[trigger] cleaned(s)[j],
            ) by {
                if j < cleaned(s.drop_last()).len() {
                    assert(cleaned(s)[j] == cleaned(s.drop_last())[j]);
                } else {
                    assert(cleaned(s)[j] == c);
                }
            }
        }
    }
}

/// In a region of digits that follows the single period at `p`, the
/// fractional length of each prefix grows with the prefix.
proof fn lemma_frac_len_region(t: Seq<char>, p: int, j: int)
    requires
        0 <= p < j <= t.len(),
        t[p] == '.',
        forall|k: int| p < k < t.len() ==> is_digit(#[trigger] t[k]),
    ensures
        frac_len(t.take(j)) == j - p - 1,
    decreases j,
{
    let u = t.take(j);
    assert(u.drop_last() =~= t.take(j - 1));
    if j == p + 1 {
        assert(u.last() == '.');
    } else {
        lemma_frac_len_region(t, p, j - 1);
        lemma_period_count_at_least_one(t.take(j - 1), p);
        assert(is_digit(u.last()));
    }
}

/// Reads `s` as the original's numeric fields do: commas become periods,
/// everything but digits and periods is dropped, and the rest must spell one
/// decimal number; otherwise the result is zero.
pub fn extract_number(s: &str) -> (d: Decimal)
    ensures
        d == extracted(s@),
{
    let n = s.unicode_len();
    let mut t: Vec<char> = Vec::new();
    let mut i: usize = 0;
    while i < n
        invariant
            n == s@.len(),
            i <= n,
            t@ == cleaned(s@.take(i as int)),
        decreases n - i,
    {
        let c0 = s.get_char(i);
        let c = if c0 == ',' {
            '.'
        } else {
            c0
        };
        proof {
            assert(s@.take(i + 1).drop_last() =~= s@.take(i as int));
            assert(s@.take(i + 1).last() == s@[i as int]);
        }
        if ('0' as u32 <= c as u32 && c as u32 <= '9' as u32) || c == '.' {
            t.push(c);
        }
        i += 1;
    }
    proof {
        assert(s@.take(n as int) =~= s@);
        lemma_cleaned_only_kept(s@);
    }
    parse_cleaned(&t)
}

/// Reads already-filtered text as one decimal number in lowest form.
fn parse_cleaned(t: &Vec<char>) -> (d: Decimal)
    requires
        forall|j: int| 0 <= j < t@.len() ==> is_kept(#[trigger] t@[j]),
    ensures
        d == decimal_of_cleaned(t@),
{
    let len = t.len();
    let mut digits: usize = 0;
    let mut periods: usize = 0;
    let mut period_at: usize = len;
    let mut i: usize = 0;
    while i < len
        invariant
            len == t@.len(),
            i <= len,
            forall|j: int| 0 <= j < t@.len() ==> is_kept(#[trigger] t@[j]),
            digits == digit_count(t@.take(i as int)),
            periods == period_count(t@.take(i as int)),
            digits <= i,
            periods <= i,
            periods == 0 ==> period_at == len,
            periods > 0 ==> period_at < i && t@[period_at as int] == '.' && period_count(
                t@.take(period_at as int),
            ) == 0,
        decreases len - i,
    {
        proof {
            assert(t@.take(i + 1).drop_last() =~= t@.take(i as int));
            assert(t@.take(i + 1).last() == t@[i as int]);
        }
        let c = t[i];
        proof {
            assert(is_kept(t@[i as int]));
        }
        if c == '.' {
            if periods == 0 {
                period_at = i;
            }
            periods += 1;
        } else {
            proof {
                assert(is_digit(t@[i as int]));
            }
            digits += 1;
        }
        i += 1;
    }
    proof {
        assert(t@.take(len as int) =~= t@);
    }
    if digits == 0 || periods >= 2 {
        return Decimal { mantissa: 0, scale: 0 };
    }
    // Strip trailing fractional zeros so the mantissa comes out in lowest
    // form even where its unstripped digit string would overflow.
    let ghost whole = lowest_form(digits_value(t@), frac_len(t@) as int);
    let mut end: usize = len;
    let mut scale: usize = 0;
    if periods == 1 {
        proof {
            assert forall|k: int| period_at < k < t@.len() implies is_digit(#[trigger] t@[k]) by {
                assert(is_kept(t@[k]));
                if t@[k] == '.' {
                    lemma_two_periods(t@, period_at as int, k);
                }
            }
            lemma_frac_len_region(t@, period_at as int, len as int);
        }
        while end > period_at + 1 && t[end - 1] as u32 == '0' as u32
            invariant
                len == t@.len(),
                period_at < end <= len,
                t@[period_at as int] == '.',
                period_count(t@.take(period_at as int)) == 0,
                period_count(t@) == 1,
                forall|j: int| 0 <= j < t@.len() ==> is_kept(#[trigger] t@[j]),
                forall|k: int| period_at < k < t@.len() ==> is_digit(#[trigger] t@[k]),
                frac_len(t@.take(end as int)) == end - period_at - 1,
                whole == lowest_form(
                    digits_value(t@.take(end as int)),
                    frac_len(t@.take(end as int)) as int,
                ),
            decreases end,
        {
            let ghost u = t@.take(end as int);
            proof {
                assert(u.drop_last() =~= t@.take(end - 1));
                assert(u.last() == t@[end - 1]);
                lemma_period_count_at_least_one(t@.take(end - 1), period_at as int);
                lemma_digits_value_nonneg(t@.take(end - 1));
                assert(digits_value(u) == digits_value(t@.take(end - 1)) * 10);
                assert(digits_value(u) % 10 == 0);
                assert(digits_value(u) / 10 == digits_value(t@.take(end - 1)));
                lemma_frac_len_region(t@, period_at as int, end - 1);
            }
            end -= 1;
        }
        if end == period_at + 1 {
            proof {
                let u = t@.take(end as int);
                assert(u.drop_last() =~= t@.take(period_at as int));
                assert(u.last() == '.');
                assert(frac_len(u) == 0);
                assert(digits_value(u) == digits_value(t@.take(period_at as int)));
                assert(whole == (digits_value(t@.take(period_at as int)), 0int));
            }
            end -= 1;
            scale = 0;
        } else {
            proof {
                let u = t@.take(end as int);
                assert(u.last() == t@[end - 1]);
                assert(is_digit(u.last()));
                assert(u.last() as u32 != '0' as u32);
                assert(digit_val(u.last()) > 0);
                assert(u.drop_last() =~= t@.take(end - 1));
                lemma_digits_value_nonneg(t@.take(end - 1));
                assert(digits_value(u) == digits_value(t@.take(end - 1)) * 10 + digit_val(u.last()));
                assert(digits_value(u) % 10 == digit_val(u.last()));
                assert(frac_len(u) > 0);
                assert(whole == (digits_value(u), frac_len(u) as int));
            }
            scale = end - period_at - 1;
        }
    } else {
        proof {
            assert(period_count(t@.drop_last() ) <= period_count(t@)) by {
                if t@.len() > 0 {
                    assert(period_count(t@) == period_count(t@.drop_last()) + (if t@.last() == '.' {
                        1nat
                    } else {
                        0nat
                    }));
                }
            }
            assert(frac_len(t@) == 0);
            assert(t@.take(len as int) =~= t@);
            assert(whole == (digits_value(t@), 0int));
        }
        scale = 0;
    }
    let ghost core = t@.take(end as int);
    proof {
        assert(whole == (digits_value(core), scale as int));
        assert(well_formed_number(t@));
        lemma_digits_value_nonneg(core);
    }
    // Accumulate the remaining digits; overflow means the number cannot be
    // held and degrades to zero.
    let mut acc: u64 = 0;
    let mut i2: usize = 0;
    while i2 < end
        invariant
            len == t@.len(),
            end <= len,
            i2 <= end,
            core == t@.take(end as int),
            forall|j: int| 0 <= j < t@.len() ==> is_kept(#[trigger] t@[j]),
            acc == digits_value(t@.take(i2 as int)),
            whole == (digits_value(core), scale as int),
            decimal_of_cleaned(t@) == (if digits_value(core) <= u64::MAX {
                Decimal { mantissa: digits_value(core) as u64, scale: scale as u64 }
            } else {
                Decimal { mantissa: 0, scale: 0 }
            }),
        decreases end - i2,
    {
        proof {
            assert(t@.take(i2 + 1).drop_last() =~= t@.take(i2 as int));
            assert(t@.take(i2 + 1).last() == t@[i2 as int]);
        }
        let c = t[i2];
        if c != '.' {
            proof {
                assert(is_kept(t@[i2 as int]));
                assert(is_digit(t@[i2 as int]));
            }
            let dv: u64 = (c as u32 - '0' as u32) as u64;
            let stepped = match acc.checked_mul(10) {
                Some(m) => m.checked_add(dv),
                None => None,
            };
            match stepped {
                Some(v) => {
                    acc = v;
                },
                None => {
                    proof {
                        lemma_digits_value_nonneg(t@.take(i2 as int));
                        assert(digits_value(t@.take(i2 + 1)) > u64::MAX);
                        lemma_digits_value_prefix_mono(t@, i2 + 1, end as int);
                    }
                    return Decimal { mantissa: 0, scale: 0 };
                },
            }
        }
        i2 += 1;
    }
    proof {
        assert(t@.take(end as int) =~= core);
    }
    Decimal { mantissa: acc, scale: scale as u64 }
}

} // verus!
