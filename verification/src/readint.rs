//! Reading integer literals of the source program.

use vstd::prelude::*;
use crate::codegen::CodegenError;
use crate::vformat::decimal_digits;

verus! {

/// The `n`-th character of the digit map `0123456789abcdefghijklmnopqrstuvwxyz`.
pub open spec fn digit_char(n: int) -> int {
    if n < 10 {
        48 + n
    } else {
        87 + n
    }
}

/// The `n`-th character of the digit map `0123456789abcdefghijklmnopqrstuvwxyz`.
pub fn mrb_digitmap(n: i32) -> (c: u8)
    requires
        0 <= n < 36,
    ensures
        c == digit_char(n as int),
{
    if n < 10 {
        (48 + n) as u8
    } else {
        (87 + n) as u8
    }
}

/// ASCII lower-casing: `A`..`Z` map to `a`..`z`, every other value is kept.
pub open spec fn spec_tolower(c: int) -> int {
    if 65 <= c <= 90 {
        c + 32
    } else {
        c
    }
}

/// Lower-cases an ASCII letter and leaves every other character code alone.
pub fn tolower(c: i32) -> (r: i32)
    ensures
        r == spec_tolower(c as int),
{
    if 65 <= c && c <= 90 {
        c + 32
    } else {
        c
    }
}

/// The digit value of character `c` (`0`-`9`, then `a`-`z` in either case
/// for 10-35), or 36 when `c` is no digit.
pub open spec fn digit_value(c: u8) -> int {
    let l = spec_tolower(c as int);
    if 48 <= l <= 57 {
        l - 48
    } else if 97 <= l <= 122 {
        l - 97 + 10
    } else {
        36
    }
}

/// The largest magnitude an integer literal may reach.
pub open spec fn readint_limit(neg: bool) -> int {
    if neg {
        0x8000000000000000
    } else {
        0x7fffffffffffffff
    }
}

/// Outcome of reading digits: `Err` at the first character that is no
/// digit of `base`; `Ok(None)` as soon as the magnitude read so far exceeds
/// the limit; `Ok(Some(m))` with the magnitude `m` of all digits otherwise.
pub open spec fn read_digits(chars: Seq<u8>, base: int, neg: bool, acc: int) -> Result<Option<int>, ()>
    decreases chars.len(),
{
    if chars.len() == 0 {
        Ok(Some(acc))
    } else {
        let d = digit_value(chars[0]);
        if d >= base {
            Err(())
        } else if acc * base + d > readint_limit(neg) {
            Ok(None)
        } else {
            read_digits(chars.drop_first(), base, neg, acc * base + d)
        }
    }
}

/// The digits of a literal: an optional leading `+` is skipped.
pub open spec fn literal_digits(p: Seq<u8>) -> Seq<u8> {
    if p.len() > 0 && p[0] == 43 {
        p.drop_first()
    } else {
        p
    }
}

/// The value of the literal `p` in base `base`, negated when `neg`:
/// `Err` for a malformed literal, `Ok(None)` when it does not fit in 64 bits.
pub open spec fn spec_readint(p: Seq<u8>, base: int, neg: bool) -> Result<Option<int>, ()> {
    match read_digits(literal_digits(p), base, neg, 0) {
        Err(()) => Err(()),
        Ok(None) => Ok(None),
        Ok(Some(m)) => Ok(Some(if neg { -m } else { m })),
    }
}

/// Reading digits from a magnitude within the limit ends, when it fits,
/// with a magnitude within the limit.
proof fn lemma_read_digits_bound(chars: Seq<u8>, base: int, neg: bool, acc: int)
    requires
        0 <= acc <= readint_limit(neg),
        base >= 1,
    ensures
        read_digits(chars, base, neg, acc) matches Ok(Some(m)) ==> 0 <= m <= readint_limit(neg),
    decreases chars.len(),
{
    if chars.len() > 0 {
        let d = digit_value(chars[0]);
        assert(acc * base >= 0) by (nonlinear_arith)
            requires
                acc >= 0,
                base >= 1,
        ;
        if d < base && acc * base + d <= readint_limit(neg) {
            lemma_read_digits_bound(chars.drop_first(), base, neg, acc * base + d);
        }
    }
}

/// A literal that fits is read as a value that fits in 64 bits: from 0 up
/// to the largest `i64`, or down to the smallest when negated.
pub proof fn lemma_readint_fits(p: Seq<u8>, base: int, neg: bool)
    requires
        base >= 1,
    ensures
        spec_readint(p, base, neg) matches Ok(Some(v)) ==> i64::MIN <= v <= i64::MAX && (v
            >= 0 || neg) && (v <= 0 || !neg),
{
    lemma_read_digits_bound(literal_digits(p), base, neg, 0);
}

/// Reads the integer literal `p` (its digits, without terminator) in base
/// `base`, negated when `neg`.  Returns the value and `false`, or `0` and
/// `true` when the value does not fit in 64 bits; fails on a character that
/// is no digit of `base`.  A leading `+` is skipped.
pub fn readint_mrb_int(p: &[u8], base: i32, neg: bool) -> (r: Result<(i64, bool), CodegenError>)
    requires
        1 <= base <= 36,
    ensures
        match spec_readint(p@, base as int, neg) {
            Err(()) => r == Err::<(i64, bool), CodegenError>(CodegenError::MalformedReadintInput),
            Ok(None) => r == Ok::<(i64, bool), CodegenError>((0i64, true)),
            Ok(Some(v)) => r == Ok::<(i64, bool), CodegenError>((v as i64, false)),
        },
{
    let mut start: usize = 0;
    if p.len() > 0 && p[0] == 43 {
        start = 1;
    }
    let ghost digits = literal_digits(p@);
    proof {
        assert(digits =~= p@.subrange(start as int, p@.len() as int));
    }
    let mut result: i64 = 0;
    let ghost mut acc: int = 0;
    let mut k: usize = start;
    while k < p.len()
        invariant
            1 <= base <= 36,
            start <= k <= p@.len(),
            digits == p@.subrange(start as int, p@.len() as int),
            digits == literal_digits(p@),
            0 <= acc <= readint_limit(neg),
            result == if neg { -acc } else { acc },
            read_digits(digits, base as int, neg, 0) == read_digits(
                p@.subrange(k as int, p@.len() as int),
                base as int,
                neg,
                acc,
            ),
        decreases p@.len() - k,
    {
        let c = tolower(p[k] as i32);
        let mut n: i32 = 0;
        while n < base && mrb_digitmap(n) as i32 != c
            invariant
                0 <= n <= base <= 36,
                c == spec_tolower(p@[k as int] as int),
                forall|j: int| 0 <= j < n ==> #[trigger] digit_char(j) != c,
            decreases base - n,
        {
            n = n + 1;
        }
        let ghost rest = p@.subrange(k as int, p@.len() as int);
        proof {
            assert(rest[0] == p@[k as int]);
            assert(rest.drop_first() =~= p@.subrange(k + 1, p@.len() as int));
        }
        if n == base {
            proof {
                assert(digit_value(p@[k as int]) >= base) by {
                    let d = digit_value(p@[k as int]);
                    if d < base {
                        assert(digit_char(d) == c);
                    }
                }
                assert(read_digits(rest, base as int, neg, acc) == Err::<Option<int>, ()>(()));
            }
            return Err(CodegenError::MalformedReadintInput);
        }
        proof {
            assert(digit_value(p@[k as int]) == n);
        }
        if neg {
            let lim: i128 = (0x8000000000000000i128 - n as i128) / (base as i128);
            if lim < -(result as i128) {
                proof {
                    assert(acc * base + n > readint_limit(neg)) by (nonlinear_arith)
                        requires
                            lim == (0x8000000000000000int - n) / (base as int),
                            lim < acc,
                            base >= 1,
                            0 <= n,
                            readint_limit(neg) == 0x8000000000000000int;
                    assert(read_digits(rest, base as int, neg, acc) == Ok::<Option<int>, ()>(None));
                }
                return Ok((0, true));
            }
            proof {
                assert(acc * base + n <= readint_limit(neg)) by (nonlinear_arith)
                    requires
                        lim == (0x8000000000000000int - n) / (base as int),
                        lim >= acc,
                        base >= 1,
                        0 <= n < base,
                        readint_limit(neg) == 0x8000000000000000int;
            }
            proof {
                assert(0 <= acc * base <= 0x8000000000000000int) by (nonlinear_arith)
                    requires
                        0 <= acc,
                        base >= 1,
                        0 <= n,
                        acc * base + n <= 0x8000000000000000int;
                assert((result as int) * (base as int) == -(acc * base)) by (nonlinear_arith)
                    requires
                        result as int == -acc;
            }
            result = ((result as i128) * (base as i128) - (n as i128)) as i64;
        } else {
            let lim: i128 = (0x7fffffffffffffffi128 - n as i128) / (base as i128);
            if lim < result as i128 {
                proof {
                    assert(acc * base + n > readint_limit(neg)) by (nonlinear_arith)
                        requires
                            lim == (0x7fffffffffffffffint - n) / (base as int),
                            lim < acc,
                            base >= 1,
                            0 <= n,
                            readint_limit(neg) == 0x7fffffffffffffffint;
                    assert(read_digits(rest, base as int, neg, acc) == Ok::<Option<int>, ()>(None));
                }
                return Ok((0, true));
            }
            proof {
                assert(acc * base + n <= readint_limit(neg)) by (nonlinear_arith)
                    requires
                        lim == (0x7fffffffffffffffint - n) / (base as int),
                        lim >= acc,
                        base >= 1,
                        0 <= n < base,
                        readint_limit(neg) == 0x7fffffffffffffffint;
            }
            proof {
                assert(0 <= acc * base <= 0x7fffffffffffffffint) by (nonlinear_arith)
                    requires
                        0 <= acc,
                        base >= 1,
                        0 <= n,
                        acc * base + n <= 0x7fffffffffffffffint;
                assert((result as int) * (base as int) == acc * base) by (nonlinear_arith)
                    requires
                        result as int == acc;
            }
            result = ((result as i128) * (base as i128) + (n as i128)) as i64;
        }
        proof {
            acc = acc * base + n;
        }
        k = k + 1;
    }
    proof {
        assert(p@.subrange(k as int, p@.len() as int).len() == 0);
    }
    Ok((result, false))
}

/// One more character `c` after the magnitude `m` read so far.
pub open spec fn read_step(m: int, c: u8, base: int, neg: bool) -> Result<Option<int>, ()> {
    let d = digit_value(c);
    if d >= base {
        Err(())
    } else if m * base + d > readint_limit(neg) {
        Ok(None)
    } else {
        Ok(Some(m * base + d))
    }
}

/// Reading `s` then `c` is reading `s`, then one more step for `c`.
proof fn lemma_read_digits_push(s: Seq<u8>, c: u8, base: int, neg: bool, acc: int)
    ensures
        read_digits(s.push(c), base, neg, acc) == match read_digits(s, base, neg, acc) {
            Err(()) => Err(()),
            Ok(None) => Ok(None),
            Ok(Some(m)) => read_step(m, c, base, neg),
        },
    decreases s.len(),
{
    let t = s.push(c);
    if s.len() == 0 {
        assert(t.drop_first() =~= Seq::<u8>::empty());
        assert(t[0] == c);
        assert(read_digits(s, base, neg, acc) == Ok::<Option<int>, ()>(Some(acc)));
    } else {
        assert(t.drop_first() =~= s.drop_first().push(c));
        assert(t[0] == s[0]);
        let d = digit_value(s[0]);
        if d < base && acc * base + d <= readint_limit(neg) {
            lemma_read_digits_push(s.drop_first(), c, base, neg, acc * base + d);
        }
    }
}

proof fn lemma_decimal_digits_first(n: nat)
    ensures
        decimal_digits(n).len() > 0,
        48 <= decimal_digits(n)[0] <= 57,
    decreases n,
{
    if n >= 10 {
        lemma_decimal_digits_first(n / 10);
    }
}

proof fn lemma_read_decimal_digits(n: nat, neg: bool)
    requires
        n <= readint_limit(neg),
    ensures
        read_digits(decimal_digits(n), 10, neg, 0) == Ok::<Option<int>, ()>(Some(n as int)),
    decreases n,
{
    if n < 10 {
        let c = (48 + n) as u8;
        assert(decimal_digits(n) == seq![c]);
        assert(digit_value(c) == n);
        assert(seq![c].drop_first() =~= Seq::<u8>::empty());
        assert(read_digits(seq![c].drop_first(), 10, neg, n as int) == Ok::<Option<int>, ()>(Some(n as int)));
        assert(read_digits(seq![c], 10, neg, 0) == Ok::<Option<int>, ()>(Some(n as int)));
    } else {
        let c = (48 + n % 10) as u8;
        lemma_read_decimal_digits(n / 10, neg);
        lemma_read_digits_push(decimal_digits(n / 10), c, 10, neg, 0);
        assert(decimal_digits(n) == decimal_digits(n / 10).push(c));
        assert(digit_value(c) == n % 10);
        assert((n / 10) * 10 + n % 10 == n) by (nonlinear_arith);
        assert(read_step((n / 10) as int, c, 10, neg) == Ok::<Option<int>, ()>(Some(n as int)));
    }
}

/// Reading back, in base 10, the digits of a magnitude `n` that fits gives
/// `n`, negated when `neg`: the literal reader undoes the decimal writer.
pub proof fn lemma_readint_reads_decimal(n: nat, neg: bool)
    requires
        n <= readint_limit(neg),
    ensures
        spec_readint(decimal_digits(n), 10, neg) == Ok::<Option<int>, ()>(
            Some(if neg { -(n as int) } else { n as int }),
        ),
{
    lemma_decimal_digits_first(n);
    assert(literal_digits(decimal_digits(n)) == decimal_digits(n));
    lemma_read_decimal_digits(n, neg);
}

} // verus!
