//! The numeric-token grammar of the parser.
//!
//! A value column is kept only when it is a finite decimal number:
//! an optional sign, then digits with at most one decimal point (and at
//! least one digit), then an optional exponent part `e`/`E`, optional sign,
//! digits.  This is the finite subset of Rust's float syntax; special
//! values such as infinities are useless as gauge readings and read as
//! unparsable.

use vstd::prelude::*;

verus! {

/// An ASCII decimal digit.
pub open spec fn is_digit(c: char) -> bool {
    '0' <= c && c <= '9'
}

/// Every character of `t` is a digit.
pub open spec fn all_digits(t: Seq<char>) -> bool {
    forall|i: int| 0 <= i < t.len() ==> is_digit(#[trigger] t[i])
}

/// `t` with one leading `+` or `-` removed.
pub open spec fn strip_sign(t: Seq<char>) -> Seq<char> {
    if t.len() > 0 && (t[0] == '+' || t[0] == '-') {
        t.drop_first()
    } else {
        t
    }
}

/// Digits with at most one decimal point and at least one digit:
/// `12`, `12.`, `12.5`, `.5`.
pub open spec fn mantissa_ok(t: Seq<char>) -> bool {
    (t.len() >= 1 && all_digits(t)) || (exists|k: int|
        0 <= k < t.len() && #[trigger] t[k] == '.' && all_digits(t.take(k)) && all_digits(
            t.skip(k + 1),
        ) && t.len() >= 2)
}

/// An exponent body: an optional sign, then at least one digit.
pub open spec fn exponent_ok(t: Seq<char>) -> bool {
    strip_sign(t).len() >= 1 && all_digits(strip_sign(t))
}

/// A mantissa, optionally followed by `e`/`E` and an exponent.
pub open spec fn numeric_core(u: Seq<char>) -> bool {
    mantissa_ok(u) || (exists|k: int|
        0 <= k < u.len() && (#[trigger] u[k] == 'e' || u[k] == 'E') && mantissa_ok(u.take(k))
            && exponent_ok(u.skip(k + 1)))
}

/// Whether a token is a finite decimal number.
pub open spec fn numeric_token(t: Seq<char>) -> bool {
    numeric_core(strip_sign(t))
}

/// A mantissa holds only digits and points.
proof fn lemma_mantissa_chars(t: Seq<char>, i: int)
    requires
        mantissa_ok(t),
        0 <= i < t.len(),
    ensures
        is_digit(t[i]) || t[i] == '.',
{
    if !(t.len() >= 1 && all_digits(t)) {
        let k = choose|k: int|
            0 <= k < t.len() && #[trigger] t[k] == '.' && all_digits(t.take(k)) && all_digits(
                t.skip(k + 1),
            ) && t.len() >= 2;
        if i < k {
            assert(t.take(k)[i] == t[i]);
            assert(is_digit(t.take(k)[i]));
        } else if i > k {
            assert(t.skip(k + 1)[i - k - 1] == t[i]);
            assert(is_digit(t.skip(k + 1)[i - k - 1]));
        }
    }
}

/// First position in `[from, until)` whose character is not a digit, or `until`.
fn first_non_digit(t: &str, from: usize, until: usize) -> (p: usize)
    requires
        from <= until <= t@.len(),
    ensures
        from <= p <= until,
        forall|j: int| from <= j < p ==> is_digit(#[trigger] t@[j]),
        p < until ==> !is_digit(t@[p as int]),
{
    let mut i = from;
    while i < until
        invariant
            from <= i <= until <= t@.len(),
            forall|j: int| from <= j < i ==> is_digit(#[trigger] t@[j]),
        decreases until - i,
    {
        let c = t.get_char(i);
        if !('0' <= c && c <= '9') {
            return i;
        }
        i += 1;
    }
    until
}

/// First position in `[from, until)` holding an exponent marker, or `until`.
fn first_exp_marker(t: &str, from: usize, until: usize) -> (p: usize)
    requires
        from <= until <= t@.len(),
    ensures
        from <= p <= until,
        forall|j: int| from <= j < p ==> !(#[trigger] t@[j] == 'e' || t@[j] == 'E'),
        p < until ==> (t@[p as int] == 'e' || t@[p as int] == 'E'),
{
    let mut i = from;
    while i < until
        invariant
            from <= i <= until <= t@.len(),
            forall|j: int| from <= j < i ==> !(#[trigger] t@[j] == 'e' || t@[j] == 'E'),
        decreases until - i,
    {
        let c = t.get_char(i);
        if c == 'e' || c == 'E' {
            return i;
        }
        i += 1;
    }
    until
}

/// Check the mantissa grammar on `t@.subrange(lo, hi)`.
fn mantissa_check(t: &str, lo: usize, hi: usize) -> (r: bool)
    requires
        lo <= hi,
        hi <= t@.len(),
    ensures
        r == mantissa_ok(t@.subrange(lo as int, hi as int)),
{
    let ghost u = t@.subrange(lo as int, hi as int);
    let p = first_non_digit(t, lo, hi);
    if p == hi {
        proof {
            if hi > lo {
                assert(forall|i: int|
                    0 <= i < u.len() ==> is_digit(#[trigger] u[i]) && u[i] == t@[lo + i]);
            } else {
                assert(u.len() == 0);
                if mantissa_ok(u) {
                    if exists|k: int|
                        0 <= k < u.len() && #[trigger] u[k] == '.' && all_digits(u.take(k))
                            && all_digits(u.skip(k + 1)) && u.len() >= 2 {
                        assert(false);
                    }
                    assert(false);
                }
            }
        }
        hi > lo
    } else {
        let c = t.get_char(p);
        if c == '.' {
            let q = first_non_digit(t, p + 1, hi);
            if q == hi && hi - lo >= 2 {
                proof {
                    let k = p - lo;
                    assert(u[k] == '.');
                    assert(forall|i: int|
                        0 <= i < k ==> #[trigger] u.take(k)[i] == t@[lo + i] && is_digit(
                            u.take(k)[i],
                        ));
                    assert(forall|i: int|
                        0 <= i < u.skip(k + 1).len() ==> #[trigger] u.skip(k + 1)[i] == t@[p + 1
                            + i] && is_digit(u.skip(k + 1)[i]));
                    assert(mantissa_ok(u));
                }
                true
            } else {
                proof {
                    if mantissa_ok(u) {
                        assert(u[p - lo] == '.');
                        assert(!all_digits(u));
                        let k = choose|k: int|
                            0 <= k < u.len() && #[trigger] u[k] == '.' && all_digits(u.take(k))
                                && all_digits(u.skip(k + 1)) && u.len() >= 2;
                        if k < p - lo {
                            assert(u[k] == t@[lo + k]);
                            assert(is_digit(t@[lo + k]));
                            assert(false);
                        } else if k > p - lo {
                            assert(u.take(k)[p - lo] == u[p - lo]);
                            assert(is_digit(u[p - lo]));
                            assert(false);
                        } else {
                            if q < hi {
                                assert(u.skip(k + 1)[q - p - 1] == t@[q as int]);
                                assert(is_digit(t@[q as int]));
                                assert(false);
                            } else {
                                assert(u.len() < 2);
                                assert(false);
                            }
                        }
                    }
                }
                false
            }
        } else {
            proof {
                if mantissa_ok(u) {
                    lemma_mantissa_chars(u, p - lo);
                    assert(u[p - lo] == t@[p as int]);
                    assert(false);
                }
            }
            false
        }
    }
}

/// Check the exponent grammar on `t@.subrange(lo, hi)`.
fn exponent_check(t: &str, lo: usize, hi: usize) -> (r: bool)
    requires
        lo <= hi,
        hi <= t@.len(),
    ensures
        r == exponent_ok(t@.subrange(lo as int, hi as int)),
{
    let ghost u = t@.subrange(lo as int, hi as int);
    let mut start = lo;
    if lo < hi {
        let c = t.get_char(lo);
        if c == '+' || c == '-' {
            start = lo + 1;
        }
    }
    proof {
        assert(strip_sign(u) =~= t@.subrange(start as int, hi as int));
    }
    let p = first_non_digit(t, start, hi);
    proof {
        let w = t@.subrange(start as int, hi as int);
        if p == hi && hi > start {
            assert(forall|i: int| 0 <= i < w.len() ==> #[trigger] w[i] == t@[start + i] && is_digit(
                w[i],
            ));
        }
        if p < hi {
            assert(w.len() > 0 ==> w[p - start] == t@[p as int]);
        }
    }
    p == hi && hi > start
}

/// Decide whether a token is a finite decimal number.
pub fn token_is_numeric(t: &str) -> (r: bool)
    ensures
        r == numeric_token(t@),
{
    let n = t.unicode_len();
    let mut start: usize = 0;
    if n > 0 {
        let c = t.get_char(0);
        if c == '+' || c == '-' {
            start = 1;
        }
    }
    let ghost u = strip_sign(t@);
    proof {
        assert(u =~= t@.subrange(start as int, n as int));
    }
    let m = first_exp_marker(t, start, n);
    if m == n {
        let r = mantissa_check(t, start, n);
        proof {
            if !r && numeric_core(u) {
                let k = choose|k: int|
                    0 <= k < u.len() && (#[trigger] u[k] == 'e' || u[k] == 'E') && mantissa_ok(
                        u.take(k),
                    ) && exponent_ok(u.skip(k + 1));
                assert(u[k] == t@[start + k]);
                assert(false);
            }
        }
        r
    } else {
        let r1 = mantissa_check(t, start, m);
        if !r1 {
            proof {
                if numeric_core(u) {
                    assert(u[m - start] == 'e' || u[m - start] == 'E');
                    if mantissa_ok(u) {
                        lemma_mantissa_chars(u, m - start);
                        assert(false);
                    }
                    let k = choose|k: int|
                        0 <= k < u.len() && (#[trigger] u[k] == 'e' || u[k] == 'E') && mantissa_ok(
                            u.take(k),
                        ) && exponent_ok(u.skip(k + 1));
                    if k < m - start {
                        assert(u[k] == t@[start + k]);
                        assert(false);
                    } else if k > m - start {
                        lemma_mantissa_chars(u.take(k), m - start);
                        assert(u.take(k)[m - start] == u[m - start]);
                        assert(false);
                    } else {
                        assert(u.take(k) =~= t@.subrange(start as int, m as int));
                        assert(false);
                    }
                }
            }
            false
        } else {
            let r2 = exponent_check(t, m + 1, n);
            proof {
                let k = m - start;
                assert(u[k] == t@[m as int]);
                assert(u.take(k) =~= t@.subrange(start as int, m as int));
                assert(u.skip(k + 1) =~= t@.subrange(m + 1, n as int));
                if r2 {
                    assert(numeric_core(u));
                } else {
                    if numeric_core(u) {
                        if mantissa_ok(u) {
                            lemma_mantissa_chars(u, k);
                            assert(false);
                        }
                        let k2 = choose|k2: int|
                            0 <= k2 < u.len() && (#[trigger] u[k2] == 'e' || u[k2] == 'E')
                                && mantissa_ok(u.take(k2)) && exponent_ok(u.skip(k2 + 1));
                        if k2 < k {
                            assert(u[k2] == t@[start + k2]);
                            assert(false);
                        } else if k2 > k {
                            lemma_mantissa_chars(u.take(k2), k);
                            assert(u.take(k2)[k] == u[k]);
                            assert(false);
                        } else {
                            assert(false);
                        }
                    }
                }
            }
            r2
        }
    }
}

} // verus!
