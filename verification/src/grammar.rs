//! The grammar of a decimal floating-point literal: an optional sign, a
//! mantissa made of digits with at most one decimal point, and an optional
//! exponent introduced by `e` or `E`.
use vstd::prelude::*;

verus! {

/// A decimal digit.
pub open spec fn is_digit(c: char) -> bool {
    '0' <= c && c <= '9'
}

/// A leading sign character.
pub open spec fn is_sign(c: char) -> bool {
    c == '+' || c == '-'
}

/// Every character of `s` is a decimal digit.
pub open spec fn all_digits(s: Seq<char>) -> bool {
    forall|i: int| 0 <= i < s.len() ==> is_digit(s[i])
}

/// `s` without a single leading sign, if it has one.
pub open spec fn strip_sign(s: Seq<char>) -> Seq<char> {
    if s.len() > 0 && is_sign(s[0]) {
        s.drop_first()
    } else {
        s
    }
}

/// An unsigned mantissa: digits, or digits around a single decimal point with
/// at least one digit on one side.
pub open spec fn is_mantissa(s: Seq<char>) -> bool {
    ||| (s.len() > 0 && all_digits(s))
    ||| (s.len() > 1 && exists|i: int|
        0 <= i < s.len() && s[i] == '.' && all_digits(s.subrange(0, i)) && all_digits(
            s.subrange(i + 1, s.len() as int),
        ))
}

/// An exponent body: an optional sign followed by at least one digit.
pub open spec fn is_exponent(s: Seq<char>) -> bool {
    strip_sign(s).len() > 0 && all_digits(strip_sign(s))
}

/// A decimal floating-point literal, as the input files carry numbers:
/// optional sign, mantissa, then optionally `e` or `E` and an exponent.
pub open spec fn is_float_literal(s: Seq<char>) -> bool {
    let b = strip_sign(s);
    ||| is_mantissa(b)
    ||| (exists|i: int|
        0 <= i < b.len() && (b[i] == 'e' || b[i] == 'E') && is_mantissa(b.subrange(0, i))
            && is_exponent(b.subrange(i + 1, b.len() as int)))
}

fn check_digit(c: char) -> (r: bool)
    ensures
        r == is_digit(c),
{
    '0' <= c && c <= '9'
}

fn check_sign(c: char) -> (r: bool)
    ensures
        r == is_sign(c),
{
    c == '+' || c == '-'
}

/// Decides `all_digits` on the character range `[from, to)` of `s`.
fn check_all_digits(s: &str, from: usize, to: usize) -> (r: bool)
    requires
        from <= to <= s@.len(),
    ensures
        r == all_digits(s@.subrange(from as int, to as int)),
{
    let ghost sub = s@.subrange(from as int, to as int);
    let mut i: usize = from;
    while i < to
        invariant
            from <= i <= to <= s@.len(),
            sub == s@.subrange(from as int, to as int),
            forall|k: int| 0 <= k < i - from ==> is_digit(sub[k]),
        decreases to - i,
    {
        let c = s.get_char(i);
        if !check_digit(c) {
            assert(sub[i - from] == s@[i as int]);
            return false;
        }
        assert(sub[i - from] == s@[i as int]);
        i = i + 1;
    }
    true
}

/// Decides `is_mantissa` on the character range `[from, to)` of `s`.
fn check_mantissa(s: &str, from: usize, to: usize) -> (r: bool)
    requires
        from <= to <= s@.len(),
    ensures
        r == is_mantissa(s@.subrange(from as int, to as int)),
{
    let ghost sub = s@.subrange(from as int, to as int);
    // Find the first decimal point of the range, if any.
    let mut p: usize = from;
    let mut found = false;
    while p < to && !found
        invariant
            from <= p <= to <= s@.len(),
            sub == s@.subrange(from as int, to as int),
            forall|k: int| 0 <= k < p - from ==> sub[k] != '.',
            found ==> p < to && sub[p - from] == '.',
        decreases to - p, if found { 0int } else { 1int },
    {
        let c = s.get_char(p);
        assert(sub[p - from] == s@[p as int]);
        if c == '.' {
            found = true;
        } else {
            p = p + 1;
        }
    }
    if !found {
        assert(p == to);
        // No decimal point: the range must be a non-empty run of digits.
        let r = to > from && check_all_digits(s, from, to);
        proof {
            if !r {
                assert forall|i: int|
                    !(0 <= i < sub.len() && sub[i] == '.' && all_digits(sub.subrange(0, i))
                        && all_digits(sub.subrange(i + 1, sub.len() as int))) by {}
            }
        }
        r
    } else {
        assert(sub[p - from] == '.');
        assert(from <= p < to);
        let r = to - from > 1 && check_all_digits(s, from, p) && check_all_digits(s, p + 1, to);
        proof {
            let d = p - from;
            assert(sub.subrange(0, d) =~= s@.subrange(from as int, p as int));
            assert(sub.subrange(d + 1, sub.len() as int) =~= s@.subrange(p + 1, to as int));
            assert(!all_digits(sub)) by {
                assert(!is_digit(sub[d]));
            }
            if r {
                assert(is_mantissa(sub));
            } else {
                assert forall|i: int|
                    0 <= i < sub.len() && sub[i] == '.' implies !(sub.len() > 1 && all_digits(
                    sub.subrange(0, i),
                ) && all_digits(sub.subrange(i + 1, sub.len() as int))) by {
                    if i < d {
                        assert(sub[i] != '.');
                    } else if i > d {
                        if all_digits(sub.subrange(0, i)) {
                            assert(is_digit(sub.subrange(0, i)[d]));
                            assert(sub[d] == '.');
                        }
                    }
                }
            }
        }
        r
    }
}

/// Decides whether the whole of `s` is a decimal floating-point literal.
pub fn check_float_literal(s: &str) -> (r: bool)
    ensures
        r == is_float_literal(s@),
{
    let n = s.unicode_len();
    // Skip one leading sign.
    let mut start: usize = 0;
    if n > 0 && check_sign(s.get_char(0)) {
        start = 1;
    }
    let ghost b = strip_sign(s@);
    proof {
        assert(b =~= s@.subrange(start as int, n as int));
    }
    // Find the first exponent marker, if any.
    let mut j: usize = start;
    let mut marked = false;
    while j < n && !marked
        invariant
            start <= j <= n,
            n == s@.len(),
            forall|k: int| start <= k < j ==> s@[k] != 'e' && s@[k] != 'E',
            marked ==> j < n && (s@[j as int] == 'e' || s@[j as int] == 'E'),
        decreases n - j, if marked { 0int } else { 1int },
    {
        let c = s.get_char(j);
        if c == 'e' || c == 'E' {
            marked = true;
        } else {
            j = j + 1;
        }
    }
    let m_ok = check_mantissa(s, start, j);
    proof {
        assert(s@.subrange(start as int, j as int) =~= b.subrange(0, j - start));
    }
    if !marked {
        assert(j == n);
        // No exponent marker anywhere: `s` is a literal exactly when the body
        // is a plain mantissa, since a mantissa holds no `e` or `E`.
        proof {
            if !m_ok {
                assert forall|i: int|
                    0 <= i < b.len() implies !(b[i] == 'e' || b[i] == 'E') by {
                    assert(b[i] == s@[start + i]);
                }
            }
        }
        m_ok
    } else {
        assert(s@[j as int] == 'e' || s@[j as int] == 'E');
        // Exponent part: optional sign, then at least one digit.
        let mut k: usize = j + 1;
        if k < n && check_sign(s.get_char(k)) {
            k = k + 1;
        }
        let e_ok = if k < n {
            check_all_digits(s, k, n)
        } else {
            false
        };
        let ghost exp = b.subrange(j - start + 1, b.len() as int);
        proof {
            assert(exp =~= s@.subrange(j + 1, n as int));
            assert(strip_sign(exp) =~= s@.subrange(k as int, n as int));
        }
        let r = m_ok && e_ok;
        proof {
            let d = j - start;
            assert(b[d] == 'e' || b[d] == 'E');
            if r {
                assert(is_float_literal(s@));
            } else {
                // No witness index can do better than the first marker: every
                // earlier character would have to sit inside a mantissa, and a
                // mantissa holds only digits and one point.
                assert(!is_mantissa(b)) by {
                    assert(!is_digit(b[d]));
                    if b.len() > 1 {
                        assert forall|i: int|
                            0 <= i < b.len() && b[i] == '.' implies !(all_digits(
                            b.subrange(0, i),
                        ) && all_digits(b.subrange(i + 1, b.len() as int))) by {
                            if i < d {
                                assert(b.subrange(i + 1, b.len() as int)[d - i - 1] == b[d]);
                            } else if i > d {
                                assert(b.subrange(0, i)[d] == b[d]);
                            } else {
                                assert(b[i] == '.');
                            }
                        }
                    }
                }
                assert forall|i: int|
                    0 <= i < b.len() && (b[i] == 'e' || b[i] == 'E') implies !(is_mantissa(
                    b.subrange(0, i),
                ) && is_exponent(b.subrange(i + 1, b.len() as int))) by {
                    if i < d {
                        assert(b[i] == s@[start + i]);
                    } else if i > d {
                        if is_mantissa(b.subrange(0, i)) {
                            let pre = b.subrange(0, i);
                            assert(pre[d] == b[d]);
                            assert(!is_digit(pre[d]));
                            if pre.len() > 1 {
                                assert forall|q: int|
                                    0 <= q < pre.len() && pre[q] == '.' implies !(all_digits(
                                    pre.subrange(0, q),
                                ) && all_digits(pre.subrange(q + 1, pre.len() as int))) by {
                                    if q < d {
                                        assert(pre.subrange(q + 1, pre.len() as int)[d - q - 1]
                                            == pre[d]);
                                    } else if q > d {
                                        assert(pre.subrange(0, q)[d] == pre[d]);
                                    } else {
                                        assert(pre[q] == '.');
                                    }
                                }
                            }
                            assert(false);
                        }
                    }
                }
            }
        }
        r
    }
}

} // verus!
