use vstd::prelude::*;

verus! {

pub open spec fn is_digit(c: char) -> bool {
    48 <= (c as int) <= 57
}

pub open spec fn digit_value(c: char) -> int {
    (c as int) - 48
}

pub open spec fn all_digits(s: Seq<char>) -> bool {
    forall|i: int| 0 <= i < s.len() ==> is_digit(#[trigger] s[i])
}

/// The number that a string of decimal digits writes.
pub open spec fn digits_value(s: Seq<char>) -> int
    decreases s.len(),
{
    if s.len() == 0 {
        0
    } else {
        10 * digits_value(s.drop_last()) + digit_value(s.last())
    }
}

/// Position of the first '.', or the length when there is none.
pub open spec fn dot_pos(s: Seq<char>) -> int
    decreases s.len(),
{
    if s.len() == 0 {
        0
    } else {
        let p = dot_pos(s.drop_last());
        if p < s.len() - 1 {
            p
        } else if s.last() == '.' {
            s.len() - 1
        } else {
            s.len() as int
        }
    }
}

/// Cents written by at most two fraction digits: "5" is fifty, "05" five.
pub open spec fn fraction_cents(f: Seq<char>) -> int {
    if f.len() == 0 {
        0
    } else if f.len() == 1 {
        10 * digit_value(f[0])
    } else {
        10 * digit_value(f[0]) + digit_value(f[1])
    }
}

/// The amount in cents that a decimal text writes: digits, optionally a
/// '.' and at most two digits more, with at least one digit in all.
pub open spec fn amount_cents(s: Seq<char>) -> Option<int> {
    let k = dot_pos(s);
    let whole = s.take(k);
    let fraction = if k < s.len() {
        s.skip(k + 1)
    } else {
        Seq::empty()
    };
    if all_digits(whole) && all_digits(fraction) && fraction.len() <= 2 && whole.len()
        + fraction.len() > 0 {
        Some(100 * digits_value(whole) + fraction_cents(fraction))
    } else {
        None
    }
}

/// The amount as `u32` cents, when the text is one and it fits.
pub open spec fn amount_value(s: Seq<char>) -> Option<u32> {
    match amount_cents(s) {
        Some(v) => if v <= u32::MAX {
            Some(v as u32)
        } else {
            None
        },
        None => None,
    }
}

proof fn lemma_dot_pos_bounds(s: Seq<char>)
    ensures
        0 <= dot_pos(s) <= s.len(),
        dot_pos(s) < s.len() ==> s[dot_pos(s)] == '.',
        forall|i: int| 0 <= i < dot_pos(s) ==> s[i] != '.',
    decreases s.len(),
{
    if s.len() > 0 {
        lemma_dot_pos_bounds(s.drop_last());
        assert forall|i: int| 0 <= i < dot_pos(s) implies s[i] != '.' by {
            if i < s.len() - 1 {
                assert(s.drop_last()[i] == s[i]);
            }
        }
    }
}

proof fn lemma_dot_pos_is(s: Seq<char>, k: int)
    requires
        0 <= k <= s.len(),
        k < s.len() ==> s[k] == '.',
        forall|i: int| 0 <= i < k ==> s[i] != '.',
    ensures
        dot_pos(s) == k,
{
    lemma_dot_pos_bounds(s);
    if dot_pos(s) < k {
        assert(s[dot_pos(s)] == '.');
    }
}

proof fn lemma_digits_value_grows(s: Seq<char>, n: int)
    requires
        all_digits(s),
        0 <= n <= s.len(),
    ensures
        digits_value(s.take(n)) <= digits_value(s),
        0 <= digits_value(s.take(n)),
    decreases s.len() - n,
{
    if n < s.len() {
        let p = s.drop_last();
        assert(all_digits(p)) by {
            assert forall|i: int| 0 <= i < p.len() implies is_digit(#[trigger] p[i]) by {
                assert(p[i] == s[i]);
            }
        }
        lemma_digits_value_grows(p, n);
        assert(p.take(n) =~= s.take(n));
        lemma_digits_value_grows(p, p.len() as int);
        assert(p.take(p.len() as int) =~= p);
        assert(is_digit(s[s.len() - 1]));
    } else {
        assert(s.take(n) =~= s);
        lemma_digits_nonneg(s);
    }
}

proof fn lemma_digits_nonneg(s: Seq<char>)
    requires
        all_digits(s),
    ensures
        digits_value(s) >= 0,
    decreases s.len(),
{
    if s.len() > 0 {
        let p = s.drop_last();
        assert(all_digits(p)) by {
            assert forall|i: int| 0 <= i < p.len() implies is_digit(#[trigger] p[i]) by {
                assert(p[i] == s[i]);
            }
        }
        lemma_digits_nonneg(p);
        assert(is_digit(s[s.len() - 1]));
    }
}

/// Reads a decimal amount such as "33.12", "5", "5." or ".5" as cents.
/// Returns `None` for anything else (a sign, a third fraction digit, an
/// exponent, other characters) and for amounts beyond `u32::MAX` cents.
pub fn parse_amount(s: &str) -> (r: Option<u32>)
    ensures
        r == amount_value(s@),
{
    let n = s.unicode_len();
    let ghost t = s@;
    proof {
        lemma_dot_pos_bounds(t);
    }
    // whole part
    let mut whole: u64 = 0;
    let mut i: usize = 0;
    while i < n
        invariant
            n == t.len(),
            t == s@,
            i <= n,
            all_digits(t.take(i as int)),
            forall|k: int| 0 <= k < i ==> t[k] != '.',
            whole == digits_value(t.take(i as int)),
            whole <= u32::MAX,
        ensures
            i <= n,
            all_digits(t.take(i as int)),
            forall|k: int| 0 <= k < i ==> t[k] != '.',
            whole == digits_value(t.take(i as int)),
            whole <= u32::MAX,
            i < n ==> t[i as int] == '.',
        decreases n - i,
    {
        let c = s.get_char(i);
        if c == '.' {
            break;
        }
        let code = c as u32;
        if code < 48 || code > 57 {
            proof {
                lemma_dot_not_before(t, i as int);
                assert(t.take(dot_pos(t))[i as int] == c);
            }
            return None;
        }
        assert(t.take(i + 1).drop_last() =~= t.take(i as int));
        let next = 10 * whole + (code - 48) as u64;
        if next > u32::MAX as u64 {
            proof {
                lemma_dot_not_before(t, i as int);
                let w = t.take(dot_pos(t));
                if all_digits(w) {
                    assert(w.take(i + 1) =~= t.take(i + 1));
                    lemma_digits_value_grows(w, i + 1);
                }
            }
            return None;
        }
        whole = next;
        assert(all_digits(t.take(i + 1))) by {
            assert forall|k: int| 0 <= k < i + 1 implies is_digit(#[trigger] t.take(i + 1)[k]) by {
                if k < i {
                    assert(t.take(i + 1)[k] == t.take(i as int)[k]);
                }
            }
        }
        i = i + 1;
    }
    proof {
        lemma_dot_pos_is(t, i as int);
    }
    let k = i;
    // fraction part
    let mut cents: u64 = 0;
    let mut digits: usize = 0;
    if k < n {
        let mut j: usize = k + 1;
        while j < n
            invariant
                n == t.len(),
                t == s@,
                k < n,
                k + 1 <= j <= n,
                digits == j - k - 1,
                all_digits(t.subrange(k + 1, j as int)),
                digits <= 2,
                cents == digits_value(t.subrange(k + 1, j as int)),
                digits == 0 ==> cents == 0,
                digits <= 1 ==> cents <= 9,
                cents <= 99,
                dot_pos(t) == k,
            decreases n - j,
        {
            let c = s.get_char(j);
            let code = c as u32;
            if code < 48 || code > 57 || digits == 2 {
                proof {
                    let f = t.skip(k + 1);
                    if code < 48 || code > 57 {
                        assert(f[j - k - 1] == c);
                    } else {
                        assert(f.len() > 2);
                    }
                }
                return None;
            }
            assert(t.subrange(k + 1, j + 1).drop_last() =~= t.subrange(k + 1, j as int));
            cents = 10 * cents + (code - 48) as u64;
            digits = digits + 1;
            assert(all_digits(t.subrange(k + 1, j + 1))) by {
                assert forall|m: int| 0 <= m < j + 1 - (k + 1) implies is_digit(
                    #[trigger] t.subrange(k + 1, j + 1)[m],
                ) by {
                    if m < j - (k + 1) {
                        assert(t.subrange(k + 1, j + 1)[m] == t.subrange(k + 1, j as int)[m]);
                    }
                }
            }
            j = j + 1;
        }
        let ghost f = t.skip(k + 1);
        assert(t.subrange(k + 1, n as int) =~= f);
        assert(f.len() == digits);
        assert(all_digits(f));
        if digits == 2 {
            assert(f.drop_last().drop_last() =~= Seq::<char>::empty());
            assert(f.drop_last()[0] == f[0]);
            assert(f.last() == f[1]);
            assert(digits_value(f.drop_last()) == digit_value(f[0]));
            assert(cents == fraction_cents(f));
        } else if digits == 1 {
            assert(f.drop_last() =~= Seq::<char>::empty());
            assert(f.last() == f[0]);
            assert(10 * cents == fraction_cents(f));
        } else {
            assert(fraction_cents(f) == 0);
        }
    }
    if k == n {
        assert(t.take(k as int) =~= t);
    }
    assert(t.take(dot_pos(t)) == t.take(k as int));
    if digits == 0 && k == 0 {
        return None;
    }
    if digits == 1 {
        cents = cents * 10;
    }
    assert(amount_cents(t) == Some(100 * whole + cents));
    let total = 100 * whole + cents;
    if total > u32::MAX as u64 {
        return None;
    }
    Some(total as u32)
}

proof fn lemma_dot_not_before(t: Seq<char>, i: int)
    requires
        0 <= i < t.len(),
        t[i] != '.',
        forall|k: int| 0 <= k < i ==> t[k] != '.',
    ensures
        i < dot_pos(t),
{
    lemma_dot_pos_bounds(t);
    if dot_pos(t) <= i {
        if dot_pos(t) < i {
            assert(t[dot_pos(t)] == '.');
        }
    }
}

} // verus!
