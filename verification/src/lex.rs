//! Lexical ground layer of the log grammar: character scanning, decimal
//! tokens and their values, and the shape of floating-point second tokens.
//!
//! Times such as `request_processing_time` are carried through as their
//! validated decimal text, never converted to machine floats here; the
//! sentinel `-1` is an ordinary value of that token shape.

use vstd::prelude::*;

verus! {

/// Index of the first occurrence of `c` in `s` at or after `i`, or
/// `s.len()` when there is none.
pub open spec fn find_from(s: Seq<char>, i: int, c: char) -> int
    decreases s.len() - i,
{
    if 0 <= i < s.len() {
        if s[i] == c {
            i
        } else {
            find_from(s, i + 1, c)
        }
    } else {
        s.len() as int
    }
}

/// What [`find_from`] returns: the first hit, with nothing equal to `c`
/// before it.
pub proof fn lemma_find_from(s: Seq<char>, i: int, c: char)
    requires
        0 <= i <= s.len(),
    ensures
        i <= find_from(s, i, c) <= s.len(),
        forall|k: int| i <= k < find_from(s, i, c) ==> s[k] != c,
        find_from(s, i, c) < s.len() ==> s[find_from(s, i, c)] == c,
    decreases s.len() - i,
{
    if i < s.len() && s[i] != c {
        lemma_find_from(s, i + 1, c);
    }
}

/// A position with no `c` before it and `c` (or the end) at it is what
/// [`find_from`] returns.
pub proof fn lemma_find_from_is(s: Seq<char>, i: int, c: char, j: int)
    requires
        0 <= i <= j <= s.len(),
        forall|k: int| i <= k < j ==> s[k] != c,
        j == s.len() || s[j] == c,
    ensures
        find_from(s, i, c) == j,
    decreases j - i,
{
    if i < j {
        lemma_find_from_is(s, i + 1, c, j);
    }
}

pub open spec fn is_digit(c: char) -> bool {
    48 <= c as u32 <= 57
}

/// Numeric value of one decimal digit character.
pub open spec fn digit_val(c: char) -> int {
    c as u32 - 48
}

/// All characters of `t` in `[a, b)` are decimal digits.
pub open spec fn digits_range(t: Seq<char>, a: int, b: int) -> bool {
    forall|k: int| a <= k < b ==> is_digit(#[trigger] t[k])
}

pub open spec fn all_digits(t: Seq<char>) -> bool {
    digits_range(t, 0, t.len() as int)
}

/// Value of a digit string read in base ten.
pub open spec fn dec_value(t: Seq<char>) -> int
    decreases t.len(),
{
    if t.len() == 0 {
        0
    } else {
        dec_value(t.drop_last()) * 10 + digit_val(t.last())
    }
}

/// A token that a bounded unsigned decimal field accepts: one or more
/// digits whose value does not exceed `max`. Leading zeros are allowed.
pub open spec fn is_dec_token(t: Seq<char>, max: int) -> bool {
    t.len() > 0 && all_digits(t) && dec_value(t) <= max
}

pub open spec fn spec_digit_char(d: int) -> char {
    if d == 0 {
        '0'
    } else if d == 1 {
        '1'
    } else if d == 2 {
        '2'
    } else if d == 3 {
        '3'
    } else if d == 4 {
        '4'
    } else if d == 5 {
        '5'
    } else if d == 6 {
        '6'
    } else if d == 7 {
        '7'
    } else if d == 8 {
        '8'
    } else {
        '9'
    }
}

/// Canonical decimal text of `n`: no sign, no leading zero except on zero
/// itself.
pub open spec fn dec_str(n: nat) -> Seq<char>
    decreases n,
{
    if n < 10 {
        seq![spec_digit_char(n as int)]
    } else {
        dec_str(n / 10).push(spec_digit_char((n % 10) as int))
    }
}

pub proof fn lemma_dec_str_digits(n: nat)
    ensures
        dec_str(n).len() >= 1,
        all_digits(dec_str(n)),
    decreases n,
{
    if n < 10 {
        assert(is_digit(spec_digit_char(n as int)));
        assert(dec_str(n) == seq![spec_digit_char(n as int)]);
    } else {
        lemma_dec_str_digits(n / 10);
        let a = dec_str(n / 10);
        let c = spec_digit_char((n % 10) as int);
        assert(is_digit(c));
        assert forall|k: int| 0 <= k < a.push(c).len() implies is_digit(a.push(c)[k]) by {
            if k < a.len() {
                assert(a.push(c)[k] == a[k]);
            }
        }
    }
}

pub proof fn lemma_dec_value_dec_str(n: nat)
    ensures
        dec_value(dec_str(n)) == n,
    decreases n,
{
    if n < 10 {
        let t = dec_str(n);
        assert(t.drop_last() =~= Seq::<char>::empty());
        assert(digit_val(t.last()) == n);
        assert(dec_value(t) == dec_value(t.drop_last()) * 10 + digit_val(t.last()));
        assert(dec_value(Seq::<char>::empty()) == 0);
    } else {
        lemma_dec_value_dec_str(n / 10);
        let t = dec_str(n);
        assert(t.len() > 0);
        assert(t.drop_last() =~= dec_str(n / 10));
        assert(digit_val(t.last()) == n % 10);
        assert(dec_value(t) == dec_value(t.drop_last()) * 10 + digit_val(t.last()));
        assert(n == 10 * (n / 10) + n % 10);
    }
}

pub proof fn lemma_dec_value_nonneg(t: Seq<char>)
    requires
        all_digits(t),
    ensures
        dec_value(t) >= 0,
    decreases t.len(),
{
    if t.len() > 0 {
        assert(all_digits(t.drop_last())) by {
            assert forall|k: int| 0 <= k < t.drop_last().len() implies is_digit(
                t.drop_last()[k],
            ) by {
                assert(t.drop_last()[k] == t[k]);
            }
        }
        lemma_dec_value_nonneg(t.drop_last());
        assert(digit_val(t.last()) >= 0);
    }
}

/// Reading more digits never shrinks the value.
pub proof fn lemma_dec_value_prefix(t: Seq<char>, i: int)
    requires
        0 <= i <= t.len(),
        all_digits(t),
    ensures
        dec_value(t) >= dec_value(t.take(i)),
    decreases t.len() - i,
{
    if i == t.len() {
        assert(t.take(i) =~= t);
    } else {
        lemma_dec_value_prefix(t, i + 1);
        assert(t.take(i + 1).drop_last() =~= t.take(i));
        assert(t.take(i + 1).last() == t[i]);
        assert(all_digits(t.take(i))) by {
            assert forall|k: int| 0 <= k < t.take(i).len() implies is_digit(t.take(i)[k]) by {
                assert(t.take(i)[k] == t[k]);
            }
        }
        lemma_dec_value_nonneg(t.take(i));
        assert(dec_value(t.take(i + 1)) == dec_value(t.take(i)) * 10 + digit_val(t[i]));
        assert(dec_value(t.take(i)) * 10 >= dec_value(t.take(i)));
    }
}

/// Reads `t` as a bounded unsigned decimal, exactly when `t` is such a
/// token for the bound `max`.
pub fn parse_dec(t: &str, max: u64) -> (r: Option<u64>)
    requires
        max >= 9,
    ensures
        match r {
            Some(v) => is_dec_token(t@, max as int) && v == dec_value(t@),
            None => !is_dec_token(t@, max as int),
        },
{
    let n = t.unicode_len();
    if n == 0 {
        return None;
    }
    let mut acc: u64 = 0;
    let mut i: usize = 0;
    while i < n
        invariant
            n == t@.len(),
            0 <= i <= n,
            digits_range(t@, 0, i as int),
            acc == dec_value(t@.take(i as int)),
            acc <= max,
            max >= 9,
        decreases n - i,
    {
        let c = t.get_char(i);
        let u = c as u32;
        if u < 48 || u > 57 {
            assert(!is_digit(t@[i as int]));
            return None;
        }
        let d: u64 = (u - 48) as u64;
        proof {
            assert(t@.take(i + 1).drop_last() =~= t@.take(i as int));
            assert(t@.take(i + 1).last() == t@[i as int]);
            assert(dec_value(t@.take(i + 1)) == acc * 10 + d);
        }
        if acc > (max - d) / 10 {
            proof {
                let q = (max - d) / 10;
                assert(max - d == 10 * q + (max - d) % 10);
                assert(acc * 10 >= (q + 1) * 10) by (nonlinear_arith)
                    requires
                        acc >= q + 1,
                ;
                assert(acc * 10 + d > max);
                if all_digits(t@) {
                    lemma_dec_value_prefix(t@, i + 1);
                    assert(dec_value(t@) > max);
                }
            }
            return None;
        }
        proof {
            let q = (max - d) / 10;
            assert(max - d == 10 * q + (max - d) % 10);
            assert(acc * 10 <= q * 10) by (nonlinear_arith)
                requires
                    acc <= q,
            ;
        }
        acc = acc * 10 + d;
        i = i + 1;
    }
    proof {
        assert(t@.take(n as int) =~= t@);
    }
    Some(acc)
}

/// Writes `n` as its canonical decimal text.
pub fn render_dec(n: u64) -> (r: String)
    ensures
        r@ == dec_str(n as nat),
    decreases n,
{
    if n < 10 {
        digit_str(n).to_owned()
    } else {
        let mut s = render_dec(n / 10);
        s.append(digit_str(n % 10));
        proof {
            assert(dec_str((n / 10) as nat).push(spec_digit_char((n % 10) as int)) =~= dec_str(
                (n / 10) as nat,
            ) + seq![spec_digit_char((n % 10) as int)]);
        }
        s
    }
}

/// The one-character text of a decimal digit.
pub fn digit_str(d: u64) -> (r: &'static str)
    requires
        d < 10,
    ensures
        r@ == seq![spec_digit_char(d as int)],
{
    proof {
        reveal_strlit("0");
        reveal_strlit("1");
        reveal_strlit("2");
        reveal_strlit("3");
        reveal_strlit("4");
        reveal_strlit("5");
        reveal_strlit("6");
        reveal_strlit("7");
        reveal_strlit("8");
        reveal_strlit("9");
    }
    if d == 0 {
        proof {
            assert("0"@ =~= seq![spec_digit_char(0)]);
        }
        "0"
    } else if d == 1 {
        proof {
            assert("1"@ =~= seq![spec_digit_char(1)]);
        }
        "1"
    } else if d == 2 {
        proof {
            assert("2"@ =~= seq![spec_digit_char(2)]);
        }
        "2"
    } else if d == 3 {
        proof {
            assert("3"@ =~= seq![spec_digit_char(3)]);
        }
        "3"
    } else if d == 4 {
        proof {
            assert("4"@ =~= seq![spec_digit_char(4)]);
        }
        "4"
    } else if d == 5 {
        proof {
            assert("5"@ =~= seq![spec_digit_char(5)]);
        }
        "5"
    } else if d == 6 {
        proof {
            assert("6"@ =~= seq![spec_digit_char(6)]);
        }
        "6"
    } else if d == 7 {
        proof {
            assert("7"@ =~= seq![spec_digit_char(7)]);
        }
        "7"
    } else if d == 8 {
        proof {
            assert("8"@ =~= seq![spec_digit_char(8)]);
        }
        "8"
    } else {
        proof {
            assert("9"@ =~= seq![spec_digit_char(9)]);
        }
        "9"
    }
}

/// The shape of a floating-point seconds token: an optional minus sign, one
/// or more integer digits, then optionally a dot and one or more fraction
/// digits. The sentinel `-1` has this shape like any other value.
pub open spec fn is_float_token(t: Seq<char>) -> bool {
    let s: int = if t.len() > 0 && t[0] == '-' {
        1
    } else {
        0
    };
    let j = find_from(t, s, '.');
    &&& j > s
    &&& digits_range(t, s, j)
    &&& (j == t.len() || (t.len() > j + 1 && digits_range(t, j + 1, t.len() as int)))
}

/// Float tokens are nonempty and hold no space and no double quote.
pub proof fn lemma_float_token_chars(t: Seq<char>)
    requires
        is_float_token(t),
    ensures
        t.len() > 0,
        forall|k: int| 0 <= k < t.len() ==> t[k] != ' ' && t[k] != '"',
{
    let s: int = if t.len() > 0 && t[0] == '-' {
        1
    } else {
        0
    };
    let j = find_from(t, s, '.');
    lemma_find_from(t, s, '.');
    assert forall|k: int| 0 <= k < t.len() implies t[k] != ' ' && t[k] != '"' by {
        if k < s {
            assert(t[k] == '-');
        } else if k < j {
            assert(is_digit(t[k]));
        } else if k == j {
            assert(t[k] == '.');
        } else {
            assert(is_digit(t[k]));
        }
    }
}

/// Character-wise string equality, meaning equality of the views.
pub fn str_eq(a: &str, b: &str) -> (r: bool)
    ensures
        r == (a@ == b@),
{
    let na = a.unicode_len();
    let nb = b.unicode_len();
    if na != nb {
        proof {
            if a@ == b@ {
                assert(a@.len() == b@.len());
            }
        }
        return false;
    }
    let mut i: usize = 0;
    while i < na
        invariant
            na == a@.len(),
            nb == b@.len(),
            na == nb,
            i <= na,
            forall|k: int| 0 <= k < i ==> a@[k] == b@[k],
        decreases na - i,
    {
        if a.get_char(i) != b.get_char(i) {
            proof {
                if a@ == b@ {
                    assert(a@[i as int] == b@[i as int]);
                }
            }
            return false;
        }
        i = i + 1;
    }
    proof {
        assert(a@ =~= b@);
    }
    true
}

/// Executable form of [`is_digit`].
pub fn is_digit_char(c: char) -> (r: bool)
    ensures
        r == is_digit(c),
{
    let u = c as u32;
    48 <= u && u <= 57
}

/// Recognizes the floating-point seconds token shape, exactly.
pub fn check_float(t: &str) -> (r: bool)
    ensures
        r == is_float_token(t@),
{
    let n = t.unicode_len();
    let start: usize = if n > 0 && t.get_char(0) == '-' {
        1
    } else {
        0
    };
    let ghost s: int = start as int;
    let mut i: usize = start;
    while i < n && t.get_char(i) != '.' && is_digit_char(t.get_char(i))
        invariant
            n == t@.len(),
            start <= i <= n,
            s == start,
            digits_range(t@, s, i as int),
            forall|k: int| s <= k < i ==> t@[k] != '.',
        decreases n - i,
    {
        i = i + 1;
    }
    // i is the first position at or after `start` that is the end, a dot,
    // or a non-digit character.
    if i < n && !is_digit_char(t.get_char(i)) && t.get_char(i) != '.' {
        // A character before any dot that is neither digit nor dot.
        proof {
            lemma_find_from(t@, s, '.');
            let j = find_from(t@, s, '.');
            assert(j > i);
            assert(!is_digit(t@[i as int]));
        }
        return false;
    }
    if i < n && t.get_char(i) == '.' {
        proof {
            lemma_find_from_is(t@, s, '.', i as int);
        }
        if i <= start {
            return false;
        }
        if i + 1 >= n {
            return false;
        }
        let mut k: usize = i + 1;
        while k < n && is_digit_char(t.get_char(k))
            invariant
                n == t@.len(),
                i + 1 <= k <= n,
                digits_range(t@, i + 1, k as int),
            decreases n - k,
        {
            k = k + 1;
        }
        if k < n {
            proof {
                assert(!is_digit(t@[k as int]));
            }
            return false;
        }
        return true;
    }
    // No dot: i reached the end or a non-digit was already rejected.
    proof {
        lemma_find_from_is(t@, s, '.', i as int);
    }
    i == n && i > start
}

} // verus!
