//! Integer and float literals as `str::parse` reads them.
//!
//! An integer literal is an optional `+` or `-` followed by one or more ASCII
//! digits; it is read only when its value fits the target type. A float
//! literal follows the grammar of std's float `FromStr`, case-insensitively:
//! `Sign? ('inf' | 'infinity' | 'nan' | Number)`, where
//! `Number ::= (Digit+ | Digit+ '.' Digit* | Digit* '.' Digit+) Exp?` and
//! `Exp ::= 'e' Sign? Digit+`.

use vstd::prelude::*;

verus! {

pub open spec fn is_digit(c: char) -> bool {
    '0' <= c && c <= '9'
}

pub open spec fn digit_value(c: char) -> int {
    c as int - '0' as int
}

pub open spec fn all_digits(t: Seq<char>) -> bool {
    forall|i: int| 0 <= i < t.len() ==> is_digit(#[trigger] t[i])
}

/// The value of a run of decimal digits.
pub open spec fn digits_value(t: Seq<char>) -> int
    decreases t.len(),
{
    if t.len() == 0 {
        0
    } else {
        digits_value(t.drop_last()) * 10 + digit_value(t.last())
    }
}

pub open spec fn is_sign(c: char) -> bool {
    c == '+' || c == '-'
}

/// The text after an optional leading sign.
pub open spec fn unsigned_part(t: Seq<char>) -> Seq<char> {
    if t.len() > 0 && is_sign(t[0]) {
        t.drop_first()
    } else {
        t
    }
}

/// The value of an integer literal, whatever its size.
pub open spec fn int_literal_value(t: Seq<char>) -> Option<int> {
    let d = unsigned_part(t);
    if d.len() > 0 && all_digits(d) {
        if t[0] == '-' {
            Some(-digits_value(d))
        } else {
            Some(digits_value(d))
        }
    } else {
        None
    }
}

/// The value of an integer literal when it lies in `lo..=hi`.
pub open spec fn int_literal_in(t: Seq<char>, lo: int, hi: int) -> Option<int> {
    match int_literal_value(t) {
        Some(v) => if lo <= v <= hi {
            Some(v)
        } else {
            None
        },
        None => None,
    }
}

proof fn lemma_digits_value_nonneg(t: Seq<char>)
    requires
        all_digits(t),
    ensures
        digits_value(t) >= 0,
    decreases t.len(),
{
    if t.len() > 0 {
        assert(is_digit(t[t.len() - 1]));
        lemma_digits_value_nonneg(t.drop_last());
    }
}

/// A longer run of digits is worth at least as much as its prefix.
proof fn lemma_digits_value_prefix(t: Seq<char>, k: int)
    requires
        all_digits(t),
        0 <= k <= t.len(),
    ensures
        digits_value(t.take(k)) <= digits_value(t),
    decreases t.len(),
{
    if k < t.len() {
        assert(is_digit(t[t.len() - 1]));
        lemma_digits_value_nonneg(t.drop_last());
        lemma_digits_value_prefix(t.drop_last(), k);
        assert(t.drop_last().take(k) == t.take(k));
    } else {
        assert(t.take(k) == t);
    }
}

/// Reads an integer literal whose value lies in `lo..=hi`.
pub fn parse_int_in(t: &[char], lo: i64, hi: i64) -> (r: Option<i64>)
    requires
        lo <= 0 <= hi,
    ensures
        match r {
            Some(v) => int_literal_in(t@, lo as int, hi as int) == Some(v as int),
            None => int_literal_in(t@, lo as int, hi as int) is None,
        },
{
    let n = t.len();
    if n == 0 {
        return None;
    }
    let neg = t[0] == '-';
    let start: usize = if t[0] == '-' || t[0] == '+' { 1 } else { 0 };
    if start >= n {
        return None;
    }
    let ghost d = unsigned_part(t@);
    assert(d == t@.subrange(start as int, n as int));
    // The largest magnitude allowed for the sign that was read.
    let bound: u64 = if neg {
        (-(lo as i128)) as u64
    } else {
        hi as u64
    };
    let mut acc: u64 = 0;
    let mut i: usize = start;
    while i < n
        invariant
            start <= i <= n,
            n == t@.len(),
            d == t@.subrange(start as int, n as int),
            d == unsigned_part(t@),
            n > 0,
            neg == (t@[0] == '-'),
            all_digits(d.take(i - start)),
            acc as int == digits_value(d.take(i - start)),
            acc <= bound,
            bound as int == if neg { -(lo as int) } else { hi as int },
        decreases n - i,
    {
        let c = t[i];
        assert(d.take(i - start + 1).drop_last() == d.take(i - start));
        assert(d[i - start] == c);
        if !('0' <= c && c <= '9') {
            assert(!is_digit(d[i - start]));
            return None;
        }
        let dv: u64 = (c as u32 - '0' as u32) as u64;
        if dv > bound || acc > (bound - dv) / 10 {
            proof {
                if dv <= bound {
                    assert(acc * 10 + dv > bound) by (nonlinear_arith)
                        requires
                            acc > (bound - dv) / 10,
                            dv <= bound,
                    ;
                }
                assert(digits_value(d.take(i - start + 1)) == acc * 10 + dv);
                if all_digits(d) {
                    lemma_digits_value_prefix(d, i - start + 1);
                }
            }
            return None;
        }
        proof {
            assert(acc * 10 + dv <= bound) by (nonlinear_arith)
                requires
                    acc <= (bound - dv) / 10,
                    dv <= bound,
            ;
        }
        acc = acc * 10 + dv;
        i += 1;
    }
    assert(d.take(n - start) == d);
    if neg {
        let v: i128 = -(acc as i128);
        Some(v as i64)
    } else {
        Some(acc as i64)
    }
}

/// `c` equals the ASCII lowercase letter `lower`, ignoring case.
pub open spec fn ci_char_eq(c: char, lower: char) -> bool {
    c == lower || c as int == lower as int - 32
}

/// `t` spells `word` (an ASCII lowercase word), ignoring case.
pub open spec fn ci_eq(t: Seq<char>, word: Seq<char>) -> bool {
    t.len() == word.len() && forall|i: int| 0 <= i < t.len() ==> ci_char_eq(#[trigger] t[i], word[i])
}

/// `k` is the first position in `t` that holds `a` or `b` (`t.len()` if none does).
pub open spec fn is_first_of(t: Seq<char>, k: int, a: char, b: char) -> bool {
    &&& 0 <= k <= t.len()
    &&& forall|j: int| 0 <= j < k ==> #[trigger] t[j] != a && t[j] != b
    &&& k < t.len() ==> (t[k] == a || t[k] == b)
}

/// A mantissa: digits with at most one `.`, and at least one digit.
pub open spec fn is_mantissa(m: Seq<char>) -> bool {
    forall|k: int|
        #![trigger is_first_of(m, k, '.', '.')]
        is_first_of(m, k, '.', '.') ==> if k == m.len() {
            m.len() > 0 && all_digits(m)
        } else {
            all_digits(m.take(k)) && all_digits(m.skip(k + 1)) && m.len() > 1
        }
}

/// An exponent after its `e`: an optional sign and one or more digits.
pub open spec fn is_exponent(x: Seq<char>) -> bool {
    unsigned_part(x).len() > 0 && all_digits(unsigned_part(x))
}

/// A decimal number: a mantissa and an optional exponent.
pub open spec fn is_number(b: Seq<char>) -> bool {
    forall|k: int|
        #![trigger is_first_of(b, k, 'e', 'E')]
        is_first_of(b, k, 'e', 'E') ==> if k == b.len() {
            is_mantissa(b)
        } else {
            is_mantissa(b.take(k)) && is_exponent(b.skip(k + 1))
        }
}

/// A text that std's float `FromStr` reads without error.
pub open spec fn is_float_literal(t: Seq<char>) -> bool {
    let b = unsigned_part(t);
    ||| ci_eq(b, seq!['i', 'n', 'f'])
    ||| ci_eq(b, seq!['i', 'n', 'f', 'i', 'n', 'i', 't', 'y'])
    ||| ci_eq(b, seq!['n', 'a', 'n'])
    ||| is_number(b)
}

proof fn lemma_first_of_unique(t: Seq<char>, k1: int, k2: int, a: char, b: char)
    requires
        is_first_of(t, k1, a, b),
        is_first_of(t, k2, a, b),
    ensures
        k1 == k2,
{
    if k1 < k2 {
        assert(t[k1] != a && t[k1] != b);
    } else if k2 < k1 {
        assert(t[k2] != a && t[k2] != b);
    }
}

/// The first position in `t[lo..hi]` that holds `a` or `b`, counted from `lo`.
fn first_of(t: &[char], lo: usize, hi: usize, a: char, b: char) -> (k: usize)
    requires
        lo <= hi <= t.len(),
    ensures
        lo <= k <= hi,
        is_first_of(t@.subrange(lo as int, hi as int), k - lo, a, b),
{
    let ghost sub = t@.subrange(lo as int, hi as int);
    let mut i = lo;
    while i < hi
        invariant
            lo <= i <= hi <= t.len(),
            sub == t@.subrange(lo as int, hi as int),
            forall|j: int| 0 <= j < i - lo ==> #[trigger] sub[j] != a && sub[j] != b,
        decreases hi - i,
    {
        if t[i] == a || t[i] == b {
            return i;
        }
        i += 1;
    }
    i
}

/// Whether `t[lo..hi]` is made of ASCII digits only.
fn digits_only(t: &[char], lo: usize, hi: usize) -> (r: bool)
    requires
        lo <= hi <= t.len(),
    ensures
        r == all_digits(t@.subrange(lo as int, hi as int)),
{
    let ghost sub = t@.subrange(lo as int, hi as int);
    let mut i = lo;
    while i < hi
        invariant
            lo <= i <= hi <= t.len(),
            sub == t@.subrange(lo as int, hi as int),
            forall|j: int| 0 <= j < i - lo ==> is_digit(#[trigger] sub[j]),
        decreases hi - i,
    {
        if !('0' <= t[i] && t[i] <= '9') {
            assert(!is_digit(sub[i - lo]));
            return false;
        }
        i += 1;
    }
    true
}

/// Whether `t[lo..hi]` spells the ASCII lowercase `word`, ignoring case;
/// `upper` holds the same word in capitals.
fn spells_ci(t: &[char], lo: usize, hi: usize, word: &[char], upper: &[char]) -> (r: bool)
    requires
        lo <= hi <= t.len(),
        upper.len() == word.len(),
        forall|i: int| 0 <= i < word.len() ==> #[trigger] upper@[i] as int == word@[i] as int - 32,
    ensures
        r == ci_eq(t@.subrange(lo as int, hi as int), word@),
{
    let ghost sub = t@.subrange(lo as int, hi as int);
    if hi - lo != word.len() {
        return false;
    }
    let mut i: usize = 0;
    while i < word.len()
        invariant
            i <= word.len() == hi - lo,
            upper.len() == word.len(),
            lo <= hi <= t.len(),
            sub == t@.subrange(lo as int, hi as int),
            forall|j: int| 0 <= j < i ==> ci_char_eq(#[trigger] sub[j], word@[j]),
            forall|j: int| 0 <= j < word.len() ==> #[trigger] upper@[j] as int == word@[j] as int - 32,
        decreases word.len() - i,
    {
        let c = t[lo + i];
        assert(sub[i as int] == c);
        assert(upper@[i as int] as int == word@[i as int] as int - 32);
        if !(c == word[i] || c == upper[i]) {
            assert(!ci_char_eq(sub[i as int], word@[i as int]));
            return false;
        }
        i += 1;
    }
    true
}

/// Whether `t[lo..hi]` is a mantissa.
fn mantissa_ok(t: &[char], lo: usize, hi: usize) -> (r: bool)
    requires
        lo <= hi <= t.len(),
    ensures
        r == is_mantissa(t@.subrange(lo as int, hi as int)),
{
    let ghost m = t@.subrange(lo as int, hi as int);
    let k = first_of(t, lo, hi, '.', '.');
    proof {
        assert forall|k2: int| is_first_of(m, k2, '.', '.') implies k2 == k - lo by {
            lemma_first_of_unique(m, k2, k - lo, '.', '.');
        }
    }
    if k == hi {
        hi > lo && digits_only(t, lo, hi)
    } else {
        assert(m.take(k - lo) == t@.subrange(lo as int, k as int));
        assert(m.skip(k - lo + 1) == t@.subrange(k + 1, hi as int));
        digits_only(t, lo, k) && digits_only(t, k + 1, hi) && hi - lo > 1
    }
}

/// Whether `t[lo..hi]` is an exponent (what follows the `e`).
fn exponent_ok(t: &[char], lo: usize, hi: usize) -> (r: bool)
    requires
        lo <= hi <= t.len(),
    ensures
        r == is_exponent(t@.subrange(lo as int, hi as int)),
{
    let ghost x = t@.subrange(lo as int, hi as int);
    let start = if lo < hi && (t[lo] == '+' || t[lo] == '-') { lo + 1 } else { lo };
    assert(unsigned_part(x) == t@.subrange(start as int, hi as int));
    start < hi && digits_only(t, start, hi)
}

/// Whether a text is a float literal that std's float `FromStr` reads without error.
pub fn float_literal_ok(t: &[char]) -> (r: bool)
    ensures
        r == is_float_literal(t@),
{
    let n = t.len();
    let lo: usize = if n > 0 && (t[0] == '+' || t[0] == '-') { 1 } else { 0 };
    let ghost b = unsigned_part(t@);
    assert(b == t@.subrange(lo as int, n as int));
    let inf = ['i', 'n', 'f'];
    let inf_upper = ['I', 'N', 'F'];
    let infinity = ['i', 'n', 'f', 'i', 'n', 'i', 't', 'y'];
    let infinity_upper = ['I', 'N', 'F', 'I', 'N', 'I', 'T', 'Y'];
    let nan = ['n', 'a', 'n'];
    let nan_upper = ['N', 'A', 'N'];
    assert(inf@ == seq!['i', 'n', 'f']);
    assert(infinity@ == seq!['i', 'n', 'f', 'i', 'n', 'i', 't', 'y']);
    assert(nan@ == seq!['n', 'a', 'n']);
    assert(forall|i: int| 0 <= i < 3 ==> #[trigger] inf_upper@[i] as int == inf@[i] as int - 32);
    assert(forall|i: int| 0 <= i < 8 ==> #[trigger] infinity_upper@[i] as int == infinity@[i] as int - 32);
    assert(forall|i: int| 0 <= i < 3 ==> #[trigger] nan_upper@[i] as int == nan@[i] as int - 32);
    if spells_ci(t, lo, n, inf.as_slice(), inf_upper.as_slice())
        || spells_ci(t, lo, n, infinity.as_slice(), infinity_upper.as_slice())
        || spells_ci(t, lo, n, nan.as_slice(), nan_upper.as_slice()) {
        return true;
    }
    let k = first_of(t, lo, n, 'e', 'E');
    proof {
        assert forall|k2: int| is_first_of(b, k2, 'e', 'E') implies k2 == k - lo by {
            lemma_first_of_unique(b, k2, k - lo, 'e', 'E');
        }
    }
    if k == n {
        mantissa_ok(t, lo, n)
    } else {
        assert(b.take(k - lo) == t@.subrange(lo as int, k as int));
        assert(b.skip(k - lo + 1) == t@.subrange(k + 1, n as int));
        mantissa_ok(t, lo, k) && exponent_ok(t, k + 1, n)
    }
}

} // verus!
