use vstd::prelude::*;

verus! {

/// A decimal digit `0`..`9`.
pub open spec fn is_digit(c: char) -> bool {
    '0' <= c && c <= '9'
}

pub open spec fn all_digits(s: Seq<char>) -> bool {
    forall|i: int| 0 <= i < s.len() ==> is_digit(#[trigger] s[i])
}

pub open spec fn is_sign(c: char) -> bool {
    c == '+' || c == '-'
}

/// Digits with at most one decimal point and at least one digit:
/// `12`, `1.5`, `1.`, `.5`.
pub open spec fn is_decimal(s: Seq<char>) -> bool {
    ||| (s.len() > 0 && all_digits(s))
    ||| (s.len() > 1 && exists|k: int|
        0 <= k < s.len() && #[trigger] s[k] == '.' && all_digits(s.take(k)) && all_digits(
            s.skip(k + 1),
        ))
}

/// What may follow the exponent marker: digits, with an optional sign.
pub open spec fn is_exponent(s: Seq<char>) -> bool {
    ||| (s.len() > 0 && all_digits(s))
    ||| (s.len() > 1 && is_sign(s[0]) && all_digits(s.skip(1)))
}

pub open spec fn is_exponent_marker(c: char) -> bool {
    c == 'e' || c == 'E'
}

/// A decimal, optionally followed by `e` or `E` and an exponent.
pub open spec fn is_unsigned_number(s: Seq<char>) -> bool {
    ||| is_decimal(s)
    ||| exists|k: int|
        0 <= k < s.len() && is_exponent_marker(#[trigger] s[k]) && is_decimal(s.take(k))
            && is_exponent(s.skip(k + 1))
}

/// The first position from `i` on that holds `c` or `d`; the length where none does.
pub open spec fn position_from(s: Seq<char>, i: int, c: char, d: char) -> int
    decreases s.len() - i,
{
    if i < 0 || i >= s.len() {
        s.len() as int
    } else if s[i] == c || s[i] == d {
        i
    } else {
        position_from(s, i + 1, c, d)
    }
}

/// The first position from `i` on that holds anything but `0`; the length where none does.
pub open spec fn significant_from(s: Seq<char>, i: int) -> int
    decreases s.len() - i,
{
    if i < 0 || i >= s.len() {
        s.len() as int
    } else if s[i] != '0' {
        i
    } else {
        significant_from(s, i + 1)
    }
}

pub open spec fn digit_value(c: char) -> nat {
    if is_digit(c) {
        (c as u32 - '0' as u32) as nat
    } else {
        0
    }
}

/// The value of a run of decimal digits.
pub open spec fn digits_value(s: Seq<char>) -> nat
    decreases s.len(),
{
    if s.len() == 0 {
        0
    } else {
        digits_value(s.drop_last()) * 10 + digit_value(s.last())
    }
}

/// The exponent written after the marker: the value of its digits, negated after `-`.
pub open spec fn exponent_value(t: Seq<char>) -> int {
    if t.len() > 0 && t[0] == '-' {
        -digits_value(t.skip(1))
    } else if t.len() > 0 && t[0] == '+' {
        digits_value(t.skip(1)) as int
    } else {
        digits_value(t) as int
    }
}

/// The mantissa of an unsigned number: the text before its exponent marker.
pub open spec fn mantissa_of(s: Seq<char>) -> Seq<char> {
    s.take(position_from(s, 0, 'e', 'E'))
}

/// How many digits stand before the mantissa's decimal point.
pub open spec fn integer_digit_count(s: Seq<char>) -> int {
    position_from(mantissa_of(s), 0, '.', '.')
}

/// The mantissa's digits with the decimal point taken out.
pub open spec fn mantissa_digits(s: Seq<char>) -> Seq<char> {
    let m = mantissa_of(s);
    let dp = position_from(m, 0, '.', '.');
    if dp < m.len() {
        m.take(dp) + m.skip(dp + 1)
    } else {
        m
    }
}

/// The exponent written after the marker; zero where there is none.
pub open spec fn exponent_of(s: Seq<char>) -> int {
    let q = position_from(s, 0, 'e', 'E');
    if q < s.len() {
        exponent_value(s.skip(q + 1))
    } else {
        0
    }
}

/// Where the mantissa's first non-zero digit stands among its digits.
pub open spec fn first_significant(s: Seq<char>) -> int {
    significant_from(mantissa_digits(s), 0)
}

/// The mantissa's digits from the first non-zero one on.
pub open spec fn significant_digits(s: Seq<char>) -> Seq<char> {
    mantissa_digits(s).skip(first_significant(s))
}

/// For a non-zero unsigned number, the `E` with value `0.d1d2d3... * 10^E`,
/// where `d1d2d3...` are its significant digits.
pub open spec fn decimal_exponent(s: Seq<char>) -> int {
    integer_digit_count(s) - first_significant(s) + exponent_of(s)
}

/// The `i`-th digit of `s`, and `0` past its end.
pub open spec fn padded_digit(s: Seq<char>, i: int) -> char {
    if 0 <= i < s.len() {
        s[i]
    } else {
        '0'
    }
}

/// Whether the fraction `0.a` is below the fraction `0.b`, comparing digits from position `i` on.
pub open spec fn fraction_below_from(a: Seq<char>, b: Seq<char>, i: int) -> bool
    decreases a.len() + b.len() - i,
{
    if i < 0 || (i >= a.len() && i >= b.len()) {
        false
    } else if padded_digit(a, i) < padded_digit(b, i) {
        true
    } else if padded_digit(a, i) > padded_digit(b, i) {
        false
    } else {
        fraction_below_from(a, b, i + 1)
    }
}

/// The digits of 2^1024 - 2^970, the least value that `f64` rounds to infinity.
pub const F64_OVERFLOW_DIGITS: &'static str = "179769313486231580793728971405303415079934132710037826936173778980444968292764750946649017977587207096330286416692887910946555547851940402630657488671505820681908902000708383676273854845817711531764475730270069855571366959622842914819860834936475292719074168444365510704342711559699508093042880177904174497792";

/// A non-zero number of this many integer digits may still be finite,
/// depending on its digits; one with more is not.
pub open spec fn overflow_exponent() -> int {
    309
}

/// For an unsigned number: its value is below 2^1024 - 2^970, so that `f64`
/// holds it as a finite number. Zero, whatever its exponent, is.
pub open spec fn below_f64_overflow(s: Seq<char>) -> bool {
    ||| significant_digits(s).len() == 0
    ||| decimal_exponent(s) < overflow_exponent()
    ||| (decimal_exponent(s) == overflow_exponent() && fraction_below_from(
        significant_digits(s),
        F64_OVERFLOW_DIGITS@,
        0,
    ))
}

/// An unsigned number that `f64` holds as a finite value.
pub open spec fn is_finite_unsigned(s: Seq<char>) -> bool {
    is_unsigned_number(s) && below_f64_overflow(s)
}

/// A finite decimal number in the plain textual form: an optional sign, then
/// digits with at most one decimal point, then an optional exponent
/// (`100`, `-45.5`, `.5`, `1e3`, `+2.5E-4`), whose value does not overflow
/// `f64`. No whitespace, units, `inf` or `nan`.
pub open spec fn is_number_text(s: Seq<char>) -> bool {
    ||| is_finite_unsigned(s)
    ||| (s.len() > 0 && is_sign(s[0]) && is_finite_unsigned(s.skip(1)))
}

proof fn lemma_position(s: Seq<char>, i: int, p: int, c: char, d: char)
    requires
        0 <= i <= p <= s.len(),
        forall|j: int| i <= j < p ==> #[trigger] s[j] != c && s[j] != d,
        p < s.len() ==> (s[p] == c || s[p] == d),
    ensures
        position_from(s, i, c, d) == p,
    decreases p - i,
{
    if i < p {
        lemma_position(s, i + 1, p, c, d);
    }
}

proof fn lemma_significant(s: Seq<char>, i: int, p: int)
    requires
        0 <= i <= p <= s.len(),
        forall|j: int| i <= j < p ==> #[trigger] s[j] == '0',
        p < s.len() ==> s[p] != '0',
    ensures
        significant_from(s, i) == p,
    decreases p - i,
{
    if i < p {
        lemma_significant(s, i + 1, p);
    }
}

proof fn lemma_unsigned_starts_plain(s: Seq<char>)
    requires
        is_unsigned_number(s),
    ensures
        s.len() > 0 && !is_sign(s[0]),
{
    if is_decimal(s) {
        lemma_decimal_chars(s);
    } else {
        let k = choose|k: int|
            0 <= k < s.len() && is_exponent_marker(#[trigger] s[k]) && is_decimal(s.take(k))
                && is_exponent(s.skip(k + 1));
        lemma_decimal_chars(s.take(k));
        assert(s.take(k)[0] == s[0]);
    }
}

proof fn lemma_decimal_chars(s: Seq<char>)
    requires
        is_decimal(s),
    ensures
        forall|i: int| 0 <= i < s.len() ==> is_digit(#[trigger] s[i]) || s[i] == '.',
{
    if !(s.len() > 0 && all_digits(s)) {
        let k = choose|k: int|
            0 <= k < s.len() && #[trigger] s[k] == '.' && all_digits(s.take(k)) && all_digits(
                s.skip(k + 1),
            );
        assert forall|i: int| 0 <= i < s.len() implies is_digit(#[trigger] s[i]) || s[i]
            == '.' by {
            if i < k {
                assert(s.take(k)[i] == s[i]);
            } else if i > k {
                assert(s.skip(k + 1)[i - k - 1] == s[i]);
            }
        }
    }
}

/// The characters of `s`, in order.
fn chars_of(s: &str) -> (r: Vec<char>)
    ensures
        r@ == s@,
{
    let n = s.unicode_len();
    let mut r: Vec<char> = Vec::new();
    let mut i: usize = 0;
    while i < n
        invariant
            n == s@.len(),
            i <= n,
            r@ == s@.take(i as int),
        decreases n - i,
    {
        r.push(s.get_char(i));
        i = i + 1;
        assert(r@ =~= s@.take(i as int));
    }
    assert(r@ =~= s@);
    r
}

fn digits_between(cs: &Vec<char>, lo: usize, hi: usize) -> (r: bool)
    requires
        lo <= hi <= cs@.len(),
    ensures
        r == all_digits(cs@.subrange(lo as int, hi as int)),
{
    let mut i: usize = lo;
    while i < hi
        invariant
            lo <= i <= hi <= cs@.len(),
            forall|j: int| lo <= j < i ==> is_digit(#[trigger] cs@[j]),
        decreases hi - i,
    {
        if !('0' <= cs[i] && cs[i] <= '9') {
            assert(cs@.subrange(lo as int, hi as int)[i - lo] == cs@[i as int]);
            return false;
        }
        i = i + 1;
    }
    assert forall|j: int| 0 <= j < hi - lo implies is_digit(
        #[trigger] cs@.subrange(lo as int, hi as int)[j],
    ) by {
        assert(cs@.subrange(lo as int, hi as int)[j] == cs@[lo + j]);
    }
    true
}

/// The first position in `lo..hi` holding `c` or `d`, or `hi` where none does.
fn find_either(cs: &Vec<char>, lo: usize, hi: usize, c: char, d: char) -> (p: usize)
    requires
        lo <= hi <= cs@.len(),
    ensures
        lo <= p <= hi,
        p < hi ==> (cs@[p as int] == c || cs@[p as int] == d),
        forall|j: int| lo <= j < p ==> #[trigger] cs@[j] != c && cs@[j] != d,
{
    let mut i: usize = lo;
    while i < hi
        invariant
            lo <= i <= hi <= cs@.len(),
            forall|j: int| lo <= j < i ==> #[trigger] cs@[j] != c && cs@[j] != d,
        decreases hi - i,
    {
        if cs[i] == c || cs[i] == d {
            return i;
        }
        i = i + 1;
    }
    hi
}

fn decimal_between(cs: &Vec<char>, lo: usize, hi: usize) -> (r: bool)
    requires
        lo <= hi <= cs@.len(),
    ensures
        r == is_decimal(cs@.subrange(lo as int, hi as int)),
{
    let ghost s = cs@.subrange(lo as int, hi as int);
    let p = find_either(cs, lo, hi, '.', '.');
    if p == hi {
        let r = hi > lo && digits_between(cs, lo, hi);
        assert forall|k: int| 0 <= k < s.len() implies #[trigger] s[k] != '.' by {
            assert(s[k] == cs@[lo + k]);
        }
        r
    } else {
        let ghost k = p - lo;
        assert(s[k] == cs@[p as int]);
        assert(!all_digits(s));
        let a = digits_between(cs, lo, p);
        let b = digits_between(cs, p + 1, hi);
        assert(s.take(k) =~= cs@.subrange(lo as int, p as int));
        assert(s.skip(k + 1) =~= cs@.subrange(p + 1, hi as int));
        if !(a && b && hi - lo > 1) {
            assert forall|k2: int|
                0 <= k2 < s.len() && #[trigger] s[k2] == '.' && all_digits(s.take(k2))
                    implies !all_digits(s.skip(k2 + 1)) || !(s.len() > 1) by {
                assert(s[k2] == cs@[lo + k2]);
                if k2 > k {
                    assert(s.take(k2)[k] == s[k]);
                } else if k2 == k {
                }
            }
        }
        a && b && hi - lo > 1
    }
}

fn exponent_between(cs: &Vec<char>, lo: usize, hi: usize) -> (r: bool)
    requires
        lo <= hi <= cs@.len(),
    ensures
        r == is_exponent(cs@.subrange(lo as int, hi as int)),
{
    let ghost s = cs@.subrange(lo as int, hi as int);
    if hi == lo {
        return false;
    }
    assert(s[0] == cs@[lo as int]);
    if cs[lo] == '+' || cs[lo] == '-' {
        assert(!all_digits(s));
        assert(s.skip(1) =~= cs@.subrange(lo + 1, hi as int));
        hi - lo > 1 && digits_between(cs, lo + 1, hi)
    } else {
        digits_between(cs, lo, hi)
    }
}

fn unsigned_between(cs: &Vec<char>, lo: usize, hi: usize) -> (r: bool)
    requires
        lo <= hi <= cs@.len(),
    ensures
        r == is_unsigned_number(cs@.subrange(lo as int, hi as int)),
{
    let ghost s = cs@.subrange(lo as int, hi as int);
    let q = find_either(cs, lo, hi, 'e', 'E');
    if q == hi {
        assert forall|k: int| 0 <= k < s.len() implies !is_exponent_marker(#[trigger] s[k]) by {
            assert(s[k] == cs@[lo + k]);
        }
        decimal_between(cs, lo, hi)
    } else {
        let ghost k = q - lo;
        assert(s[k] == cs@[q as int]);
        assert(!is_decimal(s)) by {
            if is_decimal(s) {
                lemma_decimal_chars(s);
            }
        }
        let a = decimal_between(cs, lo, q);
        let b = exponent_between(cs, q + 1, hi);
        assert(s.take(k) =~= cs@.subrange(lo as int, q as int));
        assert(s.skip(k + 1) =~= cs@.subrange(q + 1, hi as int));
        if !(a && b) {
            assert forall|k2: int|
                0 <= k2 < s.len() && is_exponent_marker(#[trigger] s[k2]) && is_decimal(
                    s.take(k2),
                ) implies !is_exponent(s.skip(k2 + 1)) by {
                assert(s[k2] == cs@[lo + k2]);
                if k2 > k {
                    lemma_decimal_chars(s.take(k2));
                    assert(s.take(k2)[k] == s[k]);
                }
            }
        }
        a && b
    }
}

/// The first position in `lo..hi` holding anything but `0`, or `hi` where none does.
fn find_significant(cs: &Vec<char>, lo: usize, hi: usize) -> (p: usize)
    requires
        lo <= hi <= cs@.len(),
    ensures
        lo <= p <= hi,
        p < hi ==> cs@[p as int] != '0',
        forall|j: int| lo <= j < p ==> #[trigger] cs@[j] == '0',
{
    let mut i: usize = lo;
    while i < hi
        invariant
            lo <= i <= hi <= cs@.len(),
            forall|j: int| lo <= j < i ==> #[trigger] cs@[j] == '0',
        decreases hi - i,
    {
        if cs[i] != '0' {
            return i;
        }
        i = i + 1;
    }
    hi
}

/// Bound past which an exponent's exact value no longer matters.
const EXPONENT_CAP: u128 = 0x40_0000_0000_0000_0000;

/// The value of the digits in `lo..hi`, or `None` where it reaches `EXPONENT_CAP`.
fn capped_digits_value(cs: &Vec<char>, lo: usize, hi: usize) -> (r: Option<u128>)
    requires
        lo <= hi <= cs@.len(),
    ensures
        r matches Some(v) ==> v == digits_value(cs@.subrange(lo as int, hi as int)) && v
            < EXPONENT_CAP,
        r is None ==> digits_value(cs@.subrange(lo as int, hi as int)) >= EXPONENT_CAP,
{
    let mut v: u128 = 0;
    let mut capped = false;
    let mut i: usize = lo;
    while i < hi
        invariant
            lo <= i <= hi <= cs@.len(),
            !capped ==> v == digits_value(cs@.subrange(lo as int, i as int)) && v < EXPONENT_CAP,
            capped ==> digits_value(cs@.subrange(lo as int, i as int)) >= EXPONENT_CAP,
        decreases hi - i,
    {
        let ghost before = cs@.subrange(lo as int, i as int);
        let ghost after = cs@.subrange(lo as int, i + 1);
        assert(after.drop_last() =~= before);
        assert(after.last() == cs@[i as int]);
        let c = cs[i];
        let d: u128 = if '0' <= c && c <= '9' {
            (c as u32 - '0' as u32) as u128
        } else {
            0
        };
        assert(d == digit_value(c));
        if !capped {
            v = v * 10 + d;
            if v >= EXPONENT_CAP {
                capped = true;
            }
        }
        i = i + 1;
    }
    if capped {
        None
    } else {
        Some(v)
    }
}

/// Appends the characters in `lo..hi`.
fn push_range(v: &mut Vec<char>, cs: &Vec<char>, lo: usize, hi: usize)
    requires
        lo <= hi <= cs@.len(),
    ensures
        final(v)@ == old(v)@ + cs@.subrange(lo as int, hi as int),
{
    let mut i: usize = lo;
    while i < hi
        invariant
            lo <= i <= hi <= cs@.len(),
            v@ == old(v)@ + cs@.subrange(lo as int, i as int),
        decreases hi - i,
    {
        v.push(cs[i]);
        i = i + 1;
        assert(v@ =~= old(v)@ + cs@.subrange(lo as int, i as int));
    }
}

/// Whether the fraction `0.a`, with `a` the digits of `ds` from `f` on, is
/// below `0.` followed by the digits of 2^1024 - 2^970.
fn fraction_below_limit(ds: &Vec<char>, f: usize) -> (r: bool)
    requires
        f <= ds@.len(),
    ensures
        r == fraction_below_from(ds@.skip(f as int), F64_OVERFLOW_DIGITS@, 0),
{
    let ghost a = ds@.skip(f as int);
    let ghost b = F64_OVERFLOW_DIGITS@;
    let limit = F64_OVERFLOW_DIGITS;
    let la = ds.len() - f;
    let lb = limit.unicode_len();
    let mut i: usize = 0;
    while i < la || i < lb
        invariant
            la == a.len(),
            lb == b.len(),
            limit@ == b,
            b == F64_OVERFLOW_DIGITS@,
            f + la == ds@.len(),
            ds@.len() <= usize::MAX,
            a == ds@.skip(f as int),
            fraction_below_from(a, b, 0) == fraction_below_from(a, b, i as int),
        decreases la + lb - i,
    {
        let x = if i < la {
            assert(f + i < ds@.len());
            ds[f + i]
        } else {
            '0'
        };
        let y = if i < lb {
            limit.get_char(i)
        } else {
            '0'
        };
        assert(x == padded_digit(a, i as int));
        assert(y == padded_digit(b, i as int));
        assert(fraction_below_from(a, b, i as int) == (if x < y {
            true
        } else if x > y {
            false
        } else {
            fraction_below_from(a, b, i + 1)
        }));
        if (x as u32) < (y as u32) {
            assert(x < y);
            return true;
        }
        if (x as u32) > (y as u32) {
            assert(x > y);
            return false;
        }
        assert(x == y);
        i = i + 1;
    }
    false
}

/// The exponent written in `lo..hi`, where it lies strictly between
/// `-EXPONENT_CAP` and `EXPONENT_CAP`; otherwise whether it is negative.
fn exponent_value_between(cs: &Vec<char>, lo: usize, hi: usize) -> (r: Result<i128, bool>)
    requires
        lo <= hi <= cs@.len(),
    ensures
        r matches Ok(x) ==> x == exponent_value(cs@.subrange(lo as int, hi as int)) && -EXPONENT_CAP
            < x < EXPONENT_CAP,
        r matches Err(negative) ==> (if negative {
            exponent_value(cs@.subrange(lo as int, hi as int)) <= -EXPONENT_CAP
        } else {
            exponent_value(cs@.subrange(lo as int, hi as int)) >= EXPONENT_CAP
        }),
{
    let ghost t = cs@.subrange(lo as int, hi as int);
    if lo < hi && (cs[lo] == '-' || cs[lo] == '+') {
        assert(t[0] == cs@[lo as int]);
        assert(t.skip(1) =~= cs@.subrange(lo + 1, hi as int));
        let negative = cs[lo] == '-';
        match capped_digits_value(cs, lo + 1, hi) {
            Some(v) => if negative {
                Ok(-(v as i128))
            } else {
                Ok(v as i128)
            },
            None => Err(negative),
        }
    } else {
        if lo < hi {
            assert(t[0] == cs@[lo as int]);
        }
        match capped_digits_value(cs, lo, hi) {
            Some(v) => Ok(v as i128),
            None => Err(false),
        }
    }
}

/// Whether the unsigned number text in `lo..hi` is below the overflow of `f64`.
fn below_overflow(cs: &Vec<char>, lo: usize, hi: usize) -> (r: bool)
    requires
        lo <= hi <= cs@.len(),
    ensures
        r == below_f64_overflow(cs@.subrange(lo as int, hi as int)),
{
    let ghost u = cs@.subrange(lo as int, hi as int);
    let q = find_either(cs, lo, hi, 'e', 'E');
    proof {
        assert forall|j: int| 0 <= j < q - lo implies #[trigger] u[j] != 'e' && u[j] != 'E' by {
            assert(u[j] == cs@[lo + j]);
        }
        if q < hi {
            assert(u[q - lo] == cs@[q as int]);
        }
        lemma_position(u, 0, q - lo, 'e', 'E');
    }
    let ghost m = u.take(q - lo);
    assert(m =~= cs@.subrange(lo as int, q as int));
    assert(mantissa_of(u) == m);
    let d = find_either(cs, lo, q, '.', '.');
    proof {
        assert forall|j: int| 0 <= j < d - lo implies #[trigger] m[j] != '.' && m[j] != '.' by {
            assert(m[j] == cs@[lo + j]);
        }
        if d < q {
            assert(m[d - lo] == cs@[d as int]);
        }
        lemma_position(m, 0, d - lo, '.', '.');
    }
    let mut ds: Vec<char> = Vec::new();
    push_range(&mut ds, cs, lo, d);
    if d < q {
        push_range(&mut ds, cs, d + 1, q);
        assert(m.take(d - lo) =~= cs@.subrange(lo as int, d as int));
        assert(m.skip(d - lo + 1) =~= cs@.subrange(d + 1, q as int));
        assert(ds@ =~= mantissa_digits(u));
    } else {
        assert(ds@ =~= mantissa_digits(u));
    }
    let n = ds.len();
    let f = find_significant(&ds, 0, n);
    proof {
        lemma_significant(ds@, 0, f as int);
    }
    assert(significant_digits(u) =~= ds@.skip(f as int));
    if f == n {
        return true;
    }
    let base: i128 = (d - lo) as i128 - f as i128;
    let e: i128;
    if q == hi {
        e = base;
    } else {
        assert(u.skip(q - lo + 1) =~= cs@.subrange(q + 1, hi as int));
        match exponent_value_between(cs, q + 1, hi) {
            Ok(x) => {
                e = base + x;
            },
            Err(negative) => {
                return negative;
            },
        }
    }
    assert(e == decimal_exponent(u));
    if e < 309 {
        true
    } else if e > 309 {
        false
    } else {
        fraction_below_limit(&ds, f)
    }
}

/// Whether `s` is a finite decimal number in plain textual form.
pub fn is_number(s: &str) -> (r: bool)
    ensures
        r == is_number_text(s@),
{
    let cs = chars_of(s);
    let n = cs.len();
    assert(cs@.subrange(0, n as int) =~= s@);
    if n > 0 && (cs[0] == '+' || cs[0] == '-') {
        assert(!is_unsigned_number(s@)) by {
            if is_unsigned_number(s@) {
                lemma_unsigned_starts_plain(s@);
            }
        }
        assert(cs@.subrange(1, n as int) =~= s@.skip(1));
        unsigned_between(&cs, 1, n) && below_overflow(&cs, 1, n)
    } else {
        unsigned_between(&cs, 0, n) && below_overflow(&cs, 0, n)
    }
}

} // verus!
