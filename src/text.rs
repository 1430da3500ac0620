//! Character-level helpers shared by the lexer and the value renderer.

use vstd::prelude::*;
use vstd::std_specs::iter::IteratorSpec;
use vstd::string::StringExecFns;

verus! {

/// Relies on `String::push`: the character is appended to the end.
#[verifier::external_body]
pub(crate) fn push_char(s: &mut String, c: char)
    ensures
        final(s)@ == old(s)@.push(c),
{
    s.push(c);
}

/// The characters of `s`, in order.
pub(crate) fn chars_of(s: &str) -> (r: Vec<char>)
    ensures
        r@ == s@,
{
    broadcast use vstd::string::group_string_axioms;

    let mut it = s.chars();
    let mut r: Vec<char> = Vec::new();
    loop
        invariant
            it.obeys_prophetic_iter_laws(),
            it.decrease() is Some,
            r@ + it.remaining() == s@,
        decreases it.decrease()->0,
    {
        match it.next() {
            Some(c) => {
                r.push(c);
            },
            None => {
                return r;
            },
        }
    }
}

/// A string holding exactly the given characters.
pub fn string_from_chars(cs: &[char]) -> (r: String)
    ensures
        r@ == cs@,
{
    let mut r = String::new();
    let mut i: usize = 0;
    while i < cs.len()
        invariant
            i <= cs@.len(),
            r@ == cs@.subrange(0, i as int),
        decreases cs@.len() - i,
    {
        push_char(&mut r, cs[i]);
        i += 1;
        assert(r@ =~= cs@.subrange(0, i as int));
    }
    assert(r@ =~= cs@);
    r
}

pub open spec fn is_digit(c: char) -> bool {
    '0' <= c && c <= '9'
}

pub open spec fn digit_value(c: char) -> int {
    (c as int) - ('0' as int)
}

pub open spec fn all_digits(s: Seq<char>) -> bool {
    forall|i: int| 0 <= i < s.len() ==> is_digit(#[trigger] s[i])
}

/// The number that a run of decimal digits denotes.
pub open spec fn digits_value(s: Seq<char>) -> int
    decreases s.len(),
{
    if s.len() == 0 {
        0
    } else {
        digits_value(s.drop_last()) * 10 + digit_value(s.last())
    }
}

/// The integer that an optional sign followed by one or more decimal digits
/// denotes, or `None` when the text has another shape.
pub open spec fn integer_literal(s: Seq<char>) -> Option<int> {
    if s.len() > 0 && (s[0] == '+' || s[0] == '-') {
        let rest = s.drop_first();
        if rest.len() > 0 && all_digits(rest) {
            if s[0] == '-' {
                Some(-digits_value(rest))
            } else {
                Some(digits_value(rest))
            }
        } else {
            None
        }
    } else if s.len() > 0 && all_digits(s) {
        Some(digits_value(s))
    } else {
        None
    }
}

/// The 64-bit signed integer that the text spells, as `i64`'s `FromStr`
/// reads it: an integer literal whose value is in range.
pub open spec fn i64_literal(s: Seq<char>) -> Option<i64> {
    match integer_literal(s) {
        Some(v) => if i64::MIN <= v <= i64::MAX {
            Some(v as i64)
        } else {
            None
        },
        None => None,
    }
}

/// Digits denote a natural number.
pub proof fn lemma_digits_nonneg(s: Seq<char>)
    requires
        all_digits(s),
    ensures
        digits_value(s) >= 0,
    decreases s.len(),
{
    if s.len() > 0 {
        assert(all_digits(s.drop_last()));
        lemma_digits_nonneg(s.drop_last());
        assert(is_digit(s[s.len() - 1]));
    }
}

/// Appending digits never makes the value smaller.
proof fn lemma_digits_grow(s: Seq<char>, i: int, j: int)
    requires
        all_digits(s),
        0 <= i <= j <= s.len(),
    ensures
        digits_value(s.subrange(0, i)) <= digits_value(s.subrange(0, j)),
    decreases j - i,
{
    if i < j {
        lemma_digits_grow(s, i, j - 1);
        let p = s.subrange(0, j);
        assert(p.drop_last() =~= s.subrange(0, j - 1));
        assert(all_digits(s.subrange(0, j - 1)));
        lemma_digits_nonneg(s.subrange(0, j - 1));
        assert(is_digit(s[j - 1]));
    }
}

/// Reads a 64-bit signed integer the way `i64`'s `FromStr` does.
pub fn parse_i64(s: &[char]) -> (r: Option<i64>)
    ensures
        r == i64_literal(s@),
{
    let n = s.len();
    if n == 0 {
        return None;
    }
    let negative = s[0] == '-';
    let start: usize = if s[0] == '+' || s[0] == '-' { 1 } else { 0 };
    let ghost rest = s@.subrange(start as int, n as int);
    if start == n {
        assert(s@.drop_first() =~= rest);
        return None;
    }
    let bound: u128 = 9223372036854775808;
    let mut m: u128 = 0;
    let mut i: usize = start;
    while i < n
        invariant
            start <= 1,
            n > 0,
            bound == 9223372036854775808,
            negative == (s@[0] == '-'),
            (start == 1) == (s@[0] == '+' || s@[0] == '-'),
            start <= i <= n,
            n == s@.len(),
            rest == s@.subrange(start as int, n as int),
            all_digits(rest.subrange(0, i - start)),
            m as int == digits_value(rest.subrange(0, i - start)),
            m <= bound,
        decreases n - i,
    {
        let c = s[i];
        if !('0' <= c && c <= '9') {
            proof {
                assert(!is_digit(rest[i - start]));
                assert(!all_digits(rest));
                if start == 1 {
                    assert(s@.drop_first() =~= rest);
                } else {
                    assert(s@ =~= rest);
                }
            }
            return None;
        }
        let d = (c as u32 - '0' as u32) as u128;
        assert(d <= 9);
        proof {
            let p = rest.subrange(0, i + 1 - start);
            assert(p.drop_last() =~= rest.subrange(0, i - start));
            assert(p.last() == c);
            assert(all_digits(p));
        }
        m = m * 10 + d;
        i += 1;
        if m > bound {
            proof {
                if start == 1 {
                    assert(s@.drop_first() =~= rest);
                } else {
                    assert(s@ =~= rest);
                }
                if all_digits(rest) {
                    lemma_digits_grow(rest, i - start, rest.len() as int);
                    assert(rest.subrange(0, rest.len() as int) =~= rest);
                }
            }
            return None;
        }
    }
    proof {
        assert(rest.subrange(0, n - start) =~= rest);
        if start == 1 {
            assert(s@.drop_first() =~= rest);
        } else {
            assert(s@ =~= rest);
        }
    }
    if negative {
        if m == bound {
            Some(i64::MIN)
        } else {
            Some(-(m as i64))
        }
    } else if m < bound {
        Some(m as i64)
    } else {
        None
    }
}


pub open spec fn is_sign(c: char) -> bool {
    c == '+' || c == '-'
}

pub open spec fn is_exponent_mark(c: char) -> bool {
    c == 'e' || c == 'E'
}

/// The capital of each lower-case letter that a special float word uses.
pub open spec fn capital(l: char) -> char {
    if l == 'i' {
        'I'
    } else if l == 'n' {
        'N'
    } else if l == 'f' {
        'F'
    } else if l == 't' {
        'T'
    } else if l == 'y' {
        'Y'
    } else if l == 'a' {
        'A'
    } else {
        l
    }
}

fn capital_of(l: char) -> (r: char)
    ensures
        r == capital(l),
{
    if l == 'i' {
        'I'
    } else if l == 'n' {
        'N'
    } else if l == 'f' {
        'F'
    } else if l == 't' {
        'T'
    } else if l == 'y' {
        'Y'
    } else if l == 'a' {
        'A'
    } else {
        l
    }
}

/// `c` is the letter `l` in either case.
pub open spec fn same_letter(c: char, l: char) -> bool {
    c == l || c == capital(l)
}

/// `s` spells the lower-case word `w`, ignoring ASCII case.
pub open spec fn spells(s: Seq<char>, w: Seq<char>) -> bool {
    s.len() == w.len() && forall|i: int| 0 <= i < s.len() ==> same_letter(#[trigger] s[i], w[i])
}

/// Digits with at most one decimal point and at least one digit.
pub open spec fn mantissa_ok(m: Seq<char>) -> bool {
    &&& forall|i: int| 0 <= i < m.len() ==> is_digit(#[trigger] m[i]) || m[i] == '.'
    &&& forall|i: int, j: int|
        0 <= i < m.len() && 0 <= j < m.len() && #[trigger] m[i] == '.' && #[trigger] m[j] == '.'
            ==> i == j
    &&& exists|i: int| 0 <= i < m.len() && is_digit(#[trigger] m[i])
}

/// An optional sign followed by one or more digits.
pub open spec fn signed_digits(t: Seq<char>) -> bool {
    let d = if t.len() > 0 && is_sign(t[0]) {
        t.drop_first()
    } else {
        t
    };
    d.len() > 0 && all_digits(d)
}

/// Nothing, or an exponent mark followed by signed digits.
pub open spec fn exponent_ok(e: Seq<char>) -> bool {
    e.len() == 0 || (is_exponent_mark(e[0]) && signed_digits(e.drop_first()))
}

pub open spec fn number_ok(b: Seq<char>) -> bool {
    exists|k: int|
        0 <= k <= b.len() && mantissa_ok(#[trigger] b.subrange(0, k)) && exponent_ok(
            b.subrange(k, b.len() as int),
        )
}

/// The text is one that `f64`'s `FromStr` accepts: an optional sign, then
/// `inf`, `infinity` or `nan` in any case, or a decimal number with an
/// optional exponent.
pub open spec fn float_literal(s: Seq<char>) -> bool {
    let b = if s.len() > 0 && is_sign(s[0]) {
        s.drop_first()
    } else {
        s
    };
    spells(b, seq!['i', 'n', 'f']) || spells(b, seq!['i', 'n', 'f', 'i', 'n', 'i', 't', 'y'])
        || spells(b, seq!['n', 'a', 'n']) || number_ok(b)
}

fn spells_word(s: &[char], lo: usize, w: &[char]) -> (r: bool)
    requires
        lo <= s@.len(),
    ensures
        r == spells(s@.subrange(lo as int, s@.len() as int), w@),
{
    let ghost b = s@.subrange(lo as int, s@.len() as int);
    if s.len() - lo != w.len() {
        return false;
    }
    let n = s.len();
    let mut i: usize = 0;
    while i < w.len()
        invariant
            n == s@.len(),
            lo <= s@.len(),
            s@.len() - lo == w@.len(),
            b == s@.subrange(lo as int, s@.len() as int),
            b.len() == w@.len(),
            i <= w@.len(),
            forall|k: int| 0 <= k < i ==> same_letter(#[trigger] b[k], w@[k]),
        decreases w@.len() - i,
    {
        assert(lo + i < n);
        let c = s[lo + i];
        let l = w[i];
        if !(c == l || c == capital_of(l)) {
            assert(!same_letter(b[i as int], w@[i as int]));
            return false;
        }
        i += 1;
    }
    true
}

fn signed_digits_at(s: &[char], lo: usize) -> (r: bool)
    requires
        lo <= s@.len(),
    ensures
        r == signed_digits(s@.subrange(lo as int, s@.len() as int)),
{
    let ghost t = s@.subrange(lo as int, s@.len() as int);
    let start: usize = if lo < s.len() && (s[lo] == '+' || s[lo] == '-') { lo + 1 } else { lo };
    let ghost d = s@.subrange(start as int, s@.len() as int);
    assert(d =~= (if t.len() > 0 && is_sign(t[0]) { t.drop_first() } else { t }));
    if start == s.len() {
        assert(d.len() == 0);
        return false;
    }
    let mut i: usize = start;
    while i < s.len()
        invariant
            start <= i <= s@.len(),
            t == s@.subrange(lo as int, s@.len() as int),
            d == s@.subrange(start as int, s@.len() as int),
            d == (if t.len() > 0 && is_sign(t[0]) { t.drop_first() } else { t }),
            forall|k: int| start <= k < i ==> is_digit(#[trigger] s@[k]),
        decreases s@.len() - i,
    {
        if !('0' <= s[i] && s[i] <= '9') {
            assert(!is_digit(d[i - start]));
            return false;
        }
        i += 1;
    }
    assert forall|k: int| 0 <= k < d.len() implies is_digit(#[trigger] d[k]) by {
        assert(d[k] == s@[k + start]);
    }
    true
}

fn mantissa_at(s: &[char], lo: usize, hi: usize) -> (r: bool)
    requires
        lo <= hi <= s@.len(),
    ensures
        r == mantissa_ok(s@.subrange(lo as int, hi as int)),
{
    let ghost m = s@.subrange(lo as int, hi as int);
    let mut dot: Option<usize> = None;
    let mut digit: Option<usize> = None;
    let mut i: usize = lo;
    while i < hi
        invariant
            lo <= i <= hi <= s@.len(),
            m == s@.subrange(lo as int, hi as int),
            forall|k: int| lo <= k < i ==> is_digit(#[trigger] s@[k]) || s@[k] == '.',
            match dot {
                Some(p) => lo <= p < i && s@[p as int] == '.' && forall|k: int|
                    lo <= k < i && #[trigger] s@[k] == '.' ==> k == p,
                None => forall|k: int| lo <= k < i ==> #[trigger] s@[k] != '.',
            },
            match digit {
                Some(p) => lo <= p < i && is_digit(s@[p as int]),
                None => forall|k: int| lo <= k < i ==> !is_digit(#[trigger] s@[k]),
            },
        decreases hi - i,
    {
        let c = s[i];
        if c == '.' {
            if let Some(p) = dot {
                assert(m[p - lo] == '.' && m[i - lo] == '.');
                return false;
            }
            dot = Some(i);
        } else if '0' <= c && c <= '9' {
            digit = Some(i);
        } else {
            assert(!(is_digit(m[i - lo]) || m[i - lo] == '.'));
            return false;
        }
        i += 1;
    }
    match digit {
        Some(p) => {
            assert(is_digit(m[p - lo]));
            assert forall|a: int, b: int|
                0 <= a < m.len() && 0 <= b < m.len() && #[trigger] m[a] == '.' && #[trigger] m[b]
                    == '.' implies a == b by {
                assert(m[a] == s@[a + lo] && m[b] == s@[b + lo]);
            }
            assert forall|a: int| 0 <= a < m.len() implies is_digit(#[trigger] m[a]) || m[a]
                == '.' by {
                assert(m[a] == s@[a + lo]);
            }
            true
        },
        None => {
            assert forall|a: int| 0 <= a < m.len() implies !is_digit(#[trigger] m[a]) by {
                assert(m[a] == s@[a + lo]);
            }
            false
        },
    }
}

fn number_at(s: &[char], lo: usize) -> (r: bool)
    requires
        lo <= s@.len(),
    ensures
        r == number_ok(s@.subrange(lo as int, s@.len() as int)),
{
    let ghost b = s@.subrange(lo as int, s@.len() as int);
    let mut k: usize = lo;
    while k < s.len() && !(s[k] == 'e' || s[k] == 'E')
        invariant
            lo <= k <= s@.len(),
            forall|j: int| lo <= j < k ==> !is_exponent_mark(#[trigger] s@[j]),
        decreases s@.len() - k,
    {
        k += 1;
    }
    let ghost kk = (k - lo) as int;
    assert(b.subrange(0, kk) =~= s@.subrange(lo as int, k as int));
    assert(b.subrange(kk, b.len() as int) =~= s@.subrange(k as int, s@.len() as int));
    let m = mantissa_at(s, lo, k);
    let e = if k == s.len() {
        true
    } else {
        let t = signed_digits_at(s, k + 1);
        assert(s@.subrange(k as int, s@.len() as int).drop_first() =~= s@.subrange(
            k + 1,
            s@.len() as int,
        ));
        t
    };
    assert(e == exponent_ok(b.subrange(kk, b.len() as int)));
    if m && e {
        assert(mantissa_ok(b.subrange(0, kk)));
        return true;
    }
    proof {
        if number_ok(b) {
            let w = choose|w: int|
                0 <= w <= b.len() && mantissa_ok(#[trigger] b.subrange(0, w)) && exponent_ok(
                    b.subrange(w, b.len() as int),
                );
            if w < kk {
                assert(b.subrange(w, b.len() as int)[0] == s@[lo + w]);
            } else if w > kk {
                let mw = b.subrange(0, w);
                assert(mw[kk] == s@[k as int]);
                assert(is_digit(mw[kk]) || mw[kk] == '.');
            }
        }
    }
    false
}

/// Whether `f64`'s `FromStr` would accept the text.
pub fn is_float_literal(s: &[char]) -> (r: bool)
    ensures
        r == float_literal(s@),
{
    let lo: usize = if s.len() > 0 && (s[0] == '+' || s[0] == '-') { 1 } else { 0 };
    let ghost b = s@.subrange(lo as int, s@.len() as int);
    assert(b =~= (if s@.len() > 0 && is_sign(s@[0]) { s@.drop_first() } else { s@ }));
    let inf = ['i', 'n', 'f'];
    let infinity = ['i', 'n', 'f', 'i', 'n', 'i', 't', 'y'];
    let nan = ['n', 'a', 'n'];
    assert(inf@ =~= seq!['i', 'n', 'f']);
    assert(infinity@ =~= seq!['i', 'n', 'f', 'i', 'n', 'i', 't', 'y']);
    assert(nan@ =~= seq!['n', 'a', 'n']);
    spells_word(s, lo, &inf) || spells_word(s, lo, &infinity) || spells_word(s, lo, &nan)
        || number_at(s, lo)
}

} // verus!

verus! {

pub open spec fn digit_char(d: int) -> char {
    seq!['0', '1', '2', '3', '4', '5', '6', '7', '8', '9'][d]
}

/// The decimal digits of a natural number, most significant first.
pub open spec fn digits_of(n: nat) -> Seq<char>
    decreases n,
{
    if n < 10 {
        seq![digit_char(n as int)]
    } else {
        digits_of(n / 10).push(digit_char((n % 10) as int))
    }
}

/// An integer as decimal text, with a leading `-` when negative.
pub open spec fn decimal(i: int) -> Seq<char> {
    if i < 0 {
        seq!['-'] + digits_of((-i) as nat)
    } else {
        digits_of(i as nat)
    }
}

fn push_digits(s: &mut String, n: u64)
    ensures
        final(s)@ == old(s)@ + digits_of(n as nat),
    decreases n,
{
    let table = ['0', '1', '2', '3', '4', '5', '6', '7', '8', '9'];
    assert(table@ =~= seq!['0', '1', '2', '3', '4', '5', '6', '7', '8', '9']);
    if n >= 10 {
        push_digits(s, n / 10);
        push_char(s, table[(n % 10) as usize]);
        assert(final(s)@ =~= old(s)@ + digits_of(n as nat));
    } else {
        push_char(s, table[n as usize]);
        assert(final(s)@ =~= old(s)@ + digits_of(n as nat));
    }
}

/// Appends an integer in decimal.
pub fn push_decimal(s: &mut String, i: i64)
    ensures
        final(s)@ == old(s)@ + decimal(i as int),
{
    if i < 0 {
        push_char(s, '-');
        let m: u64 = (-(i as i128)) as u64;
        push_digits(s, m);
        assert(final(s)@ =~= old(s)@ + decimal(i as int));
    } else {
        push_digits(s, i as u64);
    }
}

/// Appends the characters of `t`.
pub fn push_str(s: &mut String, t: &str)
    ensures
        final(s)@ == old(s)@ + t@,
{
    s.append(t);
}

/// Appends the characters of `t`.
pub fn push_string(s: &mut String, t: &String)
    ensures
        final(s)@ == old(s)@ + t@,
{
    s.append(t.as_str());
}

} // verus!
