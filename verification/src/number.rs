//! Numbers as they are written in text.

use vstd::prelude::*;

use crate::scan;
use crate::text;

verus! {

/// An ASCII decimal digit.
pub open spec fn digit(c: char) -> bool {
    '0' <= c <= '9'
}

/// Whether `t` holds decimal digits only.
pub open spec fn all_digits(t: Seq<char>) -> bool {
    forall|i: int| 0 <= i < t.len() ==> digit(#[trigger] t[i])
}

/// The number that a row of decimal digits spells.
pub open spec fn digits_value(t: Seq<char>) -> nat
    decreases t.len(),
{
    if t.len() == 0 {
        0
    } else {
        digits_value(t.drop_last()) * 10 + (t.last() as nat - '0' as nat) as nat
    }
}

/// More digits never make the number smaller.
proof fn lemma_digits_value_grows(t: Seq<char>, k: int)
    requires
        0 <= k <= t.len(),
    ensures
        digits_value(t.take(k)) <= digits_value(t),
    decreases t.len(),
{
    if k < t.len() {
        lemma_digits_value_grows(t.drop_last(), k);
        assert(t.drop_last().take(k) == t.take(k));
    } else {
        assert(t.take(k) == t);
    }
}

/// Whether `t` holds decimal digits only.
pub fn is_all_digits(t: &[char]) -> (r: bool)
    ensures
        r == all_digits(t@),
{
    let mut i: usize = 0;
    while i < t.len()
        invariant
            i <= t@.len(),
            forall|j: int| 0 <= j < i ==> digit(#[trigger] t@[j]),
        decreases t@.len() - i,
    {
        if t[i] < '0' || t[i] > '9' {
            assert(!digit(t@[i as int]));
            return false;
        }
        i = i + 1;
    }
    true
}

/// `t` without the character at its front, where that is one of `signs`.
pub open spec fn unsigned(t: Seq<char>, signs: Set<char>) -> Seq<char> {
    if t.len() > 0 && signs.contains(t[0]) {
        t.skip(1)
    } else {
        t
    }
}

/// The number below 256 that `t` spells: decimal digits, after a `+` or not.
pub open spec fn octet(t: Seq<char>) -> Option<u8> {
    let d = unsigned(t, set!['+']);
    if d.len() > 0 && all_digits(d) && digits_value(d) <= 255 {
        Some(digits_value(d) as u8)
    } else {
        None
    }
}

/// Reads a number below 256.
pub fn parse_octet(t: &[char]) -> (r: Option<u8>)
    ensures
        r == octet(t@),
{
    let d = if t.len() > 0 && t[0] == '+' {
        &t[1..t.len()]
    } else {
        t
    };
    assert(d@ == unsigned(t@, set!['+']));
    if d.len() == 0 || !is_all_digits(d) {
        return None;
    }
    let mut n: u32 = 0;
    let mut i: usize = 0;
    while i < d.len()
        invariant
            i <= d@.len(),
            all_digits(d@),
            n <= 255,
            n == digits_value(d@.take(i as int)),
            d@.len() > 0,
            d@ == unsigned(t@, set!['+']),
        decreases d@.len() - i,
    {
        assert(digit(d@[i as int]));
        let ghost next = d@.take(i + 1);
        assert(next.drop_last() == d@.take(i as int));
        n = n * 10 + (d[i] as u32 - '0' as u32);
        i = i + 1;
        if n > 255 {
            proof {
                lemma_digits_value_grows(d@, i as int);
            }
            return None;
        }
    }
    assert(d@.take(i as int) == d@);
    Some(n as u8)
}

/// Whether `t` is `word`, whatever the case of its letters.
pub open spec fn same_word(t: Seq<char>, word: Seq<char>) -> bool {
    t.len() == word.len() && forall|i: int|
        0 <= i < t.len() ==> text::lower(#[trigger] t[i]) == text::lower(word[i])
}

fn is_word(t: &[char], word: &str) -> (r: bool)
    ensures
        r == same_word(t@, word@),
{
    let w = text::chars_of(word);
    if t.len() != w.len() {
        return false;
    }
    let mut i: usize = 0;
    while i < t.len()
        invariant
            t@.len() == w@.len(),
            w@ == word@,
            i <= t@.len(),
            forall|j: int| 0 <= j < i ==> text::lower(#[trigger] t@[j]) == text::lower(w@[j]),
        decreases t@.len() - i,
    {
        if text::to_lower(t[i]) != text::to_lower(w[i]) {
            return false;
        }
        i = i + 1;
    }
    true
}

/// The position of the letter that starts an exponent.
pub open spec fn exponent_mark(t: Seq<char>) -> int {
    scan::index_where(t, |c: char| c == 'e' || c == 'E')
}

/// Digits with at most one decimal point among them.
pub open spec fn mantissa(t: Seq<char>) -> bool {
    let point = scan::until(t, '.');
    if point < t.len() {
        t.len() > 1 && all_digits(t.take(point)) && all_digits(t.skip(point + 1))
    } else {
        t.len() > 0 && all_digits(t)
    }
}

/// Whether `t` is written as a floating-point number: a sign or none, and
/// `inf`, `infinity`, `nan` or a decimal number with or without exponent.
pub open spec fn float_literal(t: Seq<char>) -> bool {
    let u = unsigned(t, set!['+', '-']);
    let e = exponent_mark(u);
    ||| same_word(u, "inf"@)
    ||| same_word(u, "infinity"@)
    ||| same_word(u, "nan"@)
    ||| mantissa(u.take(e)) && (e < u.len() ==> {
        let x = unsigned(u.skip(e + 1), set!['+', '-']);
        x.len() > 0 && all_digits(x)
    })
}

fn without_sign(t: &[char]) -> (r: &[char])
    ensures
        r@ == unsigned(t@, set!['+', '-']),
{
    if t.len() > 0 && (t[0] == '+' || t[0] == '-') {
        &t[1..t.len()]
    } else {
        t
    }
}

fn is_mantissa(t: &[char]) -> (r: bool)
    ensures
        r == mantissa(t@),
{
    let point = scan::find_char(t, '.');
    if point < t.len() {
        let whole = &t[0..point];
        let fraction = &t[point + 1..t.len()];
        assert(whole@ == t@.take(point as int));
        assert(fraction@ == t@.skip(point + 1));
        t.len() > 1 && is_all_digits(whole) && is_all_digits(fraction)
    } else {
        t.len() > 0 && is_all_digits(t)
    }
}

/// Whether `t` is written as a floating-point number.
pub fn is_float_literal(t: &[char]) -> (r: bool)
    ensures
        r == float_literal(t@),
{
    let u = without_sign(t);
    if is_word(u, "inf") || is_word(u, "infinity") || is_word(u, "nan") {
        return true;
    }
    let mut e: usize = 0;
    while e < u.len() && u[e] != 'e' && u[e] != 'E'
        invariant
            e <= u@.len(),
            forall|j: int| 0 <= j < e ==> #[trigger] u@[j] != 'e' && u@[j] != 'E',
        decreases u@.len() - e,
    {
        e = e + 1;
    }
    proof {
        scan::lemma_index_where_is(u@, |c: char| c == 'e' || c == 'E', e as int);
    }
    let front = &u[0..e];
    assert(front@ == u@.take(e as int));
    if !is_mantissa(front) {
        return false;
    }
    if e == u.len() {
        return true;
    }
    let back = &u[e + 1..u.len()];
    assert(back@ == u@.skip(e + 1));
    let x = without_sign(back);
    x.len() > 0 && is_all_digits(x)
}

/// The decimal digits of `n`.
pub open spec fn decimal(n: nat) -> Seq<char>
    decreases n,
{
    if n < 10 {
        seq![(48 + n) as char]
    } else {
        decimal(n / 10).push((48 + n % 10) as char)
    }
}

/// Appends the decimal digits of `n`.
pub fn push_decimal(out: &mut String, n: u8)
    ensures
        final(out)@ == old(out)@ + decimal(n as nat),
{
    let ghost start = out@;
    proof {
        reveal_with_fuel(decimal, 3);
    }
    if n >= 100 {
        out.push((48 + n / 100) as char);
    }
    if n >= 10 {
        out.push((48 + n / 10 % 10) as char);
    }
    out.push((48 + n % 10) as char);
    assert(out@ =~= start + decimal(n as nat));
}

/// The dotted form of an IPv4 address.
pub open spec fn dotted(a: u8, b: u8, c: u8, d: u8) -> Seq<char> {
    decimal(a as nat) + seq!['.'] + decimal(b as nat) + seq!['.'] + decimal(c as nat) + seq!['.']
        + decimal(d as nat)
}

/// The dotted form of an IPv4 address.
pub fn dotted_quad(a: u8, b: u8, c: u8, d: u8) -> (r: String)
    ensures
        r@ == dotted(a, b, c, d),
{
    let mut out = String::new();
    push_decimal(&mut out, a);
    out.push('.');
    push_decimal(&mut out, b);
    out.push('.');
    push_decimal(&mut out, c);
    out.push('.');
    push_decimal(&mut out, d);
    assert(out@ =~= dotted(a, b, c, d));
    out
}

/// One more digit shifts a number by one decimal place.
pub proof fn law_digits_value(t: Seq<char>, c: char)
    requires
        digit(c),
    ensures
        digits_value(Seq::<char>::empty()) == 0,
        digits_value(t.push(c)) == 10 * digits_value(t) + (c as int - 48),
{
    assert(t.push(c).drop_last() =~= t);
}

proof fn lemma_zeros(z: Seq<char>)
    requires
        forall|i: int| 0 <= i < z.len() ==> #[trigger] z[i] == '0',
    ensures
        digits_value(z) == 0,
    decreases z.len(),
{
    if z.len() > 0 {
        assert forall|i: int| 0 <= i < z.drop_last().len() implies #[trigger] z.drop_last()[i]
            == '0' by {
            assert(z.drop_last()[i] == z[i]);
        }
        lemma_zeros(z.drop_last());
        assert(z[z.len() - 1] == '0');
    }
}

proof fn lemma_zeros_decimal(z: Seq<char>, n: nat)
    requires
        forall|i: int| 0 <= i < z.len() ==> #[trigger] z[i] == '0',
    ensures
        all_digits(z + decimal(n)),
        digits_value(z + decimal(n)) == n,
    decreases n,
{
    let t = z + decimal(n);
    if n < 10 {
        lemma_zeros(z);
        assert(t.drop_last() =~= z);
        assert(t.last() == (48 + n) as char);
        assert forall|i: int| 0 <= i < t.len() implies digit(#[trigger] t[i]) by {
            if i < z.len() {
                assert(t[i] == z[i]);
            }
        }
    } else {
        lemma_zeros_decimal(z, n / 10);
        assert(t.drop_last() =~= z + decimal(n / 10));
        assert(t.last() == (48 + n % 10) as char);
        assert forall|i: int| 0 <= i < t.len() implies digit(#[trigger] t[i]) by {
            if i < t.len() - 1 {
                assert(t[i] == (z + decimal(n / 10))[i]);
            }
        }
    }
}

/// Decimal digits are read back as the number they were written for, and
/// there is no needless zero in front.
pub proof fn law_decimal(n: nat)
    ensures
        all_digits(decimal(n)),
        digits_value(decimal(n)) == n,
        n > 0 ==> decimal(n)[0] != '0',
    decreases n,
{
    lemma_zeros_decimal(seq![], n);
    assert(Seq::<char>::empty() + decimal(n) =~= decimal(n));
    if n >= 10 {
        law_decimal(n / 10);
        assert(decimal(n)[0] == decimal(n / 10)[0]);
    }
}

/// A number below 256 is read back from its digits, with any number of zeros
/// and one `+` in front; a larger one is refused.
pub proof fn law_octets(z: Seq<char>, n: nat)
    requires
        forall|i: int| 0 <= i < z.len() ==> #[trigger] z[i] == '0',
    ensures
        n <= 255 ==> octet(z + decimal(n)) == Some(n as u8),
        n <= 255 ==> octet(seq!['+'] + z + decimal(n)) == Some(n as u8),
        n > 255 ==> octet(z + decimal(n)) is None,
        n > 255 ==> octet(seq!['+'] + z + decimal(n)) is None,
{
    let t = z + decimal(n);
    lemma_zeros_decimal(z, n);
    assert(t.len() > 0);
    assert(digit(t[0]));
    let u = seq!['+'] + z + decimal(n);
    assert(u[0] == '+');
    assert(u.skip(1) =~= t);
}

/// Nothing else is a number below 256: what is read has a digit in it, and no
/// character but digits and a `+` in front.
pub proof fn law_only_digits_are_octets(t: Seq<char>)
    ensures
        octet(t) is Some ==> t.len() > 0 && digit(t.last()) && (digit(t[0]) || t[0] == '+')
            && forall|i: int| 0 < i < t.len() ==> '0' <= #[trigger] t[i] <= '9',
{
    if octet(t) is Some {
        let d = unsigned(t, set!['+']);
        assert(digit(d[0]) && digit(d[d.len() - 1]));
        assert forall|i: int| 0 < i < t.len() implies '0' <= #[trigger] t[i] <= '9' by {
            if d == t {
                assert(digit(d[i]));
            } else {
                assert(d[i - 1] == t[i]);
                assert(digit(d[i - 1]));
            }
        }
        if d != t {
            assert(d[d.len() - 1] == t.last());
        }
    }
}

/// An address in dotted form is its four numbers with dots between them.
pub proof fn law_dotted(a: u8, b: u8, c: u8, d: u8)
    ensures
        exists|w: Seq<char>, x: Seq<char>, y: Seq<char>, z: Seq<char>|
            {
                &&& dotted(a, b, c, d) == #[trigger] (w + seq!['.'] + x + seq!['.'] + y + seq!['.']
                    + z)
                &&& all_digits(w) && all_digits(x) && all_digits(y) && all_digits(z)
                &&& octet(w) == Some(a) && octet(x) == Some(b) && octet(y) == Some(c) && octet(z)
                    == Some(d)
            },
{
    let (w, x, y, z) = (
        decimal(a as nat),
        decimal(b as nat),
        decimal(c as nat),
        decimal(d as nat),
    );
    law_decimal(a as nat);
    law_decimal(b as nat);
    law_decimal(c as nat);
    law_decimal(d as nat);
    let e = Seq::<char>::empty();
    law_octets(e, a as nat);
    law_octets(e, b as nat);
    law_octets(e, c as nat);
    law_octets(e, d as nat);
    assert(e + w =~= w && e + x =~= x && e + y =~= y && e + z =~= z);
    assert(dotted(a, b, c, d) == w + seq!['.'] + x + seq!['.'] + y + seq!['.'] + z);
}

/// A sign, or none.
pub open spec fn a_sign(s: Seq<char>) -> bool {
    s.len() == 0 || (s.len() == 1 && (s[0] == '+' || s[0] == '-'))
}

/// An exponent, or none: a letter, a sign or none, and digits.
pub open spec fn an_exponent(x: Seq<char>, g: Seq<char>, d: Seq<char>) -> bool {
    ||| x.len() == 0
    ||| {
        &&& x.len() > 0 && (x[0] == 'e' || x[0] == 'E')
        &&& x == seq![x[0]] + g + d
        &&& a_sign(g)
        &&& d.len() > 0 && all_digits(d)
    }
}

/// A point with digits behind it, or none.
pub open spec fn a_fraction(p: Seq<char>, b: Seq<char>) -> bool {
    &&& all_digits(b)
    &&& p == seq!['.'] || (p.len() == 0 && b.len() == 0)
}

/// Sign, digits, point, digits and exponent make a floating-point literal, as
/// long as there is a digit in front of the exponent.
pub proof fn law_numbers_are_floats(
    s: Seq<char>,
    a: Seq<char>,
    p: Seq<char>,
    b: Seq<char>,
    x: Seq<char>,
    g: Seq<char>,
    d: Seq<char>,
)
    requires
        a_sign(s),
        all_digits(a),
        a_fraction(p, b),
        a.len() + b.len() > 0,
        an_exponent(x, g, d),
    ensures
        float_literal(s + (a + p + b + x)),
{
    let body = a + p + b + x;
    let t = s + body;
    let m = a + p + b;
    assert(body[0] != '+' && body[0] != '-') by {
        if a.len() > 0 {
            assert(body[0] == a[0] && digit(a[0]));
        } else {
            assert(p.len() == 1 && body[0] == p[0]);
        }
    }
    let u = unsigned(t, set!['+', '-']);
    assert(u =~= body);
    let q = |c: char| c == 'e' || c == 'E';
    assert forall|j: int| 0 <= j < m.len() implies !q(#[trigger] body[j]) by {
        if j < a.len() {
            assert(body[j] == a[j] && digit(a[j]));
        } else if j < a.len() + p.len() {
            assert(body[j] == p[0]);
        } else {
            assert(body[j] == b[j - a.len() - p.len()] && digit(b[j - a.len() - p.len()]));
        }
    }
    assert(m.len() < body.len() ==> body[m.len() as int] == x[0]);
    scan::lemma_index_where_is(body, q, m.len() as int);
    assert(body.take(m.len() as int) =~= m);
    assert(mantissa(m)) by {
        assert(!a.contains('.')) by {
            if a.contains('.') {
                let i = choose|i: int| 0 <= i < a.len() && a[i] == '.';
                assert(digit(a[i]));
            }
        }
        if p.len() == 1 {
            assert(m =~= a + seq!['.'] + b);
            scan::law_until(a, '.', b);
            assert(m.take(a.len() as int) =~= a);
            assert(m.skip(a.len() as int + 1) =~= b);
        } else {
            assert(m =~= a);
            scan::law_until(a, '.', b);
        }
    }
    if x.len() > 0 {
        let y = body.skip(m.len() as int + 1);
        assert(y =~= g + d);
        assert(digit(d[0]));
        assert(unsigned(y, set!['+', '-']) =~= d) by {
            if g.len() == 0 {
                assert(y =~= d);
            } else {
                assert(y[0] == g[0]);
            }
        }
    }
}

/// Nothing else is a floating-point literal: what is one has a sign or none
/// and then is `inf`, `infinity` or `nan`, in any case, or comes apart into
/// digits, point, digits and exponent.
pub proof fn law_floats_are_numbers(t: Seq<char>)
    ensures
        float_literal(t) ==> exists|s: Seq<char>, u: Seq<char>|
            #![trigger s + u]
            t == s + u && a_sign(s) && (same_word(u, "inf"@) || same_word(u, "infinity"@)
                || same_word(u, "nan"@) || exists|
                a: Seq<char>,
                p: Seq<char>,
                b: Seq<char>,
                x: Seq<char>,
                g: Seq<char>,
                d: Seq<char>,
            |
                #![trigger a + p + b + x, an_exponent(x, g, d)]
                u == a + p + b + x && all_digits(a) && a_fraction(p, b) && a.len() + b.len() > 0
                    && an_exponent(x, g, d)),
{
    if float_literal(t) {
        let u = unsigned(t, set!['+', '-']);
        let s = t.take(t.len() - u.len());
        assert(t =~= s + u);
        assert(a_sign(s));
        if !same_word(u, "inf"@) && !same_word(u, "infinity"@) && !same_word(u, "nan"@) {
            let q = |c: char| c == 'e' || c == 'E';
            let e = exponent_mark(u);
            scan::lemma_index_where(u, q);
            let m = u.take(e);
            let x = u.skip(e);
            let y = u.skip(e + 1);
            let d = unsigned(y, set!['+', '-']);
            let g = y.take(y.len() - d.len());
            if e < u.len() {
                assert(y =~= g + d);
                assert(x =~= seq![x[0]] + g + d);
                assert(x[0] == u[e]);
            }
            assert(an_exponent(x, g, d));
            let point = scan::until(m, '.');
            scan::lemma_index_where(m, scan::equal_to('.'));
            let a = m.take(point);
            let p = if point < m.len() {
                seq!['.']
            } else {
                seq![]
            };
            let b = if point < m.len() {
                m.skip(point + 1)
            } else {
                seq![]
            };
            if point < m.len() {
                assert(m[point] == '.');
            } else {
                assert(a =~= m);
            }
            assert(u =~= a + p + b + x);
            assert(a_fraction(p, b));
            assert(a.len() + b.len() > 0);
        }
    }
}

/// The three words, in any case and with or without a sign, are literals.
pub proof fn law_words_are_floats(s: Seq<char>, u: Seq<char>)
    requires
        a_sign(s),
        same_word(u, "inf"@) || same_word(u, "infinity"@) || same_word(u, "nan"@),
    ensures
        float_literal(s + u),
{
    reveal_strlit("inf");
    reveal_strlit("infinity");
    reveal_strlit("nan");
    assert(text::lower(u[0]) == 'i' || text::lower(u[0]) == 'n');
    assert(u[0] != '+' && u[0] != '-');
    assert(unsigned(s + u, set!['+', '-']) =~= u);
}

/// Words are compared letter by letter, case aside.
pub proof fn law_same_word(t: Seq<char>, word: Seq<char>)
    ensures
        same_word(t, word) <==> t.len() == word.len() && forall|i: int|
            0 <= i < t.len() ==> #[trigger] t[i] == word[i] || ('A' <= t[i] <= 'Z' && word[i] as int
                == t[i] as int + 32) || ('a' <= t[i] <= 'z' && t[i] as int == word[i] as int + 32),
{
    if t.len() == word.len() {
        assert forall|i: int| 0 <= i < t.len() implies (text::lower(#[trigger] t[i]) == text::lower(
            word[i],
        )) == (t[i] == word[i] || ('A' <= t[i] <= 'Z' && word[i] as int == t[i] as int + 32) || (
        'a' <= t[i] <= 'z' && t[i] as int == word[i] as int + 32)) by {
            text::law_lower(t[i], word[i]);
        }
    }
}

} // verus!
