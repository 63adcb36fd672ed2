//! Small routines on character strings shared by the parsers.
use vstd::prelude::*;
use vstd::string::*;

verus! {

/// The characters of each string.
pub open spec fn texts_of(v: Seq<String>) -> Seq<Seq<char>> {
    v.map_values(|s: String| s@)
}

/// Whether two strings hold the same characters.
pub fn str_eq(a: &str, b: &str) -> (r: bool)
    ensures
        r == (a@ == b@),
{
    let n = a.unicode_len();
    if n != b.unicode_len() {
        return false;
    }
    let mut i: usize = 0;
    while i < n
        invariant
            n == a@.len(),
            n == b@.len(),
            i <= n,
            a@.take(i as int) == b@.take(i as int),
        decreases n - i,
    {
        if a.get_char(i) != b.get_char(i) {
            return false;
        }
        assert(a@.take(i + 1) == a@.take(i as int).push(a@[i as int]));
        assert(b@.take(i + 1) == b@.take(i as int).push(b@[i as int]));
        i = i + 1;
    }
    assert(a@ == a@.take(n as int));
    assert(b@ == b@.take(n as int));
    true
}


pub open spec fn is_digit(c: char) -> bool {
    '0' <= c && c <= '9'
}

pub open spec fn digit_value(c: char) -> int {
    (c as int) - ('0' as int)
}

pub open spec fn all_digits(s: Seq<char>) -> bool {
    forall|i: int| 0 <= i < s.len() ==> is_digit(#[trigger] s[i])
}

/// The number that a string of decimal digits denotes (0 for the empty string).
pub open spec fn digits_value(s: Seq<char>) -> int
    decreases s.len(),
{
    if s.len() == 0 {
        0
    } else {
        digits_value(s.drop_last()) * 10 + digit_value(s.last())
    }
}

/// The largest magnitude of a length, in thousandths.
pub const MAX_MILLIS: i64 = 1_000_000_000_000_000;

/// Splits the unsigned part of a decimal number into the digits before and
/// after its point.
pub open spec fn decimal_parts(body: Seq<char>) -> Option<(Seq<char>, Seq<char>)> {
    if all_digits(body) {
        Some((body, Seq::empty()))
    } else if exists|p: int| is_point_at(body, p) {
        let p = choose|p: int| is_point_at(body, p);
        Some((body.take(p), body.skip(p + 1)))
    } else {
        None
    }
}

pub open spec fn is_point_at(body: Seq<char>, p: int) -> bool {
    &&& 0 <= p < body.len()
    &&& body[p] == '.'
    &&& all_digits(body.take(p))
    &&& all_digits(body.skip(p + 1))
}

/// The first three digits of a fraction, as thousandths.
pub open spec fn fraction_millis(f: Seq<char>) -> int {
    digits_value((f + seq!['0', '0', '0']).take(3))
}

pub open spec fn has_sign(s: Seq<char>) -> bool {
    s.len() > 0 && (s[0] == '-' || s[0] == '+')
}

/// What a decimal number such as `-12.5` or `.75` denotes, in thousandths;
/// digits after the third decimal are dropped. `None` when the text is not a
/// number or its magnitude exceeds `MAX_MILLIS`.
pub open spec fn decimal_millis(s: Seq<char>) -> Option<int> {
    let body = if has_sign(s) { s.drop_first() } else { s };
    match decimal_parts(body) {
        Some(parts) => {
            let v = digits_value(parts.0) * 1000 + fraction_millis(parts.1);
            if parts.0.len() + parts.1.len() == 0 || v > MAX_MILLIS {
                None
            } else if s.len() > 0 && s[0] == '-' {
                Some(-v)
            } else {
                Some(v)
            }
        },
        None => None,
    }
}

proof fn lemma_digits_nonneg(s: Seq<char>)
    requires
        all_digits(s),
    ensures
        digits_value(s) >= 0,
    decreases s.len(),
{
    if s.len() > 0 {
        lemma_digits_nonneg(s.drop_last());
    }
}

proof fn lemma_digits_take_monotone(s: Seq<char>, i: int, j: int)
    requires
        all_digits(s),
        0 <= i <= j <= s.len(),
    ensures
        digits_value(s.take(i)) <= digits_value(s.take(j)),
    decreases j - i,
{
    if i < j {
        lemma_digits_take_monotone(s, i, j - 1);
        assert(s.take(j).drop_last() == s.take(j - 1));
        lemma_digits_nonneg(s.take(j - 1));
    }
}

pub open spec fn pow10(n: nat) -> int
    decreases n,
{
    if n == 0 {
        1
    } else {
        10 * pow10((n - 1) as nat)
    }
}

proof fn lemma_digits_bound(s: Seq<char>)
    requires
        all_digits(s),
    ensures
        0 <= digits_value(s) < pow10(s.len()),
    decreases s.len(),
{
    if s.len() > 0 {
        lemma_digits_bound(s.drop_last());
        assert(is_digit(s[s.len() - 1]));
    }
}

proof fn lemma_pow10_small()
    ensures
        pow10(0) == 1,
        pow10(1) == 10,
        pow10(2) == 100,
        pow10(3) == 1000,
{
    reveal_with_fuel(pow10, 4);
}

proof fn lemma_fraction_bounds(f: Seq<char>)
    requires
        all_digits(f),
    ensures
        0 <= fraction_millis(f) < 1000,
{
    let t = (f + seq!['0', '0', '0']).take(3);
    assert forall|i: int| 0 <= i < t.len() implies is_digit(#[trigger] t[i]) by {
        if i < f.len() {
            assert(t[i] == f[i]);
        }
    }
    lemma_digits_bound(t);
    lemma_pow10_small();
}

proof fn lemma_digits_push(s: Seq<char>, c: char)
    ensures
        digits_value(s.push(c)) == digits_value(s) * 10 + digit_value(c),
{
    assert(s.push(c).drop_last() == s);
}

/// Reads a decimal number, such as `12`, `-3.25` or `.5`, as thousandths.
#[verifier::rlimit(40)]
pub fn parse_decimal_millis(s: &str) -> (r: Option<i64>)
    ensures
        r matches Some(v) ==> decimal_millis(s@) == Some(v as int),
        r is None ==> decimal_millis(s@) is None,
{
    let n = s.unicode_len();
    let start: usize = if n > 0 && (s.get_char(0) == '-' || s.get_char(0) == '+') {
        1
    } else {
        0
    };
    let negative = n > 0 && s.get_char(0) == '-';
    let ghost body = if has_sign(s@) { s@.drop_first() } else { s@ };
    assert(body == s@.skip(start as int));
    // first character that is not a digit
    let mut p: usize = start;
    while p < n && '0' <= s.get_char(p) && s.get_char(p) <= '9'
        invariant
            start <= p <= n,
            n == s@.len(),
            body == s@.skip(start as int),
            all_digits(body.take(p - start)),
        decreases n - p,
    {
        assert(body.take(p - start + 1) == body.take(p - start).push(s@[p as int]));
        p = p + 1;
    }
    let ghost k = p - start;
    let ghost whole = body.take(k);
    let mut frac_start: usize = n;
    if p < n {
        if s.get_char(p) != '.' {
            proof {
                assert forall|q: int| !is_point_at(body, q) by {
                    if is_point_at(body, q) {
                        if q < k {
                            assert(whole[q] == body[q]);
                        } else if q > k {
                            assert(body.take(q)[k] == body[k]);
                        }
                    }
                }
                assert(body[k] == s@[p as int]);
                assert(!all_digits(body));
            }
            return None;
        }
        frac_start = p + 1;
        let mut q: usize = p + 1;
        while q < n
            invariant
                p + 1 <= q <= n,
                n == s@.len(),
                body == s@.skip(start as int),
                forall|j: int| p + 1 <= j < q ==> is_digit(#[trigger] s@[j]),
                start <= p < n,
                k == p - start,
                body.len() == n - start,
                whole == body.take(k),
                all_digits(whole),
                s@[p as int] == '.',
                body == (if has_sign(s@) { s@.drop_first() } else { s@ }),
            decreases n - q,
        {
            let c = s.get_char(q);
            if c < '0' || c > '9' {
                proof {
                    assert forall|x: int| !is_point_at(body, x) by {
                        if is_point_at(body, x) {
                            if x < k {
                                assert(whole[x] == body[x]);
                            } else if x > k {
                                assert(body.take(x)[k] == body[k]);
                            } else {
                                assert(body.skip(x + 1)[q - start - x - 1] == s@[q as int]);
                            }
                        }
                    }
                    assert(body[k] == s@[p as int]);
                    assert(!is_digit(body[k]));
                    assert(!all_digits(body));
                }
                return None;
            }
            q = q + 1;
        }
        proof {
            assert(is_point_at(body, k)) by {
                assert forall|j: int| 0 <= j < body.skip(k + 1).len() implies is_digit(
                    #[trigger] body.skip(k + 1)[j],
                ) by {
                    assert(body.skip(k + 1)[j] == s@[start + k + 1 + j]);
                }
            }
            let x = choose|x: int| is_point_at(body, x);
            if x < k {
                assert(whole[x] == body[x]);
            } else if x > k {
                assert(body.take(x)[k] == body[k]);
            }
            assert(!is_digit(body[k]));
            assert(!all_digits(body));
        }
    } else {
        assert(whole == body);
    }
    let ghost frac = if p < n { body.skip(k + 1) } else { Seq::<char>::empty() };
    assert(body.len() == n - start);
    proof {
        assert(decimal_parts(body) == Some((whole, frac)));
        if p < n {
            assert(is_point_at(body, k));
        }
        assert(all_digits(frac));
        lemma_fraction_bounds(frac);
    }
    // the whole part, bounded so that it cannot overflow
    let mut whole_value: i64 = 0;
    let mut i: usize = start;
    while i < p
        invariant
            start <= i <= p <= n,
            n == s@.len(),
            body == s@.skip(start as int),
            whole == body.take(k),
            k == p - start,
            all_digits(whole),
            whole_value == digits_value(whole.take(i - start)),
            0 <= whole_value <= MAX_MILLIS / 1000,
            all_digits(frac),
            0 <= fraction_millis(frac) < 1000,
            body == (if has_sign(s@) { s@.drop_first() } else { s@ }),
            negative == (s@.len() > 0 && s@[0] == '-'),
            decimal_parts(body) == Some((whole, frac)),
            whole.len() == p - start,
            frac.len() == n - frac_start,
        decreases p - i,
    {
        let c = s.get_char(i);
        proof {
            assert(whole.take(i - start + 1) == whole.take(i - start).push(c));
            lemma_digits_push(whole.take(i - start), c);
            assert(is_digit(whole[i - start]));
        }
        whole_value = whole_value * 10 + (c as i64 - '0' as i64);
        if whole_value > MAX_MILLIS / 1000 {
            proof {
                lemma_digits_take_monotone(whole, i - start + 1, k);
                assert(whole.take(k) == whole);
            }
            return None;
        }
        i = i + 1;
    }
    assert(whole.take(k) == whole);
    // the first three digits of the fraction
    let mut millis: i64 = 0;
    let mut j: usize = 0;
    let ghost padded = (frac + seq!['0', '0', '0']).take(3);
    while j < 3
        invariant
            j <= 3,
            n == s@.len(),
            frac_start <= n,
            frac == s@.subrange(frac_start as int, n as int),
            all_digits(frac),
            padded == (frac + seq!['0', '0', '0']).take(3),
            millis == digits_value(padded.take(j as int)),
            0 <= millis < 1000,
            whole_value == digits_value(whole),
            0 <= whole_value <= MAX_MILLIS / 1000,
            body == (if has_sign(s@) { s@.drop_first() } else { s@ }),
            negative == (s@.len() > 0 && s@[0] == '-'),
            decimal_parts(body) == Some((whole, frac)),
            whole.len() == p - start,
            frac.len() == n - frac_start,
        decreases 3 - j,
    {
        proof {
            lemma_digits_bound(padded.take(j as int));
            assert(padded[j as int] == (frac + seq!['0', '0', '0'])[j as int]);
            assert(is_digit(padded[j as int])) by {
                if j < frac.len() {
                    assert(is_digit(frac[j as int]));
                }
            }
        }
        let d: i64 = if j < n - frac_start {
            let c = s.get_char(frac_start + j);
            assert(c == frac[j as int]);
            c as i64 - '0' as i64
        } else {
            0
        };
        proof {
            assert(padded.take(j + 1) == padded.take(j as int).push(padded[j as int]));
            lemma_digits_push(padded.take(j as int), padded[j as int]);
            assert(padded[j as int] == (frac + seq!['0', '0', '0'])[j as int]);
        }
        millis = millis * 10 + d;
        proof {
            lemma_digits_bound(padded.take(j + 1));
            lemma_pow10_small();
        }
        j = j + 1;
    }
    assert(padded.take(3) == padded);
    if p - start + (n - frac_start) == 0 {
        assert(whole.len() + frac.len() == 0);
        return None;
    }
    let value = whole_value * 1000 + millis;
    if value > MAX_MILLIS {
        return None;
    }
    if negative {
        Some(-value)
    } else {
        Some(value)
    }
}


pub open spec fn digit_char(d: int) -> char {
    seq!['0', '1', '2', '3', '4', '5', '6', '7', '8', '9'][d]
}

/// The decimal digits of a natural number, without leading zeros.
pub open spec fn nat_text(n: nat) -> Seq<char>
    decreases n,
{
    if n < 10 {
        seq![digit_char(n as int)]
    } else {
        nat_text(n / 10).push(digit_char((n % 10) as int))
    }
}

/// Relies on the standard library's `ToString` for `u64` (its `Display`):
/// the decimal digits of the number, without sign or leading zeros.
#[verifier::external_body]
fn decimal_text(n: u64) -> (r: String)
    ensures
        r@ == nat_text(n as nat),
{
    n.to_string()
}

/// The digits of thousandths `f` (1 to 999) after a decimal point, with
/// trailing zeros left out.
pub open spec fn fraction_text(f: int) -> Seq<char> {
    if f % 100 == 0 {
        nat_text((f / 100) as nat)
    } else if f % 10 == 0 {
        (if f / 10 < 10 { seq!['0'] } else { Seq::empty() }) + nat_text((f / 10) as nat)
    } else {
        (if f < 10 {
            seq!['0', '0']
        } else if f < 100 {
            seq!['0']
        } else {
            Seq::empty()
        }) + nat_text(f as nat)
    }
}

/// A number of thousandths written as a decimal number: `12500` is `12.5`.
pub open spec fn millis_text(v: int) -> Seq<char> {
    let m = if v < 0 { -v } else { v };
    (if v < 0 { seq!['-'] } else { Seq::empty() }) + nat_text((m / 1000) as nat) + (if m % 1000
        == 0 {
        Seq::empty()
    } else {
        seq!['.'] + fraction_text(m % 1000)
    })
}

/// Writes a number of thousandths as a decimal number.
pub fn millis_to_text(v: i64) -> (r: String)
    ensures
        r@ == millis_text(v as int),
{
    let m: u64 = if v < 0 { (-(v as i128)) as u64 } else { v as u64 };
    let mut out = String::new();
    if v < 0 {
        proof {
            reveal_strlit("-");
        }
        out.append("-");
    }
    let whole = decimal_text(m / 1000);
    out.append(whole.as_str());
    let f = m % 1000;
    if f != 0 {
        proof {
            reveal_strlit(".");
            reveal_strlit("0");
            reveal_strlit("00");
        }
        out.append(".");
        if f % 100 == 0 {
            let t = decimal_text(f / 100);
            out.append(t.as_str());
        } else if f % 10 == 0 {
            if f / 10 < 10 {
                out.append("0");
            }
            let t = decimal_text(f / 10);
            out.append(t.as_str());
        } else {
            if f < 10 {
                out.append("00");
            } else if f < 100 {
                out.append("0");
            }
            let t = decimal_text(f);
            out.append(t.as_str());
        }
    }
    proof {
        let ghost fs = if f == 0 { Seq::<char>::empty() } else { seq!['.'] + fraction_text(f as int) };
        assert(out@ == (if v < 0 { seq!['-'] } else { Seq::<char>::empty() }) + nat_text((m / 1000) as nat) + fs);
    }
    out
}


proof fn lemma_digit_char(d: int)
    requires
        0 <= d < 10,
    ensures
        is_digit(digit_char(d)),
        digit_value(digit_char(d)) == d,
{
    let t = seq!['0', '1', '2', '3', '4', '5', '6', '7', '8', '9'];
    assert(digit_char(d) == t[d]);
    if d == 0 { assert(t[0] == '0'); } else if d == 1 { assert(t[1] == '1'); } else if d == 2 {
        assert(t[2] == '2');
    } else if d == 3 { assert(t[3] == '3'); } else if d == 4 { assert(t[4] == '4'); } else if d
        == 5 { assert(t[5] == '5'); } else if d == 6 { assert(t[6] == '6'); } else if d == 7 {
        assert(t[7] == '7');
    } else if d == 8 { assert(t[8] == '8'); } else { assert(t[9] == '9'); }
}

proof fn lemma_nat_text(n: nat)
    ensures
        all_digits(nat_text(n)),
        digits_value(nat_text(n)) == n,
        nat_text(n).len() >= 1,
    decreases n,
{
    if n < 10 {
        lemma_digit_char(n as int);
        let c = digit_char(n as int);
        assert(seq![c].drop_last() == Seq::<char>::empty());
        assert(seq![c].last() == c);
        lemma_digits_push(Seq::<char>::empty(), c);
        assert(Seq::<char>::empty().push(c) == seq![c]);
    } else {
        lemma_nat_text(n / 10);
        lemma_digit_char((n % 10) as int);
        lemma_digits_push(nat_text(n / 10), digit_char((n % 10) as int));
        let s = nat_text(n);
        assert forall|i: int| 0 <= i < s.len() implies is_digit(#[trigger] s[i]) by {
            if i < s.len() - 1 {
                assert(s[i] == nat_text(n / 10)[i]);
            }
        }
    }
}

proof fn lemma_digits3(a: char, b: char, c: char)
    ensures
        digits_value(seq![a, b, c]) == (digit_value(a) * 10 + digit_value(b)) * 10 + digit_value(c),
{
    lemma_digits_push(Seq::<char>::empty(), a);
    assert(Seq::<char>::empty().push(a) == seq![a]);
    lemma_digits_push(seq![a], b);
    assert(seq![a].push(b) == seq![a, b]);
    lemma_digits_push(seq![a, b], c);
    assert(seq![a, b].push(c) == seq![a, b, c]);
}

proof fn lemma_fraction_text(f: int)
    requires
        1 <= f <= 999,
    ensures
        all_digits(fraction_text(f)),
        fraction_text(f).len() >= 1,
        fraction_millis(fraction_text(f)) == f,
{
    let z = seq!['0', '0', '0'];
    reveal_with_fuel(nat_text, 3);
    lemma_digit_char(0);
    if f % 100 == 0 {
        let d = f / 100;
        lemma_digit_char(d);
        let ft = fraction_text(f);
        assert(ft == seq![digit_char(d)]);
        assert((ft + z).take(3) == seq![digit_char(d), '0', '0']);
        lemma_digits3(digit_char(d), '0', '0');
    } else if f % 10 == 0 {
        let t = f / 10;
        let ft = fraction_text(f);
        if t < 10 {
            lemma_digit_char(t);
            assert(ft == seq!['0', digit_char(t)]);
            assert((ft + z).take(3) == seq!['0', digit_char(t), '0']);
            lemma_digits3('0', digit_char(t), '0');
        } else {
            lemma_digit_char(t / 10);
            lemma_digit_char(t % 10);
            assert(nat_text(t as nat) == seq![digit_char(t / 10), digit_char(t % 10)]);
            assert(ft == seq![digit_char(t / 10), digit_char(t % 10)]);
            assert((ft + z).take(3) == seq![digit_char(t / 10), digit_char(t % 10), '0']);
            lemma_digits3(digit_char(t / 10), digit_char(t % 10), '0');
        }
    } else {
        let ft = fraction_text(f);
        if f < 10 {
            lemma_digit_char(f);
            assert(ft == seq!['0', '0', digit_char(f)]);
            assert((ft + z).take(3) == ft);
            lemma_digits3('0', '0', digit_char(f));
        } else if f < 100 {
            lemma_digit_char(f / 10);
            lemma_digit_char(f % 10);
            assert(ft == seq!['0', digit_char(f / 10), digit_char(f % 10)]);
            assert((ft + z).take(3) == ft);
            lemma_digits3('0', digit_char(f / 10), digit_char(f % 10));
        } else {
            lemma_digit_char(f / 100);
            lemma_digit_char((f / 10) % 10);
            lemma_digit_char(f % 10);
            assert(nat_text((f / 10) as nat) == seq![digit_char(f / 100), digit_char((f / 10) % 10)]);
            assert(ft == seq![digit_char(f / 100), digit_char((f / 10) % 10), digit_char(f % 10)]);
            assert((ft + z).take(3) == ft);
            lemma_digits3(digit_char(f / 100), digit_char((f / 10) % 10), digit_char(f % 10));
        }
    }
    let ft = fraction_text(f);
    assert forall|i: int| 0 <= i < ft.len() implies is_digit(#[trigger] ft[i]) by {
        lemma_nat_text(f as nat);
        lemma_nat_text((f / 10) as nat);
        lemma_nat_text((f / 100) as nat);
    }
}

/// Writing a number of thousandths as a decimal number and reading it back
/// gives the same number.
pub proof fn lemma_millis_text_round_trip(v: int)
    requires
        -MAX_MILLIS <= v <= MAX_MILLIS,
    ensures
        decimal_millis(millis_text(v)) == Some(v),
        millis_text(v).len() >= 1,
        is_digit(millis_text(v).last()),
{
    let m = if v < 0 { -v } else { v };
    let w = nat_text((m / 1000) as nat);
    let fr = m % 1000;
    lemma_nat_text((m / 1000) as nat);
    let sign = if v < 0 { seq!['-'] } else { Seq::<char>::empty() };
    let tail = if fr == 0 { Seq::<char>::empty() } else { seq!['.'] + fraction_text(fr) };
    let body = w + tail;
    let s = millis_text(v);
    assert(s == sign + body);
    assert(m == (m / 1000) * 1000 + fr);
    assert(is_digit(w[0]));
    if v < 0 {
        assert(s[0] == '-');
        assert(s.drop_first() == body);
    } else {
        assert(s == body);
        assert(s[0] == w[0]);
    }
    if fr == 0 {
        assert(body == w);
        assert(decimal_parts(body) == Some((w, Seq::<char>::empty())));
        lemma_digits3('0', '0', '0');
        lemma_digit_char(0);
        assert((Seq::<char>::empty() + seq!['0', '0', '0']).take(3) == seq!['0', '0', '0']);
        assert(s.last() == w.last());
        assert(is_digit(w[w.len() - 1]));
    } else {
        let ft = fraction_text(fr);
        lemma_fraction_text(fr);
        let k = w.len() as int;
        assert(body[k] == '.');
        assert(body.take(k) == w);
        assert(body.skip(k + 1) == ft);
        assert(is_point_at(body, k));
        assert(!all_digits(body));
        let q = choose|q: int| is_point_at(body, q);
        if q < k {
            assert(body[q] == w[q]);
        } else if q > k {
            assert(body.take(q)[k] == body[k]);
        }
        assert(decimal_parts(body) == Some((w, ft)));
        assert(s.last() == ft.last());
        assert(is_digit(ft[ft.len() - 1]));
    }
}

} // verus!
