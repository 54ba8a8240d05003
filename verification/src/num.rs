//! Decimal text: rendering non-negative integers, and reading
//! fractional-second timestamps as whole microseconds.

use vstd::prelude::*;

use crate::text::{all_digits, digits_val, is_digit, lemma_digits_val_grows};

verus! {

/// The digit character for `d`.
pub open spec fn digit_char(d: int) -> char {
    if d == 0 {
        '0'
    } else if d == 1 {
        '1'
    } else if d == 2 {
        '2'
    } else if d == 3 {
        '3'
    } else if d == 4 {
        '4'
    } else if d == 5 {
        '5'
    } else if d == 6 {
        '6'
    } else if d == 7 {
        '7'
    } else if d == 8 {
        '8'
    } else {
        '9'
    }
}

/// Decimal rendering of a non-negative integer, most significant digit
/// first.
pub open spec fn dec_rep(n: int) -> Seq<char>
    decreases n,
{
    if n < 10 {
        seq![digit_char(n)]
    } else {
        dec_rep(n / 10) + seq![digit_char(n % 10)]
    }
}

/// Every character of a decimal rendering is a digit.
pub proof fn lemma_dec_rep_digits(n: int)
    requires
        n >= 0,
    ensures
        all_digits(dec_rep(n)),
        dec_rep(n).len() > 0,
    decreases n,
{
    if n < 10 {
        assert(is_digit(digit_char(n)));
        assert(dec_rep(n) == seq![digit_char(n)]);
        assert(dec_rep(n)[0] == digit_char(n));
    } else {
        lemma_dec_rep_digits(n / 10);
        assert(is_digit(digit_char(n % 10)));
        assert forall|i: int| 0 <= i < dec_rep(n).len() implies is_digit(#[trigger] dec_rep(n)[i]) by {
            if i < dec_rep(n / 10).len() {
                assert(dec_rep(n)[i] == dec_rep(n / 10)[i]);
            } else {
                assert(dec_rep(n)[i] == digit_char(n % 10));
            }
        }
    }
}

/// Reading a decimal rendering back gives the number it renders.
pub proof fn lemma_dec_rep_val(n: int)
    requires
        n >= 0,
    ensures
        digits_val(dec_rep(n)) == n,
    decreases n,
{
    if n < 10 {
        let s = seq![digit_char(n)];
        assert(s.drop_last() =~= Seq::<char>::empty());
        assert(s.last() == digit_char(n));
        assert('0' as int == 48);
        assert(digit_char(n) as int - '0' as int == n);
        assert(digits_val(s) == digits_val(s.drop_last()) * 10 + (s.last() as int - '0' as int));
    } else {
        lemma_dec_rep_val(n / 10);
        let s = dec_rep(n);
        assert(s.drop_last() =~= dec_rep(n / 10));
        assert(s.last() == digit_char(n % 10));
        assert(digit_char(n % 10) as int - '0' as int == n % 10);
    }
}

/// Two distinct non-negative integers never share a rendering.
pub proof fn lemma_dec_rep_injective(a: int, b: int)
    requires
        a >= 0,
        b >= 0,
        dec_rep(a) == dec_rep(b),
    ensures
        a == b,
{
    lemma_dec_rep_val(a);
    lemma_dec_rep_val(b);
}

/// One digit as a borrowed string.
fn digit_str(d: u64) -> (r: &'static str)
    requires
        d < 10,
    ensures
        r@ == seq![digit_char(d as int)],
{
    if d == 0 {
        proof {
            reveal_strlit("0");
            assert("0"@ =~= seq![digit_char(0)]);
        }
        "0"
    } else if d == 1 {
        proof {
            reveal_strlit("1");
            assert("1"@ =~= seq![digit_char(1)]);
        }
        "1"
    } else if d == 2 {
        proof {
            reveal_strlit("2");
            assert("2"@ =~= seq![digit_char(2)]);
        }
        "2"
    } else if d == 3 {
        proof {
            reveal_strlit("3");
            assert("3"@ =~= seq![digit_char(3)]);
        }
        "3"
    } else if d == 4 {
        proof {
            reveal_strlit("4");
            assert("4"@ =~= seq![digit_char(4)]);
        }
        "4"
    } else if d == 5 {
        proof {
            reveal_strlit("5");
            assert("5"@ =~= seq![digit_char(5)]);
        }
        "5"
    } else if d == 6 {
        proof {
            reveal_strlit("6");
            assert("6"@ =~= seq![digit_char(6)]);
        }
        "6"
    } else if d == 7 {
        proof {
            reveal_strlit("7");
            assert("7"@ =~= seq![digit_char(7)]);
        }
        "7"
    } else if d == 8 {
        proof {
            reveal_strlit("8");
            assert("8"@ =~= seq![digit_char(8)]);
        }
        "8"
    } else {
        proof {
            reveal_strlit("9");
            assert("9"@ =~= seq![digit_char(9)]);
        }
        "9"
    }
}

/// Renders `n` in decimal.
pub fn u64_to_dec(n: u64) -> (r: String)
    ensures
        r@ == dec_rep(n as int),
    decreases n,
{
    if n < 10 {
        String::from_str(digit_str(n))
    } else {
        let mut s = u64_to_dec(n / 10);
        s.append(digit_str(n % 10));
        s
    }
}

/// Index of the first `.` in `s`, if any.
pub open spec fn dot_index(s: Seq<char>) -> Option<int>
    decreases s.len(),
{
    if s.len() == 0 {
        None
    } else if s[0] == '.' {
        Some(0)
    } else {
        match dot_index(s.drop_first()) {
            Some(k) => Some(k + 1),
            None => None,
        }
    }
}

/// When the first `i` characters are not dots, the search continues in
/// the rest.
proof fn lemma_dot_index_skip(s: Seq<char>, i: int)
    requires
        0 <= i <= s.len(),
        forall|j: int| 0 <= j < i ==> s[j] != '.',
    ensures
        dot_index(s) == match dot_index(s.skip(i)) {
            Some(k) => Some(k + i),
            None => None,
        },
    decreases i,
{
    if i == 0 {
        assert(s.skip(0) =~= s);
    } else {
        assert(s[0] != '.');
        assert forall|j: int| 0 <= j < i - 1 implies s.drop_first()[j] != '.' by {
            assert(s.drop_first()[j] == s[j + 1]);
        }
        lemma_dot_index_skip(s.drop_first(), i - 1);
        assert(s.drop_first().skip(i - 1) =~= s.skip(i));
    }
}

/// The first six fractional digits, padded on the right with zeros.
pub open spec fn pad6(fp: Seq<char>) -> Seq<char> {
    if fp.len() >= 6 {
        fp.take(6)
    } else {
        fp + Seq::new((6 - fp.len()) as nat, |i: int| '0')
    }
}

/// A non-negative decimal `digits[.digits]` read as whole microseconds:
/// the integer part in seconds scaled by one million, plus the first
/// six fractional digits. Values beyond `i64::MAX` microseconds, and
/// any other shape of text, read as nothing.
pub open spec fn spec_dec_micros(s: Seq<char>) -> Option<i64> {
    let ip = match dot_index(s) {
        Some(k) => s.take(k),
        None => s,
    };
    let fp = match dot_index(s) {
        Some(k) => s.skip(k + 1),
        None => Seq::<char>::empty(),
    };
    if ip.len() > 0 && all_digits(ip) && all_digits(fp) {
        let v = digits_val(ip) * 1000000 + digits_val(pad6(fp));
        if v <= i64::MAX {
            Some(v as i64)
        } else {
            None
        }
    } else {
        None
    }
}

/// Two digit strings joined by a dash are read back unambiguously,
/// because the dash cannot occur inside either digit part.
pub proof fn lemma_dash_join_unique(a: Seq<char>, b: Seq<char>, c: Seq<char>, d: Seq<char>)
    requires
        all_digits(a),
        all_digits(c),
        a + seq!['-'] + b == c + seq!['-'] + d,
    ensures
        a == c,
        b == d,
{
    let l = a + seq!['-'] + b;
    let r = c + seq!['-'] + d;
    assert(l.len() == a.len() + 1 + b.len());
    assert(r.len() == c.len() + 1 + d.len());
    if a.len() < c.len() {
        assert(l[a.len() as int] == '-');
        assert(r[a.len() as int] == c[a.len() as int]);
        assert(is_digit(c[a.len() as int]));
        assert(false);
    }
    if c.len() < a.len() {
        assert(r[c.len() as int] == '-');
        assert(l[c.len() as int] == a[c.len() as int]);
        assert(is_digit(a[c.len() as int]));
        assert(false);
    }
    assert(a =~= c) by {
        assert(forall|i: int| 0 <= i < a.len() ==> l[i] == a[i] && r[i] == c[i]);
    }
    assert(b =~= d) by {
        assert(forall|i: int|
            0 <= i < b.len() ==> l[i + a.len() + 1] == b[i] && r[i + a.len() + 1] == d[i]);
    }
}

/// Ten to the `k`.
pub open spec fn pow10(k: nat) -> int
    decreases k,
{
    if k == 0 {
        1
    } else {
        10 * pow10((k - 1) as nat)
    }
}

/// A string of digits denotes a non-negative value below ten to its
/// length.
pub proof fn lemma_digits_val_bounds(s: Seq<char>)
    requires
        all_digits(s),
    ensures
        0 <= digits_val(s) < pow10(s.len()),
    decreases s.len(),
{
    if s.len() == 0 {
    } else {
        assert(all_digits(s.drop_last())) by {
            assert(forall|j: int| 0 <= j < s.len() - 1 ==> #[trigger] s.drop_last()[j] == s[j]);
        }
        lemma_digits_val_bounds(s.drop_last());
        assert(is_digit(s.last()));
        assert(0 <= s.last() as int - '0' as int <= 9);
        let p = pow10((s.len() - 1) as nat);
        assert(digits_val(s.drop_last()) * 10 <= (p - 1) * 10) by (nonlinear_arith)
            requires
                digits_val(s.drop_last()) <= p - 1,
        ;
        assert(digits_val(s.drop_last()) * 10 >= 0) by (nonlinear_arith)
            requires
                digits_val(s.drop_last()) >= 0,
        ;
        assert(pow10(s.len()) == 10 * p);
    }
}

/// The concrete powers of ten up to one million.
proof fn lemma_pow10_small()
    ensures
        pow10(0) == 1,
        pow10(1) == 10,
        pow10(2) == 100,
        pow10(3) == 1000,
        pow10(4) == 10000,
        pow10(5) == 100000,
        pow10(6) == 1000000,
{
    assert(pow10(0) == 1);
    assert(pow10(1) == 10 * pow10(0));
    assert(pow10(2) == 10 * pow10(1));
    assert(pow10(3) == 10 * pow10(2));
    assert(pow10(4) == 10 * pow10(3));
    assert(pow10(5) == 10 * pow10(4));
    assert(pow10(6) == 10 * pow10(5));
}

/// Digits value of a string, when it is all digits and fits `u64`.
fn parse_digits_u64(s: &str) -> (r: Option<u64>)
    ensures
        match r {
            Some(n) => s@.len() > 0 && all_digits(s@) && n as int == digits_val(s@),
            None => s@.len() == 0 || !all_digits(s@) || digits_val(s@) > u64::MAX,
        },
{
    let len = s.unicode_len();
    if len == 0 {
        return None;
    }
    let mut acc: u64 = 0;
    let mut i: usize = 0;
    while i < len
        invariant
            i <= len,
            len == s@.len(),
            acc as int == digits_val(s@.take(i as int)),
            forall|j: int| 0 <= j < i ==> is_digit(#[trigger] s@[j]),
        decreases len - i,
    {
        let c = s.get_char(i);
        if c < '0' || c > '9' {
            assert(!is_digit(s@[i as int]));
            return None;
        }
        let d: u64 = c as u64 - 48;
        proof {
            assert(s@.take(i + 1).drop_last() =~= s@.take(i as int));
            assert(s@.take(i + 1).last() == s@[i as int]);
            assert(d as int == s@[i as int] as int - '0' as int);
        }
        if acc > (u64::MAX - d) / 10 {
            proof {
                assert(acc as int * 10 + d > u64::MAX) by (nonlinear_arith)
                    requires
                        acc as int > (u64::MAX - d as int) / 10,
                        0 <= d < 10,
                ;
                assert(digits_val(s@.take(i + 1)) > u64::MAX);
                if all_digits(s@) {
                    lemma_digits_val_grows(s@, i + 1, u64::MAX as int);
                }
            }
            return None;
        }
        proof {
            assert(acc as int * 10 + d <= u64::MAX) by (nonlinear_arith)
                requires
                    acc as int <= (u64::MAX - d as int) / 10,
                    0 <= d < 10,
            ;
        }
        acc = acc * 10 + d;
        i = i + 1;
    }
    proof {
        assert(s@.take(len as int) =~= s@);
    }
    Some(acc)
}

/// Reads a decimal timestamp text as whole microseconds.
pub fn parse_dec_micros(s: &str) -> (r: Option<i64>)
    ensures
        r == spec_dec_micros(s@),
{
    let len = s.unicode_len();
    let mut i: usize = 0;
    while i < len && s.get_char(i) != '.'
        invariant
            i <= len,
            len == s@.len(),
            forall|j: int| 0 <= j < i ==> s@[j] != '.',
        decreases len - i,
    {
        i = i + 1;
    }
    proof {
        lemma_dot_index_skip(s@, i as int);
        if i < len {
            assert(s@.skip(i as int)[0] == s@[i as int]);
            assert(dot_index(s@) == Some(i as int));
        } else {
            assert(s@.skip(i as int) =~= Seq::<char>::empty());
            assert(dot_index(s@) is None);
        }
    }
    let ip = s.substring_char(0, i);
    proof {
        if i < len {
            assert(ip@ == s@.take(i as int));
        } else {
            assert(ip@ =~= s@);
        }
    }
    let ghost fp_spec: Seq<char> = if i < len {
        s@.skip(i + 1)
    } else {
        Seq::<char>::empty()
    };
    let fp = if i < len {
        s.substring_char(i + 1, len)
    } else {
        s.substring_char(len, len)
    };
    proof {
        if i < len {
            assert(fp@ == s@.skip(i + 1));
        } else {
            assert(fp@ =~= fp_spec);
        }
    }
    let fp_len = fp.unicode_len();
    let mut k: usize = 0;
    while k < fp_len
        invariant
            k <= fp_len,
            fp_len == fp@.len(),
            fp@ == fp_spec,
            !all_digits(fp_spec) ==> spec_dec_micros(s@) is None,
            forall|j: int| 0 <= j < k ==> is_digit(#[trigger] fp@[j]),
        decreases fp_len - k,
    {
        let c = fp.get_char(k);
        if c < '0' || c > '9' {
            assert(!is_digit(fp@[k as int]));
            assert(!all_digits(fp_spec));
            return None;
        }
        k = k + 1;
    }
    let ip_val: u64 = match parse_digits_u64(ip) {
        Some(v) => v,
        None => {
            proof {
                if ip@.len() > 0 && all_digits(ip@) && all_digits(fp_spec) {
                    assert(digits_val(ip@) > u64::MAX);
                    lemma_digits_val_bounds(pad6(fp_spec));
                    assert(all_digits(pad6(fp_spec))) by {
                        if fp_spec.len() < 6 {
                            assert(forall|j: int|
                                0 <= j < 6 && j >= fp_spec.len() ==> #[trigger] pad6(fp_spec)[j]
                                    == '0');
                        }
                    }
                    assert(digits_val(ip@) * 1000000 > i64::MAX) by (nonlinear_arith)
                        requires
                            digits_val(ip@) > u64::MAX,
                    ;
                }
            }
            return None;
        },
    };
    // fraction value: the first six digits, zero-padded on the right
    proof {
        assert(all_digits(pad6(fp_spec))) by {
            if fp_spec.len() < 6 {
                assert(forall|j: int|
                    0 <= j < 6 && j >= fp_spec.len() ==> #[trigger] pad6(fp_spec)[j] == '0');
            }
        }
        assert(pad6(fp_spec).len() == 6);
    }
    let mut fv: u64 = 0;
    let mut t: usize = 0;
    while t < 6
        invariant
            t <= 6,
            fp_len == fp@.len(),
            fp@ == fp_spec,
            all_digits(fp_spec),
            all_digits(pad6(fp_spec)),
            pad6(fp_spec).len() == 6,
            fv as int == digits_val(pad6(fp_spec).take(t as int)),
            fv < 1000000,
        decreases 6 - t,
    {
        let d: u64 = if t < fp_len {
            let c = fp.get_char(t);
            assert(is_digit(fp@[t as int]));
            c as u64 - 48
        } else {
            0
        };
        proof {
            let p6 = pad6(fp_spec);
            assert(p6[t as int] == (if t < fp_spec.len() {
                fp_spec[t as int]
            } else {
                '0'
            }));
            assert(d as int == p6[t as int] as int - '0' as int);
            assert(p6.take(t + 1).drop_last() =~= p6.take(t as int));
            assert(p6.take(t + 1).last() == p6[t as int]);
            assert(all_digits(p6.take(t + 1))) by {
                assert(forall|j: int| 0 <= j < t + 1 ==> #[trigger] p6.take(t + 1)[j] == p6[j]);
            }
            lemma_digits_val_bounds(p6.take(t + 1));
            lemma_pow10_small();
            assert(p6.take(t + 1).len() == t + 1);
            assert(digits_val(p6.take(t + 1)) < pow10((t + 1) as nat));
            assert(pow10((t + 1) as nat) <= 1000000);
        }
        fv = fv * 10 + d;
        t = t + 1;
    }
    proof {
        assert(pad6(fp_spec).take(6) =~= pad6(fp_spec));
    }
    if ip_val > 9_223_372_036_854u64 {
        proof {
            lemma_digits_val_bounds(pad6(fp_spec));
            assert(digits_val(ip@) * 1000000 > i64::MAX) by (nonlinear_arith)
                requires
                    digits_val(ip@) > 9_223_372_036_854i64,
            ;
        }
        return None;
    }
    let total: u64 = ip_val * 1_000_000 + fv;
    proof {
        assert(total as int == digits_val(ip@) * 1000000 + digits_val(pad6(fp_spec)));
    }
    if total > 9_223_372_036_854_775_807u64 {
        return None;
    }
    Some(total as i64)
}

} // verus!
