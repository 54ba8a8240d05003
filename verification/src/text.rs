//! Plain string operations used throughout the crate: equality, prefix
//! tests, lexicographic order, and substring extraction.

use vstd::multiset::Multiset;
use vstd::prelude::*;

verus! {

/// Exact character-for-character equality of two string slices.
pub fn str_eq(a: &str, b: &str) -> (r: bool)
    ensures
        r == (a@ == b@),
{
    let sa = String::from_str(a);
    let sb = String::from_str(b);
    sa == sb
}

/// `p` is a prefix of `s`.
pub open spec fn is_prefix_of(p: Seq<char>, s: Seq<char>) -> bool {
    p.len() <= s.len() && s.take(p.len() as int) == p
}

/// Tests whether `s` starts with `p`.
pub fn str_starts_with(s: &str, p: &str) -> (r: bool)
    ensures
        r == is_prefix_of(p@, s@),
{
    let s_len = s.unicode_len();
    let p_len = p.unicode_len();
    if p_len > s_len {
        assert(!is_prefix_of(p@, s@));
        return false;
    }
    let head = s.substring_char(0, p_len);
    assert(head@ == s@.take(p@.len() as int));
    str_eq(head, p)
}

/// Characters of `s` from position `from` (inclusive) to the end, as an
/// owned string.
pub fn str_suffix(s: &str, from: usize) -> (r: String)
    requires
        from <= s@.len(),
    ensures
        r@ == s@.skip(from as int),
{
    let s_len = s.unicode_len();
    let tail = s.substring_char(from, s_len);
    assert(tail@ == s@.skip(from as int));
    String::from_str(tail)
}

/// Strict lexicographic order on character sequences by code point, the
/// order in which `str` and `String` compare.
pub open spec fn lex_lt(a: Seq<char>, b: Seq<char>) -> bool
    decreases a.len(),
{
    if b.len() == 0 {
        false
    } else if a.len() == 0 {
        true
    } else if a[0] < b[0] {
        true
    } else if a[0] > b[0] {
        false
    } else {
        lex_lt(a.drop_first(), b.drop_first())
    }
}

/// Reflexive closure of `lex_lt`.
pub open spec fn lex_leq(a: Seq<char>, b: Seq<char>) -> bool {
    lex_lt(a, b) || a == b
}

/// Comparing two sequences with a common prefix reduces to comparing
/// the parts after that prefix.
proof fn lemma_lex_lt_skip(a: Seq<char>, b: Seq<char>, i: int)
    requires
        0 <= i <= a.len(),
        i <= b.len(),
        a.take(i) == b.take(i),
    ensures
        lex_lt(a, b) == lex_lt(a.skip(i), b.skip(i)),
    decreases i,
{
    if i == 0 {
        assert(a.skip(0) == a);
        assert(b.skip(0) == b);
    } else {
        assert(a.take(i)[0] == a[0]);
        assert(b.take(i)[0] == b[0]);
        assert(a[0] == b[0]);
        assert(a.len() > 0 && b.len() > 0);
        assert(a.drop_first().take(i - 1) == b.drop_first().take(i - 1)) by {
            assert forall|j: int| 0 <= j < i - 1 implies a.drop_first()[j] == b.drop_first()[j] by {
                assert(a.take(i)[j + 1] == b.take(i)[j + 1]);
                assert(a.take(i)[j + 1] == a[j + 1]);
                assert(b.take(i)[j + 1] == b[j + 1]);
                assert(a.drop_first()[j] == a[j + 1]);
                assert(b.drop_first()[j] == b[j + 1]);
            }
            assert(a.drop_first().take(i - 1) =~= b.drop_first().take(i - 1));
        }
        lemma_lex_lt_skip(a.drop_first(), b.drop_first(), i - 1);
        assert(a.drop_first().skip(i - 1) =~= a.skip(i));
        assert(b.drop_first().skip(i - 1) =~= b.skip(i));
    }
}

/// Exactly one of `lex_lt(a, b)`, `lex_lt(b, a)`, `a == b` holds.
pub proof fn lemma_lex_trichotomy(a: Seq<char>, b: Seq<char>)
    ensures
        lex_lt(a, b) || lex_lt(b, a) || a == b,
        lex_lt(a, b) ==> !lex_lt(b, a) && a != b,
        lex_lt(b, a) ==> !lex_lt(a, b) && a != b,
    decreases a.len(),
{
    if b.len() == 0 || a.len() == 0 {
        if a.len() == 0 && b.len() == 0 {
            assert(a =~= b);
        }
    } else if a[0] == b[0] {
        lemma_lex_trichotomy(a.drop_first(), b.drop_first());
        if a.drop_first() == b.drop_first() {
            assert(a.len() == b.len());
            assert forall|j: int| 0 <= j < a.len() implies a[j] == b[j] by {
                if j > 0 {
                    assert(a.drop_first()[j - 1] == b.drop_first()[j - 1]);
                    assert(a.drop_first()[j - 1] == a[j]);
                    assert(b.drop_first()[j - 1] == b[j]);
                }
            }
            assert(a =~= b);
        }
        if a == b {
            assert(a.drop_first() =~= b.drop_first());
        }
    } else {
        if a == b {
            assert(a[0] == b[0]);
        }
    }
}

/// `lex_lt` is transitive.
pub proof fn lemma_lex_lt_trans(a: Seq<char>, b: Seq<char>, c: Seq<char>)
    requires
        lex_lt(a, b),
        lex_lt(b, c),
    ensures
        lex_lt(a, c),
    decreases a.len() + b.len() + c.len(),
{
    if a.len() == 0 {
        assert(b.len() > 0);
        assert(c.len() > 0);
    } else {
        assert(b.len() > 0 && c.len() > 0);
        if a[0] < b[0] {
            if b[0] <= c[0] {
            }
        } else {
            assert(a[0] == b[0]);
            if b[0] < c[0] {
            } else {
                assert(b[0] == c[0]);
                lemma_lex_lt_trans(a.drop_first(), b.drop_first(), c.drop_first());
            }
        }
    }
}

/// Tests whether `a` comes strictly before `b` in lexicographic order.
pub fn str_lt(a: &str, b: &str) -> (r: bool)
    ensures
        r == lex_lt(a@, b@),
{
    let a_len = a.unicode_len();
    let b_len = b.unicode_len();
    let mut i: usize = 0;
    loop
        invariant
            i <= a_len,
            i <= b_len,
            a_len == a@.len(),
            b_len == b@.len(),
            a@.take(i as int) == b@.take(i as int),
        decreases a_len - i,
    {
        if i == a_len {
            proof {
                lemma_lex_lt_skip(a@, b@, i as int);
                assert(a@.skip(i as int) =~= Seq::<char>::empty());
            }
            return i < b_len;
        }
        if i == b_len {
            proof {
                lemma_lex_lt_skip(a@, b@, i as int);
                assert(b@.skip(i as int) =~= Seq::<char>::empty());
            }
            return false;
        }
        let ca = a.get_char(i);
        let cb = b.get_char(i);
        if ca != cb {
            proof {
                lemma_lex_lt_skip(a@, b@, i as int);
            }
            return ca < cb;
        }
        proof {
            assert(a@[i as int] == b@[i as int]);
            assert(a@.take(i + 1) =~= b@.take(i + 1));
        }
        i = i + 1;
    }
}

/// Decimal digit.
pub open spec fn is_digit(c: char) -> bool {
    '0' <= c <= '9'
}

/// Every character of `s` is a decimal digit.
pub open spec fn all_digits(s: Seq<char>) -> bool {
    forall|i: int| 0 <= i < s.len() ==> is_digit(#[trigger] s[i])
}

/// The number denoted by a sequence of decimal digits, most significant
/// first.
pub open spec fn digits_val(s: Seq<char>) -> int
    decreases s.len(),
{
    if s.len() == 0 {
        0
    } else {
        digits_val(s.drop_last()) * 10 + (s.last() as int - '0' as int)
    }
}

/// Once a digit prefix exceeds a bound, appending more digits cannot
/// bring the value back down.
pub proof fn lemma_digits_val_grows(s: Seq<char>, i: int, bound: int)
    requires
        0 <= i <= s.len(),
        bound >= 0,
        digits_val(s.take(i)) > bound,
        all_digits(s),
    ensures
        digits_val(s) > bound,
    decreases s.len() - i,
{
    if i == s.len() {
        assert(s.take(i) =~= s);
    } else {
        assert(s.take(i + 1).drop_last() =~= s.take(i));
        assert(s.take(i + 1).last() == s[i]);
        assert(is_digit(s[i]));
        assert(s[i] as int - '0' as int >= 0);
        assert(digits_val(s.take(i + 1)) == digits_val(s.take(i)) * 10 + (s[i] as int - '0' as int));
        assert(digits_val(s.take(i)) * 10 > bound * 10) by (nonlinear_arith)
            requires bound >= 0 && digits_val(s.take(i)) > bound,
        ;
        lemma_digits_val_grows(s, i + 1, bound);
    }
}

/// Parses a non-empty all-digit string as a 32-bit number; anything
/// else, including out-of-range values, is rejected.
pub fn parse_index(s: &str) -> (r: Option<u32>)
    ensures
        match r {
            Some(n) => s@.len() > 0 && all_digits(s@) && n as int == digits_val(s@),
            None => s@.len() == 0 || !all_digits(s@) || digits_val(s@) > u32::MAX,
        },
{
    let len = s.unicode_len();
    if len == 0 {
        return None;
    }
    let mut acc: u32 = 0;
    let mut i: usize = 0;
    while i < len
        invariant
            i <= len,
            len == s@.len(),
            acc as int == digits_val(s@.take(i as int)),
            forall|j: int| 0 <= j < i ==> is_digit(#[trigger] s@[j]),
        decreases len - i,
    {
        let c = s.get_char(i);
        if c < '0' || c > '9' {
            assert(!is_digit(s@[i as int]));
            return None;
        }
        let d: u32 = c as u32 - 48;
        let next: u64 = acc as u64 * 10 + d as u64;
        proof {
            assert(s@.take(i + 1).drop_last() =~= s@.take(i as int));
            assert(s@.take(i + 1).last() == s@[i as int]);
            assert(d as int == s@[i as int] as int - '0' as int);
            assert(digits_val(s@.take(i + 1)) == next as int);
        }
        if next > u32::MAX as u64 {
            proof {
                if all_digits(s@) {
                    lemma_digits_val_grows(s@, i + 1, u32::MAX as int);
                }
            }
            return None;
        }
        acc = next as u32;
        i = i + 1;
    }
    proof {
        assert(s@.take(len as int) =~= s@);
    }
    Some(acc)
}

/// A profile selector may arrive shell- or URL-escaped; spaces in it are
/// restored from `+` and `%20`.
pub open spec fn spec_decode_selector(s: Seq<char>) -> Seq<char>
    decreases s.len(),
{
    if s.len() == 0 {
        Seq::empty()
    } else if s[0] == '+' {
        seq![' '] + spec_decode_selector(s.skip(1))
    } else if s.len() >= 3 && s[0] == '%' && s[1] == '2' && s[2] == '0' {
        seq![' '] + spec_decode_selector(s.skip(3))
    } else {
        seq![s[0]] + spec_decode_selector(s.skip(1))
    }
}

/// Restores spaces in an escaped profile selector.
pub fn decode_selector(s: &str) -> (r: String)
    ensures
        r@ == spec_decode_selector(s@),
{
    let len = s.unicode_len();
    let mut out = String::new();
    let mut i: usize = 0;
    proof {
        assert(s@.skip(0) =~= s@);
        assert(out@ + spec_decode_selector(s@) =~= spec_decode_selector(s@));
    }
    while i < len
        invariant
            i <= len,
            len == s@.len(),
            out@ + spec_decode_selector(s@.skip(i as int)) == spec_decode_selector(s@),
        decreases len - i,
    {
        let ghost pre = out@;
        let ghost tail = s@.skip(i as int);
        let c = s.get_char(i);
        assert(tail[0] == s@[i as int]);
        if c == '+' {
            out.append(" ");
            proof {
                reveal_strlit(" ");
                assert(" "@ =~= seq![' ']);
                assert(tail.skip(1) =~= s@.skip(i + 1));
                assert(out@ + spec_decode_selector(s@.skip(i + 1)) =~= pre + spec_decode_selector(
                    tail,
                ));
            }
            i = i + 1;
        } else if c == '%' && len - i >= 3 && s.get_char(i + 1) == '2' && s.get_char(i + 2)
            == '0' {
            out.append(" ");
            proof {
                reveal_strlit(" ");
                assert(" "@ =~= seq![' ']);
                assert(tail.len() >= 3);
                assert(tail[1] == s@[i + 1] && tail[2] == s@[i + 2]);
                assert(tail.skip(3) =~= s@.skip(i + 3));
                assert(out@ + spec_decode_selector(s@.skip(i + 3)) =~= pre + spec_decode_selector(
                    tail,
                ));
            }
            i = i + 3;
        } else {
            let piece = s.substring_char(i, i + 1);
            out.append(piece);
            proof {
                assert(piece@ =~= seq![s@[i as int]]);
                assert(tail.skip(1) =~= s@.skip(i + 1));
                if c != '+' && !(tail.len() >= 3 && tail[0] == '%' && tail[1] == '2' && tail[2]
                    == '0') {
                    assert(spec_decode_selector(tail) == seq![tail[0]] + spec_decode_selector(
                        tail.skip(1),
                    ));
                }
                assert(out@ + spec_decode_selector(s@.skip(i + 1)) =~= pre + spec_decode_selector(
                    tail,
                ));
            }
            i = i + 1;
        }
    }
    proof {
        assert(s@.skip(len as int) =~= Seq::<char>::empty());
        assert(out@ + Seq::<char>::empty() =~= out@);
    }
    out
}

/// The views of a sequence of owned strings.
pub open spec fn names_of(s: Seq<String>) -> Seq<Seq<char>> {
    Seq::new(s.len(), |i: int| s[i]@)
}

/// The one total order used wherever profile names are sorted.
pub open spec fn name_leq() -> spec_fn(Seq<char>, Seq<char>) -> bool {
    |a: Seq<char>, b: Seq<char>| lex_leq(a, b)
}

/// The alphabetically sorted arrangement of a sequence of names.
pub open spec fn sorted_names(names: Seq<Seq<char>>) -> Seq<Seq<char>> {
    names.sort_by(name_leq())
}

/// `name_leq()` is a total ordering, in the sense required by the
/// sorting lemmas of `vstd`.
pub proof fn lemma_name_leq_total_ordering()
    ensures
        vstd::relations::total_ordering(name_leq()),
{
    let leq = name_leq();
    assert forall|a: Seq<char>, b: Seq<char>| #[trigger] leq(a, b) && #[trigger] leq(b, a)
        implies a == b by {
        lemma_lex_trichotomy(a, b);
    }
    assert forall|a: Seq<char>, b: Seq<char>, c: Seq<char>|
        #[trigger] leq(a, b) && #[trigger] leq(b, c) implies leq(a, c) by {
        if lex_lt(a, b) && lex_lt(b, c) {
            lemma_lex_lt_trans(a, b, c);
        }
    }
    assert forall|a: Seq<char>, b: Seq<char>| #[trigger] leq(a, b) || #[trigger] leq(b, a) by {
        lemma_lex_trichotomy(a, b);
    }
}

/// Sorts owned strings into lexicographic order; the result is exactly
/// the sorted arrangement of the input names.
pub fn sort_strings(v: Vec<String>) -> (r: Vec<String>)
    ensures
        names_of(r@) == sorted_names(names_of(v@)),
{
    let ghost orig: Seq<Seq<char>> = names_of(v@);
    let mut rest = v;
    let mut out: Vec<String> = Vec::new();
    proof {
        broadcast use vstd::multiset::group_multiset_axioms;

        let on = names_of(out@);
        on.to_multiset_ensures();
        assert(on =~= Seq::<Seq<char>>::empty());
        assert forall|e: Seq<char>|
            on.to_multiset().add(names_of(rest@).to_multiset()).count(e) == orig.to_multiset().count(
            e,
        ) by {
            assert(!on.contains(e));
            assert(on.to_multiset().count(e) == 0);
        }
        assert(on.to_multiset().add(names_of(rest@).to_multiset()) =~= orig.to_multiset());
    }
    while rest.len() > 0
        invariant
            names_of(out@).to_multiset().add(names_of(rest@).to_multiset()) =~= orig.to_multiset(),
            vstd::relations::sorted_by(names_of(out@), name_leq()),
            forall|i: int, j: int|
                0 <= i < out@.len() && 0 <= j < rest@.len() ==> lex_leq(
                    #[trigger] names_of(out@)[i],
                    #[trigger] names_of(rest@)[j],
                ),
        decreases rest.len(),
    {
        let mut m: usize = 0;
        let mut k: usize = 1;
        while k < rest.len()
            invariant
                rest.len() > 0,
                m < rest.len(),
                k <= rest.len(),
                forall|j: int|
                    0 <= j < k ==> lex_leq(names_of(rest@)[m as int], #[trigger] names_of(rest@)[j]),
            decreases rest.len() - k,
        {
            assert(names_of(rest@)[k as int] == rest@[k as int]@);
            assert(names_of(rest@)[m as int] == rest@[m as int]@);
            if str_lt(rest[k].as_str(), rest[m].as_str()) {
                proof {
                    assert forall|j: int| 0 <= j < k + 1 implies lex_leq(
                        names_of(rest@)[k as int],
                        names_of(rest@)[j],
                    ) by {
                        if j < k {
                            lemma_lex_trichotomy(names_of(rest@)[m as int], names_of(rest@)[j]);
                            if lex_lt(names_of(rest@)[m as int], names_of(rest@)[j]) {
                                lemma_lex_lt_trans(
                                    names_of(rest@)[k as int],
                                    names_of(rest@)[m as int],
                                    names_of(rest@)[j],
                                );
                            }
                        }
                    }
                }
                m = k;
            } else {
                proof {
                    lemma_lex_trichotomy(names_of(rest@)[k as int], names_of(rest@)[m as int]);
                }
            }
            k = k + 1;
        }
        let ghost pre_rest: Seq<String> = rest@;
        let ghost pre_out: Seq<String> = out@;
        let x = rest.remove(m);
        out.push(x);
        proof {
            broadcast use vstd::multiset::group_multiset_axioms;

            let rn = names_of(pre_rest);
            let on = names_of(pre_out);
            rn.to_multiset_ensures();
            on.to_multiset_ensures();
            assert(names_of(rest@) =~= rn.remove(m as int)) by {
                rn.remove_ensures(m as int);
                pre_rest.remove_ensures(m as int);
            }
            assert(names_of(out@) =~= on.push(rn[m as int]));
            assert(rn.remove(m as int).to_multiset() =~= rn.to_multiset().remove(rn[m as int]));
            assert(on.push(rn[m as int]).to_multiset() =~= on.to_multiset().insert(rn[m as int]));
            assert(rn.to_multiset().count(rn[m as int]) > 0);
            assert(names_of(out@).to_multiset().add(names_of(rest@).to_multiset())
                =~= orig.to_multiset()) by {
                assert forall|e: Seq<char>|
                    names_of(out@).to_multiset().add(names_of(rest@).to_multiset()).count(e)
                        == orig.to_multiset().count(e) by {
                    assert(on.to_multiset().add(rn.to_multiset()).count(e) == orig.to_multiset().count(
                        e,
                    ));
                }
            }
            assert(vstd::relations::sorted_by(names_of(out@), name_leq())) by {
                assert forall|i: int, j: int| 0 <= i < j < names_of(out@).len() implies name_leq()(
                    names_of(out@)[i],
                    names_of(out@)[j],
                ) by {
                    if j < on.len() {
                        assert(names_of(out@)[i] == on[i]);
                        assert(names_of(out@)[j] == on[j]);
                        assert(name_leq()(on[i], on[j]));
                    } else {
                        assert(names_of(out@)[i] == on[i]);
                        assert(names_of(out@)[j] == rn[m as int]);
                        assert(lex_leq(on[i], rn[m as int]));
                    }
                }
            }
            assert forall|i: int, j: int|
                0 <= i < out@.len() && 0 <= j < rest@.len() implies lex_leq(
                names_of(out@)[i],
                names_of(rest@)[j],
            ) by {
                pre_rest.remove_ensures(m as int);
                rn.remove_ensures(m as int);
                let jj = if j < m { j } else { j + 1 };
                assert(names_of(rest@)[j] == rn[jj]);
                assert(lex_leq(rn[m as int], rn[jj]));
                if i < on.len() {
                    assert(names_of(out@)[i] == on[i]);
                    assert(lex_leq(on[i], rn[jj])) by {
                        assert(lex_leq(on[i], rn[jj]));
                    }
                } else {
                    assert(names_of(out@)[i] == rn[m as int]);
                }
            }
        }
    }
    proof {
        broadcast use vstd::multiset::group_multiset_axioms;

        let rn = names_of(rest@);
        rn.to_multiset_ensures();
        assert(rn =~= Seq::<Seq<char>>::empty());
        assert forall|e: Seq<char>| names_of(out@).to_multiset().count(e) == orig.to_multiset().count(
            e,
        ) by {
            assert(!rn.contains(e));
            assert(rn.to_multiset().count(e) == 0);
            assert(names_of(out@).to_multiset().add(rn.to_multiset()).count(e)
                == orig.to_multiset().count(e));
        }
        assert(names_of(out@).to_multiset() =~= orig.to_multiset());
        lemma_name_leq_total_ordering();
        orig.lemma_sort_by_ensures(name_leq());
        vstd::seq_lib::lemma_sorted_unique(names_of(out@), orig.sort_by(name_leq()), name_leq());
        assert(names_of(out@) == sorted_names(orig));
    }
    out
}

} // verus!

