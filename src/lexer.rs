use vstd::prelude::*;

verus! {

/// Unicode `White_Space`, the set of characters on which a formula is split.
pub open spec fn is_space(c: char) -> bool {
    ('\u{9}' <= c && c <= '\u{d}') || c == ' ' || c == '\u{85}' || c == '\u{a0}'
        || c == '\u{1680}' || ('\u{2000}' <= c && c <= '\u{200a}') || c == '\u{2028}'
        || c == '\u{2029}' || c == '\u{202f}' || c == '\u{205f}' || c == '\u{3000}'
}

/// Reading `s` left to right: the tokens already closed, and the token still open.
pub open spec fn split_state(s: Seq<char>) -> (Seq<Seq<char>>, Seq<char>)
    decreases s.len(),
{
    if s.len() == 0 {
        (seq![], seq![])
    } else {
        let (done, open) = split_state(s.drop_last());
        if is_space(s.last()) {
            if open.len() > 0 {
                (done.push(open), seq![])
            } else {
                (done, seq![])
            }
        } else {
            (done, open.push(s.last()))
        }
    }
}

/// The maximal runs of non-space characters of `s`, in order.
pub open spec fn tokens_of(s: Seq<char>) -> Seq<Seq<char>> {
    let (done, open) = split_state(s);
    if open.len() > 0 {
        done.push(open)
    } else {
        done
    }
}

/// The characters of each token of `v`.
pub open spec fn token_views(v: Seq<Vec<char>>) -> Seq<Seq<char>> {
    v.map_values(|t: Vec<char>| t@)
}

/// Whether `c` is Unicode white space.
pub fn space(c: char) -> (r: bool)
    ensures
        r == is_space(c),
{
    ('\u{9}' <= c && c <= '\u{d}') || c == ' ' || c == '\u{85}' || c == '\u{a0}'
        || c == '\u{1680}' || ('\u{2000}' <= c && c <= '\u{200a}') || c == '\u{2028}'
        || c == '\u{2029}' || c == '\u{202f}' || c == '\u{205f}' || c == '\u{3000}'
}

/// Splits a formula on runs of white space, dropping empty tokens.
pub fn tokenize(formula: &str) -> (r: Vec<Vec<char>>)
    ensures
        token_views(r@) == tokens_of(formula@),
{
    let mut done: Vec<Vec<char>> = Vec::new();
    let mut open: Vec<char> = Vec::new();
    for c in it: formula.chars()
        invariant
            it.seq() == formula@,
            (token_views(done@), open@) == split_state(formula@.take(it.index() as int)),
    {
        proof {
            assert(formula@.take(it.index() + 1).drop_last() == formula@.take(it.index() as int));
        }
        if space(c) {
            if open.len() > 0 {
                let ghost before = token_views(done@);
                let word = open;
                open = Vec::new();
                done.push(word);
                assert(token_views(done@) =~= before.push(word@));
            }
        } else {
            open.push(c);
        }
    }
    assert(formula@.take(formula@.len() as int) == formula@);
    if open.len() > 0 {
        let ghost before = token_views(done@);
        let ghost last = open@;
        done.push(open);
        assert(token_views(done@) =~= before.push(last));
    }
    done
}

/// An ASCII decimal digit.
pub open spec fn is_digit(c: char) -> bool {
    '0' <= c && c <= '9'
}

/// The value of an ASCII decimal digit.
pub open spec fn digit_value(c: char) -> int {
    (c as u32) as int - ('0' as u32) as int
}

/// The value of a string of decimal digits, most significant first.
pub open spec fn digits_value(d: Seq<char>) -> int
    decreases d.len(),
{
    if d.len() == 0 {
        0
    } else {
        digits_value(d.drop_last()) * 10 + digit_value(d.last())
    }
}

/// Whether `t` starts with a sign character.
pub open spec fn has_sign(t: Seq<char>) -> bool {
    t.len() > 0 && (t[0] == '-' || t[0] == '+')
}

/// What follows the sign of `t`, if it has one.
pub open spec fn unsigned_part(t: Seq<char>) -> Seq<char> {
    if has_sign(t) {
        t.drop_first()
    } else {
        t
    }
}

/// Whether every character of `d` is a decimal digit.
pub open spec fn all_digits(d: Seq<char>) -> bool {
    forall|i: int| 0 <= i < d.len() ==> is_digit(#[trigger] d[i])
}

/// The value that `t` writes as an integer literal: an optional `+` or `-`, then
/// one or more decimal digits.
pub open spec fn literal_value(t: Seq<char>) -> Option<int> {
    let d = unsigned_part(t);
    if d.len() > 0 && all_digits(d) {
        Some(if t[0] == '-' { -digits_value(d) } else { digits_value(d) })
    } else {
        None
    }
}

/// The `i32` that `t` writes, if it is a literal whose value fits.
pub open spec fn parse_i32(t: Seq<char>) -> Option<i32> {
    match literal_value(t) {
        Some(v) => if i32::MIN <= v <= i32::MAX {
            Some(v as i32)
        } else {
            None
        },
        None => None,
    }
}

proof fn lemma_digits_value_grows(d: Seq<char>, k: int)
    requires
        0 <= k <= d.len(),
        all_digits(d),
    ensures
        digits_value(d.take(k)) <= digits_value(d),
    decreases d.len(),
{
    if k < d.len() {
        let p = d.drop_last();
        assert(p.take(k) == d.take(k));
        assert(all_digits(p)) by {
            assert forall|i: int| 0 <= i < p.len() implies is_digit(#[trigger] p[i]) by {
                assert(p[i] == d[i]);
            }
        }
        lemma_digits_value_grows(p, k);
        assert(is_digit(d[d.len() - 1]));
        assert(digits_value(p) >= 0) by {
            lemma_digits_value_nonneg(p);
        }
    } else {
        assert(d.take(k) == d);
    }
}

proof fn lemma_digits_value_nonneg(d: Seq<char>)
    requires
        all_digits(d),
    ensures
        digits_value(d) >= 0,
    decreases d.len(),
{
    if d.len() > 0 {
        let p = d.drop_last();
        assert(all_digits(p)) by {
            assert forall|i: int| 0 <= i < p.len() implies is_digit(#[trigger] p[i]) by {
                assert(p[i] == d[i]);
            }
        }
        lemma_digits_value_nonneg(p);
        assert(is_digit(d[d.len() - 1]));
    }
}

/// Reads `t` as an integer literal, as `i32`'s `FromStr` does.
pub fn parse_int(t: &Vec<char>) -> (r: Option<i32>)
    ensures
        r == parse_i32(t@),
{
    let n = t.len();
    let signed = n > 0 && (t[0] == '-' || t[0] == '+');
    let start: usize = if signed { 1 } else { 0 };
    let ghost d = unsigned_part(t@);
    assert(d == t@.subrange(start as int, n as int));
    assert(signed == has_sign(t@));
    if start == n {
        return None;
    }
    let mut acc: i64 = 0;
    let mut i: usize = start;
    while i < n
        invariant
            start <= i <= n,
            d == t@.subrange(start as int, n as int),
            d == unsigned_part(t@),
            n == t@.len(),
            0 <= acc <= 2147483648,
            acc == digits_value(d.take(i - start)),
            forall|j: int| 0 <= j < i - start ==> is_digit(#[trigger] d[j]),
        decreases n - i,
    {
        let c = t[i];
        if !('0' <= c && c <= '9') {
            assert(!is_digit(d[i - start]));
            assert(!all_digits(d));
            return None;
        }
        let ghost k = i - start;
        assert(d.take(k + 1).drop_last() == d.take(k));
        acc = acc * 10 + (c as u32 - '0' as u32) as i64;
        i = i + 1;
        if acc > 2147483648 {
            proof {
                if all_digits(d) {
                    lemma_digits_value_grows(d, k + 1);
                }
            }
            return None;
        }
    }
    assert(d.take(n - start) == d);
    let v: i64 = if t[0] == '-' { -acc } else { acc };
    if v < i32::MIN as i64 || v > i32::MAX as i64 {
        None
    } else {
        Some(v as i32)
    }
}

} // verus!
