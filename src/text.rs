//! Text primitives: whitespace, tokenizing, decimal integers and the
//! lexicographic order of names.
use vstd::prelude::*;

verus! {

/// True for the characters that Unicode lists under the White_Space property.
pub open spec fn is_space(c: char) -> bool {
    let n = c as u32;
    (0x09 <= n && n <= 0x0d) || n == 0x20 || n == 0x85 || n == 0xa0 || n == 0x1680 || (0x2000
        <= n && n <= 0x200a) || n == 0x2028 || n == 0x2029 || n == 0x202f || n == 0x205f || n
        == 0x3000
}

pub fn is_space_char(c: char) -> (r: bool)
    ensures
        r == is_space(c),
{
    let n = c as u32;
    (0x09 <= n && n <= 0x0d) || n == 0x20 || n == 0x85 || n == 0xa0 || n == 0x1680 || (0x2000
        <= n && n <= 0x200a) || n == 0x2028 || n == 0x2029 || n == 0x202f || n == 0x205f || n
        == 0x3000
}

/// The maximal runs of non-space characters of `s`, in order.
pub open spec fn tokens(s: Seq<char>) -> Seq<Seq<char>>
    decreases s.len(),
{
    if s.len() == 0 {
        seq![]
    } else {
        let p = s.drop_last();
        let t = tokens(p);
        let c = s.last();
        if is_space(c) {
            t
        } else if p.len() > 0 && !is_space(p.last()) {
            t.update(t.len() - 1, t.last().push(c))
        } else {
            t.push(seq![c])
        }
    }
}

pub open spec fn views(v: Seq<String>) -> Seq<Seq<char>> {
    v.map_values(|w: String| w@)
}

/// A run of characters none of which is whitespace.
pub open spec fn is_word(t: Seq<char>) -> bool {
    t.len() > 0 && forall|i: int| 0 <= i < t.len() ==> !is_space(#[trigger] t[i])
}

/// A word that follows whitespace, or starts the text, is one more token.
pub proof fn lemma_tokens_append_word(p: Seq<char>, t: Seq<char>)
    requires
        p.len() == 0 || is_space(p.last()),
        is_word(t),
    ensures
        tokens(p + t) == tokens(p).push(t),
    decreases t.len(),
{
    let s = p + t;
    assert(s.drop_last() =~= p + t.drop_last());
    assert(s.last() == t.last());
    if t.len() == 1 {
        assert(t =~= seq![t[0]]);
    } else {
        let u = t.drop_last();
        assert(is_word(u)) by {
            assert forall|i: int| 0 <= i < u.len() implies !is_space(#[trigger] u[i]) by {
                assert(u[i] == t[i]);
            }
        }
        lemma_tokens_append_word(p, u);
        assert((p + u).last() == u.last());
        assert(!is_space(t[t.len() - 2]));
        assert(tokens(p).push(u).update(tokens(p).len() as int, u.push(t.last())) =~= tokens(p).push(t)) by {
            assert(u.push(t.last()) =~= t);
        }
    }
}

/// Whitespace at the end adds no token.
pub proof fn lemma_tokens_append_space(p: Seq<char>, c: char)
    requires
        is_space(c),
    ensures
        tokens(p.push(c)) == tokens(p),
{
    assert(p.push(c).drop_last() =~= p);
}

/// Splits `s` on runs of whitespace.
pub fn split_words(s: &str) -> (r: Vec<String>)
    ensures
        views(r@) == tokens(s@),
{
    let n = s.unicode_len();
    let mut out: Vec<String> = Vec::new();
    let mut start: usize = 0;
    let mut inside = false;
    let mut i: usize = 0;
    while i < n
        invariant
            n == s@.len(),
            start <= i <= n,
            inside == (i > 0 && !is_space(s@[i - 1])),
            inside ==> tokens(s@.take(i as int)) == views(out@).push(s@.subrange(start as int, i as int)),
            !inside ==> tokens(s@.take(i as int)) == views(out@),
        decreases n - i,
    {
        let c = s.get_char(i);
        proof {
            let q = s@.take(i + 1);
            assert(q.drop_last() =~= s@.take(i as int));
            assert(q.last() == c);
        }
        if is_space_char(c) {
            if inside {
                let w = s.substring_char(start, i).to_string();
                let ghost before = out@;
                out.push(w);
                assert(views(out@) =~= views(before).push(w@));
                inside = false;
            }
        } else {
            if !inside {
                start = i;
                inside = true;
                assert(s@.subrange(i as int, i + 1) =~= seq![c]);
            } else {
                let ghost t = tokens(s@.take(i as int));
                assert(s@.subrange(start as int, i + 1) =~= s@.subrange(start as int, i as int).push(c));
                assert(t.update(t.len() - 1, t.last().push(c)) =~= views(out@).push(s@.subrange(start as int, i + 1)));
            }
        }
        i += 1;
    }
    assert(s@.take(n as int) =~= s@);
    if inside {
        let w = s.substring_char(start, n).to_string();
        let ghost before = out@;
        out.push(w);
        assert(views(out@) =~= views(before).push(w@));
    }
    out
}

pub open spec fn is_digit(c: char) -> bool {
    '0' <= c && c <= '9'
}

pub open spec fn digit_value(c: char) -> int {
    c as int - '0' as int
}

/// The number that a string of decimal digits writes.
pub open spec fn digits_value(d: Seq<char>) -> int
    decreases d.len(),
{
    if d.len() == 0 {
        0
    } else {
        digits_value(d.drop_last()) * 10 + digit_value(d.last())
    }
}

pub open spec fn all_digits(d: Seq<char>) -> bool {
    forall|i: int| 0 <= i < d.len() ==> is_digit(#[trigger] d[i])
}

/// The integer that `s` writes: an optional `+` or `-`, then one or more
/// decimal digits, and nothing else.
pub open spec fn integer_text_value(s: Seq<char>) -> Option<int> {
    let signed = s.len() > 0 && (s[0] == '-' || s[0] == '+');
    let d = if signed {
        s.drop_first()
    } else {
        s
    };
    if d.len() > 0 && all_digits(d) {
        Some(
            if signed && s[0] == '-' {
                -digits_value(d)
            } else {
                digits_value(d)
            },
        )
    } else {
        None
    }
}

/// The 32-bit signed integer that `s` writes, if it writes one in range.
pub open spec fn parse_i32_spec(s: Seq<char>) -> Option<i32> {
    match integer_text_value(s) {
        Some(v) => if i32::MIN <= v && v <= i32::MAX {
            Some(v as i32)
        } else {
            None
        },
        None => None,
    }
}

proof fn lemma_digits_value_nonneg(d: Seq<char>)
    requires
        all_digits(d),
    ensures
        digits_value(d) >= 0,
    decreases d.len(),
{
    if d.len() > 0 {
        assert(all_digits(d.drop_last())) by {
            assert forall|i: int| 0 <= i < d.drop_last().len() implies is_digit(
                #[trigger] d.drop_last()[i],
            ) by {
                assert(is_digit(d[i]));
            }
        }
        lemma_digits_value_nonneg(d.drop_last());
        assert(is_digit(d[d.len() - 1]));
    }
}

/// Reads `s` as a 32-bit signed integer in decimal, with an optional sign.
pub fn parse_i32(s: &str) -> (r: Option<i32>)
    ensures
        r == parse_i32_spec(s@),
{
    let n = s.unicode_len();
    if n == 0 {
        return None;
    }
    let first = s.get_char(0);
    let signed = first == '-' || first == '+';
    let negative = first == '-';
    let start: usize = if signed {
        1
    } else {
        0
    };
    if start == n {
        return None;
    }
    assert(first == s@[0]);
    let ghost d = if signed {
        s@.drop_first()
    } else {
        s@
    };
    assert(d =~= s@.subrange(start as int, n as int));
    // `acc` holds the magnitude read so far until it passes 2^31; after that
    // the text is out of range whatever follows.
    let mut acc: i64 = 0;
    let mut big = false;
    let mut i: usize = start;
    while i < n
        invariant
            n == s@.len(),
            start <= i <= n,
            d == s@.subrange(start as int, n as int),
            signed == (s@.len() > 0 && (s@[0] == '-' || s@[0] == '+')),
            negative == (s@[0] == '-'),
            d == if signed {
                s@.drop_first()
            } else {
                s@
            },
            all_digits(s@.subrange(start as int, i as int)),
            !big ==> acc == digits_value(s@.subrange(start as int, i as int)),
            big ==> digits_value(s@.subrange(start as int, i as int)) > 0x8000_0000,
            0 <= acc <= 0x8000_0000,
        decreases n - i,
    {
        let c = s.get_char(i);
        let ghost p = s@.subrange(start as int, i as int);
        let ghost q = s@.subrange(start as int, i + 1);
        assert(q.drop_last() =~= p);
        assert(q.last() == c);
        if !('0' <= c && c <= '9') {
            assert(!all_digits(d)) by {
                assert(d[i - start] == c);
                assert(!is_digit(d[i - start]));
            }
            assert(integer_text_value(s@) is None);
            return None;
        }
        assert(all_digits(q)) by {
            assert forall|j: int| 0 <= j < q.len() implies is_digit(#[trigger] q[j]) by {
                if j < p.len() {
                    assert(q[j] == p[j]);
                }
            }
        }
        let dv = (c as u32 - '0' as u32) as i64;
        if !big {
            let next = acc * 10 + dv;
            if next > 0x8000_0000 {
                big = true;
            } else {
                acc = next;
            }
        } else {
            proof {
                lemma_digits_value_nonneg(p);
                assert(digits_value(q) == digits_value(p) * 10 + digit_value(c));
                assert(digits_value(p) * 10 >= digits_value(p)) by (nonlinear_arith)
                    requires
                        digits_value(p) >= 0,
                ;
            }
        }
        i += 1;
    }
    assert(s@.subrange(start as int, n as int) == d);
    if big {
        return None;
    }
    if negative {
        Some((-acc) as i32)
    } else if acc <= 0x7fff_ffff {
        Some(acc as i32)
    } else {
        None
    }
}

pub open spec fn digit_char(d: nat) -> char {
    if d == 0 {
        '0'
    } else if d == 1 {
        '1'
    } else if d == 2 {
        '2'
    } else if d == 3 {
        '3'
    } else if d == 4 {
        '4'
    } else if d == 5 {
        '5'
    } else if d == 6 {
        '6'
    } else if d == 7 {
        '7'
    } else if d == 8 {
        '8'
    } else {
        '9'
    }
}

/// The decimal digits of `n`, most significant first, without leading zeros.
pub open spec fn nat_text(n: nat) -> Seq<char>
    decreases n,
{
    if n < 10 {
        seq![digit_char(n)]
    } else {
        nat_text(n / 10).push(digit_char(n % 10))
    }
}

/// `n` in decimal, with a leading `-` when it is negative.
pub open spec fn int_text(n: int) -> Seq<char> {
    if n < 0 {
        seq!['-'] + nat_text((-n) as nat)
    } else {
        nat_text(n as nat)
    }
}

fn digit_str(d: u32) -> (r: &'static str)
    requires
        d < 10,
    ensures
        r@ == seq![digit_char(d as nat)],
{
    proof {
        reveal_strlit("0");
        reveal_strlit("1");
        reveal_strlit("2");
        reveal_strlit("3");
        reveal_strlit("4");
        reveal_strlit("5");
        reveal_strlit("6");
        reveal_strlit("7");
        reveal_strlit("8");
        reveal_strlit("9");
    }
    let r = if d == 0 {
        "0"
    } else if d == 1 {
        "1"
    } else if d == 2 {
        "2"
    } else if d == 3 {
        "3"
    } else if d == 4 {
        "4"
    } else if d == 5 {
        "5"
    } else if d == 6 {
        "6"
    } else if d == 7 {
        "7"
    } else if d == 8 {
        "8"
    } else {
        "9"
    };
    assert(r@ =~= seq![digit_char(d as nat)]);
    r
}

fn push_nat(out: &mut String, n: u32)
    ensures
        final(out)@ == old(out)@ + nat_text(n as nat),
    decreases n,
{
    if n >= 10 {
        push_nat(out, n / 10);
    }
    out.append(digit_str(n % 10));
    proof {
        if n >= 10 {
            assert(nat_text(n as nat) == nat_text((n / 10) as nat).push(digit_char((n % 10) as nat)));
        }
    }
    assert(final(out)@ =~= old(out)@ + nat_text(n as nat));
}

/// Appends `n` in decimal to `out`.
pub fn push_int(out: &mut String, n: i32)
    ensures
        final(out)@ == old(out)@ + int_text(n as int),
{
    if n < 0 {
        out.append("-");
        proof {
            reveal_strlit("-");
        }
        let m: u32 = (-(n as i64)) as u32;
        push_nat(out, m);
        assert(final(out)@ =~= old(out)@ + int_text(n as int));
    } else {
        push_nat(out, n as u32);
    }
}

/// Strict lexicographic order on character sequences, by code point.
pub open spec fn text_lt(a: Seq<char>, b: Seq<char>) -> bool
    decreases a.len(),
{
    if a.len() == 0 {
        b.len() > 0
    } else if b.len() == 0 {
        false
    } else if a[0] != b[0] {
        (a[0] as int) < (b[0] as int)
    } else {
        text_lt(a.drop_first(), b.drop_first())
    }
}

pub proof fn lemma_text_lt_irreflexive(a: Seq<char>)
    ensures
        !text_lt(a, a),
    decreases a.len(),
{
    if a.len() > 0 {
        lemma_text_lt_irreflexive(a.drop_first());
    }
}

pub proof fn lemma_text_lt_transitive(a: Seq<char>, b: Seq<char>, c: Seq<char>)
    requires
        text_lt(a, b),
        text_lt(b, c),
    ensures
        text_lt(a, c),
    decreases a.len(),
{
    if a.len() > 0 && b.len() > 0 && c.len() > 0 {
        if a[0] == b[0] && b[0] == c[0] {
            lemma_text_lt_transitive(a.drop_first(), b.drop_first(), c.drop_first());
        }
    }
}

pub proof fn lemma_text_lt_total(a: Seq<char>, b: Seq<char>)
    requires
        a != b,
        !text_lt(a, b),
    ensures
        text_lt(b, a),
    decreases a.len(),
{
    if a.len() == 0 {
        assert(b =~= a);
    } else if b.len() > 0 && a[0] == b[0] {
        if a.drop_first() == b.drop_first() {
            assert(a.drop_first().len() == b.drop_first().len());
            assert(a =~= b) by {
                assert forall|i: int| 0 <= i < a.len() implies a[i] == b[i] by {
                    if i > 0 {
                        assert(a[i] == a.drop_first()[i - 1]);
                        assert(b[i] == b.drop_first()[i - 1]);
                    }
                }
            }
        } else {
            lemma_text_lt_total(a.drop_first(), b.drop_first());
        }
    }
}

/// Compares two names in lexicographic order.
pub fn less_than(a: &str, b: &str) -> (r: bool)
    ensures
        r == text_lt(a@, b@),
{
    let n = a.unicode_len();
    let m = b.unicode_len();
    let mut i: usize = 0;
    assert(a@.skip(0) =~= a@);
    assert(b@.skip(0) =~= b@);
    while i < n && i < m
        invariant
            n == a@.len(),
            m == b@.len(),
            i <= n,
            i <= m,
            text_lt(a@, b@) == text_lt(a@.skip(i as int), b@.skip(i as int)),
        decreases n - i,
    {
        let x = a.get_char(i);
        let y = b.get_char(i);
        assert(a@.skip(i as int)[0] == x);
        assert(b@.skip(i as int)[0] == y);
        if x != y {
            return (x as u32) < (y as u32);
        }
        assert(a@.skip(i as int).drop_first() =~= a@.skip(i + 1));
        assert(b@.skip(i as int).drop_first() =~= b@.skip(i + 1));
        i += 1;
    }
    i < m
}

} // verus!
