//! Text ordering and decimal rendering.
//!
//! Keys of configuration tables and snapshot file names are ordered
//! lexicographically by character (code point) values, which for UTF-8
//! text is the same order as Rust's byte-wise `String` ordering.
use vstd::prelude::*;

verus! {

/// Lexicographic strict order on character sequences.
pub open spec fn text_lt(a: Seq<char>, b: Seq<char>) -> bool
    decreases a.len(),
{
    if a.len() == 0 {
        b.len() > 0
    } else if b.len() == 0 {
        false
    } else if a[0] != b[0] {
        (a[0] as int) < (b[0] as int)
    } else {
        text_lt(a.drop_first(), b.drop_first())
    }
}

/// No text precedes itself.
pub proof fn lemma_text_lt_irreflexive(a: Seq<char>)
    ensures
        !text_lt(a, a),
    decreases a.len(),
{
    if a.len() > 0 {
        lemma_text_lt_irreflexive(a.drop_first());
    }
}

/// The text order is transitive.
pub proof fn lemma_text_lt_transitive(a: Seq<char>, b: Seq<char>, c: Seq<char>)
    requires
        text_lt(a, b),
        text_lt(b, c),
    ensures
        text_lt(a, c),
    decreases a.len(),
{
    if a.len() > 0 && b.len() > 0 && c.len() > 0 {
        if a[0] == b[0] && b[0] == c[0] {
            lemma_text_lt_transitive(a.drop_first(), b.drop_first(), c.drop_first());
        }
    }
}

/// Any two distinct texts are ordered one way or the other.
pub proof fn lemma_text_lt_total(a: Seq<char>, b: Seq<char>)
    ensures
        a == b || text_lt(a, b) || text_lt(b, a),
    decreases a.len(),
{
    if a.len() > 0 && b.len() > 0 {
        if a[0] == b[0] {
            lemma_text_lt_total(a.drop_first(), b.drop_first());
            if a.drop_first() == b.drop_first() {
                assert(a =~= seq![a[0]] + a.drop_first());
                assert(b =~= seq![b[0]] + b.drop_first());
            }
        } else {
            assert((a[0] as int) != (b[0] as int));
        }
    } else if a.len() == 0 && b.len() == 0 {
        assert(a =~= b);
    }
}

/// The text order is asymmetric.
pub proof fn lemma_text_lt_asymmetric(a: Seq<char>, b: Seq<char>)
    requires
        text_lt(a, b),
    ensures
        !text_lt(b, a),
{
    if text_lt(b, a) {
        lemma_text_lt_transitive(a, b, a);
        lemma_text_lt_irreflexive(a);
    }
}

/// The text order is the dictionary order by character value: texts
/// that first differ at position `i` are ordered by their characters
/// there, and a proper prefix precedes the longer text.
pub proof fn law_text_order(p: Seq<char>, x: Seq<char>, y: Seq<char>)
    ensures
        x.len() > 0 && y.len() > 0 && x[0] != y[0] ==> (text_lt(p + x, p + y) <==> (x[0] as int)
            < (y[0] as int)),
        x.len() > 0 ==> text_lt(p, p + x) && !text_lt(p + x, p),
    decreases p.len(),
{
    if p.len() == 0 {
        assert(p + x =~= x);
        assert(p + y =~= y);
        if x.len() > 0 {
            assert(!text_lt(x, p));
        }
    } else {
        law_text_order(p.drop_first(), x, y);
        assert((p + x).drop_first() =~= p.drop_first() + x);
        assert((p + y).drop_first() =~= p.drop_first() + y);
        assert((p + x)[0] == p[0] && (p + y)[0] == p[0]);
    }
}

proof fn lemma_text_lt_skip(a: Seq<char>, b: Seq<char>, i: int)
    requires
        0 <= i < a.len(),
        i < b.len(),
        a[i] == b[i],
    ensures
        text_lt(a.skip(i), b.skip(i)) == text_lt(a.skip(i + 1), b.skip(i + 1)),
{
    assert(a.skip(i).drop_first() =~= a.skip(i + 1));
    assert(b.skip(i).drop_first() =~= b.skip(i + 1));
}

/// Result of comparing two texts.
#[derive(Clone, Copy, Debug, PartialEq, Eq)]
pub enum TextOrder {
    Less,
    Equal,
    Greater,
}

/// Compare two texts by the lexicographic character order.
pub fn compare_text(a: &str, b: &str) -> (r: TextOrder)
    ensures
        r == TextOrder::Less <==> text_lt(a@, b@),
        r == TextOrder::Equal <==> a@ == b@,
        r == TextOrder::Greater <==> text_lt(b@, a@),
{
    let la = a.unicode_len();
    let lb = b.unicode_len();
    let mut i: usize = 0;
    assert(a@.skip(0) =~= a@);
    assert(b@.skip(0) =~= b@);
    while i < la && i < lb
        invariant
            la == a@.len(),
            lb == b@.len(),
            i <= la,
            i <= lb,
            a@.subrange(0, i as int) =~= b@.subrange(0, i as int),
            text_lt(a@, b@) == text_lt(a@.skip(i as int), b@.skip(i as int)),
            text_lt(b@, a@) == text_lt(b@.skip(i as int), a@.skip(i as int)),
        decreases la - i,
    {
        let ca = a.get_char(i);
        let cb = b.get_char(i);
        if ca != cb {
            proof {
                assert(a@.skip(i as int)[0] == ca);
                assert(b@.skip(i as int)[0] == cb);
                if a@ == b@ {
                    assert(a@[i as int] == b@[i as int]);
                }
                assert((ca as int) != (cb as int));
            }
            if ca < cb {
                return TextOrder::Less;
            } else {
                return TextOrder::Greater;
            }
        }
        proof {
            lemma_text_lt_skip(a@, b@, i as int);
            lemma_text_lt_skip(b@, a@, i as int);
            assert(a@.subrange(0, i + 1) =~= a@.subrange(0, i as int).push(ca));
            assert(b@.subrange(0, i + 1) =~= b@.subrange(0, i as int).push(cb));
        }
        i = i + 1;
    }
    proof {
        assert(a@.skip(i as int).len() == la - i);
        assert(b@.skip(i as int).len() == lb - i);
    }
    if la == lb {
        proof {
            assert(a@ =~= a@.subrange(0, i as int));
            assert(b@ =~= b@.subrange(0, i as int));
            lemma_text_lt_irreflexive(a@);
        }
        TextOrder::Equal
    } else if la < lb {
        proof {
            if a@ == b@ {
                assert(false);
            }
        }
        TextOrder::Less
    } else {
        proof {
            if a@ == b@ {
                assert(false);
            }
        }
        TextOrder::Greater
    }
}

/// `p` is a prefix of `s`.
pub open spec fn starts_with(s: Seq<char>, p: Seq<char>) -> bool {
    p.len() <= s.len() && s.subrange(0, p.len() as int) == p
}

/// `p` is a suffix of `s`.
pub open spec fn ends_with(s: Seq<char>, p: Seq<char>) -> bool {
    p.len() <= s.len() && s.subrange(s.len() - p.len(), s.len() as int) == p
}

/// Whether `s` begins with `p`.
pub fn has_prefix(s: &str, p: &str) -> (r: bool)
    ensures
        r == starts_with(s@, p@),
{
    let ls = s.unicode_len();
    let lp = p.unicode_len();
    if lp > ls {
        return false;
    }
    let mut i: usize = 0;
    while i < lp
        invariant
            ls == s@.len(),
            lp == p@.len(),
            lp <= ls,
            i <= lp,
            s@.subrange(0, i as int) =~= p@.subrange(0, i as int),
        decreases lp - i,
    {
        if s.get_char(i) != p.get_char(i) {
            proof {
                assert(s@.subrange(0, lp as int)[i as int] == s@[i as int]);
            }
            return false;
        }
        proof {
            assert(s@.subrange(0, i + 1) =~= s@.subrange(0, i as int).push(s@[i as int]));
            assert(p@.subrange(0, i + 1) =~= p@.subrange(0, i as int).push(p@[i as int]));
        }
        i = i + 1;
    }
    proof {
        assert(p@.subrange(0, lp as int) =~= p@);
    }
    true
}

/// Whether `s` ends with `p`.
pub fn has_suffix(s: &str, p: &str) -> (r: bool)
    ensures
        r == ends_with(s@, p@),
{
    let ls = s.unicode_len();
    let lp = p.unicode_len();
    if lp > ls {
        return false;
    }
    let off = ls - lp;
    let mut i: usize = 0;
    while i < lp
        invariant
            ls == s@.len(),
            lp == p@.len(),
            off + lp == ls,
            i <= lp,
            s@.subrange(off as int, off + i) =~= p@.subrange(0, i as int),
        decreases lp - i,
    {
        if s.get_char(off + i) != p.get_char(i) {
            proof {
                assert(s@.subrange(off as int, ls as int)[i as int] == s@[off + i]);
            }
            return false;
        }
        proof {
            assert(s@.subrange(off as int, off + i + 1) =~= s@.subrange(off as int, off + i).push(
                s@[off + i],
            ));
            assert(p@.subrange(0, i + 1) =~= p@.subrange(0, i as int).push(p@[i as int]));
        }
        i = i + 1;
    }
    proof {
        assert(p@.subrange(0, lp as int) =~= p@);
    }
    true
}

// ============================================================================
// Decimal rendering
// ============================================================================

/// The decimal digit character for `d < 10`.
pub open spec fn digit_char(d: nat) -> char {
    (48 + d) as char
}

/// `n` in decimal, left-padded with zeros to at least `width` digits
/// (Rust's `{:0width$}` for unsigned integers).
pub open spec fn padded_decimal(n: nat, width: nat) -> Seq<char>
    decreases n, width,
{
    if n < 10 && width <= 1 {
        seq![digit_char(n)]
    } else {
        let w = if width > 0 {
            (width - 1) as nat
        } else {
            0
        };
        proof {
            if n >= 10 {
                assert(n / 10 < n);
            } else if n > 0 {
                assert(n / 10 == 0);
            }
        }
        padded_decimal(n / 10, w).push(digit_char(n % 10))
    }
}

/// The one-character text of a decimal digit.
fn digit_text(d: usize) -> (s: &'static str)
    requires
        d < 10,
    ensures
        s@ == seq![digit_char(d as nat)],
{
    proof {
        reveal_strlit("0");
        reveal_strlit("1");
        reveal_strlit("2");
        reveal_strlit("3");
        reveal_strlit("4");
        reveal_strlit("5");
        reveal_strlit("6");
        reveal_strlit("7");
        reveal_strlit("8");
        reveal_strlit("9");
    }
    let s = if d == 0 {
        "0"
    } else if d == 1 {
        "1"
    } else if d == 2 {
        "2"
    } else if d == 3 {
        "3"
    } else if d == 4 {
        "4"
    } else if d == 5 {
        "5"
    } else if d == 6 {
        "6"
    } else if d == 7 {
        "7"
    } else if d == 8 {
        "8"
    } else {
        "9"
    };
    assert(s@ =~= seq![digit_char(d as nat)]);
    s
}

/// Append `n` in decimal, zero-padded to at least `width` digits.
pub fn push_padded_decimal(out: &mut String, n: usize, width: usize)
    ensures
        final(out)@ == old(out)@ + padded_decimal(n as nat, width as nat),
    decreases n, width,
{
    if n < 10 && width <= 1 {
        out.append(digit_text(n));
    } else {
        let w = if width > 0 {
            width - 1
        } else {
            0
        };
        proof {
            if n >= 10 {
                assert(n / 10 < n);
            } else if n > 0 {
                assert(n / 10 == 0);
            }
        }
        push_padded_decimal(out, n / 10, w);
        out.append(digit_text(n % 10));
        proof {
            let p = padded_decimal((n / 10) as nat, w as nat);
            assert(old(out)@ + p + seq![digit_char((n % 10) as nat)] =~= old(out)@ + p.push(
                digit_char((n % 10) as nat),
            ));
        }
    }
}

// ============================================================================
// Order of rendered numbers
// ============================================================================

/// 10 to the power `w`.
pub open spec fn pow10(w: nat) -> nat
    decreases w,
{
    if w == 0 {
        1
    } else {
        10 * pow10((w - 1) as nat)
    }
}

/// A shared prefix does not change the order.
pub proof fn lemma_text_lt_common_prefix(p: Seq<char>, x: Seq<char>, y: Seq<char>)
    ensures
        text_lt(p + x, p + y) == text_lt(x, y),
    decreases p.len(),
{
    if p.len() == 0 {
        assert(p + x =~= x);
        assert(p + y =~= y);
    } else {
        assert((p + x)[0] == p[0] && (p + y)[0] == p[0]);
        assert((p + x).drop_first() =~= p.drop_first() + x);
        assert((p + y).drop_first() =~= p.drop_first() + y);
        lemma_text_lt_common_prefix(p.drop_first(), x, y);
    }
}

/// Of equally long texts, the order is decided before any suffix.
pub proof fn lemma_text_lt_equal_length_prefix(a: Seq<char>, b: Seq<char>, c: Seq<char>, d: Seq<char>)
    requires
        a.len() == b.len(),
        text_lt(a, b),
    ensures
        text_lt(a + c, b + d),
    decreases a.len(),
{
    assert(a.len() > 0);
    assert((a + c)[0] == a[0] && (b + d)[0] == b[0]);
    if a[0] == b[0] {
        assert((a + c).drop_first() =~= a.drop_first() + c);
        assert((b + d).drop_first() =~= b.drop_first() + d);
        lemma_text_lt_equal_length_prefix(a.drop_first(), b.drop_first(), c, d);
    }
}

/// Numbers below `10^w`, rendered with `w` digits, have length `w` and
/// order as text exactly as they order as numbers.
pub proof fn lemma_padded_decimal_order(n: nat, m: nat, w: nat)
    requires
        w >= 1,
        n < pow10(w),
        m < pow10(w),
    ensures
        padded_decimal(n, w).len() == w,
        padded_decimal(m, w).len() == w,
        n < m ==> text_lt(padded_decimal(n, w), padded_decimal(m, w)),
    decreases w,
{
    if w == 1 {
        assert(pow10(1) == 10) by {
            reveal_with_fuel(pow10, 2);
        }
        if n < m {
            assert((digit_char(n) as int) < (digit_char(m) as int));
        }
    } else {
        let w1 = (w - 1) as nat;
        assert(pow10(w) == 10 * pow10(w1));
        assert(n / 10 < pow10(w1) && m / 10 < pow10(w1)) by (nonlinear_arith)
            requires
                n < 10 * pow10(w1),
                m < 10 * pow10(w1),
        ;
        lemma_padded_decimal_order(n / 10, m / 10, w1);
        let pn = padded_decimal(n / 10, w1);
        let pm = padded_decimal(m / 10, w1);
        assert(pn.len() == w1);
        assert(pm.len() == w1);
        if n < m {
            assert(n / 10 <= m / 10) by (nonlinear_arith)
                requires
                    n < m,
            ;
            if n / 10 < m / 10 {
                lemma_text_lt_equal_length_prefix(pn, pm, seq![digit_char(n % 10)], seq![digit_char(m % 10)]);
            } else {
                assert(n % 10 < m % 10) by (nonlinear_arith)
                    requires
                        n < m,
                        n / 10 == m / 10,
                ;
                assert(text_lt(seq![digit_char(n % 10)], seq![digit_char(m % 10)])) by {
                    assert((digit_char(n % 10) as int) < (digit_char(m % 10) as int));
                }
                lemma_text_lt_common_prefix(pn, seq![digit_char(n % 10)], seq![digit_char(m % 10)]);
            }
            assert(pn + seq![digit_char(n % 10)] =~= pn.push(digit_char(n % 10)));
            assert(pm + seq![digit_char(m % 10)] =~= pm.push(digit_char(m % 10)));
        }
    }
}

} // verus!
