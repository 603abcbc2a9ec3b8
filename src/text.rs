//! Character-sequence helpers: decimal digits and whole-token replacement.
use vstd::prelude::*;

verus! {

/// The character of a decimal digit `d < 10`.
pub open spec fn digit_char(d: nat) -> char {
    seq!['0', '1', '2', '3', '4', '5', '6', '7', '8', '9'][d as int]
}

/// The decimal representation of `n`, without leading zeros.
pub open spec fn decimal(n: nat) -> Seq<char>
    decreases n,
{
    if n < 10 {
        seq![digit_char(n)]
    } else {
        decimal(n / 10).push(digit_char(n % 10))
    }
}

/// The characters that decimal numbers are written with.
pub open spec fn is_digit(c: char) -> bool {
    '0' <= c && c <= '9'
}

/// A decimal representation is non-empty and made of digits.
pub proof fn lemma_decimal_digits(n: nat)
    ensures
        decimal(n).len() > 0,
        forall|i: int| 0 <= i < decimal(n).len() ==> is_digit(#[trigger] decimal(n)[i]),
    decreases n,
{
    if n >= 10 {
        lemma_decimal_digits(n / 10);
    }
}

/// `s` with every non-overlapping occurrence of `tok`, scanned from the left,
/// replaced by `rep`. An empty token leaves `s` as it is.
pub open spec fn replaced(s: Seq<char>, tok: Seq<char>, rep: Seq<char>) -> Seq<char>
    decreases s.len(),
{
    if tok.len() == 0 || s.len() < tok.len() {
        s
    } else if s.take(tok.len() as int) == tok {
        rep + replaced(s.skip(tok.len() as int), tok, rep)
    } else {
        seq![s[0]] + replaced(s.skip(1), tok, rep)
    }
}

/// How many times `replaced` puts the replacement in: the non-overlapping
/// occurrences of `tok` in `s`, scanned from the left.
pub open spec fn occurrences(s: Seq<char>, tok: Seq<char>) -> nat
    decreases s.len(),
{
    if tok.len() == 0 || s.len() < tok.len() {
        0
    } else if s.take(tok.len() as int) == tok {
        1 + occurrences(s.skip(tok.len() as int), tok)
    } else {
        occurrences(s.skip(1), tok)
    }
}

/// Each occurrence adds the replacement's length to what is left of `s`
/// once the occurrences are removed.
pub proof fn lemma_replaced_len(s: Seq<char>, tok: Seq<char>, rep: Seq<char>)
    ensures
        replaced(s, tok, rep).len() == replaced(s, tok, Seq::empty()).len() + occurrences(s, tok)
            * rep.len(),
    decreases s.len(),
{
    if tok.len() == 0 || s.len() < tok.len() {
        assert(occurrences(s, tok) == 0);
        assert(replaced(s, tok, rep) == s);
        assert(replaced(s, tok, Seq::empty()) == s);
    } else if s.take(tok.len() as int) == tok {
        lemma_replaced_len(s.skip(tok.len() as int), tok, rep);
        let rest = s.skip(tok.len() as int);
        let n = occurrences(rest, tok);
        assert((1 + n) * rep.len() == rep.len() + n * rep.len()) by (nonlinear_arith);
        assert(replaced(s, tok, rep) == rep + replaced(rest, tok, rep));
        assert(replaced(s, tok, Seq::empty()) == Seq::<char>::empty() + replaced(
            rest,
            tok,
            Seq::empty(),
        ));
        assert(occurrences(s, tok) == 1 + n);
        assert(replaced(s, tok, rep).len() == replaced(s, tok, Seq::empty()).len() + occurrences(
            s,
            tok,
        ) * rep.len());
    } else {
        lemma_replaced_len(s.skip(1), tok, rep);
        assert(replaced(s, tok, rep) == seq![s[0]] + replaced(s.skip(1), tok, rep));
        assert(replaced(s, tok, Seq::empty()) == seq![s[0]] + replaced(
            s.skip(1),
            tok,
            Seq::empty(),
        ));
        assert(occurrences(s, tok) == occurrences(s.skip(1), tok));
    }
}

/// Relies on `String::push`: appends one character at the end.
#[verifier::external_body]
fn push_char(s: &mut String, c: char)
    ensures
        final(s)@ == old(s)@.push(c),
{
    s.push(c);
}

/// The characters of `s`, in order.
pub fn chars_of(s: &str) -> (r: Vec<char>)
    ensures
        r@ == s@,
{
    let mut r: Vec<char> = Vec::new();
    for c in it: s.chars()
        invariant
            r@ == it.seq().take(it.index() as int),
    {
        r.push(c);
    }
    r
}

/// A string holding the characters of `v`, in order.
pub fn string_of(v: &Vec<char>) -> (r: String)
    ensures
        r@ == v@,
{
    let mut r = String::new();
    for i in 0..v.len()
        invariant
            r@ == v@.take(i as int),
    {
        push_char(&mut r, v[i]);
        assert(v@.take(i + 1) == v@.take(i as int).push(v@[i as int]));
    }
    assert(v@.take(v.len() as int) == v@);
    r
}

fn digit(d: u64) -> (c: char)
    requires
        d < 10,
    ensures
        c == digit_char(d as nat),
{
    match d {
        0 => '0',
        1 => '1',
        2 => '2',
        3 => '3',
        4 => '4',
        5 => '5',
        6 => '6',
        7 => '7',
        8 => '8',
        _ => '9',
    }
}

/// Appends the decimal representation of `n` to `out`.
pub fn push_decimal(out: &mut Vec<char>, n: u64)
    ensures
        final(out)@ == old(out)@ + decimal(n as nat),
    decreases n,
{
    if n >= 10 {
        push_decimal(out, n / 10);
    }
    out.push(digit(n % 10));
}

/// Appends the characters of `v` to `out`.
pub fn push_all(out: &mut Vec<char>, v: &Vec<char>)
    ensures
        final(out)@ == old(out)@ + v@,
{
    let ghost before = out@;
    for k in 0..v.len()
        invariant
            out@ == before + v@.take(k as int),
    {
        out.push(v[k]);
        assert(v@.take(k + 1) == v@.take(k as int).push(v@[k as int]));
    }
    assert(v@.take(v.len() as int) == v@);
}

/// Whether `tok` occurs in `s` at position `i`.
fn occurs_at(s: &Vec<char>, i: usize, tok: &Vec<char>) -> (r: bool)
    requires
        i + tok@.len() <= s@.len(),
    ensures
        r == (s@.subrange(i as int, i + tok@.len()) == tok@),
{
    let mut j: usize = 0;
    while j < tok.len()
        invariant
            i + tok@.len() <= s.len(),
            j <= tok@.len(),
            forall|k: int| 0 <= k < j ==> s@[i + k] == tok@[k],
        decreases tok@.len() - j,
    {
        assert(i + j < s@.len());
        if s[i + j] != tok[j] {
            assert(s@.subrange(i as int, i + tok@.len())[j as int] != tok@[j as int]);
            return false;
        }
        j += 1;
    }
    assert(s@.subrange(i as int, i + tok@.len()) =~= tok@);
    true
}

/// Replaces every occurrence of `tok` in `s` by `rep`, left to right.
pub fn replace_all(s: &Vec<char>, tok: &Vec<char>, rep: &Vec<char>) -> (r: Vec<char>)
    requires
        tok@.len() > 0,
    ensures
        r@ == replaced(s@, tok@, rep@),
{
    let mut out: Vec<char> = Vec::new();
    let mut i: usize = 0;
    assert(s@.skip(0) =~= s@);
    while i < s.len()
        invariant
            tok@.len() > 0,
            i <= s@.len(),
            out@ + replaced(s@.skip(i as int), tok@, rep@) == replaced(s@, tok@, rep@),
        decreases s@.len() - i,
    {
        let ghost rest = s@.skip(i as int);
        if tok.len() <= s.len() - i && occurs_at(s, i, tok) {
            assert(rest.take(tok@.len() as int) =~= s@.subrange(i as int, i + tok@.len()));
            assert(rest.skip(tok@.len() as int) =~= s@.skip(i + tok@.len()));
            assert(replaced(rest, tok@, rep@) == rep@ + replaced(
                s@.skip(i + tok@.len()),
                tok@,
                rep@,
            ));
            push_all(&mut out, rep);
            i += tok.len();
        } else {
            assert(rest.skip(1) =~= s@.skip(i + 1));
            assert(replaced(rest, tok@, rep@) == seq![s@[i as int]] + replaced(
                s@.skip(i + 1),
                tok@,
                rep@,
            )) by {
                if rest.len() < tok@.len() {
                    assert(seq![rest[0]] + rest.skip(1) =~= rest);
                } else {
                    assert(rest.take(tok@.len() as int) =~= s@.subrange(i as int, i + tok@.len()));
                }
            }
            assert(out@.push(s@[i as int]) =~= out@ + seq![s@[i as int]]);
            out.push(s[i]);
            i += 1;
        }
    }
    assert(s@.skip(i as int) =~= Seq::<char>::empty());
    out
}

/// A placeholder: `{`, then a name holding neither brace, then `}`.
pub open spec fn is_placeholder(t: Seq<char>) -> bool {
    &&& t.len() >= 2
    &&& t[0] == '{'
    &&& t[t.len() - 1] == '}'
    &&& forall|i: int| 0 < i < t.len() - 1 ==> t[i] != '{' && t[i] != '}'
}

/// No character of `a` occurs in `b`.
pub open spec fn shares_none(a: Seq<char>, b: Seq<char>) -> bool {
    forall|i: int, j: int| 0 <= i < a.len() && 0 <= j < b.len() ==> a[i] != b[j]
}

/// A text that does not start with the token keeps its first character.
proof fn lemma_replaced_no_match(s: Seq<char>, tok: Seq<char>, rep: Seq<char>)
    requires
        s.len() > 0,
        tok.len() > 0,
        !(s.len() >= tok.len() && s.take(tok.len() as int) == tok),
    ensures
        replaced(s, tok, rep) == seq![s[0]] + replaced(s.skip(1), tok, rep),
{
    if s.len() < tok.len() {
        assert(seq![s[0]] + s.skip(1) =~= s);
    }
}

/// A text that starts with the token has it replaced first.
proof fn lemma_replaced_match(s: Seq<char>, tok: Seq<char>, rep: Seq<char>)
    requires
        tok.len() > 0,
        s.len() >= tok.len(),
        s.take(tok.len() as int) == tok,
    ensures
        replaced(s, tok, rep) == rep + replaced(s.skip(tok.len() as int), tok, rep),
{
}

/// A prefix free of the token's first character passes through unchanged.
proof fn lemma_replaced_plain_prefix(a: Seq<char>, b: Seq<char>, tok: Seq<char>, rep: Seq<char>)
    requires
        tok.len() > 0,
        forall|i: int| 0 <= i < a.len() ==> a[i] != tok[0],
    ensures
        replaced(a + b, tok, rep) == a + replaced(b, tok, rep),
    decreases a.len(),
{
    if a.len() > 0 {
        let s = a + b;
        if s.len() >= tok.len() {
            assert(s.take(tok.len() as int)[0] == a[0]);
        }
        lemma_replaced_no_match(s, tok, rep);
        assert(s.skip(1) =~= a.skip(1) + b);
        lemma_replaced_plain_prefix(a.skip(1), b, tok, rep);
        assert(a =~= seq![a[0]] + a.skip(1));
        assert(seq![s[0]] + (a.skip(1) + replaced(b, tok, rep)) =~= a + replaced(b, tok, rep));
    } else {
        assert(a + b =~= b);
    }
}

/// If the result of a replacement starts with `u`, which holds neither the
/// token's first character nor any character of the replacement, then the
/// text already started with `u`.
proof fn lemma_replaced_keeps_prefix(y: Seq<char>, u: Seq<char>, tok: Seq<char>, rep: Seq<char>)
    requires
        tok.len() > 0,
        rep.len() > 0,
        shares_none(rep, u),
        replaced(y, tok, rep).len() >= u.len(),
        replaced(y, tok, rep).take(u.len() as int) == u,
    ensures
        y.len() >= u.len(),
        y.take(u.len() as int) == u,
    decreases y.len(),
{
    if u.len() == 0 {
        assert(y.take(0) =~= u);
    } else if y.len() < tok.len() {
    } else if y.take(tok.len() as int) == tok {
        assert(replaced(y, tok, rep)[0] == rep[0]);
        assert(replaced(y, tok, rep).take(u.len() as int)[0] == u[0]);
    } else {
        let z = replaced(y.skip(1), tok, rep);
        assert(replaced(y, tok, rep) == seq![y[0]] + z);
        assert(z.take(u.len() - 1) =~= u.skip(1)) by {
            assert forall|k: int| 0 <= k < u.len() - 1 implies z.take(u.len() - 1)[k] == u.skip(
                1,
            )[k] by {
                assert(replaced(y, tok, rep).take(u.len() as int)[k + 1] == u[k + 1]);
            }
        }
        assert(shares_none(rep, u.skip(1)));
        lemma_replaced_keeps_prefix(y.skip(1), u.skip(1), tok, rep);
        assert(replaced(y, tok, rep).take(u.len() as int)[0] == u[0]);
        assert(y.take(u.len() as int) =~= u) by {
            assert forall|k: int| 0 <= k < u.len() implies y.take(u.len() as int)[k] == u[k] by {
                if k > 0 {
                    assert(y.skip(1).take(u.len() - 1)[k - 1] == u.skip(1)[k - 1]);
                }
            }
        }
    }
}

/// Two different placeholders, each replaced by a non-empty value that
/// shares no character with the other placeholder, can be filled in either
/// order with the same result.
pub proof fn lemma_replacements_commute(
    s: Seq<char>,
    t1: Seq<char>,
    r1: Seq<char>,
    t2: Seq<char>,
    r2: Seq<char>,
)
    requires
        is_placeholder(t1),
        is_placeholder(t2),
        t1 != t2,
        r1.len() > 0,
        r2.len() > 0,
        shares_none(r1, t2),
        shares_none(r2, t1),
    ensures
        replaced(replaced(s, t1, r1), t2, r2) == replaced(replaced(s, t2, r2), t1, r1),
    decreases s.len(),
{
    if s.len() == 0 {
    } else if s[0] != '{' {
        lemma_replaced_no_match(s, t1, r1);
        lemma_replaced_no_match(s, t2, r2);
        lemma_replaced_plain_prefix(seq![s[0]], replaced(s.skip(1), t1, r1), t2, r2);
        lemma_replaced_plain_prefix(seq![s[0]], replaced(s.skip(1), t2, r2), t1, r1);
        lemma_replacements_commute(s.skip(1), t1, r1, t2, r2);
    } else if s.len() >= t1.len() && s.take(t1.len() as int) == t1 {
        lemma_replacements_commute(s.skip(t1.len() as int), t1, r1, t2, r2);
        lemma_start_with_one(s, t1, r1, t2, r2);
    } else if s.len() >= t2.len() && s.take(t2.len() as int) == t2 {
        lemma_replacements_commute(s.skip(t2.len() as int), t1, r1, t2, r2);
        lemma_start_with_one(s, t2, r2, t1, r1);
    } else {
        let x1 = replaced(s.skip(1), t1, r1);
        let x2 = replaced(s.skip(1), t2, r2);
        lemma_replaced_no_match(s, t1, r1);
        lemma_replaced_no_match(s, t2, r2);
        lemma_no_new_match(s, t1, r1, t2);
        lemma_no_new_match(s, t2, r2, t1);
        lemma_replaced_no_match(seq![s[0]] + x1, t2, r2);
        lemma_replaced_no_match(seq![s[0]] + x2, t1, r1);
        assert((seq![s[0]] + x1).skip(1) =~= x1);
        assert((seq![s[0]] + x2).skip(1) =~= x2);
        lemma_replacements_commute(s.skip(1), t1, r1, t2, r2);
    }
}

/// After a text that starts with `{` but with neither placeholder has its
/// `t1` occurrences replaced, it still does not start with `t2`.
proof fn lemma_no_new_match(s: Seq<char>, t1: Seq<char>, r1: Seq<char>, t2: Seq<char>)
    requires
        is_placeholder(t1),
        is_placeholder(t2),
        r1.len() > 0,
        shares_none(r1, t2),
        s.len() > 0,
        s[0] == '{',
        !(s.len() >= t2.len() && s.take(t2.len() as int) == t2),
    ensures
        ({
            let x = seq![s[0]] + replaced(s.skip(1), t1, r1);
            !(x.len() >= t2.len() && x.take(t2.len() as int) == t2)
        }),
{
    let x1 = replaced(s.skip(1), t1, r1);
    let x = seq![s[0]] + x1;
    if x.len() >= t2.len() && x.take(t2.len() as int) == t2 {
        let u = t2.skip(1);
        assert(x1.take(u.len() as int) =~= u) by {
            assert forall|k: int| 0 <= k < u.len() implies x1.take(u.len() as int)[k] == u[k] by {
                assert(x.take(t2.len() as int)[k + 1] == t2[k + 1]);
            }
        }
        assert(shares_none(r1, u)) by {
            assert forall|i: int, j: int| 0 <= i < r1.len() && 0 <= j < u.len() implies r1[i]
                != u[j] by {
                assert(u[j] == t2[j + 1]);
            }
        }
        lemma_replaced_keeps_prefix(s.skip(1), u, t1, r1);
        assert(s.take(t2.len() as int) =~= t2) by {
            assert forall|k: int| 0 <= k < t2.len() implies s.take(t2.len() as int)[k] == t2[k] by {
                if k > 0 {
                    assert(s.skip(1).take(u.len() as int)[k - 1] == u[k - 1]);
                }
            }
        }
    }
}

/// The case of `lemma_replacements_commute` where the text starts with `t1`.
proof fn lemma_start_with_one(
    s: Seq<char>,
    t1: Seq<char>,
    r1: Seq<char>,
    t2: Seq<char>,
    r2: Seq<char>,
)
    requires
        is_placeholder(t1),
        is_placeholder(t2),
        t1 != t2,
        r1.len() > 0,
        r2.len() > 0,
        shares_none(r1, t2),
        shares_none(r2, t1),
        s.len() >= t1.len(),
        s.take(t1.len() as int) == t1,
        replaced(replaced(s.skip(t1.len() as int), t1, r1), t2, r2) == replaced(
            replaced(s.skip(t1.len() as int), t2, r2),
            t1,
            r1,
        ),
    ensures
        replaced(replaced(s, t1, r1), t2, r2) == replaced(replaced(s, t2, r2), t1, r1),
{
    let rest = s.skip(t1.len() as int);
    // one side: t1 goes first, then r1 passes t2's scan unchanged
    lemma_replaced_match(s, t1, r1);
    assert forall|i: int| 0 <= i < r1.len() implies r1[i] != t2[0] by {}
    lemma_replaced_plain_prefix(r1, replaced(rest, t1, r1), t2, r2);
    // other side: t2 does not match at the start, and t1 passes its scan
    assert(!(s.len() >= t2.len() && s.take(t2.len() as int) == t2)) by {
        if s.len() >= t2.len() && s.take(t2.len() as int) == t2 {
            lemma_distinct_placeholders(s, t1, t2);
        }
    }
    lemma_replaced_no_match(s, t2, r2);
    let inner = t1.skip(1);
    assert forall|i: int| 0 <= i < inner.len() implies inner[i] != t2[0] by {
        assert(inner[i] == t1[i + 1]);
    }
    assert(s.skip(1) =~= inner + rest);
    lemma_replaced_plain_prefix(inner, rest, t2, r2);
    let y = replaced(rest, t2, r2);
    assert(seq![s[0]] + (inner + y) =~= t1 + y);
    assert((t1 + y).take(t1.len() as int) =~= t1);
    assert((t1 + y).skip(t1.len() as int) =~= y);
    lemma_replaced_match(t1 + y, t1, r1);
}

/// Two different placeholders cannot both start one text.
proof fn lemma_distinct_placeholders(s: Seq<char>, t1: Seq<char>, t2: Seq<char>)
    requires
        is_placeholder(t1),
        is_placeholder(t2),
        s.len() >= t1.len(),
        s.len() >= t2.len(),
        s.take(t1.len() as int) == t1,
        s.take(t2.len() as int) == t2,
    ensures
        t1 == t2,
{
    if t1.len() < t2.len() {
        assert(s.take(t2.len() as int)[t1.len() - 1] == s.take(t1.len() as int)[t1.len() - 1]);
    } else if t2.len() < t1.len() {
        assert(s.take(t1.len() as int)[t2.len() - 1] == s.take(t2.len() as int)[t2.len() - 1]);
    } else {
        assert(t1 =~= t2) by {
            assert forall|k: int| 0 <= k < t1.len() implies t1[k] == t2[k] by {
                assert(s.take(t1.len() as int)[k] == s.take(t2.len() as int)[k]);
            }
        }
    }
}

} // verus!
