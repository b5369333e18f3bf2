//! Text helpers shared by the serializer and the clients: the order in which
//! keys are kept, decimal rendering of integers, and joining of lines.

use vstd::prelude::*;
use vstd::string::StringExecFns;
use vstd::std_specs::iter::IteratorSpec;

verus! {

broadcast use vstd::string::group_string_axioms;

/// `String::push` appends one character to the end of the string.
pub assume_specification[ std::string::String::push ](s: &mut std::string::String, ch: char)
    ensures
        final(s)@ == old(s)@.push(ch),
;

/// Strict lexicographic order on texts, character by character in code point
/// order. A proper prefix sorts before the longer text.
pub open spec fn text_lt(a: Seq<char>, b: Seq<char>) -> bool
    decreases a.len(),
{
    if b.len() == 0 {
        false
    } else if a.len() == 0 {
        true
    } else if a[0] == b[0] {
        text_lt(a.drop_first(), b.drop_first())
    } else {
        a[0] < b[0]
    }
}

/// No text sorts before itself.
pub proof fn lemma_text_lt_irreflexive(a: Seq<char>)
    ensures
        !text_lt(a, a),
    decreases a.len(),
{
    if a.len() > 0 {
        lemma_text_lt_irreflexive(a.drop_first());
    }
}

/// Two texts never sort before each other.
pub proof fn lemma_text_lt_asymmetric(a: Seq<char>, b: Seq<char>)
    requires
        text_lt(a, b),
    ensures
        !text_lt(b, a),
    decreases a.len(),
{
    if a.len() > 0 && b.len() > 0 && a[0] == b[0] {
        lemma_text_lt_asymmetric(a.drop_first(), b.drop_first());
    }
}

/// The order is transitive.
pub proof fn lemma_text_lt_transitive(a: Seq<char>, b: Seq<char>, c: Seq<char>)
    requires
        text_lt(a, b),
        text_lt(b, c),
    ensures
        text_lt(a, c),
    decreases a.len(),
{
    if a.len() > 0 && b.len() > 0 && c.len() > 0 && a[0] == b[0] && b[0] == c[0] {
        lemma_text_lt_transitive(a.drop_first(), b.drop_first(), c.drop_first());
    }
}

/// Any two different texts are ordered one way or the other.
pub proof fn lemma_text_lt_total(a: Seq<char>, b: Seq<char>)
    ensures
        text_lt(a, b) || text_lt(b, a) || a == b,
    decreases a.len(),
{
    if a.len() == 0 || b.len() == 0 {
        if a.len() == 0 && b.len() == 0 {
            assert(a =~= b);
        }
    } else if a[0] == b[0] {
        lemma_text_lt_total(a.drop_first(), b.drop_first());
        if a.drop_first() == b.drop_first() {
            assert(a =~= seq![a[0]] + a.drop_first());
            assert(b =~= seq![b[0]] + b.drop_first());
        }
    }
}

/// How two texts stand to each other in the order of `text_lt`.
#[derive(Clone, Copy, Debug, PartialEq, Eq, Structural)]
pub enum TextOrder {
    Before,
    Same,
    After,
}

/// The position of `a` relative to `b`.
pub open spec fn text_order(a: Seq<char>, b: Seq<char>) -> TextOrder {
    if text_lt(a, b) {
        TextOrder::Before
    } else if a == b {
        TextOrder::Same
    } else {
        TextOrder::After
    }
}

/// Compares two strings character by character.
pub fn order_of(a: &str, b: &str) -> (r: TextOrder)
    ensures
        r == text_order(a@, b@),
        r == TextOrder::After ==> text_lt(b@, a@),
{
    let mut ia = a.chars();
    let mut ib = b.chars();
    loop
        invariant
            text_lt(a@, b@) == text_lt(ia.remaining(), ib.remaining()),
            text_lt(b@, a@) == text_lt(ib.remaining(), ia.remaining()),
            (a@ == b@) == (ia.remaining() == ib.remaining()),
            ia.decrease() is Some,
        decreases ia.decrease()->0,
    {
        let ghost ra = ia.remaining();
        let ghost rb = ib.remaining();
        let ca = ia.next();
        let cb = ib.next();
        match (ca, cb) {
            (None, None) => {
                assert(ra =~= rb);
                return TextOrder::Same;
            },
            (None, Some(_)) => {
                return TextOrder::Before;
            },
            (Some(_), None) => {
                return TextOrder::After;
            },
            (Some(x), Some(y)) => {
                if x != y {
                    if x < y {
                        return TextOrder::Before;
                    } else {
                        return TextOrder::After;
                    }
                }
                proof {
                    assert(ra =~= seq![x] + ra.drop_first());
                    assert(rb =~= seq![y] + rb.drop_first());
                }
            },
        }
    }
}

/// The character of a decimal digit.
pub open spec fn digit_char(d: int) -> char
    recommends
        0 <= d < 10,
{
    if d == 0 {
        '0'
    } else if d == 1 {
        '1'
    } else if d == 2 {
        '2'
    } else if d == 3 {
        '3'
    } else if d == 4 {
        '4'
    } else if d == 5 {
        '5'
    } else if d == 6 {
        '6'
    } else if d == 7 {
        '7'
    } else if d == 8 {
        '8'
    } else {
        '9'
    }
}

/// The decimal digits of a natural number, most significant first, without
/// leading zeros (`0` itself is `"0"`).
pub open spec fn digits(n: nat) -> Seq<char>
    decreases n,
{
    if n < 10 {
        seq![digit_char(n as int)]
    } else {
        digits(n / 10).push(digit_char((n % 10) as int))
    }
}

/// The decimal rendering of an integer: a minus sign for negative numbers,
/// then the digits of the magnitude.
pub open spec fn decimal(i: int) -> Seq<char> {
    if i < 0 {
        seq!['-'] + digits((-i) as nat)
    } else {
        digits(i as nat)
    }
}

fn digit_of(d: u64) -> (c: char)
    requires
        d < 10,
    ensures
        c == digit_char(d as int),
{
    if d == 0 {
        '0'
    } else if d == 1 {
        '1'
    } else if d == 2 {
        '2'
    } else if d == 3 {
        '3'
    } else if d == 4 {
        '4'
    } else if d == 5 {
        '5'
    } else if d == 6 {
        '6'
    } else if d == 7 {
        '7'
    } else if d == 8 {
        '8'
    } else {
        '9'
    }
}

/// Digits of `n` with the least significant first, as the loop below finds them.
spec fn digits_reversed(n: nat) -> Seq<char>
    decreases n,
{
    if n < 10 {
        seq![digit_char(n as int)]
    } else {
        seq![digit_char((n % 10) as int)] + digits_reversed(n / 10)
    }
}

proof fn lemma_digits_reversed(n: nat)
    ensures
        digits_reversed(n) == digits(n).reverse(),
    decreases n,
{
    if n < 10 {
        assert(digits(n).reverse() =~= digits(n));
    } else {
        lemma_digits_reversed(n / 10);
        let d = digit_char((n % 10) as int);
        assert(digits(n / 10).push(d).reverse() =~= seq![d] + digits(n / 10).reverse());
    }
}

/// Appends the decimal digits of `n` to `out`.
pub fn push_digits(out: &mut String, n: u64)
    ensures
        final(out)@ == old(out)@ + digits(n as nat),
{
    let mut found: Vec<char> = Vec::new();
    let mut rest: u64 = n;
    while rest >= 10
        invariant
            found@ + digits_reversed(rest as nat) == digits_reversed(n as nat),
        decreases rest,
    {
        found.push(digit_of(rest % 10));
        rest = rest / 10;
    }
    found.push(digit_of(rest));
    proof {
        lemma_digits_reversed(n as nat);
        assert(found@ == digits(n as nat).reverse());
        assert(found@.len() == digits(n as nat).len());
    }
    let mut k: usize = found.len();
    while k > 0
        invariant
            k <= found.len(),
            found@ == digits(n as nat).reverse(),
            out@ == old(out)@ + digits(n as nat).take(found.len() - k),
        decreases k,
    {
        k = k - 1;
        out.push(found[k]);
        proof {
            let ds = digits(n as nat);
            let j = found.len() - k - 1;
            assert(found@[k as int] == ds[j]);
            assert(ds.take(j + 1) =~= ds.take(j).push(ds[j]));
        }
    }
    proof {
        let ds = digits(n as nat);
        assert(ds.take(ds.len() as int) =~= ds);
    }
}

/// Appends the decimal rendering of `i` to `out`.
pub fn push_decimal(out: &mut String, i: i64)
    ensures
        final(out)@ == old(out)@ + decimal(i as int),
{
    if i < 0 {
        out.push('-');
        let magnitude: u64 = (-(i + 1)) as u64 + 1;
        push_digits(out, magnitude);
        assert(out@ =~= old(out)@ + (seq!['-'] + digits((-i) as nat)));
    } else {
        push_digits(out, i as u64);
    }
}

/// The texts of `lines` with `separator` between each two neighbours.
pub open spec fn joined(lines: Seq<Seq<char>>, separator: Seq<char>) -> Seq<char>
    decreases lines.len(),
{
    if lines.len() == 0 {
        Seq::empty()
    } else if lines.len() == 1 {
        lines[0]
    } else {
        joined(lines.drop_last(), separator) + separator + lines.last()
    }
}

/// The views of a sequence of strings.
pub open spec fn texts(lines: Seq<String>) -> Seq<Seq<char>> {
    lines.map_values(|s: String| s@)
}

/// Concatenates `lines`, writing `separator` between each two neighbours.
pub fn join(lines: &Vec<String>, separator: &str) -> (r: String)
    ensures
        r@ == joined(texts(lines@), separator@),
{
    let mut out = String::new();
    let mut i: usize = 0;
    while i < lines.len()
        invariant
            i <= lines.len(),
            out@ == joined(texts(lines@).take(i as int), separator@),
        decreases lines.len() - i,
    {
        if i > 0 {
            out.append(separator);
        }
        out.append(lines[i].as_str());
        proof {
            let all = texts(lines@);
            assert(all.take(i + 1).drop_last() =~= all.take(i as int));
            assert(all.take(i + 1).last() == lines@[i as int]@);
        }
        i = i + 1;
    }
    proof {
        assert(texts(lines@).take(lines.len() as int) =~= texts(lines@));
    }
    out
}

} // verus!
