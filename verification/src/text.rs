//! Text helpers shared by the SQL builder and the reader: decimal
//! rendering of integers, joining with a separator, and the code point
//! order on strings.

use vstd::prelude::*;

verus! {

/// `String::push` appends one character to the string.
pub assume_specification[ std::string::String::push ](s: &mut std::string::String, ch: char)
    ensures
        final(s)@ == old(s)@.push(ch),
;

/// The character of a decimal digit.
pub open spec fn digit_char(d: int) -> char {
    if d == 0 {
        '0'
    } else if d == 1 {
        '1'
    } else if d == 2 {
        '2'
    } else if d == 3 {
        '3'
    } else if d == 4 {
        '4'
    } else if d == 5 {
        '5'
    } else if d == 6 {
        '6'
    } else if d == 7 {
        '7'
    } else if d == 8 {
        '8'
    } else {
        '9'
    }
}

/// The decimal digits of a natural number, most significant first, without
/// leading zeros.
pub open spec fn decimal_nat(n: nat) -> Seq<char>
    decreases n,
{
    if n < 10 {
        seq![digit_char(n as int)]
    } else {
        decimal_nat(n / 10).push(digit_char((n % 10) as int))
    }
}

/// The decimal text of an integer: a minus sign for negative numbers, then
/// the digits of the magnitude.
pub open spec fn decimal_int(v: int) -> Seq<char> {
    if v < 0 {
        seq!['-'] + decimal_nat((-v) as nat)
    } else {
        decimal_nat(v as nat)
    }
}

/// The character of a decimal digit.
pub fn digit_of(d: u64) -> (c: char)
    requires
        d < 10,
    ensures
        c == digit_char(d as int),
{
    if d == 0 {
        '0'
    } else if d == 1 {
        '1'
    } else if d == 2 {
        '2'
    } else if d == 3 {
        '3'
    } else if d == 4 {
        '4'
    } else if d == 5 {
        '5'
    } else if d == 6 {
        '6'
    } else if d == 7 {
        '7'
    } else if d == 8 {
        '8'
    } else {
        '9'
    }
}

/// Appends the decimal digits of `n` to `out`.
pub fn push_decimal_u64(out: &mut String, n: u64)
    ensures
        final(out)@ == old(out)@ + decimal_nat(n as nat),
    decreases n,
{
    if n >= 10 {
        push_decimal_u64(out, n / 10);
    }
    out.push(digit_of(n % 10));
}

/// Appends the decimal text of `v` to `out`.
pub fn push_decimal_i64(out: &mut String, v: i64)
    ensures
        final(out)@ == old(out)@ + decimal_int(v as int),
{
    if v < 0 {
        out.push('-');
        let magnitude: u64 = if v == i64::MIN {
            9223372036854775808u64
        } else {
            (-v) as u64
        };
        push_decimal_u64(out, magnitude);
    } else {
        push_decimal_u64(out, v as u64);
    }
}

/// The decimal text of `v` as a fresh string.
pub fn decimal_string(v: i64) -> (r: String)
    ensures
        r@ == decimal_int(v as int),
{
    let mut out = String::new();
    push_decimal_i64(&mut out, v);
    out
}

/// Decimal texts are never empty and consist of digits only.
pub proof fn lemma_decimal_nat_digits(n: nat)
    ensures
        decimal_nat(n).len() >= 1,
        forall|i: int|
            0 <= i < decimal_nat(n).len() ==> is_digit(#[trigger] decimal_nat(n)[i]),
        n >= 10 ==> decimal_nat(n).len() >= 2,
        n >= 1 ==> decimal_nat(n)[0] != '0',
    decreases n,
{
    if n >= 10 {
        lemma_decimal_nat_digits(n / 10);
    }
}

/// Whether `c` is one of the ten decimal digits.
pub open spec fn is_digit(c: char) -> bool {
    '0' <= c <= '9'
}

/// Different numbers have different decimal texts.
pub proof fn lemma_decimal_nat_injective(a: nat, b: nat)
    requires
        decimal_nat(a) == decimal_nat(b),
    ensures
        a == b,
    decreases a,
{
    lemma_decimal_nat_digits(a);
    lemma_decimal_nat_digits(b);
    if a < 10 || b < 10 {
        assert(decimal_nat(a).len() == decimal_nat(b).len());
        assert(a < 10 && b < 10);
        assert(decimal_nat(a)[0] == decimal_nat(b)[0]);
    } else {
        let da = decimal_nat(a / 10);
        let db = decimal_nat(b / 10);
        assert(decimal_nat(a).drop_last() =~= da);
        assert(decimal_nat(b).drop_last() =~= db);
        assert(decimal_nat(a).last() == digit_char((a % 10) as int));
        assert(decimal_nat(b).last() == digit_char((b % 10) as int));
        lemma_decimal_nat_injective(a / 10, b / 10);
    }
}

/// The characters of a string slice, in order.
pub fn chars_of(s: &str) -> (r: Vec<char>)
    ensures
        r@ == s@,
{
    let mut out: Vec<char> = Vec::new();
    for c in it: s.chars()
        invariant
            it.seq() == s@,
            out@ == s@.take(it.index() as int),
    {
        out.push(c);
    }
    out
}

/// The string made of the characters `chars[from..to]`.
pub fn string_of(chars: &Vec<char>, from: usize, to: usize) -> (r: String)
    requires
        from <= to <= chars.len(),
    ensures
        r@ == chars@.subrange(from as int, to as int),
{
    let mut out = String::new();
    let mut i: usize = from;
    while i < to
        invariant
            from <= i <= to <= chars.len(),
            out@ == chars@.subrange(from as int, i as int),
        decreases to - i,
    {
        out.push(chars[i]);
        i += 1;
        assert(out@ =~= chars@.subrange(from as int, i as int));
    }
    out
}

/// The parts joined into one text, with `sep` between neighbours.
pub open spec fn joined(parts: Seq<Seq<char>>, sep: Seq<char>) -> Seq<char>
    decreases parts.len(),
{
    if parts.len() == 0 {
        Seq::empty()
    } else if parts.len() == 1 {
        parts[0]
    } else {
        joined(parts.drop_last(), sep) + sep + parts.last()
    }
}

/// The views of the strings of a vector.
pub open spec fn views_of(parts: Seq<String>) -> Seq<Seq<char>> {
    Seq::new(parts.len(), |i: int| parts[i]@)
}

/// The order of texts by their code points: the first place where two texts
/// differ decides, and a text comes before each of its extensions.
pub open spec fn text_less(a: Seq<char>, b: Seq<char>) -> bool
    decreases a.len(),
{
    if b.len() == 0 {
        false
    } else if a.len() == 0 {
        true
    } else if a[0] == b[0] {
        text_less(a.drop_first(), b.drop_first())
    } else {
        a[0] < b[0]
    }
}

/// No text comes before itself.
pub proof fn lemma_text_less_irreflexive(a: Seq<char>)
    ensures
        !text_less(a, a),
    decreases a.len(),
{
    if a.len() > 0 {
        lemma_text_less_irreflexive(a.drop_first());
    }
}

/// The order of texts is transitive.
pub proof fn lemma_text_less_transitive(a: Seq<char>, b: Seq<char>, c: Seq<char>)
    requires
        text_less(a, b),
        text_less(b, c),
    ensures
        text_less(a, c),
    decreases a.len(),
{
    if a.len() > 0 && a[0] == b[0] && b[0] == c[0] {
        lemma_text_less_transitive(a.drop_first(), b.drop_first(), c.drop_first());
    }
}

/// Of two different texts one comes before the other.
pub proof fn lemma_text_less_total(a: Seq<char>, b: Seq<char>)
    requires
        a != b,
    ensures
        text_less(a, b) || text_less(b, a),
    decreases a.len(),
{
    if a.len() > 0 && b.len() > 0 && a[0] == b[0] {
        if a.drop_first() == b.drop_first() {
            assert(a =~= seq![a[0]] + a.drop_first());
            assert(b =~= seq![b[0]] + b.drop_first());
        }
        lemma_text_less_total(a.drop_first(), b.drop_first());
    } else if a.len() == 0 && b.len() == 0 {
        assert(a =~= b);
    }
}

/// Whether `a` comes before `b` in the order of texts.
pub fn chars_less(a: &Vec<char>, b: &Vec<char>) -> (r: bool)
    ensures
        r == text_less(a@, b@),
{
    let mut i: usize = 0;
    proof {
        assert(a@.skip(0) =~= a@);
        assert(b@.skip(0) =~= b@);
    }
    while i < a.len() && i < b.len() && a[i] == b[i]
        invariant
            i <= a.len(),
            i <= b.len(),
            text_less(a@, b@) == text_less(a@.skip(i as int), b@.skip(i as int)),
        decreases a.len() - i,
    {
        proof {
            assert(a@.skip(i as int).drop_first() =~= a@.skip(i + 1));
            assert(b@.skip(i as int).drop_first() =~= b@.skip(i + 1));
        }
        i += 1;
    }
    if i >= b.len() {
        false
    } else if i >= a.len() {
        true
    } else {
        a[i] < b[i]
    }
}

/// Whether `a` comes before `b` in the order of texts.
pub fn str_less(a: &str, b: &str) -> (r: bool)
    ensures
        r == text_less(a@, b@),
{
    let ca = chars_of(a);
    let cb = chars_of(b);
    chars_less(&ca, &cb)
}

/// Whether `prefix` stands at the start of `s`.
pub open spec fn is_prefix_of(prefix: Seq<char>, s: Seq<char>) -> bool {
    prefix.len() <= s.len() && s.subrange(0, prefix.len() as int) == prefix
}

/// Whether `prefix` stands at the start of `s`.
pub fn starts_with_chars(s: &Vec<char>, prefix: &Vec<char>) -> (r: bool)
    ensures
        r == is_prefix_of(prefix@, s@),
{
    if prefix.len() > s.len() {
        return false;
    }
    let mut i: usize = 0;
    while i < prefix.len()
        invariant
            i <= prefix.len() <= s.len(),
            s@.subrange(0, i as int) == prefix@.subrange(0, i as int),
        decreases prefix.len() - i,
    {
        if s[i] != prefix[i] {
            proof {
                if s@.subrange(0, prefix.len() as int) == prefix@ {
                    assert(s@.subrange(0, prefix.len() as int)[i as int] == prefix@[i as int]);
                }
            }
            return false;
        }
        i += 1;
        proof {
            assert(s@.subrange(0, i as int) =~= s@.subrange(0, i - 1).push(s@[i - 1]));
            assert(prefix@.subrange(0, i as int) =~= prefix@.subrange(0, i - 1).push(
                prefix@[i - 1],
            ));
        }
    }
    proof {
        assert(prefix@.subrange(0, prefix.len() as int) =~= prefix@);
    }
    true
}

/// Whether two texts are the same.
pub fn str_equal(a: &str, b: &str) -> (r: bool)
    ensures
        r == (a@ == b@),
{
    let ca = chars_of(a);
    let cb = chars_of(b);
    if ca.len() != cb.len() {
        return false;
    }
    let mut i: usize = 0;
    while i < ca.len()
        invariant
            i <= ca.len(),
            ca.len() == cb.len(),
            ca@ == a@,
            cb@ == b@,
            forall|j: int| 0 <= j < i ==> ca@[j] == cb@[j],
        decreases ca.len() - i,
    {
        if ca[i] != cb[i] {
            proof {
                if a@ == b@ {
                    assert(ca@[i as int] == cb@[i as int]);
                }
            }
            return false;
        }
        i += 1;
    }
    assert(ca@ =~= cb@);
    true
}

} // verus!
