//! Floating point literals inside a text: a literal that a delimiter
//! follows reads there as it reads alone.

use vstd::prelude::*;
use crate::edn::grammar::{
    base_len, based_integer_at, bigint_at, decimal_integer_at, exponent_len, float_at, fraction_len,
    hex_integer_at, long_at, number_at, octal_integer_at, signed_digits_end, signed_value,
};
use crate::edn::lexical::{
    char_at, class_at, lemma_run_len, literal_at, run_len, sign_len, CharClass,
};
use crate::edn::types::{FloatView, SpannedValueView};

verus! {

/// Whether a character ends a number: a space or a closing bracket.
pub open spec fn ends_number(c: char) -> bool {
    c == ' ' || c == ']' || c == ')' || c == '}'
}

/// Whether a text is a floating point literal as a whole: alone, it
/// reads as a floating point number that is written as the text.
#[verifier::opaque]
pub open spec fn float_text(t: Seq<char>) -> bool {
    number_at(t, 0) == Some((SpannedValueView::Float(FloatView::Literal(t)), t.len() as int))
}

/// Whether the number at `pos` is the floating point number that is
/// written as `t`.
#[verifier::opaque]
pub open spec fn float_stands_at(s: Seq<char>, pos: int, t: Seq<char>) -> bool {
    number_at(s, pos) == Some((SpannedValueView::Float(FloatView::Literal(t)), pos + t.len()))
}

/// The text `t` between `pre` and `post`.
pub open spec fn framed(pre: Seq<char>, t: Seq<char>, post: Seq<char>) -> Seq<char> {
    pre + t + post
}

/// A rule for an integer, moved by `by`.
pub open spec fn moved(found: Option<(int, int)>, by: int) -> Option<(int, int)> {
    match found {
        Some((v, end)) => Some((v, end + by)),
        None => None,
    }
}

/// A character inside a text, or the one after it, is what it is in the
/// text alone, where what follows the text ends a number.
#[verifier::rlimit(50)]
pub proof fn lemma_char_framed(pre: Seq<char>, t: Seq<char>, post: Seq<char>, i: int, c: char)
    requires
        0 <= i <= t.len(),
        post.len() == 0 || ends_number(post[0]),
        !ends_number(c),
    ensures
        char_at(framed(pre, t, post), pre.len() + i, c) == char_at(t, i, c),
{
    let s = framed(pre, t, post);
    if i < t.len() {
        assert(s[pre.len() + i] == t[i]);
    } else if post.len() > 0 {
        assert(s[pre.len() + i] == post[0]);
    }
}

/// Whether a character inside a text, or the one after it, is a digit or
/// a letter is what it is in the text alone.
#[verifier::rlimit(50)]
pub proof fn lemma_class_framed(
    pre: Seq<char>,
    t: Seq<char>,
    post: Seq<char>,
    i: int,
    class: CharClass,
)
    requires
        0 <= i <= t.len(),
        post.len() == 0 || ends_number(post[0]),
        class == CharClass::Digit || class == CharClass::OctalDigit || class == CharClass::HexDigit
            || class == CharClass::Alphanumeric,
    ensures
        class_at(framed(pre, t, post), pre.len() + i, class) == class_at(t, i, class),
        run_len(framed(pre, t, post), pre.len() + i, class) == run_len(t, i, class),
        i + run_len(t, i, class) <= t.len(),
    decreases t.len() - i,
{
    let s = framed(pre, t, post);
    lemma_run_len(t, i, class);
    if i < t.len() {
        assert(s[pre.len() + i] == t[i]);
        if class.holds(t[i]) {
            lemma_class_framed(pre, t, post, i + 1, class);
        }
    } else if post.len() > 0 {
        assert(s[pre.len() + i] == post[0]);
    }
}

/// A part of a text inside another is that part of the text.
#[verifier::rlimit(50)]
pub proof fn lemma_part_framed(pre: Seq<char>, t: Seq<char>, post: Seq<char>, a: int, b: int)
    requires
        0 <= a <= b <= t.len(),
    ensures
        framed(pre, t, post).subrange(pre.len() + a, pre.len() + b) == t.subrange(a, b),
{
    assert(framed(pre, t, post).subrange(pre.len() + a, pre.len() + b) =~= t.subrange(a, b));
}

/// A sign and digits inside a text are what they are in the text alone.
#[verifier::rlimit(50)]
pub proof fn lemma_signed_framed(pre: Seq<char>, t: Seq<char>, post: Seq<char>)
    requires
        post.len() == 0 || ends_number(post[0]),
    ensures
        sign_len(framed(pre, t, post), pre.len() as int) == sign_len(t, 0),
        signed_digits_end(framed(pre, t, post), pre.len() as int) == (match signed_digits_end(
            t,
            0,
        ) {
            Some(end) => Some(end + pre.len()),
            None => None,
        }),
        signed_digits_end(t, 0) matches Some(end) ==> 0 < end <= t.len() && signed_value(
            framed(pre, t, post),
            pre.len() as int,
            pre.len() + end,
        ) == signed_value(t, 0, end),
{
    let s = framed(pre, t, post);
    let p = pre.len() as int;
    lemma_char_framed(pre, t, post, 0, '+');
    lemma_char_framed(pre, t, post, 0, '-');
    let sign = sign_len(t, 0) as int;
    lemma_class_framed(pre, t, post, sign, CharClass::Digit);
    match signed_digits_end(t, 0) {
        Some(end) => {
            lemma_part_framed(pre, t, post, sign, end);
        },
        None => {},
    }
}

/// An integer of any size inside a text is what it is in the text alone.
#[verifier::rlimit(50)]
pub proof fn lemma_bigint_framed(pre: Seq<char>, t: Seq<char>, post: Seq<char>)
    requires
        post.len() == 0 || ends_number(post[0]),
    ensures
        bigint_at(framed(pre, t, post), pre.len() as int) is None <==> bigint_at(t, 0) is None,
{
    lemma_signed_framed(pre, t, post);
    match signed_digits_end(t, 0) {
        Some(end) => {
            lemma_char_framed(pre, t, post, end, 'N');
        },
        None => {},
    }
}

/// A decimal integer inside a text is what it is in the text alone.
#[verifier::rlimit(50)]
pub proof fn lemma_decimal_framed(pre: Seq<char>, t: Seq<char>, post: Seq<char>)
    requires
        post.len() == 0 || ends_number(post[0]),
    ensures
        decimal_integer_at(framed(pre, t, post), pre.len() as int) == moved(
            decimal_integer_at(t, 0),
            pre.len() as int,
        ),
{
    lemma_signed_framed(pre, t, post);
    match signed_digits_end(t, 0) {
        Some(end) => {
            lemma_char_framed(pre, t, post, end, '.');
            lemma_char_framed(pre, t, post, end, 'e');
            lemma_char_framed(pre, t, post, end, 'E');
        },
        None => {},
    }
}

/// An octal integer inside a text is what it is in the text alone.
#[verifier::rlimit(50)]
pub proof fn lemma_octal_framed(pre: Seq<char>, t: Seq<char>, post: Seq<char>)
    requires
        post.len() == 0 || ends_number(post[0]),
    ensures
        octal_integer_at(framed(pre, t, post), pre.len() as int) == moved(
            octal_integer_at(t, 0),
            pre.len() as int,
        ),
{
    lemma_char_framed(pre, t, post, 0, '0');
    if t.len() >= 1 {
        lemma_class_framed(pre, t, post, 1, CharClass::OctalDigit);
        let digits = run_len(t, 1, CharClass::OctalDigit) as int;
        lemma_part_framed(pre, t, post, 1, 1 + digits);
    }
}

/// A hexadecimal integer inside a text is what it is in the text alone.
#[verifier::rlimit(50)]
pub proof fn lemma_hex_framed(pre: Seq<char>, t: Seq<char>, post: Seq<char>)
    requires
        post.len() == 0 || ends_number(post[0]),
    ensures
        hex_integer_at(framed(pre, t, post), pre.len() as int) == moved(
            hex_integer_at(t, 0),
            pre.len() as int,
        ),
{
    reveal_strlit("0x");
    let s = framed(pre, t, post);
    let p = pre.len() as int;
    let lit = "0x"@;
    if t.len() >= 2 {
        lemma_part_framed(pre, t, post, 0, 2);
        lemma_class_framed(pre, t, post, 2, CharClass::HexDigit);
        let digits = run_len(t, 2, CharClass::HexDigit) as int;
        lemma_part_framed(pre, t, post, 2, 2 + digits);
    } else {
        if literal_at(s, p, lit) {
            let found = s.subrange(p, p + 2);
            assert(found[0] == s[p] && found[1] == s[p + 1]);
            assert(found[0] == lit[0] && found[1] == lit[1]);
            if t.len() == 1 {
                assert(s[p + 1] == post[0]);
            } else {
                assert(s[p] == post[0]);
            }
        }
    }
}

/// A radix inside a text is what it is in the text alone.
#[verifier::rlimit(50)]
pub proof fn lemma_base_framed(pre: Seq<char>, t: Seq<char>, post: Seq<char>)
    requires
        post.len() == 0 || ends_number(post[0]),
    ensures
        base_len(framed(pre, t, post), pre.len() as int) == base_len(t, 0),
        base_len(t, 0) <= t.len(),
{
    let s = framed(pre, t, post);
    let p = pre.len() as int;
    lemma_char_framed(pre, t, post, 0, '1');
    lemma_char_framed(pre, t, post, 0, '2');
    lemma_char_framed(pre, t, post, 0, '3');
    if t.len() >= 1 {
        assert(s[p] == t[0]);
        lemma_class_framed(pre, t, post, 1, CharClass::Digit);
        if t.len() >= 2 {
            assert(s[p + 1] == t[1]);
        } else if post.len() > 0 {
            assert(s[p + 1] == post[0]);
        }
    } else if post.len() > 0 {
        assert(s[p] == post[0]);
    }
}

/// An integer with a radix of its own inside a text is what it is in the
/// text alone.
#[verifier::rlimit(50)]
pub proof fn lemma_based_framed(pre: Seq<char>, t: Seq<char>, post: Seq<char>)
    requires
        post.len() == 0 || ends_number(post[0]),
    ensures
        based_integer_at(framed(pre, t, post), pre.len() as int) == moved(
            based_integer_at(t, 0),
            pre.len() as int,
        ),
{
    lemma_base_framed(pre, t, post);
    let b = base_len(t, 0) as int;
    if b >= 1 {
        lemma_char_framed(pre, t, post, b, 'r');
        if char_at(t, b, 'r') {
            lemma_class_framed(pre, t, post, b + 1, CharClass::Alphanumeric);
            let digits = run_len(t, b + 1, CharClass::Alphanumeric) as int;
            lemma_part_framed(pre, t, post, b + 1, b + 1 + digits);
            lemma_part_framed(pre, t, post, 0, b);
        }
    }
}

/// A fraction and an exponent inside a text are as long as in the text
/// alone.
#[verifier::rlimit(50)]
pub proof fn lemma_fraction_framed(pre: Seq<char>, t: Seq<char>, post: Seq<char>, i: int)
    requires
        0 <= i <= t.len(),
        post.len() == 0 || ends_number(post[0]),
    ensures
        fraction_len(framed(pre, t, post), pre.len() + i) == fraction_len(t, i),
        exponent_len(framed(pre, t, post), pre.len() + i) == exponent_len(t, i),
        i + fraction_len(t, i) <= t.len(),
        i + exponent_len(t, i) <= t.len(),
{
    lemma_char_framed(pre, t, post, i, '.');
    lemma_char_framed(pre, t, post, i, 'e');
    lemma_char_framed(pre, t, post, i, 'E');
    if i < t.len() {
        lemma_class_framed(pre, t, post, i + 1, CharClass::Digit);
        lemma_char_framed(pre, t, post, i + 1, '+');
        lemma_char_framed(pre, t, post, i + 1, '-');
        let sign = sign_len(t, i + 1) as int;
        lemma_class_framed(pre, t, post, i + 1 + sign, CharClass::Digit);
    }
}

/// An integer in one of the radix forms inside a text is what it is in
/// the text alone.
#[verifier::rlimit(50)]
pub proof fn lemma_long_framed(pre: Seq<char>, t: Seq<char>, post: Seq<char>)
    requires
        post.len() == 0 || ends_number(post[0]),
    ensures
        long_at(framed(pre, t, post), pre.len() as int) == moved(long_at(t, 0), pre.len() as int),
{
    lemma_based_framed(pre, t, post);
    lemma_hex_framed(pre, t, post);
    lemma_octal_framed(pre, t, post);
    lemma_decimal_framed(pre, t, post);
}

/// A floating point literal inside a text ends where it ends in the text
/// alone, and is written as it is there.
#[verifier::rlimit(50)]
pub proof fn lemma_float_at_framed(pre: Seq<char>, t: Seq<char>, post: Seq<char>)
    requires
        post.len() == 0 || ends_number(post[0]),
        float_at(t, 0) == Some((SpannedValueView::Float(FloatView::Literal(t)), t.len() as int)),
    ensures
        float_at(framed(pre, t, post), pre.len() as int) == Some(
            (SpannedValueView::Float(FloatView::Literal(t)), (pre.len() + t.len()) as int),
        ),
        signed_digits_end(t, 0) is Some,
{
    let s = framed(pre, t, post);
    let p = pre.len() as int;
    lemma_signed_framed(pre, t, post);
    let whole = signed_digits_end(t, 0)->0;
    assert(signed_digits_end(s, p) == Some(whole + p));
    lemma_fraction_framed(pre, t, post, whole);
    let fraction = fraction_len(t, whole) as int;
    assert(fraction_len(s, whole + p) == fraction);
    lemma_fraction_framed(pre, t, post, whole + fraction);
    let exponent = exponent_len(t, whole + fraction) as int;
    assert(exponent_len(s, whole + p + fraction) == exponent);
    let end = whole + fraction + exponent;
    assert(end == t.len());
    lemma_part_framed(pre, t, post, 0, end);
    assert(t.subrange(0, end) =~= t);
    assert(s.subrange(p, p + end) == t);
    assert(p + end <= s.len());
}

/// A floating point literal that stands in a text, with what ends a
/// number behind it, reads there as it reads alone.
#[verifier::rlimit(50)]
pub proof fn lemma_float_framed(pre: Seq<char>, t: Seq<char>, post: Seq<char>)
    requires
        float_text(t),
        post.len() == 0 || ends_number(post[0]),
    ensures
        float_stands_at(pre + t + post, pre.len() as int, t),
{
    reveal(float_text);
    reveal(float_stands_at);
    assert(bigint_at(t, 0) is None);
    assert(long_at(t, 0) is None);
    lemma_bigint_framed(pre, t, post);
    lemma_long_framed(pre, t, post);
    lemma_float_at_framed(pre, t, post);
}

/// A floating point literal starts with a sign or a digit.
#[verifier::rlimit(50)]
pub proof fn lemma_float_start(t: Seq<char>)
    requires
        float_text(t),
    ensures
        t.len() >= 1,
        t[0] == '+' || t[0] == '-' || ('0' <= t[0] <= '9'),
{
    reveal(float_text);
    assert(bigint_at(t, 0) is None);
    assert(long_at(t, 0) is None);
    assert(signed_digits_end(t, 0) is Some);
    if sign_len(t, 0) == 0 {
        assert(run_len(t, 0, CharClass::Digit) >= 1);
    }
}

} // verus!
