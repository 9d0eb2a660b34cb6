//! What is written of a value reads back as the value.

use vstd::prelude::*;
use crate::edn::grammar::{
    fraction_len, rfc3339_micros, stamp_of, timestamp_len, zone_len,
    first_of,
    after_tag, bare_value_at, base_len, based_integer_at, bigint_at, boolean_at,
    decimal_integer_at, entries_at, hex_integer_at, infinity_at, inst_at, inst_micros_at,
    inst_millis_at, inst_string_at, items_at, keyword_at, long_at, max_long, name_at,
    namespace_len, nan_at, number_at, octal_integer_at, opening_at, plain_symbol_name_len,
    raw_keyword_at, raw_text_at, scalar_at, signed_digits_end, signed_value, span_of, symbol_at,
    symbol_name_len, tagged_count_at, text_at, text_body, uuid_at, value_at, whole_value, word_at,
    dotted_len, lower_uuid_at, Bracket,
};
use crate::edn::lexical::{
    blank_len, char_at, lemma_run_len, literal_at, radix_digit, radix_number, radix_value, run_len,
    sign_len, valid_in_radix, CharClass,
};
use crate::edn::float_text::{
    float_stands_at, float_text, lemma_float_framed, lemma_float_start,
};
use crate::edn::print::{escaped, printed, printed_entries, printed_items};
use crate::edn::types::{FloatView, SpannedValueView, ValueAndSpanView};
use crate::symbols::NameView;
use crate::text::{
    decimal_int, decimal_nat, digit_char, is_digit, is_prefix_of, lemma_decimal_nat_digits,
};
use crate::values::{
    hyphenated_index, hyphenated_text, lemma_hyphenated_round_trip, lower_hex_char,
};

verus! {

/// What the fixed words of the grammar are made of.
#[verifier::rlimit(50)]
pub proof fn lemma_words()
    ensures
        "nil"@ == seq!['n', 'i', 'l'],
        "true"@ == seq!['t', 'r', 'u', 'e'],
        "false"@ == seq!['f', 'a', 'l', 's', 'e'],
        "#f"@ == seq!['#', 'f'],
        "0x"@ == seq!['0', 'x'],
        "..."@ == seq!['.', '.', '.'],
        "#instmillis"@.len() == 11 && "#instmillis"@[0] == '#' && "#instmillis"@[1] == 'i',
        "#instmicros"@.len() == 11 && "#instmicros"@[0] == '#' && "#instmicros"@[1] == 'i',
        "#inst"@.len() == 5 && "#inst"@[0] == '#' && "#inst"@[1] == 'i',
        "#uuid"@.len() == 5 && "#uuid"@[0] == '#' && "#uuid"@[1] == 'u',
{
    reveal_strlit("nil");
    reveal_strlit("true");
    reveal_strlit("false");
    reveal_strlit("#f");
    reveal_strlit("0x");
    reveal_strlit("...");
    reveal_strlit("#instmillis");
    reveal_strlit("#instmicros");
    reveal_strlit("#inst");
    reveal_strlit("#uuid");
    assert("nil"@ =~= seq!['n', 'i', 'l']);
    assert("true"@ =~= seq!['t', 'r', 'u', 'e']);
    assert("false"@ =~= seq!['f', 'a', 'l', 's', 'e']);
    assert("#f"@ =~= seq!['#', 'f']);
    assert("0x"@ =~= seq!['0', 'x']);
    assert("..."@ =~= seq!['.', '.', '.']);
}

/// A word that stands between two texts stands at the end of the first.
#[verifier::rlimit(50)]
pub proof fn lemma_literal_here(pre: Seq<char>, lit: Seq<char>, post: Seq<char>)
    ensures
        literal_at(pre + lit + post, pre.len() as int, lit),
{
    let s = pre + lit + post;
    assert(s.subrange(pre.len() as int, (pre.len() + lit.len()) as int) =~= lit);
}

/// A word does not stand where one of its characters does not.
#[verifier::rlimit(50)]
pub proof fn lemma_literal_not(s: Seq<char>, pos: int, lit: Seq<char>, k: int)
    requires
        0 <= k < lit.len(),
        0 <= pos,
        pos + k >= s.len() || s[pos + k] != lit[k],
    ensures
        !literal_at(s, pos, lit),
{
    if literal_at(s, pos, lit) {
        assert(s.subrange(pos, pos + lit.len())[k] == lit[k]);
    }
}

/// A stretch of characters of a class, after which no character of the
/// class stands, is a run.
#[verifier::rlimit(50)]
pub proof fn lemma_run_exact(s: Seq<char>, pos: int, class: CharClass, n: int)
    requires
        0 <= pos,
        0 <= n,
        pos + n <= s.len(),
        forall|i: int| pos <= i < pos + n ==> class.holds(#[trigger] s[i]),
        pos + n == s.len() || !class.holds(s[pos + n]),
    ensures
        run_len(s, pos, class) == n,
    decreases n,
{
    if n > 0 {
        lemma_run_exact(s, pos + 1, class, n - 1);
    }
}

/// Whether a character can follow a value: a space or a closing bracket.
pub open spec fn is_delimiter(c: char) -> bool {
    c == ' ' || c == ']' || c == ')' || c == '}'
}

/// Whether a text can follow a value: it is empty or starts with a
/// delimiter.
pub open spec fn delimited(post: Seq<char>) -> bool {
    post.len() == 0 || is_delimiter(post[0])
}

/// No blanks stand where neither whitespace nor a comment starts.
#[verifier::rlimit(50)]
pub proof fn lemma_no_blank(s: Seq<char>, pos: int)
    requires
        pos < 0 || pos >= s.len() || (!CharClass::Whitespace.holds(s[pos]) && s[pos] != ';'),
    ensures
        blank_len(s, pos) == 0,
{
}

/// One blank stands where a space is followed by no blank.
#[verifier::rlimit(50)]
pub proof fn lemma_one_space(s: Seq<char>, pos: int)
    requires
        0 <= pos < s.len(),
        s[pos] == ' ',
        blank_len(s, pos + 1) == 0,
    ensures
        blank_len(s, pos) == 1,
{
}

/// Whether a character starts a number: a digit or a sign.
pub open spec fn starts_number(c: char) -> bool {
    ('0' <= c <= '9') || c == '+' || c == '-'
}

/// No number stands where neither a digit nor a sign stands.
#[verifier::rlimit(50)]
pub proof fn lemma_not_number(s: Seq<char>, pos: int)
    requires
        0 <= pos,
        pos >= s.len() || !starts_number(s[pos]),
    ensures
        number_at(s, pos) is None,
        long_at(s, pos) is None,
{
    lemma_words();
    lemma_literal_not(s, pos, "0x"@, 0);
    assert(sign_len(s, pos) == 0);
    assert(run_len(s, pos, CharClass::Digit) == 0);
    assert(signed_digits_end(s, pos) is None);
    assert(base_len(s, pos) == 0);
}

/// Neither `nil` nor a boolean stands where none of their first letters
/// stands.
#[verifier::rlimit(50)]
pub proof fn lemma_not_word(s: Seq<char>, pos: int)
    requires
        0 <= pos,
        pos >= s.len() || (s[pos] != 'n' && s[pos] != 't' && s[pos] != 'f'),
    ensures
        word_at(s, pos, "nil"@, SpannedValueView::Nil) is None,
        boolean_at(s, pos) is None,
{
    lemma_words();
    lemma_literal_not(s, pos, "nil"@, 0);
    lemma_literal_not(s, pos, "true"@, 0);
    lemma_literal_not(s, pos, "false"@, 0);
}

/// No tagged value stands where no tag starts: a number sign followed by
/// `f`, `i` or `u`.
#[verifier::rlimit(50)]
pub proof fn lemma_not_tagged(s: Seq<char>, pos: int)
    requires
        0 <= pos,
        pos >= s.len() || s[pos] != '#' || pos + 1 >= s.len() || (s[pos + 1] != 'f' && s[pos + 1]
            != 'i' && s[pos + 1] != 'u'),
    ensures
        nan_at(s, pos) is None,
        infinity_at(s, pos) is None,
        inst_at(s, pos) is None,
        uuid_at(s, pos) is None,
{
    lemma_words();
    let k = if pos >= s.len() || s[pos] != '#' {
        0int
    } else {
        1int
    };
    lemma_literal_not(s, pos, "#f"@, k);
    lemma_literal_not(s, pos, "#instmillis"@, k);
    lemma_literal_not(s, pos, "#instmicros"@, k);
    lemma_literal_not(s, pos, "#inst"@, k);
    lemma_literal_not(s, pos, "#uuid"@, k);
    assert(after_tag(s, pos, "#f"@) is None);
    assert(after_tag(s, pos, "#instmillis"@) is None);
    assert(after_tag(s, pos, "#instmicros"@) is None);
    assert(after_tag(s, pos, "#inst"@) is None);
    assert(after_tag(s, pos, "#uuid"@) is None);
    assert(inst_millis_at(s, pos) is None);
    assert(inst_micros_at(s, pos) is None);
    assert(inst_string_at(s, pos) is None);
}

/// No symbol stands where neither a character that starts a symbol nor a
/// point stands.
#[verifier::rlimit(50)]
pub proof fn lemma_not_symbol(s: Seq<char>, pos: int)
    requires
        0 <= pos,
        pos >= s.len() || (!CharClass::SymbolInitial.holds(s[pos]) && s[pos] != '.'),
    ensures
        symbol_at(s, pos) is None,
{
    lemma_words();
    lemma_literal_not(s, pos, "..."@, 0);
    assert(namespace_len(s, pos) == 0);
    assert(symbol_name_len(s, pos) == 0);
    assert(plain_symbol_name_len(s, pos) == 0);
}

/// No scalar stands at a bracket, and none at the end of the text.
#[verifier::rlimit(50)]
pub proof fn lemma_no_scalar_at_bracket(s: Seq<char>, pos: int)
    requires
        0 <= pos,
        pos >= s.len() || s[pos] == '[' || s[pos] == ']' || s[pos] == '(' || s[pos] == ')'
            || s[pos] == '{' || s[pos] == '}' || (s[pos] == '#' && pos + 1 < s.len() && s[pos + 1]
            == '{'),
    ensures
        scalar_at(s, pos) is None,
{
    reveal(scalar_at);
    lemma_not_word(s, pos);
    lemma_not_tagged(s, pos);
    lemma_not_number(s, pos);
    lemma_not_symbol(s, pos);
    assert(text_at(s, pos) is None);
    assert(keyword_at(s, pos) is None);
}

/// Where a digit or a sign stands, a scalar is a number, or else a
/// symbol.
#[verifier::rlimit(50)]
pub proof fn lemma_scalar_at_digit(s: Seq<char>, pos: int)
    requires
        0 <= pos < s.len(),
        starts_number(s[pos]),
    ensures
        scalar_at(s, pos) == first_of(number_at(s, pos), symbol_at(s, pos)),
{
    reveal(scalar_at);
    lemma_not_word(s, pos);
    lemma_not_tagged(s, pos);
    assert(text_at(s, pos) is None);
    assert(keyword_at(s, pos) is None);
}

/// Where a colon stands, a scalar is a keyword.
#[verifier::rlimit(50)]
pub proof fn lemma_scalar_at_colon(s: Seq<char>, pos: int)
    requires
        0 <= pos < s.len(),
        s[pos] == ':',
    ensures
        scalar_at(s, pos) == keyword_at(s, pos),
{
    reveal(scalar_at);
    lemma_not_word(s, pos);
    lemma_not_tagged(s, pos);
    lemma_not_number(s, pos);
    lemma_not_symbol(s, pos);
    assert(text_at(s, pos) is None);
}

/// Where a quote stands, a scalar is a text.
#[verifier::rlimit(50)]
pub proof fn lemma_scalar_at_quote(s: Seq<char>, pos: int)
    requires
        0 <= pos < s.len(),
        s[pos] == '"',
    ensures
        scalar_at(s, pos) == text_at(s, pos),
{
    reveal(scalar_at);
    lemma_not_word(s, pos);
    lemma_not_tagged(s, pos);
    lemma_not_number(s, pos);
    lemma_not_symbol(s, pos);
    assert(keyword_at(s, pos) is None);
}

/// Where a number sign stands, a scalar is a tagged value: not a number,
/// an infinity, an instant or an identifier.
#[verifier::rlimit(50)]
pub proof fn lemma_scalar_at_tag(s: Seq<char>, pos: int)
    requires
        0 <= pos < s.len(),
        s[pos] == '#',
    ensures
        scalar_at(s, pos) == first_of(
            nan_at(s, pos),
            first_of(infinity_at(s, pos), first_of(inst_at(s, pos), uuid_at(s, pos))),
        ),
{
    reveal(scalar_at);
    lemma_not_word(s, pos);
    lemma_not_number(s, pos);
    lemma_not_symbol(s, pos);
    assert(text_at(s, pos) is None);
    assert(keyword_at(s, pos) is None);
}

/// No value stands at a closing bracket, and none at the end of the
/// text.
#[verifier::rlimit(50)]
pub proof fn lemma_no_value_at_close(s: Seq<char>, pos: int)
    requires
        0 <= pos,
        pos >= s.len() || s[pos] == ']' || s[pos] == ')' || s[pos] == '}',
    ensures
        bare_value_at(s, pos) is None,
        value_at(s, pos) is None,
{
    lemma_no_scalar_at_bracket(s, pos);
    lemma_no_blank(s, pos);
    assert(opening_at(s, pos) is None);
}

/// The digits of a number spell the number.
#[verifier::rlimit(50)]
pub proof fn lemma_radix_of_decimal(n: nat)
    ensures
        radix_value(decimal_nat(n), 10) == n,
        valid_in_radix(decimal_nat(n), 10),
        forall|i: int|
            0 <= i < decimal_nat(n).len() ==> CharClass::Digit.holds(#[trigger] decimal_nat(n)[i]),
    decreases n,
{
    lemma_decimal_nat_digits(n);
    let d = decimal_nat(n);
    assert(radix_value(Seq::<char>::empty(), 10) == 0);
    if n < 10 {
        assert(d.drop_last() =~= Seq::<char>::empty());
        assert(d.last() == digit_char(n as int));
        assert(radix_digit(digit_char(n as int)) == n);
    } else {
        lemma_radix_of_decimal(n / 10);
        assert(d.drop_last() =~= decimal_nat(n / 10));
        assert(d.last() == digit_char((n % 10) as int));
        assert(radix_digit(digit_char((n % 10) as int)) == n % 10);
        assert forall|i: int| 0 <= i < d.len() implies CharClass::Digit.holds(#[trigger] d[i])
            && radix_digit(d[i]) < 10 by {
            if i < d.len() - 1 {
                assert(d[i] == decimal_nat(n / 10)[i]);
            }
        }
    }
    assert forall|i: int| 0 <= i < d.len() implies radix_digit(#[trigger] d[i]) < 10 by {
        assert(CharClass::Digit.holds(d[i]));
    }
}

/// An integer that is written in decimal and followed by a delimiter
/// reads back as the integer.
#[verifier::rlimit(50)]
pub proof fn lemma_integer_reads_back(pre: Seq<char>, n: int, post: Seq<char>)
    requires
        -max_long() - 1 <= n <= max_long(),
        delimited(post),
    ensures
        scalar_at(pre + decimal_int(n) + post, pre.len() as int) == Some(
            (SpannedValueView::Integer(n), (pre.len() + decimal_int(n).len()) as int),
        ),
{
    lemma_words();
    let text = decimal_int(n);
    let s = pre + text + post;
    let p = pre.len() as int;
    let m: nat = if n < 0 {
        (-n) as nat
    } else {
        n as nat
    };
    let digits = decimal_nat(m);
    lemma_radix_of_decimal(m);
    lemma_decimal_nat_digits(m);
    let sign: int = if n < 0 {
        1
    } else {
        0
    };
    let end = p + text.len();
    assert(text.len() == sign + digits.len());
    assert forall|i: int| p + sign <= i < end implies CharClass::Digit.holds(#[trigger] s[i]) by {
        assert(s[i] == digits[i - p - sign]);
    }
    if post.len() > 0 {
        assert(s[end] == post[0]);
    }
    assert(s[p] == text[0]);
    if n < 0 {
        assert(text[0] == '-');
    } else {
        assert(text[0] == digits[0]);
        assert(CharClass::Digit.holds(digits[0]));
    }
    assert(sign_len(s, p) == sign);
    lemma_run_exact(s, p + sign, CharClass::Digit, digits.len() as int);
    assert(signed_digits_end(s, p) == Some(end));
    assert(s.subrange(p + sign, end) =~= digits);
    assert(signed_value(s, p, end) == n);
    // The alternatives that come first do not match.
    assert(bigint_at(s, p) is None);
    lemma_literal_not(s, p, "0x"@, if s[p] == '0' {
        1
    } else {
        0
    });
    assert(hex_integer_at(s, p) is None) by {
        if s[p] == '0' {
            assert(n == 0 || digits[0] != '0');
            assert(digits.len() == 1) by {
                if m >= 10 {
                    assert(digits[0] != '0');
                }
            }
        }
    }
    assert(octal_integer_at(s, p) is None) by {
        if s[p] == '0' {
            assert(digits[0] == '0');
            assert(m == 0);
            assert(end == p + 1);
            assert(run_len(s, p + 1, CharClass::OctalDigit) == 0);
        }
    }
    assert(based_integer_at(s, p) is None) by {
        let b = base_len(s, p);
        if b >= 1 {
            assert(n >= 0);
            assert(p + b <= end) by {
                if b == 2 {
                    assert(CharClass::Digit.holds(s[p + 1]));
                    assert(p + 1 != end);
                }
            }
            if p + b < end {
                assert(CharClass::Digit.holds(s[p + b]));
            }
        }
    }
    assert(decimal_integer_at(s, p) == Some((n, end)));
    assert(long_at(s, p) == Some((n, end)));
    assert(number_at(s, p) == Some((SpannedValueView::Integer(n), end)));
    lemma_scalar_at_digit(s, p);
}

/// What is written of a text, followed by a quote, reads back as the
/// text.
#[verifier::rlimit(50)]
pub proof fn lemma_text_body(pre: Seq<char>, t: Seq<char>, acc: Seq<char>, post: Seq<char>)
    ensures
        text_body(pre + escaped(t) + seq!['"'] + post, pre.len() as int, acc) == (
            acc + t,
            (pre.len() + escaped(t).len()) as int,
        ),
    decreases t.len(),
{
    let s = pre + escaped(t) + seq!['"'] + post;
    let p = pre.len() as int;
    if t.len() == 0 {
        assert(s[p] == '"');
        assert(acc + t =~= acc);
    } else {
        let c = t[0];
        let rest = t.drop_first();
        if c == '\\' || c == '"' {
            let pre2 = pre + seq!['\\', c];
            assert(s =~= pre2 + escaped(rest) + seq!['"'] + post);
            assert(s[p] == '\\' && s[p + 1] == c);
            lemma_text_body(pre2, rest, acc.push(c), post);
            assert(acc.push(c) + rest =~= acc + t);
        } else {
            let pre2 = pre + seq![c];
            assert(s =~= pre2 + escaped(rest) + seq!['"'] + post);
            assert(s[p] == c);
            lemma_text_body(pre2, rest, acc.push(c), post);
            assert(acc.push(c) + rest =~= acc + t);
        }
    }
}

/// A text that is written between quotes reads back as the text.
#[verifier::rlimit(50)]
pub proof fn lemma_text_reads_back(pre: Seq<char>, t: Seq<char>, post: Seq<char>)
    ensures
        scalar_at(
            pre + printed(SpannedValueView::Text(t)) + post,
            pre.len() as int,
        ) == Some(
            (
                SpannedValueView::Text(t),
                (pre.len() + printed(SpannedValueView::Text(t)).len()) as int,
            ),
        ),
{
    let text = printed(SpannedValueView::Text(t));
    let s = pre + text + post;
    let p = pre.len() as int;
    let pre2 = pre + seq!['"'];
    assert(s =~= pre2 + escaped(t) + seq!['"'] + post);
    lemma_text_body(pre2, t, Seq::empty(), post);
    assert(Seq::<char>::empty() + t =~= t);
    assert(s[p] == '"');
    assert(s[p + 1 + escaped(t).len()] == '"');
    assert(raw_text_at(s, p) == Some((t, p + 2 + escaped(t).len())));
    lemma_scalar_at_quote(s, p);
}

/// Whether a name is made of a character that starts a symbol and
/// characters that continue one.
pub open spec fn simple_name(name: Seq<char>) -> bool {
    &&& name.len() >= 1
    &&& CharClass::SymbolInitial.holds(name[0])
    &&& forall|i: int| 1 <= i < name.len() ==> CharClass::SymbolSubsequent.holds(#[trigger] name[i])
}

/// Whether a text is a namespace as a whole: a simple name, and then
/// any number of parts made of a point and at least one character that
/// continues a symbol.
pub open spec fn whole_namespace(ns: Seq<char>) -> bool {
    ns.len() >= 1 && namespace_len(ns, 0) == ns.len()
}

/// Whether a keyword is made of a simple name and, where it has a
/// namespace, of a whole namespace.
pub open spec fn simple_keyword(k: NameView) -> bool {
    &&& simple_name(k.name)
    &&& k.namespace matches Some(ns) ==> whole_namespace(ns)
}

/// A run inside a text, after which no character of the class stands, is
/// as long as in the text alone.
#[verifier::rlimit(50)]
pub proof fn lemma_run_inside(
    pre: Seq<char>,
    t: Seq<char>,
    post: Seq<char>,
    i: int,
    class: CharClass,
)
    requires
        0 <= i <= t.len(),
        post.len() == 0 || !class.holds(post[0]),
    ensures
        run_len(pre + t + post, pre.len() + i, class) == run_len(t, i, class),
    decreases t.len() - i,
{
    let s = pre + t + post;
    let p = pre.len() as int;
    if i < t.len() {
        assert(s[p + i] == t[i]);
        if class.holds(t[i]) {
            lemma_run_inside(pre, t, post, i + 1, class);
        }
    } else if post.len() > 0 {
        assert(s[p + i] == post[0]);
    }
}

/// The dotted parts inside a text, after which neither a point nor a
/// character that continues a symbol stands, are as long as in the text
/// alone.
#[verifier::rlimit(50)]
pub proof fn lemma_dotted_inside(pre: Seq<char>, t: Seq<char>, post: Seq<char>, i: int)
    requires
        0 <= i <= t.len(),
        post.len() == 0 || (post[0] != '.' && !CharClass::SymbolSubsequent.holds(post[0])),
    ensures
        dotted_len(pre + t + post, pre.len() + i) == dotted_len(t, i),
    decreases t.len() - i,
{
    let s = pre + t + post;
    let p = pre.len() as int;
    if i < t.len() {
        assert(s[p + i] == t[i]);
        lemma_run_inside(pre, t, post, i + 1, CharClass::SymbolSubsequent);
        lemma_run_len(t, i + 1, CharClass::SymbolSubsequent);
        let part = run_len(t, i + 1, CharClass::SymbolSubsequent);
        if t[i] == '.' && part >= 1 {
            lemma_dotted_inside(pre, t, post, i + 1 + part);
        }
    } else {
        if post.len() > 0 {
            assert(s[p + i] == post[0]);
        }
        assert(dotted_len(t, i) == 0);
        assert(dotted_len(s, p + i) == 0);
    }
}

/// A whole namespace, after which neither a point nor a character that
/// continues a symbol stands, is a namespace of its length.
#[verifier::rlimit(50)]
pub proof fn lemma_namespace_inside(pre: Seq<char>, ns: Seq<char>, post: Seq<char>)
    requires
        whole_namespace(ns),
        post.len() == 0 || (post[0] != '.' && !CharClass::SymbolSubsequent.holds(post[0])),
    ensures
        namespace_len(pre + ns + post, pre.len() as int) == ns.len(),
        CharClass::SymbolInitial.holds(ns[0]),
{
    let s = pre + ns + post;
    let p = pre.len() as int;
    assert(s[p] == ns[0]);
    lemma_run_inside(pre, ns, post, 1, CharClass::SymbolSubsequent);
    lemma_run_len(ns, 1, CharClass::SymbolSubsequent);
    let first = 1 + run_len(ns, 1, CharClass::SymbolSubsequent);
    lemma_dotted_inside(pre, ns, post, first as int);
}

/// A simple name, after which no character that continues a symbol and no
/// point stands, is a name and a namespace of its length.
#[verifier::rlimit(50)]
pub proof fn lemma_simple_name(pre: Seq<char>, name: Seq<char>, post: Seq<char>)
    requires
        simple_name(name),
        post.len() == 0 || (!CharClass::SymbolSubsequent.holds(post[0]) && post[0] != '.'),
    ensures
        symbol_name_len(pre + name + post, pre.len() as int) == name.len(),
        namespace_len(pre + name + post, pre.len() as int) == name.len(),
{
    let s = pre + name + post;
    let p = pre.len() as int;
    assert(s[p] == name[0]);
    assert forall|i: int| p + 1 <= i < p + name.len() implies CharClass::SymbolSubsequent.holds(
        #[trigger] s[i],
    ) by {
        assert(s[i] == name[i - p]);
    }
    if post.len() > 0 {
        assert(s[p + name.len()] == post[0]);
    }
    lemma_run_exact(s, p + 1, CharClass::SymbolSubsequent, name.len() - 1);
    assert(dotted_len(s, p + name.len()) == 0);
}

/// A simple name without a namespace that is followed by a delimiter is
/// read as that name.
#[verifier::rlimit(50)]
pub proof fn lemma_plain_name_at(pre: Seq<char>, name: Seq<char>, post: Seq<char>, plain: bool)
    requires
        simple_name(name),
        delimited(post),
    ensures
        name_at(pre + name + post, pre.len() as int, plain) == Some(
            (NameView { namespace: None, name }, (pre.len() + name.len()) as int),
        ),
{
    let s = pre + name + post;
    let p = pre.len() as int;
    lemma_simple_name(pre, name, post);
    if post.len() > 0 {
        assert(s[p + name.len()] == post[0]);
    }
    assert(s.subrange(p, p + name.len()) =~= name);
}

/// A simple name with a whole namespace that is followed by a delimiter
/// is read as that name.
#[verifier::rlimit(50)]
pub proof fn lemma_namespaced_name_at(
    pre: Seq<char>,
    ns: Seq<char>,
    name: Seq<char>,
    post: Seq<char>,
    plain: bool,
)
    requires
        whole_namespace(ns),
        simple_name(name),
        delimited(post),
    ensures
        name_at(pre + (ns + seq!['/'] + name) + post, pre.len() as int, plain) == Some(
            (
                NameView { namespace: Some(ns), name },
                (pre.len() + ns.len() + 1 + name.len()) as int,
            ),
        ),
{
    let s = pre + (ns + seq!['/'] + name) + post;
    let p = pre.len() as int;
    let mid = seq!['/'] + name + post;
    assert(s =~= pre + ns + mid);
    lemma_namespace_inside(pre, ns, mid);
    let pre3 = pre + ns + seq!['/'];
    assert(s =~= pre3 + name + post);
    lemma_simple_name(pre3, name, post);
    let start = p + ns.len() + 1;
    assert(s[p + ns.len()] == '/');
    assert(s.subrange(p, p + ns.len()) =~= ns);
    assert(s.subrange(start, start + name.len()) =~= name);
}

/// A simple keyword that is followed by a delimiter reads back as the
/// keyword.
#[verifier::rlimit(50)]
pub proof fn lemma_keyword_reads_back(pre: Seq<char>, k: NameView, post: Seq<char>)
    requires
        simple_keyword(k),
        delimited(post),
    ensures
        scalar_at(
            pre + printed(SpannedValueView::Keyword(k)) + post,
            pre.len() as int,
        ) == Some(
            (
                SpannedValueView::Keyword(k),
                (pre.len() + printed(SpannedValueView::Keyword(k)).len()) as int,
            ),
        ),
{
    let text = printed(SpannedValueView::Keyword(k));
    let s = pre + text + post;
    let p = pre.len() as int;
    assert(s[p] == ':');
    let pre2 = pre + seq![':'];
    assert(s =~= pre2 + k.qualified() + post);
    assert(text.len() == 1 + k.qualified().len());
    match k.namespace {
        Some(ns) => {
            lemma_namespaced_name_at(pre2, ns, k.name, post, false);
        },
        None => {
            lemma_plain_name_at(pre2, k.name, post, false);
        },
    }
    assert(name_at(s, p + 1, false) == Some((k, p + text.len())));
    assert(raw_keyword_at(s, p) == Some((k, p + text.len())));
    lemma_scalar_at_colon(s, p);
}

/// Whether a name is that of a symbol that reads back: it is made of
/// simple names, and its text starts neither with a digit nor with one
/// of the words `nil`, `true` and `false`.
pub open spec fn simple_symbol(name: NameView) -> bool {
    &&& simple_keyword(name)
    &&& !is_digit(name.qualified()[0])
    &&& !is_prefix_of("nil"@, name.qualified())
    &&& !is_prefix_of("true"@, name.qualified())
    &&& !is_prefix_of("false"@, name.qualified())
}

/// The symbol that a name is: with a namespace, or plain.
pub open spec fn symbol_of(name: NameView) -> SpannedValueView {
    if name.namespace is Some {
        SpannedValueView::NamespacedSymbol(name)
    } else {
        SpannedValueView::PlainSymbol(name.name)
    }
}

/// A word does not stand at the start of a text that it is no prefix of
/// and that a delimiter follows.
#[verifier::rlimit(50)]
pub proof fn lemma_no_word_here(pre: Seq<char>, text: Seq<char>, post: Seq<char>, word: Seq<char>)
    requires
        !is_prefix_of(word, text),
        delimited(post),
        forall|i: int| 0 <= i < word.len() ==> !is_delimiter(#[trigger] word[i]),
    ensures
        !literal_at(pre + text + post, pre.len() as int, word),
{
    let s = pre + text + post;
    let p = pre.len() as int;
    if literal_at(s, p, word) {
        let found = s.subrange(p, p + word.len());
        if word.len() <= text.len() {
            assert(text.subrange(0, word.len() as int) =~= found);
        } else {
            assert(found[text.len() as int] == s[p + text.len()]);
            assert(s[p + text.len()] == post[0]);
            assert(is_delimiter(word[text.len() as int]));
        }
    }
}

/// Where a character that starts a symbol stands, and neither a digit
/// nor one of the words `nil`, `true` and `false`, a scalar is a symbol.
#[verifier::rlimit(50)]
pub proof fn lemma_scalar_is_symbol(s: Seq<char>, pos: int)
    requires
        0 <= pos < s.len(),
        CharClass::SymbolInitial.holds(s[pos]),
        !is_digit(s[pos]),
        !literal_at(s, pos, "nil"@),
        !literal_at(s, pos, "true"@),
        !literal_at(s, pos, "false"@),
    ensures
        scalar_at(s, pos) == symbol_at(s, pos),
{
    reveal(scalar_at);
    lemma_not_tagged(s, pos);
    lemma_not_number(s, pos);
    assert(text_at(s, pos) is None);
    assert(keyword_at(s, pos) is None);
}

/// A simple symbol that is followed by a delimiter reads back as the
/// symbol.
#[verifier::rlimit(50)]
pub proof fn lemma_symbol_reads_back(pre: Seq<char>, name: NameView, post: Seq<char>)
    requires
        simple_symbol(name),
        delimited(post),
    ensures
        scalar_at(pre + printed(symbol_of(name)) + post, pre.len() as int) == Some(
            (symbol_of(name), (pre.len() + printed(symbol_of(name)).len()) as int),
        ),
{
    lemma_words();
    let text = name.qualified();
    assert(printed(symbol_of(name)) == text);
    let s = pre + text + post;
    let p = pre.len() as int;
    assert(s[p] == text[0]);
    lemma_no_word_here(pre, text, post, "nil"@);
    lemma_no_word_here(pre, text, post, "true"@);
    lemma_no_word_here(pre, text, post, "false"@);
    match name.namespace {
        Some(ns) => {
            assert(text[0] == ns[0]);
            lemma_namespace_inside(Seq::empty(), ns, Seq::empty());
            lemma_namespaced_name_at(pre, ns, name.name, post, true);
        },
        None => {
            lemma_plain_name_at(pre, name.name, post, true);
        },
    }
    lemma_scalar_is_symbol(s, p);
    assert(name_at(s, p, true) == Some((name, p + text.len())));
    assert(symbol_at(s, p) == Some((symbol_of(name), p + text.len())));
}

/// Whether a name is one of the two symbols that are made of points:
/// `...` and `.`.
pub open spec fn is_dots(name: Seq<char>) -> bool {
    name == seq!['.', '.', '.'] || name == seq!['.']
}

/// The symbols `...` and `.`, followed by a delimiter, read back as
/// written.
#[verifier::rlimit(50)]
pub proof fn lemma_dots_read_back(pre: Seq<char>, name: Seq<char>, post: Seq<char>)
    requires
        is_dots(name),
        delimited(post),
    ensures
        scalar_at(pre + name + post, pre.len() as int) == Some(
            (SpannedValueView::PlainSymbol(name), (pre.len() + name.len()) as int),
        ),
{
    reveal(scalar_at);
    lemma_words();
    let s = pre + name + post;
    let p = pre.len() as int;
    assert(s[p] == name[0]);
    lemma_not_word(s, p);
    lemma_not_tagged(s, p);
    lemma_not_number(s, p);
    assert(text_at(s, p) is None);
    assert(keyword_at(s, p) is None);
    assert(namespace_len(s, p) == 0);
    assert(symbol_name_len(s, p) == 0);
    assert(s.subrange(p, p + name.len()) =~= name);
    if name.len() == 1 {
        if post.len() > 0 {
            assert(s[p + 1] == post[0]);
        }
        lemma_literal_not(s, p, "..."@, 1);
    }
    assert(plain_symbol_name_len(s, p) == name.len());
    assert(name_at(s, p, true) == Some(
        (NameView { namespace: None, name }, p + name.len()),
    ));
}

/// A word that stands for a value and is written reads back as the
/// value.
#[verifier::rlimit(50)]
pub proof fn lemma_word_reads_back(pre: Seq<char>, v: SpannedValueView, post: Seq<char>)
    requires
        v is Nil || v is Boolean,
    ensures
        scalar_at(pre + printed(v) + post, pre.len() as int) == Some(
            (v, (pre.len() + printed(v).len()) as int),
        ),
{
    reveal(scalar_at);
    lemma_words();
    let s = pre + printed(v) + post;
    let p = pre.len() as int;
    lemma_literal_here(pre, printed(v), post);
    assert(s[p] == printed(v)[0]);
    match v {
        SpannedValueView::Nil => {},
        SpannedValueView::Boolean(b) => {
            lemma_literal_not(s, p, "nil"@, 0);
            lemma_not_tagged(s, p);
            if !b {
                lemma_literal_not(s, p, "true"@, 0);
            }
        },
        _ => {},
    }
}

/// A tag that is followed by one space and then by no whitespace ends
/// after the space.
#[verifier::rlimit(50)]
pub proof fn lemma_tag_here(s: Seq<char>, pos: int, tag: Seq<char>)
    requires
        0 <= pos,
        pos + tag.len() + 1 < s.len(),
        s.subrange(pos, pos + tag.len()) == tag,
        s[pos + tag.len()] == ' ',
        !CharClass::Whitespace.holds(s[pos + tag.len() + 1]),
    ensures
        after_tag(s, pos, tag) == Some(pos + tag.len() + 1),
{
    lemma_run_exact(s, pos + tag.len(), CharClass::Whitespace, 1);
}

/// An integer of any size that is written in decimal with an `N` behind
/// it reads back as the integer.
#[verifier::rlimit(50)]
pub proof fn lemma_big_integer_reads_back(pre: Seq<char>, n: int, post: Seq<char>)
    ensures
        scalar_at(
            pre + printed(SpannedValueView::BigInteger(n)) + post,
            pre.len() as int,
        ) == Some(
            (
                SpannedValueView::BigInteger(n),
                (pre.len() + printed(SpannedValueView::BigInteger(n)).len()) as int,
            ),
        ),
{
    lemma_words();
    let text = printed(SpannedValueView::BigInteger(n));
    let s = pre + text + post;
    let p = pre.len() as int;
    let m: nat = if n < 0 {
        (-n) as nat
    } else {
        n as nat
    };
    let digits = decimal_nat(m);
    lemma_radix_of_decimal(m);
    lemma_decimal_nat_digits(m);
    let sign: int = if n < 0 {
        1
    } else {
        0
    };
    let end = p + sign + digits.len();
    assert(text.len() == sign + digits.len() + 1);
    assert(text =~= decimal_int(n).push('N'));
    assert forall|i: int| p + sign <= i < end implies CharClass::Digit.holds(#[trigger] s[i]) by {
        assert(s[i] == digits[i - p - sign]);
    }
    assert(s[end] == 'N');
    assert(s[p] == text[0]);
    if n < 0 {
        assert(text[0] == '-');
    } else {
        assert(text[0] == digits[0]);
        assert(CharClass::Digit.holds(digits[0]));
    }
    assert(sign_len(s, p) == sign);
    lemma_run_exact(s, p + sign, CharClass::Digit, digits.len() as int);
    assert(signed_digits_end(s, p) == Some(end));
    assert(s.subrange(p + sign, end) =~= digits);
    assert(signed_value(s, p, end) == n);
    assert(bigint_at(s, p) == Some((SpannedValueView::BigInteger(n), end + 1)));
    lemma_scalar_at_digit(s, p);
}

/// What the tag of a count of microseconds is made of, and where the
/// tag of a count of milliseconds differs from it.
#[verifier::rlimit(50)]
pub proof fn lemma_micros_tag()
    ensures
        "#instmicros"@.len() == 11,
        "#instmicros"@[0] == '#',
        "#instmicros"@[1] == 'i',
        "#instmicros"@[7] == 'c',
        "#instmillis"@.len() == 11,
        "#instmillis"@[7] == 'l',
        "#instmicros "@ == "#instmicros"@ + seq![' '],
{
    reveal_strlit("#instmicros");
    reveal_strlit("#instmillis");
    reveal_strlit("#instmicros ");
    assert("#instmicros "@ =~= "#instmicros"@ + seq![' ']);
}

/// What the tag of an identifier is made of.
#[verifier::rlimit(50)]
pub proof fn lemma_uuid_tag()
    ensures
        "#uuid"@.len() == 5,
        "#uuid"@[0] == '#',
        "#uuid"@[1] == 'u',
        "#uuid \""@ == "#uuid"@ + seq![' ', '"'],
{
    reveal_strlit("#uuid");
    reveal_strlit("#uuid \"");
    assert("#uuid \""@ =~= "#uuid"@ + seq![' ', '"']);
}

/// Neither a word, nor a number, nor a text, nor a floating point value
/// stands where a number sign is followed by neither `f` nor a digit.
#[verifier::rlimit(50)]
pub proof fn lemma_tag_only(s: Seq<char>, pos: int)
    requires
        0 <= pos,
        pos + 1 < s.len(),
        s[pos] == '#',
        s[pos + 1] != 'f',
    ensures
        word_at(s, pos, "nil"@, SpannedValueView::Nil) is None,
        nan_at(s, pos) is None,
        infinity_at(s, pos) is None,
        boolean_at(s, pos) is None,
        number_at(s, pos) is None,
{
    lemma_words();
    lemma_not_word(s, pos);
    lemma_literal_not(s, pos, "#f"@, 1);
    lemma_not_number(s, pos);
}

/// A count of microseconds stands where its tag, one space and the
/// digits of the count stand, and no digit follows.
#[verifier::rlimit(50)]
pub proof fn lemma_instant_at(s: Seq<char>, pos: int, micros: int)
    requires
        0 <= pos,
        0 <= micros <= max_long(),
        pos + 12 + decimal_nat(micros as nat).len() <= s.len(),
        s.subrange(pos, pos + 11) == "#instmicros"@,
        s[pos + 11] == ' ',
        s.subrange(pos + 12, pos + 12 + decimal_nat(micros as nat).len()) == decimal_nat(
            micros as nat,
        ),
        pos + 12 + decimal_nat(micros as nat).len() == s.len() || !CharClass::Digit.holds(
            s[pos + 12 + decimal_nat(micros as nat).len()],
        ),
    ensures
        scalar_at(s, pos) == Some(
            (SpannedValueView::Instant(micros), pos + 12 + decimal_nat(micros as nat).len()),
        ),
{
    lemma_micros_tag();
    let digits = decimal_nat(micros as nat);
    lemma_radix_of_decimal(micros as nat);
    let q = pos + 12;
    let end = q + digits.len();
    let tag = s.subrange(pos, pos + 11);
    assert(s[pos] == tag[0]);
    assert(s[pos + 1] == tag[1]);
    assert(s[pos + 7] == tag[7]);
    assert forall|i: int| q <= i < end implies CharClass::Digit.holds(#[trigger] s[i]) by {
        assert(s[i] == s.subrange(q, end)[i - q]);
    }
    assert(CharClass::Digit.holds(s[q]));
    lemma_tag_only(s, pos);
    lemma_literal_not(s, pos, "#instmillis"@, 7);
    assert(inst_millis_at(s, pos) is None);
    lemma_tag_here(s, pos, "#instmicros"@);
    lemma_run_exact(s, q, CharClass::Digit, digits.len() as int);
    assert(radix_number(digits, 10, max_long()) == Some(micros));
    assert(tagged_count_at(s, pos, "#instmicros"@, max_long()) == Some((micros, end)));
    assert(inst_micros_at(s, pos) == Some((SpannedValueView::Instant(micros), end)));
    assert(inst_at(s, pos) == Some((SpannedValueView::Instant(micros), end)));
    lemma_scalar_at_tag(s, pos);
}

/// An instant that is not before the epoch, written as a count of
/// microseconds and followed by a delimiter, reads back as the instant.
#[verifier::rlimit(50)]
pub proof fn lemma_instant_reads_back(pre: Seq<char>, micros: int, post: Seq<char>)
    requires
        0 <= micros <= max_long(),
        delimited(post),
    ensures
        scalar_at(
            pre + printed(SpannedValueView::Instant(micros)) + post,
            pre.len() as int,
        ) == Some(
            (
                SpannedValueView::Instant(micros),
                (pre.len() + printed(SpannedValueView::Instant(micros)).len()) as int,
            ),
        ),
{
    lemma_micros_tag();
    let text = printed(SpannedValueView::Instant(micros));
    let s = pre + text + post;
    let p = pre.len() as int;
    let digits = decimal_nat(micros as nat);
    lemma_decimal_nat_digits(micros as nat);
    assert(decimal_int(micros) == digits);
    let tag = "#instmicros"@;
    assert(text =~= tag + seq![' '] + digits);
    assert(s.subrange(p, p + 11) =~= tag);
    assert(s[p + 11] == text[11]);
    assert(s.subrange(p + 12, p + 12 + digits.len()) =~= digits);
    let end = p + 12 + digits.len();
    if post.len() > 0 {
        assert(s[end] == post[0]);
    }
    lemma_instant_at(s, p, micros);
}

/// What the tag of a timestamp is made of, and where the tags of the
/// counts differ from it.
#[verifier::rlimit(50)]
pub proof fn lemma_inst_tag()
    ensures
        "#inst"@.len() == 5,
        "#inst"@[0] == '#',
        "#inst"@[1] == 'i',
        "#inst \""@ == "#inst"@ + seq![' ', '"'],
        "#instmillis"@.len() == 11,
        "#instmillis"@[5] == 'm',
        "#instmicros"@.len() == 11,
        "#instmicros"@[5] == 'm',
        "#f"@.len() == 2,
        "#f"@[1] == 'f',
{
    reveal_strlit("#inst");
    reveal_strlit("#inst \"");
    reveal_strlit("#instmillis");
    reveal_strlit("#instmicros");
    reveal_strlit("#f");
    assert("#inst \""@ =~= "#inst"@ + seq![' ', '"']);
}

/// A timestamp that is followed by a quote is as long inside a text as
/// it is alone.
#[verifier::rlimit(50)]
pub proof fn lemma_timestamp_framed(pre: Seq<char>, t: Seq<char>, post: Seq<char>)
    requires
        t.len() >= 1,
        timestamp_len(t.push('"'), 0) == t.len(),
    ensures
        timestamp_len(pre + t + seq!['"'] + post, pre.len() as int) == t.len(),
{
    let alone = t.push('"');
    let s = pre + t + seq!['"'] + post;
    let p = pre.len() as int;
    let none = Seq::<char>::empty();
    assert(alone =~= none + t + seq!['"']);
    assert(s =~= pre + t + (seq!['"'] + post));
    assert forall|i: int| 0 <= i < alone.len() implies s[p + i] == #[trigger] alone[i] by {}
    lemma_run_inside(pre, t, seq!['"'] + post, 0, CharClass::Digit);
    lemma_run_inside(none, t, seq!['"'], 0, CharClass::Digit);
    assert(run_len(s, p, CharClass::Digit) == run_len(alone, 0, CharClass::Digit));
    assert(t.len() >= 20);
    lemma_run_inside(pre, t, seq!['"'] + post, 20, CharClass::Digit);
    lemma_run_inside(none, t, seq!['"'], 20, CharClass::Digit);
    assert(run_len(s, p + 20, CharClass::Digit) == run_len(alone, 20, CharClass::Digit));
    assert(s[p + 19] == alone[19]);
    let fraction = fraction_len(alone, 19) as int;
    assert(fraction_len(s, p + 19) == fraction);
    let z = 19 + fraction;
    let zone = zone_len(alone, z) as int;
    assert(z + zone == t.len());
    assert(s[p + z] == alone[z]);
    if zone == 6 {
        assert(s[p + z + 1] == alone[z + 1]);
        assert(s[p + z + 2] == alone[z + 2]);
        assert(s[p + z + 3] == alone[z + 3]);
        assert(s[p + z + 4] == alone[z + 4]);
        assert(s[p + z + 5] == alone[z + 5]);
    }
    assert(zone_len(s, p + z) == zone);
    assert(s[p + 4] == alone[4] && s[p + 5] == alone[5] && s[p + 6] == alone[6]);
    assert(s[p + 7] == alone[7] && s[p + 8] == alone[8] && s[p + 9] == alone[9]);
    assert(s[p + 10] == alone[10] && s[p + 11] == alone[11] && s[p + 12] == alone[12]);
    assert(s[p + 13] == alone[13] && s[p + 14] == alone[14] && s[p + 15] == alone[15]);
    assert(s[p + 16] == alone[16] && s[p + 17] == alone[17] && s[p + 18] == alone[18]);
}

/// A timestamp stands where its tag, one space, and a timestamp between
/// quotes stand.
#[verifier::rlimit(50)]
pub proof fn lemma_stamp_at(s: Seq<char>, pos: int, t: Seq<char>, micros: int)
    requires
        0 <= pos,
        pos + 8 + t.len() <= s.len(),
        s.subrange(pos, pos + 5) == "#inst"@,
        s[pos + 5] == ' ',
        s[pos + 6] == '"',
        timestamp_len(s, pos + 7) == t.len(),
        t.len() >= 1,
        s.subrange(pos + 7, pos + 7 + t.len()) == t,
        s[pos + 7 + t.len()] == '"',
        rfc3339_micros(t) matches Some(named) && named == micros,
    ensures
        scalar_at(s, pos) == Some((SpannedValueView::Instant(micros), pos + 8 + t.len())),
{
    lemma_inst_tag();
    let tag = s.subrange(pos, pos + 5);
    assert(s[pos] == tag[0]);
    assert(s[pos + 1] == tag[1]);
    lemma_literal_not(s, pos, "#f"@, 1);
    assert(nan_at(s, pos) is None);
    assert(infinity_at(s, pos) is None);
    lemma_literal_not(s, pos, "#instmillis"@, 5);
    lemma_literal_not(s, pos, "#instmicros"@, 5);
    assert(inst_millis_at(s, pos) is None);
    assert(inst_micros_at(s, pos) is None);
    lemma_tag_here(s, pos, "#inst"@);
    assert(after_tag(s, pos, "#inst"@) == Some(pos + 6));
    assert(inst_string_at(s, pos) == Some(
        (SpannedValueView::Instant(micros), pos + 8 + t.len()),
    ));
    lemma_scalar_at_tag(s, pos);
}

/// An instant before the epoch that is written as a timestamp reads
/// back as the instant.
#[verifier::rlimit(50)]
pub proof fn lemma_stamp_reads_back(pre: Seq<char>, micros: int, post: Seq<char>)
    requires
        stamp_of(micros) is Some,
    ensures
        scalar_at(
            pre + printed(SpannedValueView::Instant(micros)) + post,
            pre.len() as int,
        ) == Some(
            (
                SpannedValueView::Instant(micros),
                (pre.len() + printed(SpannedValueView::Instant(micros)).len()) as int,
            ),
        ),
{
    lemma_inst_tag();
    let t = stamp_of(micros)->0;
    let text = printed(SpannedValueView::Instant(micros));
    let s = pre + text + post;
    let p = pre.len() as int;
    let tag = "#inst"@;
    assert(text =~= tag + seq![' ', '"'] + t + seq!['"']);
    assert(text.len() == 8 + t.len());
    assert(s.subrange(p, p + 5) =~= tag);
    assert(s[p + 5] == text[5]);
    assert(s[p + 6] == text[6]);
    assert(s[p + 7 + t.len()] == text[(7 + t.len()) as int]);
    assert(s.subrange(p + 7, p + 7 + t.len()) =~= t);
    let pre2 = pre + tag + seq![' ', '"'];
    assert(s =~= pre2 + t + seq!['"'] + post);
    lemma_timestamp_framed(pre2, t, post);
    lemma_stamp_at(s, p, t, micros);
}

/// The hyphenated form of sixteen bytes has lower-case digits and
/// hyphens in their places.
#[verifier::rlimit(50)]
pub proof fn lemma_hyphenated_is_lower(bytes: Seq<u8>)
    requires
        bytes.len() == 16,
    ensures
        hyphenated_text(bytes).len() == 36,
        hyphenated_text(bytes)[8] == '-',
        hyphenated_text(bytes)[13] == '-',
        hyphenated_text(bytes)[18] == '-',
        hyphenated_text(bytes)[23] == '-',
        forall|k: int|
            0 <= k < 32 ==> CharClass::LowerHexDigit.holds(
                #[trigger] hyphenated_text(bytes)[hyphenated_index(k)],
            ),
{
    let text = hyphenated_text(bytes);
    assert forall|n: int| 0 <= n < 16 implies CharClass::LowerHexDigit.holds(
        #[trigger] lower_hex_char(n),
    ) by {}
    assert forall|k: int| 0 <= k < 32 implies CharClass::LowerHexDigit.holds(
        #[trigger] text[hyphenated_index(k)],
    ) by {
        let n = if k % 2 == 0 {
            bytes[k / 2] as int / 16
        } else {
            bytes[k / 2] as int % 16
        };
        assert(0 <= n < 16);
        assert(text[hyphenated_index(k)] == lower_hex_char(n));
    }
}

/// Where the tag of an identifier stands, none of the values that come
/// before identifiers stands.
#[verifier::rlimit(50)]
pub proof fn lemma_uuid_first(s: Seq<char>, pos: int)
    requires
        0 <= pos,
        pos + 5 <= s.len(),
        s.subrange(pos, pos + 5) == "#uuid"@,
    ensures
        word_at(s, pos, "nil"@, SpannedValueView::Nil) is None,
        nan_at(s, pos) is None,
        infinity_at(s, pos) is None,
        boolean_at(s, pos) is None,
        number_at(s, pos) is None,
        inst_at(s, pos) is None,
{
    lemma_uuid_tag();
    lemma_micros_tag();
    lemma_words();
    let tag = s.subrange(pos, pos + 5);
    assert(s[pos] == tag[0]);
    assert(s[pos + 1] == tag[1]);
    lemma_tag_only(s, pos);
    lemma_literal_not(s, pos, "#instmillis"@, 1);
    lemma_literal_not(s, pos, "#instmicros"@, 1);
    lemma_literal_not(s, pos, "#inst"@, 1);
    assert(inst_millis_at(s, pos) is None);
    assert(inst_micros_at(s, pos) is None);
    assert(inst_string_at(s, pos) is None);
}

/// Where the hyphenated form of sixteen bytes stands, an identifier in
/// lower case stands.
#[verifier::rlimit(50)]
pub proof fn lemma_uuid_form(s: Seq<char>, pos: int, bytes: Seq<u8>)
    requires
        0 <= pos,
        bytes.len() == 16,
        pos + 36 <= s.len(),
        s.subrange(pos, pos + 36) == hyphenated_text(bytes),
    ensures
        lower_uuid_at(s, pos),
{
    lemma_hyphenated_is_lower(bytes);
    let form = hyphenated_text(bytes);
    assert forall|i: int| 0 <= i < 36 implies #[trigger] s[pos + i] == form[i] by {
        assert(s.subrange(pos, pos + 36)[i] == s[pos + i]);
    }
    assert(s[pos + 8] == form[8]);
    assert(s[pos + 13] == form[13]);
    assert(s[pos + 18] == form[18]);
    assert(s[pos + 23] == form[23]);
    assert forall|k: int| 0 <= k < 32 implies CharClass::LowerHexDigit.holds(
        #[trigger] s[pos + hyphenated_index(k)],
    ) by {
        assert(s[pos + hyphenated_index(k)] == form[hyphenated_index(k)]);
    }
}

/// An identifier stands where its tag, one space, and its hyphenated
/// form between quotes stand.
#[verifier::rlimit(50)]
pub proof fn lemma_uuid_at(s: Seq<char>, pos: int, bytes: Seq<u8>)
    requires
        0 <= pos,
        bytes.len() == 16,
        pos + 44 <= s.len(),
        s.subrange(pos, pos + 5) == "#uuid"@,
        s[pos + 5] == ' ',
        s[pos + 6] == '"',
        s.subrange(pos + 7, pos + 43) == hyphenated_text(bytes),
        s[pos + 43] == '"',
    ensures
        scalar_at(s, pos) == Some((SpannedValueView::Uuid(bytes), pos + 44)),
{
    lemma_uuid_tag();
    lemma_uuid_first(s, pos);
    lemma_uuid_form(s, pos + 7, bytes);
    lemma_hyphenated_round_trip(bytes);
    lemma_tag_here(s, pos, "#uuid"@);
    assert(after_tag(s, pos, "#uuid"@) == Some(pos + 6));
    assert(uuid_at(s, pos) == Some((SpannedValueView::Uuid(bytes), pos + 44)));
    lemma_scalar_at_tag(s, pos);
}

/// An identifier that is written in the hyphenated form behind its tag
/// reads back as the identifier.
#[verifier::rlimit(50)]
pub proof fn lemma_uuid_reads_back(pre: Seq<char>, bytes: Seq<u8>, post: Seq<char>)
    requires
        bytes.len() == 16,
    ensures
        scalar_at(pre + printed(SpannedValueView::Uuid(bytes)) + post, pre.len() as int) == Some(
            (
                SpannedValueView::Uuid(bytes),
                (pre.len() + printed(SpannedValueView::Uuid(bytes)).len()) as int,
            ),
        ),
{
    lemma_uuid_tag();
    let text = printed(SpannedValueView::Uuid(bytes));
    let form = hyphenated_text(bytes);
    let s = pre + text + post;
    let p = pre.len() as int;
    let tag = "#uuid"@;
    assert(form.len() == 36);
    assert(text =~= tag + seq![' ', '"'] + form + seq!['"']);
    assert(text.len() == 44);
    assert(s.subrange(p, p + 5) =~= tag);
    assert(s[p + 5] == text[5]);
    assert(s[p + 6] == text[6]);
    assert(s[p + 43] == text[43]);
    assert(s.subrange(p + 7, p + 43) =~= form);
    lemma_uuid_at(s, p, bytes);
}

/// What the texts of not a number and of the infinities are made of.
#[verifier::rlimit(50)]
pub proof fn lemma_float_tags()
    ensures
        "#f"@.len() == 2,
        "#f"@[0] == '#',
        "#f"@[1] == 'f',
        "NaN"@.len() == 3,
        "NaN"@[0] == 'N',
        "Infinity"@.len() == 8,
        "#f NaN"@ == "#f"@ + seq![' '] + "NaN"@,
        "#f +Infinity"@ == "#f"@ + seq![' ', '+'] + "Infinity"@,
        "#f -Infinity"@ == "#f"@ + seq![' ', '-'] + "Infinity"@,
{
    reveal_strlit("#f");
    reveal_strlit("NaN");
    reveal_strlit("Infinity");
    reveal_strlit("#f NaN");
    reveal_strlit("#f +Infinity");
    reveal_strlit("#f -Infinity");
    assert("#f NaN"@ =~= "#f"@ + seq![' '] + "NaN"@);
    assert("#f +Infinity"@ =~= "#f"@ + seq![' ', '+'] + "Infinity"@);
    assert("#f -Infinity"@ =~= "#f"@ + seq![' ', '-'] + "Infinity"@);
}

/// Not a number stands where its tag, one space and its word stand.
#[verifier::rlimit(50)]
pub proof fn lemma_nan_at(s: Seq<char>, pos: int)
    requires
        0 <= pos,
        pos + 6 <= s.len(),
        s.subrange(pos, pos + 2) == "#f"@,
        s[pos + 2] == ' ',
        s.subrange(pos + 3, pos + 6) == "NaN"@,
    ensures
        scalar_at(s, pos) == Some((SpannedValueView::Float(FloatView::NaN), pos + 6)),
{
    lemma_float_tags();
    assert(s[pos] == s.subrange(pos, pos + 2)[0]);
    assert(s[pos + 3] == s.subrange(pos + 3, pos + 6)[0]);
    lemma_not_word(s, pos);
    lemma_tag_here(s, pos, "#f"@);
    lemma_scalar_at_tag(s, pos);
}

/// An infinity stands where its tag, one space, its sign and its word
/// stand.
#[verifier::rlimit(50)]
pub proof fn lemma_infinity_at(s: Seq<char>, pos: int, positive: bool)
    requires
        0 <= pos,
        pos + 12 <= s.len(),
        s.subrange(pos, pos + 2) == "#f"@,
        s[pos + 2] == ' ',
        s[pos + 3] == (if positive {
            '+'
        } else {
            '-'
        }),
        s.subrange(pos + 4, pos + 12) == "Infinity"@,
    ensures
        scalar_at(s, pos) == Some(
            (
                SpannedValueView::Float(
                    if positive {
                        FloatView::PositiveInfinity
                    } else {
                        FloatView::NegativeInfinity
                    },
                ),
                pos + 12,
            ),
        ),
{
    lemma_float_tags();
    assert(s[pos] == s.subrange(pos, pos + 2)[0]);
    lemma_not_word(s, pos);
    lemma_tag_here(s, pos, "#f"@);
    lemma_literal_not(s, pos + 3, "NaN"@, 0);
    assert(nan_at(s, pos) is None);
    lemma_scalar_at_tag(s, pos);
}

/// Not a number and the two infinities read back as written.
#[verifier::rlimit(50)]
pub proof fn lemma_special_float_reads_back(pre: Seq<char>, f: FloatView, post: Seq<char>)
    requires
        !(f is Literal),
    ensures
        scalar_at(pre + printed(SpannedValueView::Float(f)) + post, pre.len() as int) == Some(
            (
                SpannedValueView::Float(f),
                (pre.len() + printed(SpannedValueView::Float(f)).len()) as int,
            ),
        ),
{
    lemma_float_tags();
    let text = printed(SpannedValueView::Float(f));
    let s = pre + text + post;
    let p = pre.len() as int;
    match f {
        FloatView::NaN => {
            assert(text.len() == 6);
            assert(s.subrange(p, p + 2) =~= "#f"@);
            assert(s[p + 2] == text[2]);
            assert(s.subrange(p + 3, p + 6) =~= "NaN"@);
            lemma_nan_at(s, p);
        },
        FloatView::PositiveInfinity => {
            assert(text.len() == 12);
            assert(s.subrange(p, p + 2) =~= "#f"@);
            assert(s[p + 2] == text[2]);
            assert(s[p + 3] == text[3]);
            assert(s.subrange(p + 4, p + 12) =~= "Infinity"@);
            lemma_infinity_at(s, p, true);
        },
        FloatView::NegativeInfinity => {
            assert(text.len() == 12);
            assert(s.subrange(p, p + 2) =~= "#f"@);
            assert(s[p + 2] == text[2]);
            assert(s[p + 3] == text[3]);
            assert(s.subrange(p + 4, p + 12) =~= "Infinity"@);
            lemma_infinity_at(s, p, false);
        },
        FloatView::Literal(_) => {},
    }
}

/// Where a digit or a sign stands and the number is a floating point
/// number, the scalar is that number.
#[verifier::rlimit(50)]
pub proof fn lemma_scalar_at_float(s: Seq<char>, pos: int, t: Seq<char>)
    requires
        0 <= pos < s.len(),
        starts_number(s[pos]),
        float_stands_at(s, pos, t),
    ensures
        scalar_at(s, pos) == Some(
            (SpannedValueView::Float(FloatView::Literal(t)), pos + t.len()),
        ),
{
    reveal(float_stands_at);
    lemma_scalar_at_digit(s, pos);
}

/// A floating point literal that is followed by a delimiter reads back
/// as written.
#[verifier::rlimit(50)]
pub proof fn lemma_float_literal_reads_back(pre: Seq<char>, t: Seq<char>, post: Seq<char>)
    requires
        float_text(t),
        delimited(post),
    ensures
        scalar_at(
            pre + printed(SpannedValueView::Float(FloatView::Literal(t))) + post,
            pre.len() as int,
        ) == Some(
            (
                SpannedValueView::Float(FloatView::Literal(t)),
                (pre.len() + printed(SpannedValueView::Float(FloatView::Literal(t))).len()) as int,
            ),
        ),
{
    let s = pre + t + post;
    let p = pre.len() as int;
    lemma_float_start(t);
    lemma_float_framed(pre, t, post);
    assert(s[p] == t[0]);
    lemma_scalar_at_float(s, p, t);
}

/// Whether a value is one of those that are written so that they read
/// back: nil, booleans, integers of 64 bits and of any size, instants
/// that are not before the epoch or are written as timestamps, floating
/// point numbers that are
/// written as literals, not a number and the infinities,
/// texts, identifiers, simple symbols and keywords, the symbols `...`
/// and `.`, and vectors, lists, sets and maps of such values.
pub open spec fn reads_back(v: SpannedValueView) -> bool
    decreases v,
{
    match v {
        SpannedValueView::Nil => true,
        SpannedValueView::Boolean(_) => true,
        SpannedValueView::Integer(n) => -max_long() - 1 <= n <= max_long(),
        SpannedValueView::Instant(micros) => (0 <= micros <= max_long()) || stamp_of(micros)
            is Some,
        SpannedValueView::BigInteger(_) => true,
        SpannedValueView::Float(f) => match f {
            FloatView::Literal(t) => float_text(t),
            _ => true,
        },
        SpannedValueView::Text(_) => true,
        SpannedValueView::Uuid(bytes) => bytes.len() == 16,
        SpannedValueView::PlainSymbol(name) => is_dots(name) || simple_symbol(
            NameView { namespace: None, name },
        ),
        SpannedValueView::NamespacedSymbol(name) => name.namespace is Some && simple_symbol(name),
        SpannedValueView::Keyword(k) => simple_keyword(k),
        SpannedValueView::Vector(items) => forall|i: int|
            0 <= i < items.len() ==> reads_back((#[trigger] items[i]).inner),
        SpannedValueView::List(items) => forall|i: int|
            0 <= i < items.len() ==> reads_back((#[trigger] items[i]).inner),
        SpannedValueView::SetOf(items) => forall|i: int|
            0 <= i < items.len() ==> reads_back((#[trigger] items[i]).inner),
        SpannedValueView::MapOf(entries) => forall|i: int|
            0 <= i < entries.len() ==> reads_back((#[trigger] entries[i]).0.inner) && reads_back(
                entries[i].1.inner,
            ),
    }
}

/// Whether each of the values reads back.
pub open spec fn all_read_back(items: Seq<ValueAndSpanView>) -> bool {
    forall|i: int| 0 <= i < items.len() ==> reads_back((#[trigger] items[i]).inner)
}

/// Whether each key and each value of the entries reads back.
pub open spec fn all_entries_read_back(entries: Seq<(ValueAndSpanView, ValueAndSpanView)>) -> bool {
    forall|i: int|
        0 <= i < entries.len() ==> reads_back((#[trigger] entries[i]).0.inner) && reads_back(
            entries[i].1.inner,
        )
}

/// Whether two values are the same but for the places of their parts.
pub open spec fn alike(v: SpannedValueView, w: SpannedValueView) -> bool
    decreases v,
{
    match v {
        SpannedValueView::Vector(items) => w is Vector && items.len() == w->Vector_0.len()
            && forall|i: int|
            0 <= i < items.len() ==> alike((#[trigger] items[i]).inner, w->Vector_0[i].inner),
        SpannedValueView::List(items) => w is List && items.len() == w->List_0.len() && forall|
            i: int,
        |
            0 <= i < items.len() ==> alike((#[trigger] items[i]).inner, w->List_0[i].inner),
        SpannedValueView::SetOf(items) => w is SetOf && items.len() == w->SetOf_0.len() && forall|
            i: int,
        |
            0 <= i < items.len() ==> alike((#[trigger] items[i]).inner, w->SetOf_0[i].inner),
        SpannedValueView::MapOf(entries) => w is MapOf && entries.len() == w->MapOf_0.len()
            && forall|i: int|
            0 <= i < entries.len() ==> alike((#[trigger] entries[i]).0.inner, w->MapOf_0[i].0.inner)
                && alike(entries[i].1.inner, w->MapOf_0[i].1.inner),
        _ => v == w,
    }
}

/// Whether a character is neither whitespace nor the start of a comment.
pub open spec fn is_solid(c: char) -> bool {
    !CharClass::Whitespace.holds(c) && c != ';'
}

/// What is written of a value that reads back starts with a character
/// that is no blank.
#[verifier::rlimit(50)]
pub proof fn lemma_first_char(v: SpannedValueView)
    requires
        reads_back(v),
    ensures
        printed(v).len() >= 1,
        is_solid(printed(v)[0]),
{
    lemma_words();
    lemma_micros_tag();
    lemma_uuid_tag();
    lemma_float_tags();
    match v {
        SpannedValueView::Integer(n) => {
            let m: nat = if n < 0 {
                (-n) as nat
            } else {
                n as nat
            };
            lemma_decimal_nat_digits(m);
            assert(is_digit(decimal_nat(m)[0]));
        },
        SpannedValueView::BigInteger(n) => {
            let m: nat = if n < 0 {
                (-n) as nat
            } else {
                n as nat
            };
            lemma_decimal_nat_digits(m);
            assert(is_digit(decimal_nat(m)[0]));
            assert(printed(v)[0] == decimal_int(n)[0]);
        },
        SpannedValueView::Instant(micros) => {
            lemma_inst_tag();
            if stamp_of(micros) is Some {
                assert(printed(v)[0] == "#inst"@[0]);
            } else {
                assert(printed(v)[0] == "#instmicros"@[0]);
            }
        },
        SpannedValueView::Uuid(bytes) => {
            assert(printed(v)[0] == "#uuid"@[0]);
        },
        SpannedValueView::Float(f) => {
            match f {
                FloatView::Literal(t) => {
                    lemma_float_start(t);
                },
                _ => {
                    assert(printed(v)[0] == "#f"@[0]);
                },
            }
        },
        SpannedValueView::NamespacedSymbol(name) => {
            assert(printed(v)[0] == name.namespace.unwrap()[0]);
        },
        SpannedValueView::Keyword(name) => {
            assert(printed(v)[0] == ':');
        },
        _ => {},
    }
}

/// A text that starts with a character that is no blank has no blanks at
/// the position where it starts.
#[verifier::rlimit(50)]
pub proof fn lemma_solid_start(s: Seq<char>, pos: int)
    requires
        0 <= pos < s.len(),
        is_solid(s[pos]),
    ensures
        blank_len(s, pos) == 0,
{
}

/// A value without blanks in front of it is the value with the blanks
/// behind it.
#[verifier::rlimit(50)]
pub proof fn lemma_value_from_bare(s: Seq<char>, pos: int, blanks: int)
    requires
        0 <= pos <= s.len(),
        blank_len(s, pos) == 0,
        bare_value_at(s, pos) is Some,
        blank_len(s, bare_value_at(s, pos).unwrap().1) == blanks,
    ensures
        value_at(s, pos) == Some(
            (
                ValueAndSpanView {
                    inner: bare_value_at(s, pos).unwrap().0,
                    span: span_of(s, pos, bare_value_at(s, pos).unwrap().1),
                },
                bare_value_at(s, pos).unwrap().1 + blanks,
            ),
        ),
{
}

/// Where a value stands, the values from there on are that value and
/// those after it.
#[verifier::rlimit(50)]
pub proof fn lemma_items_step(s: Seq<char>, pos: int, acc: Seq<ValueAndSpanView>)
    requires
        value_at(s, pos) is Some,
        pos < value_at(s, pos).unwrap().1 <= s.len(),
    ensures
        items_at(s, pos, acc) == items_at(
            s,
            value_at(s, pos).unwrap().1,
            acc.push(value_at(s, pos).unwrap().0),
        ),
{
}

/// Where no value stands, there are no more values.
#[verifier::rlimit(50)]
pub proof fn lemma_items_stop(s: Seq<char>, pos: int, acc: Seq<ValueAndSpanView>)
    requires
        value_at(s, pos) is None,
    ensures
        items_at(s, pos, acc) == (acc, pos),
{
}

/// Where a key and a value stand, the entries from there on are that
/// entry and those after it.
#[verifier::rlimit(50)]
pub proof fn lemma_entries_step(
    s: Seq<char>,
    pos: int,
    acc: Seq<(ValueAndSpanView, ValueAndSpanView)>,
)
    requires
        value_at(s, pos) is Some,
        pos < value_at(s, pos).unwrap().1 <= s.len(),
        value_at(s, value_at(s, pos).unwrap().1) is Some,
        value_at(s, pos).unwrap().1 < value_at(s, value_at(s, pos).unwrap().1).unwrap().1
            <= s.len(),
    ensures
        entries_at(s, pos, acc) == entries_at(
            s,
            value_at(s, value_at(s, pos).unwrap().1).unwrap().1,
            acc.push(
                (value_at(s, pos).unwrap().0, value_at(s, value_at(s, pos).unwrap().1).unwrap().0),
            ),
        ),
{
}

/// Where no value stands, there are no more entries.
#[verifier::rlimit(50)]
pub proof fn lemma_entries_stop(
    s: Seq<char>,
    pos: int,
    acc: Seq<(ValueAndSpanView, ValueAndSpanView)>,
)
    requires
        value_at(s, pos) is None,
    ensures
        entries_at(s, pos, acc) == (acc, pos),
{
}

/// The characters that open a collection.
pub open spec fn opening_of(bracket: Bracket) -> Seq<char> {
    match bracket {
        Bracket::List => seq!['('],
        Bracket::Vector => seq!['['],
        Bracket::MapOf => seq!['{'],
        Bracket::SetOf => seq!['#', '{'],
    }
}

/// The value that a collection of the given kind is.
pub open spec fn collection_of(bracket: Bracket, items: Seq<ValueAndSpanView>) -> SpannedValueView {
    match bracket {
        Bracket::List => SpannedValueView::List(items),
        Bracket::Vector => SpannedValueView::Vector(items),
        _ => SpannedValueView::SetOf(items),
    }
}

/// A collection stands where its opening bracket, its values and its
/// closing bracket stand without blanks between them.
#[verifier::rlimit(50)]
pub proof fn lemma_collection_at(s: Seq<char>, pos: int, bracket: Bracket)
    requires
        0 <= pos,
        bracket != Bracket::MapOf,
        scalar_at(s, pos) is None,
        opening_at(s, pos) == Some((bracket, opening_of(bracket).len())),
        pos + opening_of(bracket).len() <= s.len(),
        blank_len(s, pos + opening_of(bracket).len()) == 0,
        blank_len(s, items_at(s, pos + opening_of(bracket).len(), Seq::empty()).1) == 0,
        char_at(
            s,
            items_at(s, pos + opening_of(bracket).len(), Seq::empty()).1,
            crate::edn::grammar::closing_of(bracket),
        ),
    ensures
        bare_value_at(s, pos) == Some(
            (
                collection_of(
                    bracket,
                    items_at(s, pos + opening_of(bracket).len(), Seq::empty()).0,
                ),
                items_at(s, pos + opening_of(bracket).len(), Seq::empty()).1 + 1,
            ),
        ),
{
}

/// A map stands where its opening brace, its entries and its closing
/// brace stand without blanks between them.
#[verifier::rlimit(50)]
pub proof fn lemma_map_at(s: Seq<char>, pos: int)
    requires
        0 <= pos,
        scalar_at(s, pos) is None,
        opening_at(s, pos) == Some((Bracket::MapOf, 1nat)),
        pos + 1 <= s.len(),
        blank_len(s, pos + 1) == 0,
        blank_len(s, entries_at(s, pos + 1, Seq::empty()).1) == 0,
        char_at(s, entries_at(s, pos + 1, Seq::empty()).1, '}'),
    ensures
        bare_value_at(s, pos) == Some(
            (
                SpannedValueView::MapOf(entries_at(s, pos + 1, Seq::empty()).0),
                entries_at(s, pos + 1, Seq::empty()).1 + 1,
            ),
        ),
{
}

/// What is written of a value that reads back, followed by a delimiter,
/// reads back as a value that is the same but for places, and reading
/// stops where the text of the value ends.
#[verifier::rlimit(50)]
pub proof fn lemma_value_reads_back(pre: Seq<char>, v: SpannedValueView, post: Seq<char>)
    requires
        reads_back(v),
        delimited(post),
    ensures
        bare_value_at(pre + printed(v) + post, pre.len() as int) is Some,
        bare_value_at(pre + printed(v) + post, pre.len() as int).unwrap().1 == pre.len() + printed(
            v,
        ).len(),
        alike(v, bare_value_at(pre + printed(v) + post, pre.len() as int).unwrap().0),
    decreases v, 1nat,
{
    let s = pre + printed(v) + post;
    let p = pre.len() as int;
    match v {
        SpannedValueView::Nil => {
            lemma_word_reads_back(pre, v, post);
        },
        SpannedValueView::Boolean(_) => {
            lemma_word_reads_back(pre, v, post);
        },
        SpannedValueView::Integer(n) => {
            lemma_integer_reads_back(pre, n, post);
        },
        SpannedValueView::Instant(micros) => {
            if stamp_of(micros) is Some {
                lemma_stamp_reads_back(pre, micros, post);
            } else {
                lemma_instant_reads_back(pre, micros, post);
            }
        },
        SpannedValueView::BigInteger(n) => {
            lemma_big_integer_reads_back(pre, n, post);
        },
        SpannedValueView::Float(f) => {
            match f {
                FloatView::Literal(t) => {
                    lemma_float_literal_reads_back(pre, t, post);
                },
                _ => {
                    lemma_special_float_reads_back(pre, f, post);
                },
            }
        },
        SpannedValueView::Text(t) => {
            lemma_text_reads_back(pre, t, post);
        },
        SpannedValueView::Uuid(bytes) => {
            lemma_uuid_reads_back(pre, bytes, post);
        },
        SpannedValueView::PlainSymbol(name) => {
            if is_dots(name) {
                lemma_dots_read_back(pre, name, post);
            } else {
                lemma_symbol_reads_back(pre, NameView { namespace: None, name }, post);
            }
        },
        SpannedValueView::NamespacedSymbol(name) => {
            lemma_symbol_reads_back(pre, name, post);
        },
        SpannedValueView::Keyword(k) => {
            lemma_keyword_reads_back(pre, k, post);
        },
        SpannedValueView::Vector(items) => {
            lemma_collection_reads_back(pre, Bracket::Vector, items, post);
        },
        SpannedValueView::List(items) => {
            lemma_collection_reads_back(pre, Bracket::List, items, post);
        },
        SpannedValueView::SetOf(items) => {
            lemma_collection_reads_back(pre, Bracket::SetOf, items, post);
        },
        SpannedValueView::MapOf(entries) => {
            lemma_map_reads_back(pre, entries, post);
        },
    }
}

/// A vector, a list or a set of values that read back reads back.
#[verifier::rlimit(100)]
pub proof fn lemma_collection_reads_back(
    pre: Seq<char>,
    bracket: Bracket,
    items: Seq<ValueAndSpanView>,
    post: Seq<char>,
)
    requires
        bracket != Bracket::MapOf,
        all_read_back(items),
    ensures
        bare_value_at(pre + printed(collection_of(bracket, items)) + post, pre.len() as int)
            is Some,
        bare_value_at(
            pre + printed(collection_of(bracket, items)) + post,
            pre.len() as int,
        ).unwrap().1 == pre.len() + printed(collection_of(bracket, items)).len(),
        alike(
            collection_of(bracket, items),
            bare_value_at(
                pre + printed(collection_of(bracket, items)) + post,
                pre.len() as int,
            ).unwrap().0,
        ),
    decreases items, 1nat,
{
    let v = collection_of(bracket, items);
    let s = pre + printed(v) + post;
    let p = pre.len() as int;
    let open = opening_of(bracket);
    let close = crate::edn::grammar::closing_of(bracket);
    let body = printed_items(items);
    assert(printed(v) =~= open + body + seq![close]);
    let pre2 = pre + open;
    assert(s =~= pre2 + body + seq![close] + post);
    assert(s[p] == open[0]);
    if bracket == Bracket::SetOf {
        assert(s[p + 1] == open[1]);
    }
    lemma_no_scalar_at_bracket(s, p);
    assert(opening_at(s, p) == Some((bracket, open.len())));
    let inside = p + open.len();
    lemma_items_read_back(pre2, items, Seq::empty(), close, post);
    if items.len() > 0 {
        lemma_items_first_char(items);
        assert(s[inside] == body[0]);
    } else {
        assert(body =~= Seq::<char>::empty());
        assert(s[inside] == close);
    }
    lemma_solid_start(s, inside);
    let found = items_at(s, inside, Seq::empty());
    let end = inside + body.len();
    assert(found.1 == end);
    assert(s[end] == close);
    lemma_solid_start(s, end);
    lemma_collection_at(s, p, bracket);
    assert(printed(v).len() == open.len() + body.len() + 1);
}

/// What is written of values that read back starts with a character that
/// is no blank.
#[verifier::rlimit(50)]
pub proof fn lemma_items_first_char(items: Seq<ValueAndSpanView>)
    requires
        items.len() > 0,
        all_read_back(items),
    ensures
        printed_items(items).len() >= 1,
        is_solid(printed_items(items)[0]),
{
    lemma_first_char(items[0].inner);
}

/// Whether a text can follow a value in a collection: a closing
/// bracket, or a space and then a character that is no blank.
pub open spec fn follows_value(after: Seq<char>) -> bool {
    after.len() >= 1 && (after[0] == ']' || after[0] == ')' || after[0] == '}' || (after[0] == ' '
        && after.len() >= 2 && is_solid(after[1])))
}

/// The number of blanks at the start of a text that follows a value.
pub open spec fn gap(after: Seq<char>) -> int {
    if after[0] == ' ' {
        1
    } else {
        0
    }
}

/// A value that reads back, written where a value can stand and
/// followed by what can follow a value, is read as a value that is the
/// same but for places; the next value starts after the blanks.
#[verifier::rlimit(50)]
pub proof fn lemma_value_then(pre: Seq<char>, v: SpannedValueView, after: Seq<char>)
    requires
        reads_back(v),
        follows_value(after),
    ensures
        value_at(pre + printed(v) + after, pre.len() as int) is Some,
        alike(v, value_at(pre + printed(v) + after, pre.len() as int).unwrap().0.inner),
        value_at(pre + printed(v) + after, pre.len() as int).unwrap().1 == pre.len() + printed(
            v,
        ).len() + gap(after),
    decreases v, 2nat,
{
    let text = printed(v);
    let s = pre + text + after;
    let p = pre.len() as int;
    let end = p + text.len();
    lemma_first_char(v);
    lemma_value_reads_back(pre, v, after);
    assert(s[p] == text[0]);
    lemma_solid_start(s, p);
    assert(s[end] == after[0]);
    if after[0] == ' ' {
        assert(s[end + 1] == after[1]);
        lemma_solid_start(s, end + 1);
        lemma_one_space(s, end);
        lemma_value_from_bare(s, p, 1);
    } else {
        lemma_solid_start(s, end);
        lemma_value_from_bare(s, p, 0);
    }
}

/// Where the first of the items is like the one that was read, and the
/// others are like those that were read after it, each item is like the
/// one that was read in its place.
#[verifier::rlimit(50)]
pub proof fn lemma_items_alike(
    items: Seq<ValueAndSpanView>,
    acc: Seq<ValueAndSpanView>,
    item: ValueAndSpanView,
    out: Seq<ValueAndSpanView>,
)
    requires
        items.len() >= 1,
        alike(items[0].inner, item.inner),
        out.len() == acc.len() + items.len(),
        forall|i: int| 0 <= i < acc.len() + 1 ==> out[i] == acc.push(item)[i],
        forall|i: int|
            0 <= i < items.len() - 1 ==> alike(
                (#[trigger] items.drop_first()[i]).inner,
                out[acc.len() + 1 + i].inner,
            ),
    ensures
        forall|i: int| 0 <= i < acc.len() ==> out[i] == acc[i],
        forall|i: int|
            0 <= i < items.len() ==> alike((#[trigger] items[i]).inner, out[acc.len() + i].inner),
{
    assert forall|i: int| 0 <= i < acc.len() implies out[i] == acc[i] by {
        assert(acc.push(item)[i] == acc[i]);
    }
    assert forall|i: int| 0 <= i < items.len() implies alike(
        (#[trigger] items[i]).inner,
        out[acc.len() + i].inner,
    ) by {
        if i == 0 {
            assert(out[acc.len() as int] == acc.push(item)[acc.len() as int]);
        } else {
            assert(items[i] == items.drop_first()[i - 1]);
        }
    }
}

/// Values that read back, written with a space between each two and
/// followed by a closing bracket, read back as values that are the same
/// but for places, after those in `acc`; reading stops at the bracket.
#[verifier::rlimit(100)]
pub proof fn lemma_items_read_back(
    pre: Seq<char>,
    items: Seq<ValueAndSpanView>,
    acc: Seq<ValueAndSpanView>,
    close: char,
    post: Seq<char>,
)
    requires
        all_read_back(items),
        close == ']' || close == ')' || close == '}',
    ensures
        items_at(pre + printed_items(items) + seq![close] + post, pre.len() as int, acc).1
            == pre.len() + printed_items(items).len(),
        items_at(pre + printed_items(items) + seq![close] + post, pre.len() as int, acc).0.len()
            == acc.len() + items.len(),
        forall|i: int|
            0 <= i < acc.len() ==> items_at(
                pre + printed_items(items) + seq![close] + post,
                pre.len() as int,
                acc,
            ).0[i] == acc[i],
        forall|i: int|
            0 <= i < items.len() ==> alike(
                (#[trigger] items[i]).inner,
                items_at(
                    pre + printed_items(items) + seq![close] + post,
                    pre.len() as int,
                    acc,
                ).0[acc.len() + i].inner,
            ),
    decreases items, 0nat,
{
    let body = printed_items(items);
    let s = pre + body + seq![close] + post;
    let p = pre.len() as int;
    if items.len() == 0 {
        assert(body =~= Seq::<char>::empty());
        assert(s[p] == close);
        lemma_no_value_at_close(s, p);
        lemma_items_stop(s, p, acc);
    } else {
        let first = items[0];
        let rest = items.drop_first();
        let text = printed(first.inner);
        let tail = seq![close] + post;
        let after: Seq<char> = if items.len() == 1 {
            tail
        } else {
            seq![' '] + printed_items(rest) + tail
        };
        assert forall|i: int| 0 <= i < rest.len() implies reads_back(
            (#[trigger] rest[i]).inner,
        ) by {
            assert(rest[i] == items[i + 1]);
        }
        if items.len() > 1 {
            lemma_items_first_char(rest);
            assert(after[1] == printed_items(rest)[0]);
        }
        assert(s =~= pre + text + after);
        lemma_value_then(pre, first.inner, after);
        let pre2: Seq<char> = if items.len() == 1 {
            pre + text
        } else {
            pre + text + seq![' ']
        };
        assert(s =~= pre2 + printed_items(rest) + seq![close] + post);
        let item = value_at(s, p).unwrap().0;
        let next = value_at(s, p).unwrap().1;
        lemma_first_char(first.inner);
        assert(next == pre2.len());
        lemma_items_step(s, p, acc);
        lemma_items_read_back(pre2, rest, acc.push(item), close, post);
        let out = items_at(s, p, acc).0;
        assert(out == items_at(s, next, acc.push(item)).0);
        lemma_items_alike(items, acc, item, out);
    }
}

/// What is written of entries that read back starts with a character
/// that is no blank.
#[verifier::rlimit(50)]
pub proof fn lemma_entries_first_char(entries: Seq<(ValueAndSpanView, ValueAndSpanView)>)
    requires
        entries.len() > 0,
        all_entries_read_back(entries),
    ensures
        printed_entries(entries).len() >= 1,
        is_solid(printed_entries(entries)[0]),
{
    lemma_first_char(entries[0].0.inner);
}

/// Where the first of the entries is like the one that was read, and
/// the others are like those that were read after it, each entry is like
/// the one that was read in its place.
#[verifier::rlimit(50)]
pub proof fn lemma_entries_alike(
    entries: Seq<(ValueAndSpanView, ValueAndSpanView)>,
    acc: Seq<(ValueAndSpanView, ValueAndSpanView)>,
    entry: (ValueAndSpanView, ValueAndSpanView),
    out: Seq<(ValueAndSpanView, ValueAndSpanView)>,
)
    requires
        entries.len() >= 1,
        alike(entries[0].0.inner, entry.0.inner),
        alike(entries[0].1.inner, entry.1.inner),
        out.len() == acc.len() + entries.len(),
        forall|i: int| 0 <= i < acc.len() + 1 ==> out[i] == acc.push(entry)[i],
        forall|i: int|
            0 <= i < entries.len() - 1 ==> alike(
                (#[trigger] entries.drop_first()[i]).0.inner,
                out[acc.len() + 1 + i].0.inner,
            ) && alike(entries.drop_first()[i].1.inner, out[acc.len() + 1 + i].1.inner),
    ensures
        forall|i: int| 0 <= i < acc.len() ==> out[i] == acc[i],
        forall|i: int|
            0 <= i < entries.len() ==> alike(
                (#[trigger] entries[i]).0.inner,
                out[acc.len() + i].0.inner,
            ) && alike(entries[i].1.inner, out[acc.len() + i].1.inner),
{
    assert forall|i: int| 0 <= i < acc.len() implies out[i] == acc[i] by {
        assert(acc.push(entry)[i] == acc[i]);
    }
    assert forall|i: int| 0 <= i < entries.len() implies alike(
        (#[trigger] entries[i]).0.inner,
        out[acc.len() + i].0.inner,
    ) && alike(entries[i].1.inner, out[acc.len() + i].1.inner) by {
        if i == 0 {
            assert(out[acc.len() as int] == acc.push(entry)[acc.len() as int]);
        } else {
            assert(entries[i] == entries.drop_first()[i - 1]);
        }
    }
}

/// The first key and value of entries that read back, written with a
/// space between them and followed by what can follow a value, are read
/// as a key and a value that are the same but for places.
#[verifier::rlimit(50)]
pub proof fn lemma_entry_then(
    pre: Seq<char>,
    entries: Seq<(ValueAndSpanView, ValueAndSpanView)>,
    after: Seq<char>,
)
    requires
        entries.len() >= 1,
        all_entries_read_back(entries),
        follows_value(after),
    ensures
        ({
            let key = entries[0].0.inner;
            let value = entries[0].1.inner;
            let s = pre + printed(key) + seq![' '] + printed(value) + after;
            let p = pre.len() as int;
            let mid = p + printed(key).len() + 1;
            &&& value_at(s, p) is Some
            &&& alike(key, value_at(s, p).unwrap().0.inner)
            &&& value_at(s, p).unwrap().1 == mid
            &&& value_at(s, mid) is Some
            &&& alike(value, value_at(s, mid).unwrap().0.inner)
            &&& value_at(s, mid).unwrap().1 == mid + printed(value).len() + gap(after)
        }),
    decreases entries, 0nat,
{
    let key = entries[0].0.inner;
    let value = entries[0].1.inner;
    let s = pre + printed(key) + seq![' '] + printed(value) + after;
    let after_key = seq![' '] + printed(value) + after;
    lemma_first_char(value);
    assert(after_key[1] == printed(value)[0]);
    assert(s =~= pre + printed(key) + after_key);
    lemma_value_then(pre, key, after_key);
    let pre_value = pre + printed(key) + seq![' '];
    assert(s =~= pre_value + printed(value) + after);
    lemma_value_then(pre_value, value, after);
}

/// Entries that read back, written with a space between each two parts
/// and followed by a closing brace, read back as entries that are the
/// same but for places, after those in `acc`; reading stops at the brace.
#[verifier::rlimit(100)]
pub proof fn lemma_entries_read_back(
    pre: Seq<char>,
    entries: Seq<(ValueAndSpanView, ValueAndSpanView)>,
    acc: Seq<(ValueAndSpanView, ValueAndSpanView)>,
    post: Seq<char>,
)
    requires
        all_entries_read_back(entries),
    ensures
        entries_at(pre + printed_entries(entries) + seq!['}'] + post, pre.len() as int, acc).1
            == pre.len() + printed_entries(entries).len(),
        entries_at(
            pre + printed_entries(entries) + seq!['}'] + post,
            pre.len() as int,
            acc,
        ).0.len() == acc.len() + entries.len(),
        forall|i: int|
            0 <= i < acc.len() ==> entries_at(
                pre + printed_entries(entries) + seq!['}'] + post,
                pre.len() as int,
                acc,
            ).0[i] == acc[i],
        forall|i: int|
            0 <= i < entries.len() ==> alike(
                (#[trigger] entries[i]).0.inner,
                entries_at(
                    pre + printed_entries(entries) + seq!['}'] + post,
                    pre.len() as int,
                    acc,
                ).0[acc.len() + i].0.inner,
            ) && alike(
                entries[i].1.inner,
                entries_at(
                    pre + printed_entries(entries) + seq!['}'] + post,
                    pre.len() as int,
                    acc,
                ).0[acc.len() + i].1.inner,
            ),
    decreases entries, 1nat,
{
    let body = printed_entries(entries);
    let s = pre + body + seq!['}'] + post;
    let p = pre.len() as int;
    if entries.len() == 0 {
        assert(body =~= Seq::<char>::empty());
        assert(s[p] == '}');
        lemma_no_value_at_close(s, p);
        lemma_entries_stop(s, p, acc);
    } else {
        let key = entries[0].0;
        let value = entries[0].1;
        let rest = entries.drop_first();
        let key_text = printed(key.inner);
        let value_text = printed(value.inner);
        let tail = seq!['}'] + post;
        let after: Seq<char> = if entries.len() == 1 {
            tail
        } else {
            seq![' '] + printed_entries(rest) + tail
        };
        assert forall|i: int| 0 <= i < rest.len() implies reads_back(
            (#[trigger] rest[i]).0.inner,
        ) && reads_back(rest[i].1.inner) by {
            assert(rest[i] == entries[i + 1]);
        }
        if entries.len() > 1 {
            lemma_entries_first_char(rest);
            assert(after[1] == printed_entries(rest)[0]);
        }
        assert(s =~= pre + key_text + seq![' '] + value_text + after);
        lemma_entry_then(pre, entries, after);
        let mid = p + key_text.len() + 1;
        let pre2: Seq<char> = if entries.len() == 1 {
            pre + key_text + seq![' '] + value_text
        } else {
            pre + key_text + seq![' '] + value_text + seq![' ']
        };
        assert(s =~= pre2 + printed_entries(rest) + seq!['}'] + post);
        let k = value_at(s, p).unwrap().0;
        let v = value_at(s, mid).unwrap().0;
        let next = value_at(s, mid).unwrap().1;
        lemma_first_char(key.inner);
        lemma_first_char(value.inner);
        assert(next == pre2.len());
        let entry = (k, v);
        lemma_entries_step(s, p, acc);
        lemma_entries_read_back(pre2, rest, acc.push(entry), post);
        let out = entries_at(s, p, acc).0;
        assert(out == entries_at(s, next, acc.push(entry)).0);
        lemma_entries_alike(entries, acc, entry, out);
    }
}

/// A map of keys and values that read back reads back.
#[verifier::rlimit(100)]
pub proof fn lemma_map_reads_back(
    pre: Seq<char>,
    entries: Seq<(ValueAndSpanView, ValueAndSpanView)>,
    post: Seq<char>,
)
    requires
        all_entries_read_back(entries),
    ensures
        bare_value_at(pre + printed(SpannedValueView::MapOf(entries)) + post, pre.len() as int)
            is Some,
        bare_value_at(
            pre + printed(SpannedValueView::MapOf(entries)) + post,
            pre.len() as int,
        ).unwrap().1 == pre.len() + printed(SpannedValueView::MapOf(entries)).len(),
        alike(
            SpannedValueView::MapOf(entries),
            bare_value_at(
                pre + printed(SpannedValueView::MapOf(entries)) + post,
                pre.len() as int,
            ).unwrap().0,
        ),
    decreases entries, 2nat,
{
    let v = SpannedValueView::MapOf(entries);
    let s = pre + printed(v) + post;
    let p = pre.len() as int;
    let body = printed_entries(entries);
    assert(printed(v) =~= seq!['{'] + body + seq!['}']);
    let pre2 = pre + seq!['{'];
    assert(s =~= pre2 + body + seq!['}'] + post);
    assert(s[p] == '{');
    lemma_no_scalar_at_bracket(s, p);
    assert(opening_at(s, p) == Some((Bracket::MapOf, 1nat)));
    let inside = p + 1;
    lemma_entries_read_back(pre2, entries, Seq::empty(), post);
    if entries.len() > 0 {
        lemma_entries_first_char(entries);
        assert(s[inside] == body[0]);
    } else {
        assert(body =~= Seq::<char>::empty());
        assert(s[inside] == '}');
    }
    lemma_solid_start(s, inside);
    let found = entries_at(s, inside, Seq::empty());
    let end = inside + body.len();
    assert(found.1 == end);
    assert(s[end] == '}');
    lemma_solid_start(s, end);
    lemma_map_at(s, p);
    assert(printed(v).len() == 1 + body.len() + 1);
}

/// A value that reads back, written and read, is the same value but for
/// the places of its parts.
#[verifier::rlimit(50)]
pub proof fn lemma_parse_round_trip(v: SpannedValueView)
    requires
        reads_back(v),
    ensures
        whole_value(printed(v)) is Some,
        alike(v, whole_value(printed(v)).unwrap().inner),
{
    let s = printed(v);
    let none = Seq::<char>::empty();
    assert(none + s + none =~= s);
    lemma_value_reads_back(none, v, none);
    lemma_first_char(v);
    lemma_solid_start(s, 0);
    lemma_no_blank(s, s.len() as int);
}

} // verus!
