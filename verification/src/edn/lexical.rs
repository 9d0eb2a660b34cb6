//! The characters and tokens of the notation: classes of characters, runs
//! of them, blanks, and the digits of numbers.

use vstd::prelude::*;

verus! {

/// The classes of characters that the grammar speaks of.
#[derive(Debug, Clone, Copy, PartialEq, Eq, Structural)]
pub enum CharClass {
    /// `0` to `9`.
    Digit,
    /// `0` to `7`.
    OctalDigit,
    /// `0` to `9`, `a` to `f`, `A` to `F`.
    HexDigit,
    /// `0` to `9`, `a` to `f`.
    LowerHexDigit,
    /// `0` to `9`, `a` to `z`, `A` to `Z`.
    Alphanumeric,
    /// What a symbol or keyword can start with.
    SymbolInitial,
    /// What can follow in a symbol or keyword.
    SymbolSubsequent,
    /// Space, carriage return, line feed, tab and comma.
    Whitespace,
    /// Anything but carriage return and line feed.
    LineBody,
}

/// Whether `c` is a letter of the Latin alphabet.
pub open spec fn is_ascii_letter(c: char) -> bool {
    ('a' <= c <= 'z') || ('A' <= c <= 'Z')
}

/// Whether `c` is a decimal digit.
pub open spec fn is_decimal_digit(c: char) -> bool {
    '0' <= c <= '9'
}

/// Whether `c` can start a symbol or keyword.
pub open spec fn is_symbol_initial(c: char) -> bool {
    is_ascii_letter(c) || is_decimal_digit(c) || c == '*' || c == '!' || c == '_' || c == '?'
        || c == '$' || c == '%' || c == '&' || c == '=' || c == '<' || c == '>'
}

impl CharClass {
    /// Whether the class holds the character.
    pub open spec fn holds(self, c: char) -> bool {
        match self {
            CharClass::Digit => is_decimal_digit(c),
            CharClass::OctalDigit => '0' <= c <= '7',
            CharClass::HexDigit => is_decimal_digit(c) || ('a' <= c <= 'f') || ('A' <= c <= 'F'),
            CharClass::LowerHexDigit => is_decimal_digit(c) || ('a' <= c <= 'f'),
            CharClass::Alphanumeric => is_decimal_digit(c) || is_ascii_letter(c),
            CharClass::SymbolInitial => is_symbol_initial(c),
            CharClass::SymbolSubsequent => is_symbol_initial(c) || c == '+' || c == '-',
            CharClass::Whitespace => c == ' ' || c == '\r' || c == '\n' || c == '\t' || c == ',',
            CharClass::LineBody => c != '\r' && c != '\n',
        }
    }

    /// Whether the class holds the character.
    pub fn test(&self, c: char) -> (r: bool)
        ensures
            r == self.holds(c),
    {
        let digit = '0' <= c && c <= '9';
        let letter = ('a' <= c && c <= 'z') || ('A' <= c && c <= 'Z');
        let initial = letter || digit || c == '*' || c == '!' || c == '_' || c == '?' || c == '$'
            || c == '%' || c == '&' || c == '=' || c == '<' || c == '>';
        match self {
            CharClass::Digit => digit,
            CharClass::OctalDigit => '0' <= c && c <= '7',
            CharClass::HexDigit => digit || ('a' <= c && c <= 'f') || ('A' <= c && c <= 'F'),
            CharClass::LowerHexDigit => digit || ('a' <= c && c <= 'f'),
            CharClass::Alphanumeric => digit || letter,
            CharClass::SymbolInitial => initial,
            CharClass::SymbolSubsequent => initial || c == '+' || c == '-',
            CharClass::Whitespace => c == ' ' || c == '\r' || c == '\n' || c == '\t' || c == ',',
            CharClass::LineBody => c != '\r' && c != '\n',
        }
    }
}

/// Whether the character at `pos` is `c`.
pub open spec fn char_at(s: Seq<char>, pos: int, c: char) -> bool {
    0 <= pos < s.len() && s[pos] == c
}

/// Whether the character at `pos` belongs to the class.
pub open spec fn class_at(s: Seq<char>, pos: int, class: CharClass) -> bool {
    0 <= pos < s.len() && class.holds(s[pos])
}

/// Whether the text `lit` stands at `pos`.
pub open spec fn literal_at(s: Seq<char>, pos: int, lit: Seq<char>) -> bool {
    0 <= pos && pos + lit.len() <= s.len() && s.subrange(pos, pos + lit.len()) == lit
}

/// The number of characters of the class that stand at `pos` in a row.
pub open spec fn run_len(s: Seq<char>, pos: int, class: CharClass) -> nat
    decreases s.len() - pos,
{
    if 0 <= pos < s.len() && class.holds(s[pos]) {
        1 + run_len(s, pos + 1, class)
    } else {
        0
    }
}

/// A run ends inside the text, and every character of it belongs to the
/// class.
pub proof fn lemma_run_len(s: Seq<char>, pos: int, class: CharClass)
    requires
        0 <= pos <= s.len(),
    ensures
        pos + run_len(s, pos, class) <= s.len(),
        forall|i: int| pos <= i < pos + run_len(s, pos, class) ==> class.holds(#[trigger] s[i]),
        !class_at(s, pos + run_len(s, pos, class), class),
    decreases s.len() - pos,
{
    if pos < s.len() && class.holds(s[pos]) {
        lemma_run_len(s, pos + 1, class);
    }
}

/// The length of a comment at `pos`: a semicolon, the rest of the line,
/// and one character that ends the line if there is one. Zero where no
/// comment starts.
pub open spec fn comment_len(s: Seq<char>, pos: int) -> nat {
    if char_at(s, pos, ';') {
        let body = run_len(s, pos + 1, CharClass::LineBody);
        if 0 <= pos + 1 + body < s.len() {
            2 + body
        } else {
            1 + body
        }
    } else {
        0
    }
}

/// The length of the blanks at `pos`: whitespace and comments, as many as
/// there are.
pub open spec fn blank_len(s: Seq<char>, pos: int) -> nat
    decreases s.len() - pos,
{
    if class_at(s, pos, CharClass::Whitespace) {
        1 + blank_len(s, pos + 1)
    } else if char_at(s, pos, ';') {
        let c = comment_len(s, pos);
        if c >= 1 && pos + c <= s.len() {
            c + blank_len(s, pos + c)
        } else {
            0
        }
    } else {
        0
    }
}

/// Blanks end inside the text.
pub proof fn lemma_blank_len(s: Seq<char>, pos: int)
    requires
        0 <= pos <= s.len(),
    ensures
        pos + blank_len(s, pos) <= s.len(),
    decreases s.len() - pos,
{
    if class_at(s, pos, CharClass::Whitespace) {
        lemma_blank_len(s, pos + 1);
    } else if char_at(s, pos, ';') {
        lemma_run_len(s, pos + 1, CharClass::LineBody);
        lemma_blank_len(s, pos + comment_len(s, pos));
    }
}

/// The length of a sign at `pos`: one for a plus or a minus, else zero.
pub open spec fn sign_len(s: Seq<char>, pos: int) -> nat {
    if char_at(s, pos, '+') || char_at(s, pos, '-') {
        1
    } else {
        0
    }
}

/// The value of a digit in a radix up to 36: the ten digits, then the
/// letters in either case. A character that is no digit is worth 36.
pub open spec fn radix_digit(c: char) -> int {
    if '0' <= c <= '9' {
        c as int - '0' as int
    } else if 'a' <= c <= 'z' {
        c as int - 'a' as int + 10
    } else if 'A' <= c <= 'Z' {
        c as int - 'A' as int + 10
    } else {
        36
    }
}

/// The value of a sequence of digits in a radix.
pub open spec fn radix_value(digits: Seq<char>, base: int) -> int
    decreases digits.len(),
{
    if digits.len() == 0 {
        0
    } else {
        radix_value(digits.drop_last(), base) * base + radix_digit(digits.last())
    }
}

/// Whether every character is a digit of the radix.
pub open spec fn valid_in_radix(digits: Seq<char>, base: int) -> bool {
    forall|i: int| 0 <= i < digits.len() ==> radix_digit(#[trigger] digits[i]) < base
}

/// The number that the digits spell in the radix, if they are digits of
/// it and the number is at most `limit`.
pub open spec fn radix_number(digits: Seq<char>, base: int, limit: int) -> Option<int> {
    if valid_in_radix(digits, base) && radix_value(digits, base) <= limit {
        Some(radix_value(digits, base))
    } else {
        None
    }
}

/// The value of digits does not shrink when more digits follow.
pub proof fn lemma_radix_value_grows(digits: Seq<char>, n: int, base: int)
    requires
        2 <= base <= 36,
        0 <= n <= digits.len(),
        valid_in_radix(digits, base),
    ensures
        0 <= radix_value(digits.subrange(0, n), base) <= radix_value(digits, base),
    decreases digits.len() - n,
{
    lemma_radix_value_nonnegative(digits.subrange(0, n), base);
    if n < digits.len() {
        let longer = digits.subrange(0, n + 1);
        assert(longer.drop_last() =~= digits.subrange(0, n));
        assert(longer.last() == digits[n]);
        let v = radix_value(digits.subrange(0, n), base);
        assert(v * base >= v) by (nonlinear_arith)
            requires
                v >= 0,
                base >= 2,
        ;
        lemma_radix_value_grows(digits, n + 1, base);
    } else {
        assert(digits.subrange(0, n) =~= digits);
    }
}

/// The value of digits is not negative.
pub proof fn lemma_radix_value_nonnegative(digits: Seq<char>, base: int)
    requires
        base >= 0,
    ensures
        radix_value(digits, base) >= 0,
    decreases digits.len(),
{
    if digits.len() > 0 {
        lemma_radix_value_nonnegative(digits.drop_last(), base);
        let v = radix_value(digits.drop_last(), base);
        assert(v * base >= 0) by (nonlinear_arith)
            requires
                v >= 0,
                base >= 0,
        ;
    }
}

/// The number of characters of the class at `pos`.
pub fn scan_run(chars: &Vec<char>, pos: usize, class: CharClass) -> (n: usize)
    requires
        pos <= chars.len(),
    ensures
        n == run_len(chars@, pos as int, class),
        pos + n <= chars.len(),
{
    let mut i: usize = pos;
    while i < chars.len() && class.test(chars[i])
        invariant
            pos <= i <= chars.len(),
            run_len(chars@, pos as int, class) == (i - pos) + run_len(chars@, i as int, class),
        decreases chars.len() - i,
    {
        i += 1;
    }
    i - pos
}

/// The number of characters of blanks at `pos`.
pub fn scan_blank(chars: &Vec<char>, pos: usize) -> (n: usize)
    requires
        pos <= chars.len(),
    ensures
        n == blank_len(chars@, pos as int),
        pos + n <= chars.len(),
{
    let mut i: usize = pos;
    loop
        invariant
            pos <= i <= chars.len(),
            blank_len(chars@, pos as int) == (i - pos) + blank_len(chars@, i as int),
        ensures
            blank_len(chars@, i as int) == 0,
        decreases chars.len() - i,
    {
        if i >= chars.len() {
            break ;
        }
        let c = chars[i];
        if CharClass::Whitespace.test(c) {
            i += 1;
        } else if c == ';' {
            let body = scan_run(chars, i + 1, CharClass::LineBody);
            if i + 1 + body < chars.len() {
                i = i + 2 + body;
            } else {
                i = i + 1 + body;
            }
        } else {
            break ;
        }
    }
    i - pos
}

/// Whether the text `lit` stands at `pos`.
pub fn scan_literal(chars: &Vec<char>, pos: usize, lit: &str) -> (r: bool)
    requires
        pos <= chars.len(),
    ensures
        r == literal_at(chars@, pos as int, lit@),
{
    let want = crate::text::chars_of(lit);
    if want.len() > chars.len() - pos {
        return false;
    }
    let mut i: usize = 0;
    while i < want.len()
        invariant
            i <= want.len(),
            pos + want.len() <= chars.len(),
            want@ == lit@,
            forall|j: int| 0 <= j < i ==> chars@[pos + j] == want@[j],
        decreases want.len() - i,
    {
        if chars[pos + i] != want[i] {
            proof {
                if literal_at(chars@, pos as int, lit@) {
                    assert(chars@.subrange(pos as int, pos + lit@.len())[i as int] == lit@[i as int]);
                }
            }
            return false;
        }
        i += 1;
    }
    proof {
        assert(chars@.subrange(pos as int, pos + lit@.len()) =~= lit@);
    }
    true
}

/// Whether the character at `pos` is `c`.
pub fn scan_char(chars: &Vec<char>, pos: usize, c: char) -> (r: bool)
    ensures
        r == char_at(chars@, pos as int, c),
{
    pos < chars.len() && chars[pos] == c
}

/// The value of a character as a digit, 36 for what is no digit.
pub fn digit_in_radix(c: char) -> (r: u64)
    ensures
        r == radix_digit(c),
        r <= 36,
{
    if '0' <= c && c <= '9' {
        (c as u64) - ('0' as u64)
    } else if 'a' <= c && c <= 'z' {
        (c as u64) - ('a' as u64) + 10
    } else if 'A' <= c && c <= 'Z' {
        (c as u64) - ('A' as u64) + 10
    } else {
        36
    }
}

/// The number that the characters `chars[from..to]` spell in the radix,
/// if they are digits of it and the number is at most `limit`.
pub fn scan_number(chars: &Vec<char>, from: usize, to: usize, base: u64, limit: u64) -> (r: Option<
    u64,
>)
    requires
        from <= to <= chars.len(),
        2 <= base <= 36,
        limit <= 0x8000_0000_0000_0000,
    ensures
        r == (match radix_number(chars@.subrange(from as int, to as int), base as int, limit as int) {
            Some(v) => Some(v as u64),
            None => None,
        }),
        r matches Some(v) ==> v == radix_value(chars@.subrange(from as int, to as int), base as int),
{
    let ghost digits = chars@.subrange(from as int, to as int);
    let mut acc: u64 = 0;
    let mut i: usize = from;
    while i < to
        invariant
            from <= i <= to <= chars.len(),
            2 <= base <= 36,
            limit <= 0x8000_0000_0000_0000,
            digits == chars@.subrange(from as int, to as int),
            acc <= limit,
            acc == radix_value(digits.subrange(0, i - from), base as int),
            forall|j: int| 0 <= j < i - from ==> radix_digit(#[trigger] digits[j]) < base,
        decreases to - i,
    {
        let d = digit_in_radix(chars[i]);
        proof {
            assert(digits[i - from] == chars@[i as int]);
            assert(digits.subrange(0, i - from + 1).drop_last() =~= digits.subrange(0, i - from));
        }
        if d >= base {
            return None;
        }
        let ghost next = acc as int * base as int + d as int;
        proof {
            assert(next == radix_value(digits.subrange(0, i - from + 1), base as int));
        }
        if d > limit || acc > (limit - d) / base {
            proof {
                // The value so far already exceeds the limit, and more
                // digits can only make it larger.
                assert(acc as int * base as int + d as int > limit as int) by (nonlinear_arith)
                    requires
                        d > limit || acc as int > (limit as int - d as int) / (base as int),
                        base >= 2,
                        acc >= 0,
                ;
                if valid_in_radix(digits, base as int) {
                    lemma_radix_value_grows(digits, i - from + 1, base as int);
                }
            }
            return None;
        }
        proof {
            assert(acc as int * base as int + d as int <= limit as int) by (nonlinear_arith)
                requires
                    acc as int <= (limit as int - d as int) / (base as int),
                    base >= 2,
                    d <= limit,
                    acc >= 0,
            ;
        }
        acc = acc * base + d;
        i += 1;
    }
    proof {
        assert(digits.subrange(0, to - from) =~= digits);
    }
    Some(acc)
}

} // verus!
