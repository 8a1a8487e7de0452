//! Text handling: decimal numbers, ASCII upper case and joined lines.

use vstd::prelude::*;

verus! {

/// Trusted: `String::push` of std appends one character at the end of the string and leaves the
/// rest as it was.
pub assume_specification[ String::push ](s: &mut String, ch: char)
    ensures
        final(s)@ == old(s)@.push(ch),
;

/// The character with lower-case ASCII letters turned into upper case.
pub open spec fn ascii_upper_char(c: char) -> char {
    if 'a' <= c <= 'z' {
        (c as int - 32) as char
    } else {
        c
    }
}

/// The text with every lower-case ASCII letter turned into upper case.
pub open spec fn ascii_upper(s: Seq<char>) -> Seq<char> {
    s.map_values(|c: char| ascii_upper_char(c))
}

/// The character of a decimal digit.
pub open spec fn digit_char(d: int) -> char {
    ('0' as int + d) as char
}

/// The decimal digits of a natural number, without leading zeros.
pub open spec fn digits(n: nat) -> Seq<char>
    decreases n,
{
    if n < 10 {
        seq![digit_char(n as int)]
    } else {
        digits(n / 10).push(digit_char((n % 10) as int))
    }
}

/// The decimal text of an integer.
pub open spec fn decimal(n: int) -> Seq<char> {
    if n < 0 {
        seq!['-'] + digits((-n) as nat)
    } else {
        digits(n as nat)
    }
}

/// Whether the character is a decimal digit.
pub open spec fn is_digit(c: char) -> bool {
    '0' <= c <= '9'
}

/// Whether the text is one decimal digit or more, and nothing else.
pub open spec fn all_digits(s: Seq<char>) -> bool {
    s.len() > 0 && forall|i: int| 0 <= i < s.len() ==> is_digit(#[trigger] s[i])
}

/// The number that a text of decimal digits stands for.
pub open spec fn digits_value(s: Seq<char>) -> int
    decreases s.len(),
{
    if s.len() == 0 {
        0
    } else {
        digits_value(s.drop_last()) * 10 + (s.last() as int - '0' as int)
    }
}

/// Whether the text begins with a sign.
pub open spec fn has_sign(s: Seq<char>) -> bool {
    s.len() > 0 && (s[0] == '-' || s[0] == '+')
}

/// The text behind the sign, or all of it where it has none.
pub open spec fn unsigned_part(s: Seq<char>) -> Seq<char> {
    if has_sign(s) {
        s.skip(1)
    } else {
        s
    }
}

/// The integer that a text stands for: an optional sign, then decimal digits only.
pub open spec fn signed_value(s: Seq<char>) -> int {
    if s.len() > 0 && s[0] == '-' {
        -digits_value(unsigned_part(s))
    } else {
        digits_value(unsigned_part(s))
    }
}

/// The 32-bit number that a text stands for, if it is one.
pub open spec fn i32_value(s: Seq<char>) -> Option<i32> {
    if all_digits(unsigned_part(s)) && i32::MIN <= signed_value(s) <= i32::MAX {
        Some(signed_value(s) as i32)
    } else {
        None
    }
}

/// The texts one after the other, with `sep` between neighbours.
pub open spec fn joined(texts: Seq<Seq<char>>, sep: Seq<char>) -> Seq<char>
    decreases texts.len(),
{
    if texts.len() == 0 {
        Seq::empty()
    } else if texts.len() == 1 {
        texts[0]
    } else {
        joined(texts.drop_last(), sep) + sep + texts.last()
    }
}

/// The contents of each string of a list.
pub open spec fn texts_of(lines: Seq<String>) -> Seq<Seq<char>> {
    lines.map_values(|line: String| line@)
}

/// Returns whether two texts are the same.
pub fn same_text(a: &str, b: &str) -> (same: bool)
    ensures
        same == (a@ == b@),
{
    a.to_owned() == b.to_owned()
}

/// Returns the characters of a text.
pub fn chars_of(s: &str) -> (chars: Vec<char>)
    ensures
        chars@ == s@,
{
    let mut chars: Vec<char> = Vec::new();
    for c in it: s.chars()
        invariant
            it.seq() == s@,
            chars@ == s@.take(it.index()),
    {
        chars.push(c);
    }
    chars
}

/// Returns the text with its lower-case ASCII letters turned into upper case.
pub fn to_ascii_upper(s: &str) -> (upper: String)
    ensures
        upper@ == ascii_upper(s@),
{
    let mut upper = String::new();
    for c in it: s.chars()
        invariant
            it.seq() == s@,
            upper@ == ascii_upper(s@.take(it.index())),
    {
        if 'a' <= c && c <= 'z' {
            upper.push((c as u8 - 32) as char);
        } else {
            upper.push(c);
        }
    }
    assert(s@.take(s@.len() as int) == s@);
    upper
}

/// Appends the decimal digits of `n`.
fn push_digits(out: &mut String, n: u64)
    ensures
        final(out)@ == old(out)@ + digits(n as nat),
    decreases n,
{
    if n >= 10 {
        push_digits(out, n / 10);
    }
    out.push(((n % 10) as u8 + 48) as char);
}

/// Returns the decimal text of `n`.
pub fn to_decimal(n: i64) -> (text: String)
    ensures
        text@ == decimal(n as int),
{
    let mut text = String::new();
    if n < 0 {
        text.push('-');
        push_digits(&mut text, (-(n + 1)) as u64 + 1);
    } else {
        push_digits(&mut text, n as u64);
    }
    text
}

/// Digits in front never make a number smaller than the digits before them.
proof fn lemma_digits_value_grows(s: Seq<char>, i: int)
    requires
        all_digits(s),
        0 <= i < s.len(),
    ensures
        digits_value(s.take(i)) >= 0,
        digits_value(s.take(i + 1)) == digits_value(s.take(i)) * 10 + (s[i] as int - '0' as int),
    decreases i,
{
    assert(s.take(i + 1).drop_last() == s.take(i));
    if i > 0 {
        lemma_digits_value_grows(s, i - 1);
    }
}

/// Reads a 32-bit number: an optional sign, then decimal digits only.
pub fn parse_i32(s: &str) -> (parsed: Option<i32>)
    ensures
        parsed == i32_value(s@),
{
    let chars = chars_of(s);
    let negative = chars.len() > 0 && chars[0] == '-';
    let start: usize = if chars.len() > 0 && (chars[0] == '-' || chars[0] == '+') {
        1
    } else {
        0
    };
    let ghost body = unsigned_part(s@);
    if chars.len() == start {
        return None;
    }
    let limit: i64 = 2147483648;
    let mut value: i64 = 0;
    let mut too_big = false;
    let mut i: usize = start;
    while i < chars.len()
        invariant
            chars@ == s@,
            body == unsigned_part(s@),
            start == (if has_sign(s@) { 1int } else { 0int }),
            start <= i <= chars.len(),
            limit == 2147483648,
            forall|k: int| 0 <= k < i - start ==> is_digit(#[trigger] body[k]),
            0 <= value <= limit,
            !too_big ==> value == digits_value(body.take(i - start)),
            too_big ==> digits_value(body.take(i - start)) > limit,
        decreases chars.len() - i,
    {
        let c = chars[i];
        assert(body[i - start] == c);
        if c < '0' || '9' < c {
            assert(!is_digit(body[i - start]));
            return None;
        }
        let digit: i64 = (c as u32) as i64 - 48;
        proof {
            let prefix = body.take(i - start + 1);
            assert(all_digits(prefix));
            lemma_digits_value_grows(prefix, i - start);
            assert(prefix.take(i - start) == body.take(i - start));
            assert(prefix.take(i - start + 1) == prefix);
        }
        if !too_big {
            let next: i64 = value * 10 + digit;
            if next > limit {
                too_big = true;
            } else {
                value = next;
            }
        }
        i += 1;
    }
    assert(body.take(body.len() as int) == body);
    if too_big {
        None
    } else if negative {
        Some((-value) as i32)
    } else if value == limit {
        None
    } else {
        Some(value as i32)
    }
}

/// The digits of a number are digits, and stand for the number.
pub proof fn lemma_digits_read_back(n: nat)
    ensures
        all_digits(digits(n)),
        digits_value(digits(n)) == n,
    decreases n,
{
    if n < 10 {
        let one = digits(n);
        assert(one.drop_last() == Seq::<char>::empty());
        assert(digits_value(one.drop_last()) == 0);
    } else {
        lemma_digits_read_back(n / 10);
        assert(digits(n).drop_last() == digits(n / 10));
    }
}

/// Law: the decimal text of a number reads back as that number.
pub proof fn law_decimal_reads_back(n: i32)
    ensures
        i32_value(decimal(n as int)) == Some(n),
{
    let text = decimal(n as int);
    if n < 0 {
        lemma_digits_read_back((-n) as nat);
        assert(unsigned_part(text) == digits((-n) as nat));
    } else {
        lemma_digits_read_back(n as nat);
        assert(is_digit(text[0]));
        assert(!has_sign(text));
    }
}

/// Law: different natural numbers have different decimal texts.
pub proof fn law_decimal_texts_are_distinct(a: nat, b: nat)
    requires
        decimal(a as int) == decimal(b as int),
    ensures
        a == b,
{
    lemma_digits_read_back(a);
    lemma_digits_read_back(b);
}

/// Law: turning a text into upper case keeps its length, moves each letter from `a` to `z` to the
/// letter at the same place from `A` to `Z`, and leaves every other character as it is.
pub proof fn law_ascii_upper_moves_only_small_letters(s: Seq<char>, i: int)
    requires
        0 <= i < s.len(),
    ensures
        ascii_upper(s).len() == s.len(),
        'a' <= s[i] <= 'z' ==> 'A' <= ascii_upper(s)[i] <= 'Z' && ascii_upper(s)[i] as int
            - 'A' as int == s[i] as int - 'a' as int,
        !('a' <= s[i] <= 'z') ==> ascii_upper(s)[i] == s[i],
{
}

/// Law: turning two texts into upper case one after the other is turning them at once.
pub proof fn law_ascii_upper_of_parts(a: Seq<char>, b: Seq<char>)
    ensures
        ascii_upper(a + b) == ascii_upper(a) + ascii_upper(b),
{
    assert(ascii_upper(a + b) =~= ascii_upper(a) + ascii_upper(b));
}

/// Law: the decimal text of a number below ten is the digit at its place in `0123456789`.
pub proof fn law_decimal_of_one_digit(n: int)
    requires
        0 <= n < 10,
    ensures
        decimal(n) == seq!["0123456789"@[n]],
{
    reveal_strlit("0123456789");
}

/// Law: one digit more behind a number's decimal text is ten times the number and the digit.
pub proof fn law_decimal_with_one_digit_more(n: int, d: int)
    requires
        n > 0,
        0 <= d < 10,
    ensures
        decimal(10 * n + d) == decimal(n) + decimal(d),
{
    let m = (10 * n + d) as nat;
    assert(m / 10 == n && m % 10 == d);
    assert(digits(m) =~= digits(n as nat) + digits(d as nat));
}

/// Law: the decimal text of a negative number is a minus sign and that of its opposite.
pub proof fn law_decimal_of_negative(n: int)
    requires
        n > 0,
    ensures
        decimal(-n) == "-"@ + decimal(n),
{
    reveal_strlit("-");
    assert("-"@ =~= seq!['-']);
}

/// Zeros in front make no difference to the number that digits stand for.
proof fn lemma_zeros_in_front(zeros: Seq<char>, s: Seq<char>)
    requires
        forall|i: int| 0 <= i < zeros.len() ==> zeros[i] == '0',
        forall|i: int| 0 <= i < s.len() ==> is_digit(#[trigger] s[i]),
    ensures
        digits_value(zeros + s) == digits_value(s),
    decreases zeros.len() + s.len(),
{
    if s.len() > 0 {
        assert((zeros + s).drop_last() == zeros + s.drop_last());
        lemma_zeros_in_front(zeros, s.drop_last());
    } else if zeros.len() > 0 {
        assert(zeros + s == zeros);
        assert(zeros.drop_last() + s == zeros.drop_last());
        lemma_zeros_in_front(zeros.drop_last(), s);
    } else {
        assert(zeros + s == s);
    }
}

/// Digits are zeros and then the decimal digits of the number that they stand for.
proof fn lemma_zeros_and_digits(s: Seq<char>) -> (zeros: Seq<char>)
    requires
        all_digits(s),
    ensures
        digits_value(s) >= 0,
        forall|i: int| 0 <= i < zeros.len() ==> zeros[i] == '0',
        s == zeros + digits(digits_value(s) as nat),
    decreases s.len(),
{
    let rest = s.drop_last();
    let d = s.last() as int - '0' as int;
    assert(is_digit(s[s.len() - 1]));
    assert(s == rest.push(s.last()));
    assert(digit_char(d) == s.last());
    if rest.len() == 0 {
        let zeros = Seq::<char>::empty();
        assert(digits_value(rest) == 0);
        assert(s =~= zeros + digits(digits_value(s) as nat));
        zeros
    } else {
        assert forall|i: int| 0 <= i < rest.len() implies is_digit(#[trigger] rest[i]) by {
            assert(rest[i] == s[i]);
        }
        let before = lemma_zeros_and_digits(rest);
        let v = digits_value(rest);
        if v == 0 {
            assert(digits(0) == seq!['0']);
            assert(s =~= rest + digits(d as nat));
            rest
        } else {
            law_decimal_with_one_digit_more(v, d);
            assert(s =~= before + digits((10 * v + d) as nat));
            before
        }
    }
}

/// Law: a text reads as a number where it is the number's decimal text, with any zeros in front
/// and with a plus sign or none. A minus sign gives the opposite. A number that does not fit is
/// not read.
pub proof fn law_spellings_of_a_number(zeros: Seq<char>, n: nat)
    requires
        forall|i: int| 0 <= i < zeros.len() ==> zeros[i] == '0',
    ensures
        i32_value(zeros + decimal(n as int)) == (if n <= i32::MAX {
            Some(n as i32)
        } else {
            None
        }),
        i32_value("+"@ + zeros + decimal(n as int)) == (if n <= i32::MAX {
            Some(n as i32)
        } else {
            None
        }),
        i32_value("-"@ + zeros + decimal(n as int)) == (if -n >= i32::MIN {
            Some((-n) as i32)
        } else {
            None
        }),
{
    reveal_strlit("+");
    reveal_strlit("-");
    lemma_digits_read_back(n);
    lemma_zeros_in_front(zeros, digits(n));
    let body = zeros + decimal(n as int);
    assert forall|i: int| 0 <= i < body.len() implies is_digit(#[trigger] body[i]) by {
        if i >= zeros.len() {
            assert(is_digit(digits(n)[i - zeros.len()]));
        }
    }
    assert(is_digit(body[0]));
    assert(!has_sign(body));
    assert(("+"@ + zeros + decimal(n as int)).skip(1) == body);
    assert(("-"@ + zeros + decimal(n as int)).skip(1) == body);
}

/// Law: a text that reads as a number is a decimal text, with some zeros in front and with a sign
/// or none.
pub proof fn law_every_number_text_is_such_a_spelling(s: Seq<char>) -> (spelling: (Seq<char>, nat))
    requires
        i32_value(s) is Some,
    ensures
        forall|i: int| 0 <= i < spelling.0.len() ==> spelling.0[i] == '0',
        s == spelling.0 + decimal(spelling.1 as int) || s == "+"@ + spelling.0 + decimal(
            spelling.1 as int,
        ) || s == "-"@ + spelling.0 + decimal(spelling.1 as int),
{
    reveal_strlit("+");
    reveal_strlit("-");
    let body = unsigned_part(s);
    let zeros = lemma_zeros_and_digits(body);
    let n = digits_value(body) as nat;
    if has_sign(s) {
        assert(s =~= seq![s[0]] + body);
        if s[0] == '-' {
            assert(s =~= "-"@ + zeros + decimal(n as int));
        } else {
            assert(s =~= "+"@ + zeros + decimal(n as int));
        }
    }
    (zeros, n)
}

/// Law: joining no texts gives the empty text, and joining one gives that text.
pub proof fn law_joined_of_none_and_one(text: Seq<char>, sep: Seq<char>)
    ensures
        joined(Seq::<Seq<char>>::empty(), sep) == Seq::<char>::empty(),
        joined(seq![text], sep) == text,
{
}

/// Law: joining two lists one after the other is joining each, with one separator between.
pub proof fn law_joined_of_parts(a: Seq<Seq<char>>, b: Seq<Seq<char>>, sep: Seq<char>)
    requires
        a.len() > 0,
        b.len() > 0,
    ensures
        joined(a + b, sep) == joined(a, sep) + sep + joined(b, sep),
    decreases b.len(),
{
    assert((a + b).drop_last() == a + b.drop_last());
    if b.len() == 1 {
        assert(a + b.drop_last() == a);
    } else {
        law_joined_of_parts(a, b.drop_last(), sep);
        assert(joined(a + b, sep) =~= joined(a, sep) + sep + joined(b, sep));
    }
}

/// Law: strings stay as they are, in their order, when they are taken as texts.
pub proof fn law_texts_keep_contents(lines: Seq<String>, i: int)
    requires
        0 <= i < lines.len(),
    ensures
        texts_of(lines).len() == lines.len(),
        texts_of(lines)[i] == lines[i]@,
{
}

}
