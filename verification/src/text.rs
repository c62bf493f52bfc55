//! Text: reading integers and booleans, and building display names.

use vstd::prelude::*;

verus! {

/// Appends a character to a text, with `String::push`.
#[verifier::external_body]
fn push_char(text: &mut String, c: char)
    ensures
        final(text)@ == old(text)@.push(c),
{
    text.push(c)
}

/// The characters that a character maps to in upper case.
pub uninterp spec fn uppercase_of(c: char) -> Seq<char>;

/// The upper-case form of a character, with `char::to_uppercase`: one
/// character or several, as Unicode defines it.
#[verifier::external_body]
fn uppercase(c: char) -> (upper: String)
    ensures
        upper@ == uppercase_of(c),
{
    c.to_uppercase().collect()
}

/// The characters of a text.
pub fn characters(text: &str) -> (chars: Vec<char>)
    ensures
        chars@ == text@,
{
    let mut chars: Vec<char> = Vec::new();
    for c in it: text.chars()
        invariant
            it.seq() == text@,
            chars@ == text@.take(it.index()),
    {
        chars.push(c);
    }
    chars
}

/// The text with every underscore replaced by a space.
pub open spec fn spaced(text: Seq<char>) -> Seq<char> {
    Seq::new(text.len(), |i: int| if text[i] == '_' { ' ' } else { text[i] })
}

/// The display form of an identifier, given the upper-case form of its
/// first character: underscores become spaces, and the first character is
/// replaced by its upper-case form.
pub open spec fn display_form(id: Seq<char>, first_upper: Seq<char>) -> Seq<char> {
    if id.len() == 0 {
        id
    } else {
        first_upper + spaced(id).skip(1)
    }
}

/// The display form of an identifier.
pub open spec fn pretty(id: Seq<char>) -> Seq<char> {
    if id.len() == 0 {
        id
    } else {
        display_form(id, uppercase_of(spaced(id)[0]))
    }
}

/// Builds the display form of an identifier from the upper-case form of its
/// first character.
pub fn display_name(id: &str, first_upper: &str) -> (name: String)
    ensures
        name@ == display_form(id@, first_upper@),
{
    let mut name = String::new();
    let mut first = true;
    for c in it: id.chars()
        invariant
            it.seq() == id@,
            first == (it.index() == 0),
            it.index() == 0 ==> name@ == Seq::<char>::empty(),
            it.index() > 0 ==> name@ == first_upper@ + spaced(id@).take(it.index()).skip(1),
    {
        if first {
            name = first_upper.to_owned();
            first = false;
        } else {
            push_char(&mut name, if c == '_' { ' ' } else { c });
        }
    }
    name
}

/// The display form of an identifier: underscores become spaces, and the
/// first character is put in upper case.
pub fn pretty_text(id: &str) -> (name: String)
    ensures
        name@ == pretty(id@),
{
    let chars = characters(id);
    if chars.len() == 0 {
        return id.to_owned();
    }
    let first = if chars[0] == '_' { ' ' } else { chars[0] };
    let upper = uppercase(first);
    display_name(id, upper.as_str())
}

/// Whether a character is a decimal digit.
pub open spec fn is_digit(c: char) -> bool {
    '0' <= c <= '9'
}

/// Whether every character is a decimal digit.
pub open spec fn all_digits(s: Seq<char>) -> bool {
    forall|i: int| 0 <= i < s.len() ==> is_digit(#[trigger] s[i])
}

/// The number that a sequence of decimal digits denotes.
pub open spec fn decimal_value(s: Seq<char>) -> int
    decreases s.len(),
{
    if s.len() == 0 {
        0
    } else {
        decimal_value(s.drop_last()) * 10 + (s.last() as int - '0' as int)
    }
}

/// The signed 64-bit integer that a text denotes: an optional sign, `+` or
/// `-`, then one decimal digit or more, and nothing else; and nothing where
/// the number is out of range.
pub open spec fn int_of_text(s: Seq<char>) -> Option<i64> {
    if s.len() == 0 {
        None
    } else {
        let digits = if s[0] == '-' || s[0] == '+' { s.skip(1) } else { s };
        let value = if s[0] == '-' { -decimal_value(digits) } else { decimal_value(digits) };
        if digits.len() > 0 && all_digits(digits) && i64::MIN <= value <= i64::MAX {
            Some(value as i64)
        } else {
            None
        }
    }
}

/// The boolean that a text denotes: `true` or `false`, and nothing else.
pub open spec fn bool_of_text(s: Seq<char>) -> Option<bool> {
    if s == "true"@ {
        Some(true)
    } else if s == "false"@ {
        Some(false)
    } else {
        None
    }
}

/// The value of a digit sequence is at least the value of each of its
/// prefixes.
pub proof fn lemma_decimal_prefix(s: Seq<char>, k: int)
    requires
        all_digits(s),
        0 <= k <= s.len(),
    ensures
        0 <= decimal_value(s.take(k)) <= decimal_value(s),
    decreases s.len() - k,
{
    lemma_decimal_nonnegative(s.take(k));
    if k < s.len() {
        lemma_decimal_prefix(s, k + 1);
        assert(s.take(k + 1).drop_last() =~= s.take(k));
    } else {
        assert(s.take(k) =~= s);
    }
}

proof fn lemma_decimal_nonnegative(s: Seq<char>)
    requires
        all_digits(s),
    ensures
        0 <= decimal_value(s),
    decreases s.len(),
{
    if s.len() > 0 {
        lemma_decimal_nonnegative(s.drop_last());
    }
}

/// Reads a text as a signed 64-bit integer in decimal notation.
pub fn parse_int(text: &str) -> (r: Option<i64>)
    ensures
        r == int_of_text(text@),
{
    let chars = characters(text);
    let n = chars.len();
    if n == 0 {
        return None;
    }
    let negative = chars[0] == '-';
    let start: usize = if chars[0] == '-' || chars[0] == '+' { 1 } else { 0 };
    if start == n {
        return None;
    }
    let ghost digits = text@.skip(start as int);
    let limit: u64 = if negative { 0x8000_0000_0000_0000 } else { 0x7fff_ffff_ffff_ffff };
    let mut acc: u64 = 0;
    let mut i: usize = start;
    proof {
        assert(text@.skip(0) =~= text@);
    }
    while i < n
        invariant
            start <= i <= n,
            n == chars@.len(),
            chars@ == text@,
            digits == text@.skip(start as int),
            all_digits(digits.take(i - start)),
            acc == decimal_value(digits.take(i - start)),
            acc <= limit,
            text@.len() > 0,
            negative == (text@[0] == '-'),
            start == if text@[0] == '-' || text@[0] == '+' { 1usize } else { 0usize },
            limit == if negative { 0x8000_0000_0000_0000u64 } else { 0x7fff_ffff_ffff_ffffu64 },
        decreases n - i,
    {
        let c = chars[i];
        if c < '0' || c > '9' {
            assert(!is_digit(digits[i - start]));
            return None;
        }
        let d: u64 = (c as u32 - '0' as u32) as u64;
        proof {
            assert(digits.take(i - start + 1).drop_last() =~= digits.take(i - start));
        }
        if acc > (limit - d) / 10 {
            proof {
                assert(text@.skip(0) =~= text@);
                if all_digits(digits) {
                    lemma_decimal_prefix(digits, i - start + 1);
                }
            }
            return None;
        }
        acc = acc * 10 + d;
        i += 1;
    }
    proof {
        assert(digits.take(n - start) =~= digits);
    }
    if negative {
        if acc == 0x8000_0000_0000_0000 {
            Some(i64::MIN)
        } else {
            Some(-(acc as i64))
        }
    } else {
        Some(acc as i64)
    }
}

/// Reads a text as a boolean.
pub fn parse_bool(text: &str) -> (r: Option<bool>)
    ensures
        r == bool_of_text(text@),
{
    let owned = text.to_owned();
    if owned == "true".to_owned() {
        Some(true)
    } else if owned == "false".to_owned() {
        Some(false)
    } else {
        None
    }
}

/// The character of a decimal digit.
pub open spec fn digit_char(d: nat) -> char {
    ((d + 48) as u8) as char
}

/// The decimal digits of a number, without leading zeros.
pub open spec fn digits_of(n: nat) -> Seq<char>
    decreases n,
{
    if n < 10 {
        seq![digit_char(n)]
    } else {
        digits_of(n / 10).push(digit_char(n % 10))
    }
}

/// The decimal notation of an integer: a `-` for a negative one, then the
/// digits of its magnitude.
pub open spec fn text_of_int(i: int) -> Seq<char> {
    if i < 0 {
        seq!['-'] + digits_of((-i) as nat)
    } else {
        digits_of(i as nat)
    }
}

/// Appends the decimal digits of a number to a text.
fn push_digits(text: &mut String, n: u64)
    ensures
        final(text)@ == old(text)@ + digits_of(n as nat),
    decreases n,
{
    if n >= 10 {
        push_digits(text, n / 10);
    }
    let d: u8 = (n % 10) as u8;
    push_char(text, (d + 48) as char);
}

/// The decimal notation of an integer.
pub fn int_text(i: i64) -> (text: String)
    ensures
        text@ == text_of_int(i as int),
{
    let mut text = String::new();
    if i < 0 {
        push_char(&mut text, '-');
        let magnitude: u64 = ((-(i + 1)) as u64) + 1;
        push_digits(&mut text, magnitude);
    } else {
        push_digits(&mut text, i as u64);
    }
    text
}

/// The digits of a number are digits, and denote the number.
pub proof fn lemma_digits_denote(n: nat)
    ensures
        digits_of(n).len() > 0,
        all_digits(digits_of(n)),
        decimal_value(digits_of(n)) == n,
    decreases n,
{
    if n < 10 {
        let s = digits_of(n);
        assert(decimal_value(s.drop_last()) == 0);
    } else {
        lemma_digits_denote(n / 10);
        let s = digits_of(n);
        assert(s.drop_last() =~= digits_of(n / 10));
    }
}

/// Reading the decimal notation of a signed 64-bit integer gives the
/// integer back.
pub proof fn lemma_int_text_round_trip(i: i64)
    ensures
        int_of_text(text_of_int(i as int)) == Some(i),
{
    let s = text_of_int(i as int);
    if i < 0 {
        let digits = digits_of((-i) as nat);
        lemma_digits_denote((-i) as nat);
        assert(s.skip(1) =~= digits);
    } else {
        lemma_digits_denote(i as nat);
    }
}

} // verus!
