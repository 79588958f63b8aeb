//! Text helpers: trimming, ordering and decimal or hexadecimal rendering of numbers.

use vstd::prelude::*;
use vstd::string::*;

verus! {

/// The Unicode `White_Space` property.
pub open spec fn is_white_space(c: char) -> bool {
    ||| '\u{9}' <= c <= '\u{d}'
    ||| c == '\u{20}'
    ||| c == '\u{85}'
    ||| c == '\u{a0}'
    ||| c == '\u{1680}'
    ||| '\u{2000}' <= c <= '\u{200a}'
    ||| c == '\u{2028}'
    ||| c == '\u{2029}'
    ||| c == '\u{202f}'
    ||| c == '\u{205f}'
    ||| c == '\u{3000}'
}

/// `s` without its leading white space.
pub open spec fn trimmed_start(s: Seq<char>) -> Seq<char>
    decreases s.len(),
{
    if s.len() > 0 && is_white_space(s[0]) {
        trimmed_start(s.drop_first())
    } else {
        s
    }
}

/// `s` without its trailing white space.
pub open spec fn trimmed_end(s: Seq<char>) -> Seq<char>
    decreases s.len(),
{
    if s.len() > 0 && is_white_space(s.last()) {
        trimmed_end(s.drop_last())
    } else {
        s
    }
}

/// `s` without leading and trailing white space.
pub open spec fn trimmed(s: Seq<char>) -> Seq<char> {
    trimmed_end(trimmed_start(s))
}

/// Text that trimming leaves alone and that is not empty: what an identifier holds.
pub open spec fn is_identifier(s: Seq<char>) -> bool {
    s.len() > 0 && !is_white_space(s[0]) && !is_white_space(s.last())
}

proof fn lemma_trimmed_start(s: Seq<char>)
    ensures
        trimmed_start(s).len() <= s.len(),
        trimmed_start(s).len() > 0 ==> !is_white_space(trimmed_start(s)[0]) && trimmed_start(
            s,
        ).last() == s.last(),
    decreases s.len(),
{
    if s.len() > 0 && is_white_space(s[0]) {
        lemma_trimmed_start(s.drop_first());
    }
}

proof fn lemma_trimmed_end(s: Seq<char>)
    ensures
        trimmed_end(s).len() <= s.len(),
        trimmed_end(s).len() > 0 ==> !is_white_space(trimmed_end(s).last()) && trimmed_end(s)[0]
            == s[0],
    decreases s.len(),
{
    if s.len() > 0 && is_white_space(s.last()) {
        lemma_trimmed_end(s.drop_last());
    }
}

/// What is left after trimming is empty or an identifier.
pub proof fn trimmed_text_is_an_identifier(s: Seq<char>)
    ensures
        trimmed(s).len() == 0 || is_identifier(trimmed(s)),
{
    lemma_trimmed_start(s);
    lemma_trimmed_end(trimmed_start(s));
}

/// Trimming an identifier, and so trimming twice, changes nothing.
pub proof fn trimming_an_identifier_keeps_it(s: Seq<char>)
    requires
        is_identifier(s),
    ensures
        trimmed(s) == s,
{
}

/// `str::trim`: the text without leading and trailing characters of the Unicode property
/// `White_Space`.
#[verifier::external_body]
pub(crate) fn trim(value: &str) -> (r: &str)
    ensures
        r@ == trimmed(value@),
{
    value.trim()
}

/// The order of texts: lexicographic by Unicode scalar values, a proper prefix first.
pub open spec fn text_before(a: Seq<char>, b: Seq<char>) -> bool
    decreases a.len(),
{
    if b.len() == 0 {
        false
    } else if a.len() == 0 {
        true
    } else if a[0] == b[0] {
        text_before(a.drop_first(), b.drop_first())
    } else {
        a[0] < b[0]
    }
}

pub proof fn text_before_is_asymmetric(a: Seq<char>, b: Seq<char>)
    ensures
        !(text_before(a, b) && text_before(b, a)),
    decreases a.len(),
{
    if a.len() > 0 && b.len() > 0 && a[0] == b[0] {
        text_before_is_asymmetric(a.drop_first(), b.drop_first());
    }
}

pub proof fn text_before_is_transitive(a: Seq<char>, b: Seq<char>, c: Seq<char>)
    requires
        text_before(a, b),
        text_before(b, c),
    ensures
        text_before(a, c),
    decreases a.len(),
{
    if a.len() > 0 && a[0] == b[0] && b[0] == c[0] {
        text_before_is_transitive(a.drop_first(), b.drop_first(), c.drop_first());
    }
}

pub proof fn text_before_is_total(a: Seq<char>, b: Seq<char>)
    ensures
        a == b || text_before(a, b) || text_before(b, a),
    decreases a.len(),
{
    if a.len() > 0 && b.len() > 0 {
        if a[0] == b[0] {
            text_before_is_total(a.drop_first(), b.drop_first());
            if a.drop_first() == b.drop_first() {
                assert(a =~= seq![a[0]] + a.drop_first());
                assert(b =~= seq![b[0]] + b.drop_first());
            }
        }
    } else if a.len() == 0 && b.len() == 0 {
        assert(a =~= b);
    }
}

/// Where `i` is the first position at which `a` and `b` differ or one of them ends, that position
/// decides.
proof fn lemma_text_before_from(a: Seq<char>, b: Seq<char>, i: int)
    requires
        0 <= i <= a.len(),
        i <= b.len(),
        a.take(i) == b.take(i),
    ensures
        text_before(a, b) == text_before(a.skip(i), b.skip(i)),
    decreases i,
{
    if i == 0 {
        assert(a.skip(0) =~= a);
        assert(b.skip(0) =~= b);
    } else {
        assert(a[0] == a.take(i)[0]);
        assert(b[0] == b.take(i)[0]);
        assert(a.drop_first().take(i - 1) =~= a.take(i).drop_first());
        assert(b.drop_first().take(i - 1) =~= b.take(i).drop_first());
        lemma_text_before_from(a.drop_first(), b.drop_first(), i - 1);
        assert(a.drop_first().skip(i - 1) =~= a.skip(i));
        assert(b.drop_first().skip(i - 1) =~= b.skip(i));
    }
}

/// How many characters two texts have in common from the first on.
fn common_length(a: &Vec<char>, b: &Vec<char>) -> (r: usize)
    ensures
        r <= a@.len(),
        r <= b@.len(),
        a@.take(r as int) == b@.take(r as int),
        r < a@.len() && r < b@.len() ==> a@[r as int] != b@[r as int],
{
    let mut i: usize = 0;
    while i < a.len() && i < b.len() && a[i] == b[i]
        invariant
            i <= a@.len(),
            i <= b@.len(),
            a@.take(i as int) == b@.take(i as int),
        decreases a@.len() - i,
    {
        assert(a@.take(i + 1) =~= a@.take(i as int).push(a@[i as int]));
        assert(b@.take(i + 1) =~= b@.take(i as int).push(b@[i as int]));
        i = i + 1;
    }
    i
}

/// Whether `a` comes before `b`.
pub fn is_text_before(a: &str, b: &str) -> (r: bool)
    ensures
        r == text_before(a@, b@),
{
    let left = characters(a);
    let right = characters(b);
    let i: usize = common_length(&left, &right);
    proof {
        lemma_text_before_from(a@, b@, i as int);
    }
    if i == right.len() {
        false
    } else if i == left.len() {
        true
    } else {
        left[i] < right[i]
    }
}

/// Whether two texts have the same characters.
pub fn is_same_text(a: &str, b: &str) -> (r: bool)
    ensures
        r == (a@ == b@),
{
    let left = characters(a);
    let right = characters(b);
    let i: usize = common_length(&left, &right);
    proof {
        assert(a@.take(a@.len() as int) =~= a@);
        assert(b@.take(b@.len() as int) =~= b@);
    }
    i == left.len() && i == right.len()
}

/// What `Debug` of `str` makes of a text: the text between quotation marks, with an escape in the
/// place of each character that cannot stand there as it is.
pub uninterp spec fn quoted_text(s: Seq<char>) -> Seq<char>;

/// `Debug` of `str`, as `{:?}` writes it. Which characters are escaped, and how, is left unsaid.
#[verifier::external_body]
pub(crate) fn quoted(value: &str) -> (r: String)
    ensures
        r@ == quoted_text(value@),
{
    format!("{value:?}")
}

/// The digit character of `d` in bases up to sixteen.
pub open spec fn digit(d: nat) -> char {
    if d < 10 {
        (48 + d) as char
    } else {
        (87 + d) as char
    }
}

/// `n` in decimal, without leading zeros.
pub open spec fn decimal(n: nat) -> Seq<char>
    decreases n,
{
    if n < 10 {
        seq![digit(n)]
    } else {
        decimal(n / 10).push(digit(n % 10))
    }
}

/// `n` in lower-case hexadecimal, padded with zeros to `width` digits.
pub open spec fn hexadecimal(n: nat, width: nat) -> Seq<char>
    decreases n, width,
{
    if n < 16 && width <= 1 {
        seq![digit(n)]
    } else {
        hexadecimal(
            n / 16,
            if width == 0 {
                0
            } else {
                (width - 1) as nat
            },
        ).push(digit(n % 16))
    }
}

/// `n` in decimal with a minus sign where it is negative.
pub open spec fn signed_decimal(n: int) -> Seq<char> {
    if n < 0 {
        seq!['-'] + decimal((-n) as nat)
    } else {
        decimal(n as nat)
    }
}

fn digit_text(d: u64) -> (r: &'static str)
    requires
        d < 16,
    ensures
        r@ == seq![digit(d as nat)],
{
    let r = match d {
        0 => "0",
        1 => "1",
        2 => "2",
        3 => "3",
        4 => "4",
        5 => "5",
        6 => "6",
        7 => "7",
        8 => "8",
        9 => "9",
        10 => "a",
        11 => "b",
        12 => "c",
        13 => "d",
        14 => "e",
        _ => "f",
    };
    proof {
        reveal_strlit("0");
        reveal_strlit("1");
        reveal_strlit("2");
        reveal_strlit("3");
        reveal_strlit("4");
        reveal_strlit("5");
        reveal_strlit("6");
        reveal_strlit("7");
        reveal_strlit("8");
        reveal_strlit("9");
        reveal_strlit("a");
        reveal_strlit("b");
        reveal_strlit("c");
        reveal_strlit("d");
        reveal_strlit("e");
        reveal_strlit("f");
        assert(r@ =~= seq![digit(d as nat)]);
    }
    r
}

/// Appends `n` in decimal.
pub fn append_decimal(out: &mut String, n: u64)
    ensures
        final(out)@ == old(out)@ + decimal(n as nat),
    decreases n,
{
    if n >= 10 {
        append_decimal(out, n / 10);
    }
    out.append(digit_text(n % 10));
    proof {
        assert(out@ =~= old(out)@ + decimal(n as nat));
    }
}

/// Appends `n` in decimal.
pub fn append_wide_decimal(out: &mut String, n: u128)
    ensures
        final(out)@ == old(out)@ + decimal(n as nat),
    decreases n,
{
    if n >= 10 {
        append_wide_decimal(out, n / 10);
    }
    out.append(digit_text((n % 10) as u64));
    proof {
        assert(out@ =~= old(out)@ + decimal(n as nat));
    }
}

/// Appends `n` in decimal, with its sign where it is negative.
pub fn append_signed_decimal(out: &mut String, n: i32)
    ensures
        final(out)@ == old(out)@ + signed_decimal(n as int),
{
    if n < 0 {
        out.append("-");
        proof {
            reveal_strlit("-");
            assert("-"@ =~= seq!['-']);
        }
        append_decimal(out, (-(n as i64)) as u64);
    } else {
        append_decimal(out, n as u64);
    }
    proof {
        assert(out@ =~= old(out)@ + signed_decimal(n as int));
    }
}

/// Appends `n` in lower-case hexadecimal, padded with zeros to `width` digits.
pub fn append_hexadecimal(out: &mut String, n: u64, width: u32)
    ensures
        final(out)@ == old(out)@ + hexadecimal(n as nat, width as nat),
    decreases n, width,
{
    if n >= 16 || width > 1 {
        let rest: u32 = if width == 0 {
            0
        } else {
            width - 1
        };
        append_hexadecimal(out, n / 16, rest);
    }
    out.append(digit_text(n % 16));
    proof {
        assert(out@ =~= old(out)@ + hexadecimal(n as nat, width as nat));
    }
}

/// Appends `true` or `false`.
pub fn append_bool(out: &mut String, value: bool)
    ensures
        final(out)@ == old(out)@ + bool_text(value),
{
    if value {
        out.append("true");
    } else {
        out.append("false");
    }
}

/// The text of a truth value.
pub open spec fn bool_text(value: bool) -> Seq<char> {
    if value {
        "true"@
    } else {
        "false"@
    }
}

/// The characters of a text.
pub fn characters(value: &str) -> (r: Vec<char>)
    ensures
        r@ == value@,
{
    let mut r: Vec<char> = Vec::new();
    let length: usize = value.unicode_len();
    let mut i: usize = 0;
    while i < length
        invariant
            i <= length,
            length == value@.len(),
            r@ == value@.take(i as int),
        decreases length - i,
    {
        r.push(value.get_char(i));
        assert(r@ =~= value@.take(i + 1));
        i = i + 1;
    }
    assert(r@ =~= value@);
    r
}

/// The texts of `parts`, one behind the other with `separator` between them.
pub open spec fn joined(parts: Seq<String>, separator: Seq<char>) -> Seq<char>
    decreases parts.len(),
{
    if parts.len() == 0 {
        Seq::empty()
    } else if parts.len() == 1 {
        parts[0]@
    } else {
        joined(parts.drop_last(), separator) + separator + parts.last()@
    }
}

/// Appends the texts of `parts` with `separator` between them.
pub fn append_joined(out: &mut String, parts: &[String], separator: &str)
    ensures
        final(out)@ == old(out)@ + joined(parts@, separator@),
{
    let mut i: usize = 0;
    proof {
        assert(parts@.take(0) =~= Seq::empty());
        assert(out@ =~= old(out)@ + joined(parts@.take(0), separator@));
    }
    while i < parts.len()
        invariant
            i <= parts@.len(),
            out@ == old(out)@ + joined(parts@.take(i as int), separator@),
        decreases parts@.len() - i,
    {
        let ghost before = out@;
        if i > 0 {
            out.append(separator);
        }
        out.append(parts[i].as_str());
        proof {
            let now = parts@.take(i + 1);
            assert(now.drop_last() =~= parts@.take(i as int));
            if i == 0 {
                assert(parts@.take(0).len() == 0);
                assert(out@ =~= old(out)@ + joined(now, separator@));
            } else {
                assert(out@ =~= old(out)@ + joined(now, separator@));
            }
        }
        i = i + 1;
    }
    assert(parts@.take(i as int) =~= parts@);
}

/// Why a text is no number.
#[derive(Debug, Clone, Copy, PartialEq, Eq, Structural)]
pub enum NumberFault {
    Empty,
    InvalidDigit,
    TooLarge,
}

impl NumberFault {
    /// The text of the fault.
    pub open spec fn text(self) -> Seq<char> {
        match self {
            NumberFault::Empty => "cannot parse integer from empty string"@,
            NumberFault::InvalidDigit => "invalid digit found in string"@,
            NumberFault::TooLarge => "number too large to fit in target type"@,
        }
    }

    pub fn message(self) -> (r: &'static str)
        ensures
            r@ == self.text(),
    {
        match self {
            NumberFault::Empty => "cannot parse integer from empty string",
            NumberFault::InvalidDigit => "invalid digit found in string",
            NumberFault::TooLarge => "number too large to fit in target type",
        }
    }
}

/// The value of a digit, in either case, where it is one in a base up to sixteen.
pub open spec fn digit_value(c: char, radix: nat) -> Option<nat> {
    let value = if '0' <= c <= '9' {
        c as int - '0' as int
    } else if 'a' <= c <= 'f' {
        c as int - 'a' as int + 10
    } else if 'A' <= c <= 'F' {
        c as int - 'A' as int + 10
    } else {
        16
    };
    if value < radix {
        Some(value as nat)
    } else {
        None
    }
}

/// The number that digits stand for, or the fault that comes first from the left.
pub open spec fn digits_value(digits: Seq<char>, radix: nat, maximum: nat) -> Result<
    nat,
    NumberFault,
>
    decreases digits.len(),
{
    if digits.len() == 0 {
        Ok(0)
    } else {
        match digits_value(digits.drop_last(), radix, maximum) {
            Err(fault) => Err(fault),
            Ok(value) => match digit_value(digits.last(), radix) {
                None => Err(NumberFault::InvalidDigit),
                Some(digit) => if value * radix + digit > maximum {
                    Err(NumberFault::TooLarge)
                } else {
                    Ok(value * radix + digit)
                },
            },
        }
    }
}

/// The number that a text stands for: digits, which a plus sign may stand before.
pub open spec fn number_value(text: Seq<char>, radix: nat, maximum: nat) -> Result<
    nat,
    NumberFault,
> {
    if text.len() == 0 {
        Err(NumberFault::Empty)
    } else if text[0] == '+' {
        if text.len() == 1 {
            Err(NumberFault::InvalidDigit)
        } else {
            digits_value(text.drop_first(), radix, maximum)
        }
    } else {
        digits_value(text, radix, maximum)
    }
}

fn value_of_digit(c: char, radix: u64) -> (r: Option<u64>)
    requires
        radix <= 16,
    ensures
        match r {
            Some(value) => digit_value(c, radix as nat) == Some(value as nat) && value < 16,
            None => digit_value(c, radix as nat) is None,
        },
{
    let value: u64 = if '0' <= c && c <= '9' {
        c as u64 - 48
    } else if 'a' <= c && c <= 'f' {
        c as u64 - 87
    } else if 'A' <= c && c <= 'F' {
        c as u64 - 55
    } else {
        16
    };
    if value < radix {
        Some(value)
    } else {
        None
    }
}

proof fn lemma_a_fault_stays(digits: Seq<char>, n: int, radix: nat, maximum: nat)
    requires
        0 <= n <= digits.len(),
        digits_value(digits.take(n), radix, maximum) is Err,
    ensures
        digits_value(digits, radix, maximum) == digits_value(digits.take(n), radix, maximum),
    decreases digits.len(),
{
    if n == digits.len() {
        assert(digits.take(n) =~= digits);
    } else {
        assert(digits.drop_last().take(n) =~= digits.take(n));
        lemma_a_fault_stays(digits.drop_last(), n, radix, maximum);
    }
}

/// Reads a number up to `maximum` in a base up to sixteen.
pub fn parse_number(text: &[char], radix: u64, maximum: u64) -> (r: Result<u64, NumberFault>)
    requires
        2 <= radix <= 16,
    ensures
        match r {
            Ok(value) => number_value(text@, radix as nat, maximum as nat) == Ok::<
                nat,
                NumberFault,
            >(value as nat),
            Err(fault) => number_value(text@, radix as nat, maximum as nat) == Err::<
                nat,
                NumberFault,
            >(fault),
        },
{
    if text.len() == 0 {
        return Err(NumberFault::Empty);
    }
    let start: usize = if text[0] == '+' {
        1
    } else {
        0
    };
    if start == text.len() {
        return Err(NumberFault::InvalidDigit);
    }
    let ghost digits = text@.skip(start as int);
    proof {
        if start == 1 {
            assert(text@.skip(1) =~= text@.drop_first());
        } else {
            assert(text@.skip(0) =~= text@);
        }
        assert(digits.take(0) =~= Seq::empty());
    }
    let mut value: u64 = 0;
    let mut i: usize = start;
    while i < text.len()
        invariant
            start <= i <= text@.len(),
            start <= 1,
            2 <= radix <= 16,
            value <= maximum,
            digits == text@.skip(start as int),
            digits_value(digits.take(i - start), radix as nat, maximum as nat) == Ok::<
                nat,
                NumberFault,
            >(value as nat),
            number_value(text@, radix as nat, maximum as nat) == digits_value(
                digits,
                radix as nat,
                maximum as nat,
            ),
        decreases text@.len() - i,
    {
        let ghost now = digits.take(i - start + 1);
        proof {
            assert(now.drop_last() =~= digits.take(i - start));
            assert(now.last() == text@[i as int]);
        }
        let digit: u64 = match value_of_digit(text[i], radix) {
            Some(digit) => digit,
            None => {
                proof {
                    lemma_a_fault_stays(digits, i - start + 1, radix as nat, maximum as nat);
                }
                return Err(NumberFault::InvalidDigit);
            },
        };
        assert(value * radix <= 0xffff_ffff_ffff_ffff * 16) by (nonlinear_arith)
            requires
                value <= 0xffff_ffff_ffff_ffff,
                radix <= 16,
        ;
        let next: u128 = value as u128 * radix as u128 + digit as u128;
        if next > maximum as u128 {
            proof {
                lemma_a_fault_stays(digits, i - start + 1, radix as nat, maximum as nat);
            }
            return Err(NumberFault::TooLarge);
        }
        value = next as u64;
        i = i + 1;
    }
    assert(digits.take(i - start) =~= digits);
    Ok(value)
}

/// A number is read as it is written in decimal.
pub proof fn a_decimal_is_read_as_written(n: nat, maximum: nat)
    requires
        n <= maximum,
    ensures
        number_value(decimal(n), 10, maximum) == Ok::<nat, NumberFault>(n),
{
    lemma_decimal_digits(n, maximum);
    lemma_decimal_is_made_of_digits(n);
    assert('0' <= decimal(n)[0] <= '9');
}

/// A decimal is made of digits only, and is not empty.
pub proof fn lemma_decimal_is_made_of_digits(n: nat)
    ensures
        decimal(n).len() > 0,
        forall|i: int|
            #![trigger decimal(n)[i]]
            0 <= i < decimal(n).len() ==> '0' <= decimal(n)[i] <= '9',
    decreases n,
{
    if n >= 10 {
        lemma_decimal_is_made_of_digits(n / 10);
    }
}

/// A number that is read is within the limit.
pub proof fn lemma_number_is_no_larger(text: Seq<char>, radix: nat, maximum: nat)
    ensures
        number_value(text, radix, maximum) matches Ok(value) ==> value <= maximum,
{
}

proof fn lemma_decimal_digits(n: nat, maximum: nat)
    requires
        n <= maximum,
    ensures
        digits_value(decimal(n), 10, maximum) == Ok::<nat, NumberFault>(n),
    decreases n,
{
    let written = decimal(n);
    if n < 10 {
        assert(written.drop_last() =~= Seq::empty());
        assert(digits_value(Seq::<char>::empty(), 10, maximum) == Ok::<nat, NumberFault>(0));
        assert(written.last() == digit(n));
        assert(digit_value(digit(n), 10) == Some(n));
    } else {
        lemma_decimal_digits(n / 10, maximum);
        assert(written.drop_last() =~= decimal(n / 10));
        assert(written.last() == digit(n % 10));
        assert(digit_value(digit(n % 10), 10) == Some(n % 10));
        assert(n / 10 * 10 + n % 10 == n);
    }
}

/// A decimal has its highest digit first: ten times a number and a digit is written as the number
/// with the digit behind it. A number in hexadecimal likewise, in small letters, with zeros before
/// it up to its width.
pub proof fn digits_are_written_by_place(n: nat, d: nat, width: nat)
    ensures
        d < 10 ==> decimal(d).len() == 1 && decimal(d)[0] as int == 48 + d,
        0 < n && d < 10 ==> decimal(10 * n + d) == decimal(n) + decimal(d),
        d < 10 ==> hexadecimal(d, 1).len() == 1 && hexadecimal(d, 1)[0] as int == 48 + d,
        10 <= d < 16 ==> hexadecimal(d, 1).len() == 1 && hexadecimal(d, 1)[0] as int == 87 + d,
        0 < width && d < 16 ==> hexadecimal(16 * n + d, width + 1) == hexadecimal(n, width)
            + hexadecimal(d, 1),
        0 < n && d < 16 ==> hexadecimal(16 * n + d, 1) == hexadecimal(n, 0) + hexadecimal(d, 1),
        hexadecimal(n, 0) == hexadecimal(n, 1),
{
    if 0 < n && d < 10 {
        let m = 10 * n + d;
        assert(m / 10 == n && m % 10 == d);
        assert(decimal(n).push(digit(d)) =~= decimal(n) + seq![digit(d)]);
    }
    if d < 16 {
        let m = 16 * n + d;
        assert(m / 16 == n && m % 16 == d);
        if 0 < width {
            assert(hexadecimal(n, width).push(digit(d)) =~= hexadecimal(n, width) + seq![digit(d)]);
        }
        if 0 < n {
            assert(hexadecimal(n, 0).push(digit(d)) =~= hexadecimal(n, 0) + seq![digit(d)]);
        }
    }
}

/// Digits count by place: a digit behind digits that stand for a number makes the number as many
/// times larger as the base says and adds its own value, as long as that is within the limit.
pub proof fn digits_count_by_place(
    digits: Seq<char>,
    c: char,
    value: nat,
    radix: nat,
    maximum: nat,
)
    requires
        2 <= radix <= 16,
        digits_value(digits, radix, maximum) == Ok::<nat, NumberFault>(value),
    ensures
        digits_value(Seq::<char>::empty(), radix, maximum) == Ok::<nat, NumberFault>(0),
        ({
            let d = if '0' <= c <= '9' {
                c as int - 48
            } else if 'a' <= c <= 'f' {
                c as int - 87
            } else if 'A' <= c <= 'F' {
                c as int - 55
            } else {
                16
            };
            let next = value * radix + d;
            let result = digits_value(digits.push(c), radix, maximum);
            &&& d >= radix ==> result == Err::<nat, _>(NumberFault::InvalidDigit)
            &&& d < radix && next > maximum ==> result == Err::<nat, _>(NumberFault::TooLarge)
            &&& d < radix && next <= maximum ==> result == Ok::<nat, NumberFault>(next as nat)
        }),
{
    assert(digits.push(c).drop_last() =~= digits);
}

/// A number is its digits, with a plus sign before them or not. Nothing, and a plus sign alone, is
/// no number.
pub proof fn a_number_is_its_digits(digits: Seq<char>, radix: nat, maximum: nat)
    requires
        digits.len() > 0,
        digits[0] != '+',
    ensures
        number_value(digits, radix, maximum) == digits_value(digits, radix, maximum),
        number_value(seq!['+'] + digits, radix, maximum) == digits_value(digits, radix, maximum),
        number_value(seq!['+'], radix, maximum) == Err::<nat, _>(NumberFault::InvalidDigit),
        number_value(Seq::<char>::empty(), radix, maximum) == Err::<nat, _>(NumberFault::Empty),
{
    assert((seq!['+'] + digits).drop_first() =~= digits);
}

/// Texts are ordered by the first character in which they differ, and a text comes before one that
/// it is the beginning of.
pub proof fn texts_are_ordered_by_their_first_difference(a: Seq<char>, b: Seq<char>, k: int)
    requires
        0 <= k <= a.len(),
        k <= b.len(),
        a.take(k) == b.take(k),
    ensures
        k < a.len() && k < b.len() && a[k] < b[k] ==> text_before(a, b),
        k < a.len() && k < b.len() && b[k] < a[k] ==> !text_before(a, b),
        k == a.len() && k < b.len() ==> text_before(a, b),
        k == b.len() ==> !text_before(a, b),
    decreases k,
{
    if k > 0 {
        assert(a.take(k)[0] == a[0] && b.take(k)[0] == b[0]);
        let x = a.drop_first();
        let y = b.drop_first();
        assert(x.take(k - 1) =~= a.take(k).drop_first());
        assert(y.take(k - 1) =~= b.take(k).drop_first());
        texts_are_ordered_by_their_first_difference(x, y, k - 1);
    }
}

/// Trimming takes white space off both ends and nothing else: what stands before and behind what is
/// left is white space, and what is left neither starts nor ends with any.
pub proof fn trimming_takes_off_white_space(s: Seq<char>) -> (ends: (int, int))
    ensures
        0 <= ends.0 <= ends.1 <= s.len(),
        trimmed(s) == s.subrange(ends.0, ends.1),
        forall|i: int| #![trigger s[i]] 0 <= i < ends.0 ==> is_white_space(s[i]),
        forall|i: int| #![trigger s[i]] ends.1 <= i < s.len() ==> is_white_space(s[i]),
        trimmed(s).len() > 0 ==> !is_white_space(trimmed(s)[0]) && !is_white_space(
            trimmed(s)[trimmed(s).len() - 1],
        ),
{
    let from = lemma_start(s);
    let rest = trimmed_start(s);
    let to = lemma_end(rest);
    trimmed_text_is_an_identifier(s);
    assert(trimmed(s) =~= s.subrange(from, from + to));
    assert forall|i: int| #![trigger s[i]] from + to <= i < s.len() implies is_white_space(
        s[i],
    ) by {
        assert(rest[i - from] == s[i]);
    }
    (from, from + to)
}

proof fn lemma_start(s: Seq<char>) -> (from: int)
    ensures
        0 <= from <= s.len(),
        trimmed_start(s) == s.subrange(from, s.len() as int),
        forall|i: int| #![trigger s[i]] 0 <= i < from ==> is_white_space(s[i]),
    decreases s.len(),
{
    if s.len() > 0 && is_white_space(s[0]) {
        let rest = s.drop_first();
        let from = lemma_start(rest);
        assert(rest.subrange(from, rest.len() as int) =~= s.subrange(from + 1, s.len() as int));
        assert forall|i: int| #![trigger s[i]] 0 <= i < from + 1 implies is_white_space(s[i]) by {
            if i > 0 {
                assert(rest[i - 1] == s[i]);
            }
        }
        from + 1
    } else {
        assert(s.subrange(0, s.len() as int) =~= s);
        0
    }
}

proof fn lemma_end(s: Seq<char>) -> (to: int)
    ensures
        0 <= to <= s.len(),
        trimmed_end(s) == s.subrange(0, to),
        forall|i: int| #![trigger s[i]] to <= i < s.len() ==> is_white_space(s[i]),
    decreases s.len(),
{
    if s.len() > 0 && is_white_space(s.last()) {
        let rest = s.drop_last();
        let to = lemma_end(rest);
        assert(rest.subrange(0, to) =~= s.subrange(0, to));
        assert forall|i: int| #![trigger s[i]] to <= i < s.len() implies is_white_space(s[i]) by {
            if i < rest.len() {
                assert(rest[i] == s[i]);
            }
        }
        to
    } else {
        assert(s.subrange(0, s.len() as int) =~= s);
        s.len() as int
    }
}

/// Joined texts stand in their order, with the separator between each and the next and nowhere
/// else.
pub proof fn texts_are_joined_in_order(parts: Seq<String>, last: String, separator: Seq<char>)
    ensures
        joined(Seq::<String>::empty(), separator) == Seq::<char>::empty(),
        joined(seq![last], separator) == last@,
        parts.len() > 0 ==> joined(parts.push(last), separator) == joined(parts, separator)
            + separator + last@,
{
    if parts.len() > 0 {
        assert(parts.push(last).drop_last() =~= parts);
    }
}

} // verus!
