use vstd::prelude::*;
use vstd::string::StringExecFns;

verus! {

/// The character of the decimal digit `d`.
pub open spec fn digit_char(d: nat) -> char
    recommends
        d < 10,
{
    if d == 0 {
        '0'
    } else if d == 1 {
        '1'
    } else if d == 2 {
        '2'
    } else if d == 3 {
        '3'
    } else if d == 4 {
        '4'
    } else if d == 5 {
        '5'
    } else if d == 6 {
        '6'
    } else if d == 7 {
        '7'
    } else if d == 8 {
        '8'
    } else {
        '9'
    }
}

/// `n` in decimal digits, without leading zeros.
pub open spec fn decimal(n: nat) -> Seq<char>
    decreases n,
{
    if n < 10 {
        seq![digit_char(n)]
    } else {
        decimal(n / 10).push(digit_char(n % 10))
    }
}

/// `n` in decimal digits, with a minus sign in front where it is negative.
pub open spec fn signed_decimal(n: int) -> Seq<char> {
    if n < 0 {
        seq!['-'] + decimal((-n) as nat)
    } else {
        decimal(n as nat)
    }
}

/// Whether `c` is one of the digits 0 to 9.
pub open spec fn is_digit(c: char) -> bool {
    '0' <= c <= '9'
}

/// The number that a list of digits writes, read as decimal.
pub open spec fn digits_value(digits: Seq<char>) -> nat
    decreases digits.len(),
{
    if digits.len() == 0 {
        0
    } else {
        digits_value(digits.drop_last()) * 10 + (digits.last() as nat - '0' as nat) as nat
    }
}

/// Whether `text` begins with a sign.
pub open spec fn has_sign(text: Seq<char>) -> bool {
    text.len() > 0 && (text[0] == '-' || text[0] == '+')
}

/// `text` without its sign.
pub open spec fn unsigned_part(text: Seq<char>) -> Seq<char> {
    if has_sign(text) {
        text.subrange(1, text.len() as int)
    } else {
        text
    }
}

/// Whether `digits` are decimal digits, and at least one.
pub open spec fn all_digits(digits: Seq<char>) -> bool {
    digits.len() > 0 && forall|i: int| 0 <= i < digits.len() ==> is_digit(#[trigger] digits[i])
}

/// The number that `text` writes: an optional sign, then decimal digits.
pub open spec fn number_written(text: Seq<char>) -> int {
    if text.len() > 0 && text[0] == '-' {
        -(digits_value(unsigned_part(text)) as int)
    } else {
        digits_value(unsigned_part(text)) as int
    }
}

/// The `i32` that `text` writes: an optional sign, then decimal digits and
/// nothing else, the number within the range of `i32`; `None` for any other
/// text.
pub open spec fn i32_written(text: Seq<char>) -> Option<i32> {
    if all_digits(unsigned_part(text)) && i32::MIN <= number_written(text) <= i32::MAX {
        Some(number_written(text) as i32)
    } else {
        None
    }
}

/// The decimal digits of a number are digits, and write the number.
pub proof fn lemma_decimal_reads_back(n: nat)
    ensures
        decimal(n).len() > 0,
        forall|i: int| 0 <= i < decimal(n).len() ==> is_digit(#[trigger] decimal(n)[i]),
        digits_value(decimal(n)) == n,
    decreases n,
{
    if n < 10 {
        assert(decimal(n).drop_last() =~= Seq::<char>::empty());
        assert(digits_value(decimal(n).drop_last()) == 0);
    } else {
        lemma_decimal_reads_back(n / 10);
        let front = decimal(n / 10);
        let all = decimal(n);
        assert(all.drop_last() =~= front);
        assert forall|i: int| 0 <= i < all.len() implies is_digit(#[trigger] all[i]) by {
            if i < front.len() {
                assert(all[i] == front[i]);
            }
        }
    }
}

/// The text of an `i32` writes that `i32`.
pub proof fn lemma_signed_decimal_reads_back(n: i32)
    ensures
        i32_written(signed_decimal(n as int)) == Some(n),
{
    let text = signed_decimal(n as int);
    if n < 0 {
        let digits = decimal((-n) as nat);
        lemma_decimal_reads_back((-n) as nat);
        assert(text[0] == '-');
        assert(unsigned_part(text) =~= digits);
    } else {
        lemma_decimal_reads_back(n as nat);
        assert(is_digit(text[0]));
        assert(unsigned_part(text) == text);
    }
}

fn digit_text(d: u128) -> (text: &'static str)
    requires
        d < 10,
    ensures
        text@ == seq![digit_char(d as nat)],
{
    proof {
        reveal_strlit("0");
        reveal_strlit("1");
        reveal_strlit("2");
        reveal_strlit("3");
        reveal_strlit("4");
        reveal_strlit("5");
        reveal_strlit("6");
        reveal_strlit("7");
        reveal_strlit("8");
        reveal_strlit("9");
    }
    let text = if d == 0 {
        "0"
    } else if d == 1 {
        "1"
    } else if d == 2 {
        "2"
    } else if d == 3 {
        "3"
    } else if d == 4 {
        "4"
    } else if d == 5 {
        "5"
    } else if d == 6 {
        "6"
    } else if d == 7 {
        "7"
    } else if d == 8 {
        "8"
    } else {
        "9"
    };
    assert(text@ =~= seq![digit_char(d as nat)]);
    text
}

/// `n` written in decimal.
pub fn unsigned_text(n: u128) -> (text: String)
    ensures
        text@ == decimal(n as nat),
    decreases n,
{
    if n < 10 {
        digit_text(n).to_owned()
    } else {
        let mut text = unsigned_text(n / 10);
        text.append(digit_text(n % 10));
        assert(text@ =~= decimal((n / 10) as nat).push(digit_char((n % 10) as nat)));
        text
    }
}

/// `n` written in decimal, with its sign where it is negative.
pub fn signed_text(n: i64) -> (text: String)
    ensures
        text@ == signed_decimal(n as int),
{
    if n < 0 {
        let magnitude: u128 = if n == i64::MIN {
            9223372036854775808u128
        } else {
            (-n) as u128
        };
        proof {
            reveal_strlit("-");
        }
        let mut text = "-".to_owned();
        let digits = unsigned_text(magnitude);
        text.append(digits.as_str());
        assert(text@ =~= seq!['-'] + decimal((-n) as nat));
        text
    } else {
        unsigned_text(n as u128)
    }
}

/// Whether two texts are the same.
pub fn same_text(left: &str, right: &str) -> (same: bool)
    ensures
        same == (left@ == right@),
{
    let left = left.to_owned();
    let right = right.to_owned();
    left == right
}

/// More digits write no smaller number.
pub proof fn lemma_digits_value_grows(digits: Seq<char>, shorter: int)
    requires
        0 <= shorter <= digits.len(),
        forall|i: int| 0 <= i < digits.len() ==> is_digit(#[trigger] digits[i]),
    ensures
        digits_value(digits.take(shorter)) <= digits_value(digits),
    decreases digits.len() - shorter,
{
    if shorter < digits.len() {
        let front = digits.drop_last();
        assert(is_digit(digits[digits.len() - 1]));
        if shorter == front.len() {
            assert(digits.take(shorter) =~= front);
        } else {
            assert forall|i: int| 0 <= i < front.len() implies is_digit(#[trigger] front[i]) by {
                assert(front[i] == digits[i]);
            }
            lemma_digits_value_grows(front, shorter);
            assert(front.take(shorter) =~= digits.take(shorter));
        }
    } else {
        assert(digits.take(shorter) =~= digits);
    }
}

/// The `i32` that `text` writes: an optional sign, then decimal digits and
/// nothing else; `None` for any other text, and for a number that no `i32`
/// holds.
pub fn parse_i32(text: &str) -> (number: Option<i32>)
    ensures
        number == i32_written(text@),
{
    broadcast use vstd::string::is_ascii_spec_bytes;

    let ghost chars = text@;
    let ghost signed = has_sign(chars);
    let ghost digits = unsigned_part(chars);
    if !text.is_ascii() {
        proof {
            let i = choose|i: int| 0 <= i < chars.len() && !('\0' <= #[trigger] chars[i] <= '\u{7f}');
            if signed {
                assert(i > 0);
                assert(digits[i - 1] == chars[i]);
                assert(!is_digit(digits[i - 1]));
            } else {
                assert(digits[i] == chars[i]);
                assert(!is_digit(digits[i]));
            }
        }
        return None;
    }
    let bytes = text.as_bytes();
    assert(bytes@.len() == chars.len());
    assert(forall|i: int| 0 <= i < chars.len() ==> bytes@[i] == #[trigger] chars[i] as u8);
    let length = bytes.len();
    if length == 0 {
        return None;
    }
    let negative = bytes[0] == 45;
    let start: usize = if negative || bytes[0] == 43 {
        1
    } else {
        0
    };
    proof {
        assert(chars[0] as u8 == bytes@[0]);
        assert(signed == (start == 1));
        assert(negative == (chars[0] == '-'));
        assert(digits.len() == length - start);
    }
    if start == length {
        return None;
    }
    let mut value: i64 = 0;
    let mut i: usize = start;
    assert(digits.take(0) =~= Seq::<char>::empty());
    while i < length
        invariant
            start <= i <= length,
            chars == text@,
            signed == has_sign(chars),
            signed == (start == 1),
            digits == unsigned_part(chars),
            negative == (chars[0] == '-'),
            length == chars.len(),
            bytes@.len() == length,
            digits.len() == length - start,
            forall|k: int| 0 <= k < chars.len() ==> bytes@[k] == #[trigger] chars[k] as u8,
            forall|k: int| 0 <= k < chars.len() ==> '\0' <= #[trigger] chars[k] <= '\u{7f}',
            forall|k: int| 0 <= k < digits.len() ==> #[trigger] digits[k] == chars[k + start],
            forall|k: int| 0 <= k < i - start ==> is_digit(#[trigger] digits[k]),
            value == digits_value(digits.take(i - start)),
            0 <= value <= 2147483648,
        decreases length - i,
    {
        let byte = bytes[i];
        let ghost c = chars[i as int];
        proof {
            assert(digits[i - start] == c);
            assert(byte == c as u8);
        }
        if byte < 48 || byte > 57 {
            assert(!is_digit(digits[i - start]));
            return None;
        }
        let ghost shorter = digits.take(i - start);
        let ghost longer = digits.take(i - start + 1);
        proof {
            assert(is_digit(c));
            assert(longer.drop_last() =~= shorter);
            assert(longer.last() == c);
            assert((c as nat - '0' as nat) as nat == byte - 48);
        }
        value = value * 10 + (byte - 48) as i64;
        if value > 2147483648 {
            proof {
                if forall|k: int| 0 <= k < digits.len() ==> is_digit(#[trigger] digits[k]) {
                    lemma_digits_value_grows(digits, i - start + 1);
                }
            }
            return None;
        }
        i += 1;
    }
    assert(digits.take(digits.len() as int) =~= digits);
    if negative {
        Some((-value) as i32)
    } else if value > 2147483647 {
        None
    } else {
        Some(value as i32)
    }
}

} // verus!
