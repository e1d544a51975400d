//! Window handles as text: how they are written out and read back.

use crate::window::WindowHandle;
use vstd::prelude::*;
use vstd::string::StringExecFns;

verus! {

/// The digits of the bases up to sixteen, by value.
pub open spec fn digit_chars() -> Seq<char> {
    seq!['0', '1', '2', '3', '4', '5', '6', '7', '8', '9', 'a', 'b', 'c', 'd', 'e', 'f']
}

/// `n` in hexadecimal, most significant digit first, without leading
/// zeros; zero is written `0`.
pub open spec fn hex_digits(n: nat) -> Seq<char>
    decreases n,
{
    if n < 16 {
        seq![digit_chars()[n as int]]
    } else {
        hex_digits(n / 16).push(digit_chars()[(n % 16) as int])
    }
}

/// `n` in decimal, most significant digit first, without leading zeros;
/// zero is written `0`.
pub open spec fn decimal_digits(n: nat) -> Seq<char>
    decreases n,
{
    if n < 10 {
        seq![digit_chars()[n as int]]
    } else {
        decimal_digits(n / 10).push(digit_chars()[(n % 10) as int])
    }
}

/// A handle in hexadecimal: `0x2002`, and `-0x1f` below zero.
pub open spec fn hex_text(value: int) -> Seq<char> {
    if value < 0 {
        seq!['-', '0', 'x'] + hex_digits((-value) as nat)
    } else {
        seq!['0', 'x'] + hex_digits(value as nat)
    }
}

/// A handle in decimal: `8194`, and `-31` below zero.
pub open spec fn decimal_text(value: int) -> Seq<char> {
    if value < 0 {
        seq!['-'] + decimal_digits((-value) as nat)
    } else {
        decimal_digits(value as nat)
    }
}

/// One digit as a string.
fn digit_str(digit: u128) -> (text: &'static str)
    requires
        digit < 16,
    ensures
        text@ == seq![digit_chars()[digit as int]],
{
    proof {
        reveal_strlit("0");
        reveal_strlit("1");
        reveal_strlit("2");
        reveal_strlit("3");
        reveal_strlit("4");
        reveal_strlit("5");
        reveal_strlit("6");
        reveal_strlit("7");
        reveal_strlit("8");
        reveal_strlit("9");
        reveal_strlit("a");
        reveal_strlit("b");
        reveal_strlit("c");
        reveal_strlit("d");
        reveal_strlit("e");
        reveal_strlit("f");
    }
    let text = if digit == 0 {
        "0"
    } else if digit == 1 {
        "1"
    } else if digit == 2 {
        "2"
    } else if digit == 3 {
        "3"
    } else if digit == 4 {
        "4"
    } else if digit == 5 {
        "5"
    } else if digit == 6 {
        "6"
    } else if digit == 7 {
        "7"
    } else if digit == 8 {
        "8"
    } else if digit == 9 {
        "9"
    } else if digit == 10 {
        "a"
    } else if digit == 11 {
        "b"
    } else if digit == 12 {
        "c"
    } else if digit == 13 {
        "d"
    } else if digit == 14 {
        "e"
    } else {
        "f"
    };
    assert(text@ =~= seq![digit_chars()[digit as int]]);
    text
}

/// Appends `n` in hexadecimal to `out`.
fn push_hex_digits(out: &mut String, n: u128)
    ensures
        final(out)@ == old(out)@ + hex_digits(n as nat),
    decreases n,
{
    if n >= 16 {
        push_hex_digits(out, n / 16);
    }
    out.append(digit_str(n % 16));
    assert(out@ =~= old(out)@ + hex_digits(n as nat));
}

/// Appends `n` in decimal to `out`.
fn push_decimal_digits(out: &mut String, n: u128)
    ensures
        final(out)@ == old(out)@ + decimal_digits(n as nat),
    decreases n,
{
    if n >= 10 {
        push_decimal_digits(out, n / 10);
    }
    out.append(digit_str(n % 10));
    assert(out@ =~= old(out)@ + decimal_digits(n as nat));
}

/// Appends a handle in hexadecimal to `out`.
pub fn push_hex(out: &mut String, hwnd: WindowHandle)
    ensures
        final(out)@ == old(out)@ + hex_text(hwnd.0 as int),
{
    let value: i128 = hwnd.0 as i128;
    proof {
        reveal_strlit("-0x");
        reveal_strlit("0x");
    }
    if value < 0 {
        out.append("-0x");
        push_hex_digits(out, (-value) as u128);
    } else {
        out.append("0x");
        push_hex_digits(out, value as u128);
    }
    assert(out@ =~= old(out)@ + hex_text(hwnd.0 as int));
}

/// Appends a handle in decimal to `out`.
pub fn push_decimal(out: &mut String, hwnd: WindowHandle)
    ensures
        final(out)@ == old(out)@ + decimal_text(hwnd.0 as int),
{
    let value: i128 = hwnd.0 as i128;
    proof {
        reveal_strlit("-");
    }
    if value < 0 {
        out.append("-");
        push_decimal_digits(out, (-value) as u128);
    } else {
        push_decimal_digits(out, value as u128);
    }
    assert(out@ =~= old(out)@ + decimal_text(hwnd.0 as int));
}

/// Whether `c` is white space: a character with the Unicode property `White_Space`.
pub open spec fn is_space(c: char) -> bool {
    let code = c as u32;
    ||| 0x09 <= code <= 0x0D
    ||| code == 0x20
    ||| code == 0x85
    ||| code == 0xA0
    ||| code == 0x1680
    ||| 0x2000 <= code <= 0x200A
    ||| code == 0x2028
    ||| code == 0x2029
    ||| code == 0x202F
    ||| code == 0x205F
    ||| code == 0x3000
}

/// Whether `c` is white space.
pub fn is_whitespace(c: char) -> (space: bool)
    ensures
        space == is_space(c),
{
    let code: u32 = c as u32;
    (0x09 <= code && code <= 0x0D) || code == 0x20 || code == 0x85 || code == 0xA0 || code
        == 0x1680 || (0x2000 <= code && code <= 0x200A) || code == 0x2028 || code == 0x2029
        || code == 0x202F || code == 0x205F || code == 0x3000
}

/// The value of `c` as a digit: `0` to `9`, then `a` to `f` in either case.
pub open spec fn digit_of(c: char) -> Option<nat> {
    let code = c as u32;
    if 0x30 <= code <= 0x39 {
        Some((code - 0x30) as nat)
    } else if 0x61 <= code <= 0x66 {
        Some((code - 0x61 + 10) as nat)
    } else if 0x41 <= code <= 0x46 {
        Some((code - 0x41 + 10) as nat)
    } else {
        None
    }
}

/// Whether `c` is a digit of base `base`.
pub open spec fn is_digit(c: char, base: nat) -> bool {
    match digit_of(c) {
        Some(d) => d < base,
        None => false,
    }
}

/// Whether every character of `text` is a digit of base `base`.
pub open spec fn all_digits(text: Seq<char>, base: nat) -> bool {
    forall|i: int| 0 <= i < text.len() ==> is_digit(#[trigger] text[i], base)
}

/// The number that the digits of `text` denote in base `base`.
pub open spec fn number(text: Seq<char>, base: nat) -> nat
    decreases text.len(),
{
    if text.len() == 0 {
        0
    } else {
        number(text.drop_last(), base) * base + digit_of(text.last()).unwrap()
    }
}

/// What `text` denotes as a number without sign: decimal digits, or
/// hexadecimal digits behind `0x` or `0X`. At least one digit is needed.
pub open spec fn unsigned_value(text: Seq<char>) -> Option<nat> {
    if text.len() >= 2 && text[0] == '0' && (text[1] == 'x' || text[1] == 'X') {
        if text.len() > 2 && all_digits(text.skip(2), 16) {
            Some(number(text.skip(2), 16))
        } else {
            None
        }
    } else if text.len() > 0 && all_digits(text, 10) {
        Some(number(text, 10))
    } else {
        None
    }
}

/// What `text` denotes as a number: an unsigned number, with `+` or `-`
/// in front of it or without.
pub open spec fn signed_value(text: Seq<char>) -> Option<int> {
    if text.len() > 0 && text[0] == '-' {
        match unsigned_value(text.skip(1)) {
            Some(n) => Some(-(n as int)),
            None => None,
        }
    } else if text.len() > 0 && text[0] == '+' {
        match unsigned_value(text.skip(1)) {
            Some(n) => Some(n as int),
            None => None,
        }
    } else {
        match unsigned_value(text) {
            Some(n) => Some(n as int),
            None => None,
        }
    }
}

/// The handle that `text` denotes: a number that a handle can hold.
pub open spec fn parsed_handle(text: Seq<char>) -> Option<WindowHandle> {
    match signed_value(text) {
        Some(value) => if isize::MIN <= value <= isize::MAX {
            Some(WindowHandle(value as isize))
        } else {
            None
        },
        None => None,
    }
}

/// A number is at least the number that any of its leading digits denote.
proof fn lemma_number_grows(text: Seq<char>, base: nat, taken: int)
    requires
        1 <= base,
        0 <= taken <= text.len(),
    ensures
        number(text.take(taken), base) <= number(text, base),
    decreases text.len(),
{
    if taken == text.len() {
        assert(text.take(taken) =~= text);
    } else {
        assert(text.drop_last().take(taken) =~= text.take(taken));
        lemma_number_grows(text.drop_last(), base, taken);
        assert(number(text.drop_last(), base) <= number(text.drop_last(), base) * base)
            by (nonlinear_arith)
            requires
                1 <= base,
        ;
    }
}

/// Each digit character has the value of its place among the digits.
proof fn lemma_digit_chars(d: nat)
    requires
        d < 16,
    ensures
        digit_of(digit_chars()[d as int]) == Some(d),
{
    if d == 0 {
    } else if d == 1 {
    } else if d == 2 {
    } else if d == 3 {
    } else if d == 4 {
    } else if d == 5 {
    } else if d == 6 {
    } else if d == 7 {
    } else if d == 8 {
    } else if d == 9 {
    } else if d == 10 {
    } else if d == 11 {
    } else if d == 12 {
    } else if d == 13 {
    } else if d == 14 {
    } else {
    }
}

/// The hexadecimal digits of a number are digits, and denote the number.
proof fn lemma_hex_digits_denote(n: nat)
    ensures
        hex_digits(n).len() >= 1,
        all_digits(hex_digits(n), 16),
        number(hex_digits(n), 16) == n,
    decreases n,
{
    let text = hex_digits(n);
    lemma_digit_chars(n % 16);
    if n < 16 {
        assert(text.drop_last() =~= Seq::empty());
        assert(number(text.drop_last(), 16) == 0);
    } else {
        lemma_hex_digits_denote(n / 16);
        assert(text.drop_last() =~= hex_digits(n / 16));
        assert forall|i: int| 0 <= i < text.len() implies is_digit(#[trigger] text[i], 16) by {
            if i < text.len() - 1 {
                assert(text[i] == hex_digits(n / 16)[i]);
            }
        }
    }
}

/// The decimal digits of a number are digits, and denote the number.
proof fn lemma_decimal_digits_denote(n: nat)
    ensures
        decimal_digits(n).len() >= 1,
        all_digits(decimal_digits(n), 10),
        number(decimal_digits(n), 10) == n,
    decreases n,
{
    let text = decimal_digits(n);
    lemma_digit_chars(n % 10);
    if n < 10 {
        assert(text.drop_last() =~= Seq::empty());
        assert(number(text.drop_last(), 10) == 0);
    } else {
        lemma_decimal_digits_denote(n / 10);
        assert(text.drop_last() =~= decimal_digits(n / 10));
        assert forall|i: int| 0 <= i < text.len() implies is_digit(#[trigger] text[i], 10) by {
            if i < text.len() - 1 {
                assert(text[i] == decimal_digits(n / 10)[i]);
            }
        }
    }
}

/// A handle that is written out, in hexadecimal or in decimal, is read
/// back as the same handle.
pub proof fn lemma_written_handle_is_read_back(hwnd: WindowHandle)
    ensures
        parsed_handle(hex_text(hwnd.0 as int)) == Some(hwnd),
        parsed_handle(decimal_text(hwnd.0 as int)) == Some(hwnd),
{
    let value = hwnd.0 as int;
    let magnitude = (if value < 0 {
        -value
    } else {
        value
    }) as nat;
    lemma_hex_digits_denote(magnitude);
    lemma_decimal_digits_denote(magnitude);
    let hex = hex_text(value);
    let decimal = decimal_text(value);
    let prefixed = seq!['0', 'x'] + hex_digits(magnitude);
    assert(prefixed.skip(2) =~= hex_digits(magnitude));
    assert(unsigned_value(prefixed) == Some(magnitude));
    let digits = decimal_digits(magnitude);
    assert(is_digit(digits[0], 10));
    if digits.len() >= 2 {
        assert(is_digit(digits[1], 10));
    }
    assert(unsigned_value(digits) == Some(magnitude));
    if value < 0 {
        assert(hex.skip(1) =~= prefixed);
        assert(decimal.skip(1) =~= digits);
    } else {
        assert(hex =~= prefixed);
    }
}

/// The value of `c` as a digit of base `base`, if it is one.
fn digit_value(c: char, base: u128) -> (digit: Option<u128>)
    requires
        base <= 16,
    ensures
        digit == match digit_of(c) {
            Some(d) => if d < base {
                Some(d as u128)
            } else {
                None
            },
            None => None,
        },
{
    let code: u32 = c as u32;
    let value: u32 = if 0x30 <= code && code <= 0x39 {
        code - 0x30
    } else if 0x61 <= code && code <= 0x66 {
        code - 0x61 + 10
    } else if 0x41 <= code && code <= 0x46 {
        code - 0x41 + 10
    } else {
        return None;
    };
    if (value as u128) < base {
        Some(value as u128)
    } else {
        None
    }
}

/// The largest magnitude that is read exactly; none that a handle holds is larger.
const MAGNITUDE_CAP: u128 = 0x1_0000_0000_0000_0000;

/// Reads `chars[from..to]` as digits of base `base`. The result is `None`
/// where a character is no digit, where there is none, and where the
/// number is beyond `MAGNITUDE_CAP`.
fn read_digits(chars: &Vec<char>, from: usize, to: usize, base: u128) -> (value: Option<u128>)
    requires
        from <= to <= chars@.len(),
        2 <= base <= 16,
    ensures
        value == if from < to && all_digits(chars@.subrange(from as int, to as int), base as nat)
            && number(chars@.subrange(from as int, to as int), base as nat) <= MAGNITUDE_CAP {
            Some(number(chars@.subrange(from as int, to as int), base as nat) as u128)
        } else {
            None
        },
{
    let ghost text = chars@.subrange(from as int, to as int);
    if from == to {
        return None;
    }
    let mut acc: u128 = 0;
    let mut i: usize = from;
    assert(text.take(0) =~= Seq::empty());
    while i < to
        invariant
            from <= i <= to <= chars@.len(),
            2 <= base <= 16,
            text == chars@.subrange(from as int, to as int),
            all_digits(text.take(i - from), base as nat),
            acc == number(text.take(i - from), base as nat),
            acc <= MAGNITUDE_CAP,
        decreases to - i,
    {
        let ghost before = text.take(i - from);
        let ghost after = text.take(i - from + 1);
        proof {
            assert(after.drop_last() =~= before);
            assert(after.last() == chars@[i as int]);
            assert(text[i - from] == chars@[i as int]);
        }
        match digit_value(chars[i], base) {
            None => {
                return None;
            },
            Some(digit) => {
                assert(all_digits(after, base as nat)) by {
                    assert forall|k: int| 0 <= k < after.len() implies is_digit(
                        #[trigger] after[k],
                        base as nat,
                    ) by {
                        if k < before.len() {
                            assert(after[k] == before[k]);
                        }
                    }
                }
                assert(acc * base <= MAGNITUDE_CAP * 16) by (nonlinear_arith)
                    requires
                        acc <= MAGNITUDE_CAP,
                        base <= 16,
                ;
                let next: u128 = acc * base + digit;
                assert(next == number(after, base as nat));
                if next > MAGNITUDE_CAP {
                    proof {
                        lemma_number_grows(text, base as nat, i - from + 1);
                    }
                    return None;
                }
                acc = next;
            },
        }
        i = i + 1;
    }
    assert(text.take(to - from) =~= text);
    Some(acc)
}

/// Reads `chars[from..to]` as a number without sign.
fn read_unsigned(chars: &Vec<char>, from: usize, to: usize) -> (value: Option<u128>)
    requires
        from <= to <= chars@.len(),
    ensures
        value == match unsigned_value(chars@.subrange(from as int, to as int)) {
            Some(n) => if n <= MAGNITUDE_CAP {
                Some(n as u128)
            } else {
                None
            },
            None => None,
        },
{
    let ghost text = chars@.subrange(from as int, to as int);
    if to - from >= 2 && chars[from] == '0' && (chars[from + 1] == 'x' || chars[from + 1] == 'X') {
        assert(text[0] == chars@[from as int] && text[1] == chars@[from + 1]);
        assert(text.skip(2) =~= chars@.subrange(from + 2, to as int));
        read_digits(chars, from + 2, to, 16)
    } else {
        if to - from >= 2 {
            assert(text[0] == chars@[from as int] && text[1] == chars@[from + 1]);
        }
        read_digits(chars, from, to, 10)
    }
}

/// Reads `chars[from..to]` as a handle.
pub fn read_handle(chars: &Vec<char>, from: usize, to: usize) -> (hwnd: Option<WindowHandle>)
    requires
        from <= to <= chars@.len(),
    ensures
        hwnd == parsed_handle(chars@.subrange(from as int, to as int)),
{
    let ghost text = chars@.subrange(from as int, to as int);
    if from < to {
        assert(text[0] == chars@[from as int]);
        assert(text.skip(1) =~= chars@.subrange(from + 1, to as int));
    }
    if from < to && chars[from] == '-' {
        match read_unsigned(chars, from + 1, to) {
            Some(magnitude) => {
                if magnitude <= isize::MAX as u128 + 1 {
                    Some(WindowHandle((-(magnitude as i128)) as isize))
                } else {
                    None
                }
            },
            None => None,
        }
    } else {
        let digits_from: usize = if from < to && chars[from] == '+' {
            from + 1
        } else {
            from
        };
        match read_unsigned(chars, digits_from, to) {
            Some(magnitude) => {
                if magnitude <= isize::MAX as u128 {
                    Some(WindowHandle(magnitude as isize))
                } else {
                    None
                }
            },
            None => None,
        }
    }
}

/// The characters of `text`, one by one.
pub fn chars_of(text: &str) -> (chars: Vec<char>)
    ensures
        chars@ == text@,
{
    let mut chars: Vec<char> = Vec::new();
    for c in it: text.chars()
        invariant
            it.seq() == text@,
            chars@ == text@.take(it.index() as int),
    {
        assert(text@.take(it.index() + 1) =~= text@.take(it.index() as int).push(c));
        chars.push(c);
    }
    assert(text@.take(text@.len() as int) =~= text@);
    chars
}

} // verus!
