//! Scalar values as text: decimal integers, booleans and UUIDs, read from
//! text and written back.
use vstd::prelude::*;
use crate::text::{characters, same_text};

verus! {

/// Whether `c` is one of `0` to `9`.
pub open spec fn is_digit(c: char) -> bool {
    '0' <= c && c <= '9'
}

/// The number that a decimal digit stands for.
pub open spec fn digit_value(c: char) -> nat {
    (c as int - 48) as nat
}

/// Whether every character is a decimal digit.
pub open spec fn are_digits(s: Seq<char>) -> bool {
    forall|i: int| 0 <= i < s.len() ==> is_digit(#[trigger] s[i])
}

/// The number that a run of decimal digits stands for.
pub open spec fn decimal(s: Seq<char>) -> nat
    decreases s.len(),
{
    if s.len() == 0 {
        0
    } else {
        decimal(s.drop_last()) * 10 + digit_value(s.last())
    }
}

/// The integer that a text stands for: an optional `-`, then at least one
/// decimal digit, and the whole within the range of 64-bit signed integers.
pub open spec fn spec_parse_integer(text: Seq<char>) -> Option<int> {
    let negative = text.len() > 0 && text[0] == '-';
    let digits = if negative {
        text.skip(1)
    } else {
        text
    };
    let magnitude = decimal(digits) as int;
    let value = if negative {
        -magnitude
    } else {
        magnitude
    };
    if digits.len() > 0 && are_digits(digits) && i64::MIN <= value <= i64::MAX {
        Some(value)
    } else {
        None
    }
}

/// The truth value that a text stands for: `true` or `false`, nothing else.
pub open spec fn spec_parse_boolean(text: Seq<char>) -> Option<bool> {
    if text == "true"@ {
        Some(true)
    } else if text == "false"@ {
        Some(false)
    } else {
        None
    }
}

/// Whether `c` is a hexadecimal digit of either case.
pub open spec fn is_hex(c: char) -> bool {
    is_digit(c) || ('a' <= c && c <= 'f') || ('A' <= c && c <= 'F')
}

/// The number that a hexadecimal digit stands for.
pub open spec fn hex_value(c: char) -> nat {
    if is_digit(c) {
        (c as int - 48) as nat
    } else if 'a' <= c && c <= 'f' {
        (c as int - 87) as nat
    } else {
        (c as int - 55) as nat
    }
}

/// The number that a run of hexadecimal digits stands for.
pub open spec fn hex(s: Seq<char>) -> nat
    decreases s.len(),
{
    if s.len() == 0 {
        0
    } else {
        hex(s.drop_last()) * 16 + hex_value(s.last())
    }
}

/// Where the hyphens stand in the text of a UUID.
pub open spec fn hyphen_position(i: int) -> bool {
    i == 8 || i == 13 || i == 18 || i == 23
}

/// Whether a text has the form `xxxxxxxx-xxxx-xxxx-xxxx-xxxxxxxxxxxx` with a
/// hexadecimal digit for each `x`.
pub open spec fn is_uuid(text: Seq<char>) -> bool {
    text.len() == 36 && forall|i: int|
        0 <= i < 36 ==> if hyphen_position(i) {
            #[trigger] text[i] == '-'
        } else {
            is_hex(text[i])
        }
}

/// The text without its hyphens.
pub open spec fn without_hyphens(s: Seq<char>) -> Seq<char>
    decreases s.len(),
{
    if s.len() == 0 {
        s
    } else if s.last() == '-' {
        without_hyphens(s.drop_last())
    } else {
        without_hyphens(s.drop_last()).push(s.last())
    }
}

/// The 128-bit number that the text of a UUID stands for.
pub open spec fn spec_parse_uuid(text: Seq<char>) -> Option<nat> {
    if is_uuid(text) {
        Some(hex(without_hyphens(text)))
    } else {
        None
    }
}

/// Sixteen to the power of `n`.
pub open spec fn pow16(n: nat) -> nat
    decreases n,
{
    if n == 0 {
        1
    } else {
        16 * pow16((n - 1) as nat)
    }
}

/// A run of decimal digits stands for no less than any of its beginnings.
pub proof fn lemma_decimal_grows(s: Seq<char>, k: int)
    requires
        0 <= k <= s.len(),
    ensures
        decimal(s.take(k)) <= decimal(s),
    decreases s.len(),
{
    if k == s.len() {
        assert(s.take(k) == s);
    } else {
        lemma_decimal_grows(s.drop_last(), k);
        assert(s.drop_last().take(k) == s.take(k));
    }
}

/// A run of `n` hexadecimal digits stands for a number below sixteen to the `n`.
pub proof fn lemma_hex_bound(s: Seq<char>)
    requires
        forall|i: int| 0 <= i < s.len() ==> is_hex(#[trigger] s[i]),
    ensures
        hex(s) < pow16(s.len()),
    decreases s.len(),
{
    if s.len() > 0 {
        lemma_hex_bound(s.drop_last());
        assert(is_hex(s.last()));
        assert(hex_value(s.last()) <= 15);
    }
}

/// Powers of sixteen grow with the exponent; the thirty-second is two to the 128.
pub proof fn lemma_pow16(n: nat)
    requires
        n <= 32,
    ensures
        pow16(n) <= pow16(32),
        pow16(32) == 0x1_0000_0000_0000_0000_0000_0000_0000_0000,
        n < 32 ==> 16 * pow16(n) <= pow16(32),
    decreases 32 - n,
{
    if n < 32 {
        lemma_pow16(n + 1);
    } else {
        assert(pow16(8) == 0x1_0000_0000) by {
            reveal_with_fuel(pow16, 9);
        }
        assert(pow16(16) == 0x1_0000_0000_0000_0000) by {
            reveal_with_fuel(pow16, 9);
        }
        assert(pow16(24) == 0x1_0000_0000_0000_0000_0000_0000) by {
            reveal_with_fuel(pow16, 9);
        }
        assert(pow16(32) == 0x1_0000_0000_0000_0000_0000_0000_0000_0000) by {
            reveal_with_fuel(pow16, 9);
        }
    }
}

/// Reads a decimal integer.
pub fn parse_integer(text: &str) -> (value: Option<i64>)
    ensures
        value is Some <==> spec_parse_integer(text@) is Some,
        value matches Some(v) ==> spec_parse_integer(text@) == Some(v as int),
{
    let chars = characters(text);
    let n = chars.len();
    let negative = n > 0 && chars[0] == '-';
    let start: usize = if negative {
        1
    } else {
        0
    };
    let ghost digits = text@.skip(start as int);
    assert(text@.skip(0) == text@);
    if start == n {
        return None;
    }
    let limit: u64 = if negative {
        9223372036854775808
    } else {
        9223372036854775807
    };
    let mut acc: u64 = 0;
    let mut i: usize = start;
    assert(digits.take(0) == Seq::<char>::empty());
    while i < n
        invariant
            chars@ == text@,
            n == chars.len(),
            start <= i <= n,
            start < n,
            negative == (text@.len() > 0 && text@[0] == '-'),
            start == (if negative { 1usize } else { 0usize }),
            digits == text@.skip(start as int),
            digits == (if negative { text@.skip(1) } else { text@ }),
            limit == (if negative { 9223372036854775808u64 } else { 9223372036854775807u64 }),
            are_digits(digits.take(i - start)),
            acc == decimal(digits.take(i - start)),
            acc <= limit,
        decreases n - i,
    {
        let c = chars[i];
        let ghost next = digits.take(i - start + 1);
        proof {
            assert(next.drop_last() == digits.take(i - start));
            assert(next.last() == c);
            assert(digits[i - start] == c);
        }
        if !(c >= '0' && c <= '9') {
            assert(!are_digits(digits));
            return None;
        }
        let d: u64 = ((c as u32) - 48) as u64;
        if acc > (limit - d) / 10 {
            proof {
                assert(decimal(next) == acc * 10 + d);
                assert(acc * 10 + d > limit);
                lemma_decimal_grows(digits, i - start + 1);
            }
            return None;
        }
        acc = acc * 10 + d;
        i = i + 1;
    }
    assert(digits.take(n - start) == digits);
    if negative {
        if acc == 9223372036854775808 {
            Some(i64::MIN)
        } else {
            Some(-(acc as i64))
        }
    } else {
        Some(acc as i64)
    }
}

/// Reads `true` or `false`.
pub fn parse_boolean(text: &str) -> (value: Option<bool>)
    ensures
        value == spec_parse_boolean(text@),
{
    if same_text(text, "true") {
        Some(true)
    } else if same_text(text, "false") {
        Some(false)
    } else {
        None
    }
}

/// The value of a hexadecimal digit, if `c` is one.
fn hex_digit(c: char) -> (d: Option<u8>)
    ensures
        d is Some <==> is_hex(c),
        d matches Some(v) ==> v == hex_value(c) && v < 16,
{
    if c >= '0' && c <= '9' {
        Some(((c as u32) - 48) as u8)
    } else if c >= 'a' && c <= 'f' {
        Some(((c as u32) - 87) as u8)
    } else if c >= 'A' && c <= 'F' {
        Some(((c as u32) - 55) as u8)
    } else {
        None
    }
}

/// The number of hexadecimal digits among the first `i` characters of a UUID.
pub open spec fn digits_before(i: int) -> int {
    i - (if i > 8 { 1int } else { 0 }) - (if i > 13 { 1int } else { 0 }) - (if i > 18 { 1int } else { 0 })
        - (if i > 23 { 1int } else { 0 })
}

/// Reads a UUID in its hyphenated form; letters of either case.
pub fn parse_uuid(text: &str) -> (value: Option<u128>)
    ensures
        value is Some <==> spec_parse_uuid(text@) is Some,
        value matches Some(v) ==> spec_parse_uuid(text@) == Some(v as nat),
{
    let chars = characters(text);
    if chars.len() != 36 {
        return None;
    }
    let mut acc: u128 = 0;
    let mut i: usize = 0;
    assert(text@.take(0) == Seq::<char>::empty());
    while i < 36
        invariant
            chars@ == text@,
            chars.len() == 36,
            i <= 36,
            forall|k: int|
                0 <= k < i ==> if hyphen_position(k) {
                    #[trigger] text@[k] == '-'
                } else {
                    is_hex(text@[k])
                },
            without_hyphens(text@.take(i as int)).len() == digits_before(i as int),
            forall|k: int|
                0 <= k < without_hyphens(text@.take(i as int)).len() ==> is_hex(
                    #[trigger] without_hyphens(text@.take(i as int))[k],
                ),
            acc == hex(without_hyphens(text@.take(i as int))),
        decreases 36 - i,
    {
        let c = chars[i];
        let ghost seen = without_hyphens(text@.take(i as int));
        proof {
            assert(text@.take(i + 1).drop_last() == text@.take(i as int));
            assert(text@.take(i + 1).last() == c);
        }
        if i == 8 || i == 13 || i == 18 || i == 23 {
            if c != '-' {
                assert(!is_uuid(text@));
                return None;
            }
        } else {
            match hex_digit(c) {
                None => {
                    assert(!is_hex(text@[i as int]));
                    assert(!is_uuid(text@));
                    return None;
                },
                Some(d) => {
                    proof {
                        lemma_hex_bound(seen);
                        lemma_pow16(seen.len());
                        assert(c != '-');
                        assert(without_hyphens(text@.take(i + 1)) == seen.push(c));
                        assert(seen.push(c).drop_last() == seen);
                    }
                    acc = acc * 16 + (d as u128);
                },
            }
        }
        i = i + 1;
    }
    assert(text@.take(36) == text@);
    Some(acc)
}

/// The character that writes a digit below sixteen, letters in lower case.
pub open spec fn hex_char(d: nat) -> char {
    if d < 10 {
        (48 + d) as char
    } else {
        (87 + d) as char
    }
}

/// A natural number in decimal, without leading zeros.
pub open spec fn decimal_text(n: nat) -> Seq<char>
    decreases n,
{
    if n < 10 {
        seq![hex_char(n)]
    } else {
        decimal_text(n / 10).push(hex_char(n % 10))
    }
}

/// An integer in decimal, with `-` in front where it is negative.
pub open spec fn integer_text(v: int) -> Seq<char> {
    if v < 0 {
        seq!['-'] + decimal_text((-v) as nat)
    } else {
        decimal_text(v as nat)
    }
}

/// A truth value as `true` or `false`.
pub open spec fn boolean_text(b: bool) -> Seq<char> {
    if b {
        "true"@
    } else {
        "false"@
    }
}

/// The lowest `width` hexadecimal digits of `v`, highest first.
pub open spec fn hex_text(v: nat, width: nat) -> Seq<char>
    decreases width,
{
    if width == 0 {
        Seq::<char>::empty()
    } else {
        hex_text(v / 16, (width - 1) as nat).push(hex_char(v % 16))
    }
}

/// The digits with a hyphen after each digit that has 12, 16, 20 or 24
/// digits behind it: for thirty-two digits, the groups of a UUID.
pub open spec fn grouped(h: Seq<char>) -> Seq<char>
    decreases h.len(),
{
    if h.len() == 0 {
        h
    } else {
        let behind = h.len() - 1;
        if behind == 12 || behind == 16 || behind == 20 || behind == 24 {
            seq![h[0], '-'] + grouped(h.skip(1))
        } else {
            seq![h[0]] + grouped(h.skip(1))
        }
    }
}

/// A 128-bit number in the hyphenated form of a UUID, letters in lower case.
pub open spec fn uuid_text(v: nat) -> Seq<char> {
    grouped(hex_text(v, 32))
}

/// The text of one digit below sixteen.
fn digit_text(d: u8) -> (text: &'static str)
    requires
        d < 16,
    ensures
        text@ == seq![hex_char(d as nat)],
{
    proof {
        reveal_strlit("0");
        reveal_strlit("1");
        reveal_strlit("2");
        reveal_strlit("3");
        reveal_strlit("4");
        reveal_strlit("5");
        reveal_strlit("6");
        reveal_strlit("7");
        reveal_strlit("8");
        reveal_strlit("9");
        reveal_strlit("a");
        reveal_strlit("b");
        reveal_strlit("c");
        reveal_strlit("d");
        reveal_strlit("e");
        reveal_strlit("f");
    }
    let text = match d {
        0 => "0",
        1 => "1",
        2 => "2",
        3 => "3",
        4 => "4",
        5 => "5",
        6 => "6",
        7 => "7",
        8 => "8",
        9 => "9",
        10 => "a",
        11 => "b",
        12 => "c",
        13 => "d",
        14 => "e",
        _ => "f",
    };
    assert(text@ =~= seq![hex_char(d as nat)]);
    text
}

/// Writes an integer in decimal.
pub fn write_integer(v: i64) -> (out: String)
    ensures
        out@ == integer_text(v as int),
{
    let magnitude: u64 = if v >= 0 {
        v as u64
    } else if v == i64::MIN {
        9223372036854775808
    } else {
        (-v) as u64
    };
    let mut rest: u64 = magnitude;
    let mut out = String::new();
    assert(decimal_text(rest as nat) + out@ == decimal_text(magnitude as nat));
    while rest >= 10
        invariant
            decimal_text(rest as nat) + out@ == decimal_text(magnitude as nat),
        decreases rest,
    {
        let ghost low = out@;
        let d: u8 = (rest % 10) as u8;
        let next = digit_text(d).to_owned().concat(out.as_str());
        out = next;
        proof {
            let front = decimal_text((rest / 10) as nat);
            assert(decimal_text(rest as nat) == front.push(hex_char(d as nat)));
            assert(front.push(hex_char(d as nat)) + low == front + (seq![hex_char(d as nat)] + low));
        }
        rest = rest / 10;
    }
    let last = digit_text(rest as u8).to_owned().concat(out.as_str());
    if v < 0 {
        proof {
            reveal_strlit("-");
        }
        "-".to_owned().concat(last.as_str())
    } else {
        last
    }
}

/// Writes a truth value.
pub fn write_boolean(b: bool) -> (out: String)
    ensures
        out@ == boolean_text(b),
{
    if b {
        "true".to_owned()
    } else {
        "false".to_owned()
    }
}

/// Writes a 128-bit number in the hyphenated form of a UUID.
pub fn write_uuid(v: u128) -> (out: String)
    ensures
        out@ == uuid_text(v as nat),
{
    let mut rest: u128 = v;
    let mut out = String::new();
    let mut written: usize = 0;
    let ghost mut low: Seq<char> = Seq::empty();
    proof {
        reveal_strlit("-");
        assert(hex_text(v as nat, 32) + low == hex_text(v as nat, 32));
    }
    while written < 32
        invariant
            written <= 32,
            low.len() == written,
            "-"@ == seq!['-'],
            hex_text(rest as nat, (32 - written) as nat) + low == hex_text(v as nat, 32),
            out@ == grouped(low),
        decreases 32 - written,
    {
        let d: u8 = (rest % 16) as u8;
        let ghost c = hex_char(d as nat);
        let ghost grown = seq![c] + low;
        proof {
            let front = hex_text((rest / 16) as nat, (31 - written) as nat);
            assert(hex_text(rest as nat, (32 - written) as nat) == front.push(c));
            assert(front.push(c) + low == front + grown);
            assert(grown.skip(1) == low);
            assert(grown[0] == c);
        }
        let tail = if written == 12 || written == 16 || written == 20 || written == 24 {
            "-".to_owned().concat(out.as_str())
        } else {
            out
        };
        out = digit_text(d).to_owned().concat(tail.as_str());
        proof {
            if written == 12 || written == 16 || written == 20 || written == 24 {
                assert(seq![c] + (seq!['-'] + grouped(low)) == seq![c, '-'] + grouped(low));
            }
            low = grown;
        }
        rest = rest / 16;
        written = written + 1;
    }
    assert(hex_text(rest as nat, 0) + low == low);
    out
}

/// The decimal text of a natural number is made of digits, is not empty, and
/// stands for the number.
pub proof fn lemma_decimal_text(n: nat)
    ensures
        decimal_text(n).len() > 0,
        are_digits(decimal_text(n)),
        decimal(decimal_text(n)) == n,
    decreases n,
{
    if n >= 10 {
        lemma_decimal_text(n / 10);
        let front = decimal_text(n / 10);
        let text = front.push(hex_char(n % 10));
        assert(text.drop_last() == front);
        assert(is_digit(hex_char(n % 10)));
        assert forall|i: int| 0 <= i < text.len() implies is_digit(#[trigger] text[i]) by {
            if i < front.len() {
                assert(text[i] == front[i]);
            }
        }
    } else {
        let text = seq![hex_char(n)];
        assert(text.drop_last() == Seq::<char>::empty());
        assert(decimal(text.drop_last()) == 0);
    }
}

/// Reading what was written of an integer of 64 bits gives the integer back.
pub proof fn lemma_integer_text_is_read_back(v: int)
    requires
        i64::MIN <= v <= i64::MAX,
    ensures
        spec_parse_integer(integer_text(v)) == Some(v),
{
    let text = integer_text(v);
    if v < 0 {
        let digits = decimal_text((-v) as nat);
        lemma_decimal_text((-v) as nat);
        assert(text[0] == '-');
        assert(text.skip(1) == digits);
    } else {
        lemma_decimal_text(v as nat);
        assert(is_digit(text[0]));
    }
}

/// Reading what was written of a truth value gives the truth value back.
pub proof fn lemma_boolean_text_is_read_back(b: bool)
    ensures
        spec_parse_boolean(boolean_text(b)) == Some(b),
{
    reveal_strlit("true");
    reveal_strlit("false");
    assert("true"@.len() != "false"@.len());
}

/// The character of a digit below sixteen is a hexadecimal digit that
/// stands for the digit.
proof fn lemma_hex_char(d: nat)
    requires
        d < 16,
    ensures
        is_hex(hex_char(d)),
        hex_value(hex_char(d)) == d,
        hex_char(d) != '-',
{
}

/// The hexadecimal text of a number that fits its width is made of
/// hexadecimal digits, as many as the width, and stands for the number.
pub proof fn lemma_hex_text(v: nat, width: nat)
    requires
        v < pow16(width),
    ensures
        hex_text(v, width).len() == width,
        forall|i: int|
            0 <= i < width ==> is_hex(#[trigger] hex_text(v, width)[i]) && hex_text(v, width)[i]
                != '-',
        hex(hex_text(v, width)) == v,
    decreases width,
{
    if width > 0 {
        let narrower = (width - 1) as nat;
        assert(pow16(width) == 16 * pow16(narrower));
        lemma_hex_text(v / 16, narrower);
        lemma_hex_char(v % 16);
        let front = hex_text(v / 16, narrower);
        let text = front.push(hex_char(v % 16));
        assert(text.drop_last() == front);
        assert forall|i: int| 0 <= i < width implies is_hex(#[trigger] text[i]) && text[i]
            != '-' by {
            if i < front.len() {
                assert(text[i] == front[i]);
            }
        }
    }
}

/// Taking the hyphens out of two texts put together is taking them out of each.
proof fn lemma_without_hyphens_concat(a: Seq<char>, b: Seq<char>)
    ensures
        without_hyphens(a + b) == without_hyphens(a) + without_hyphens(b),
    decreases b.len(),
{
    if b.len() == 0 {
        assert(a + b == a);
        assert(without_hyphens(a) + without_hyphens(b) == without_hyphens(a));
    } else {
        lemma_without_hyphens_concat(a, b.drop_last());
        assert((a + b).drop_last() == a + b.drop_last());
        assert((a + b).last() == b.last());
        if b.last() != '-' {
            assert(without_hyphens(a) + without_hyphens(b.drop_last()).push(b.last()) == (
            without_hyphens(a) + without_hyphens(b.drop_last())).push(b.last()));
        }
    }
}

/// Grouping puts in hyphens and nothing else.
proof fn lemma_grouped_without_hyphens(h: Seq<char>)
    requires
        forall|i: int| 0 <= i < h.len() ==> h[i] != '-',
    ensures
        without_hyphens(grouped(h)) == h,
    decreases h.len(),
{
    if h.len() > 0 {
        let rest = h.skip(1);
        lemma_grouped_without_hyphens(rest);
        let behind = h.len() - 1;
        let head = if behind == 12 || behind == 16 || behind == 20 || behind == 24 {
            seq![h[0], '-']
        } else {
            seq![h[0]]
        };
        assert(grouped(h) == head + grouped(rest));
        lemma_without_hyphens_concat(head, grouped(rest));
        assert(without_hyphens(head) == seq![h[0]]) by {
            reveal_with_fuel(without_hyphens, 3);
            if head.len() == 2 {
                assert(head.drop_last() == seq![h[0]]);
                assert(seq![h[0]].drop_last() == Seq::<char>::empty());
            } else {
                assert(head.drop_last() == Seq::<char>::empty());
            }
        }
        assert(seq![h[0]] + rest == h);
    }
}

/// Up to twelve digits are grouped as they are.
proof fn lemma_grouped_short(h: Seq<char>)
    requires
        h.len() <= 12,
    ensures
        grouped(h) == h,
    decreases h.len(),
{
    if h.len() > 0 {
        lemma_grouped_short(h.skip(1));
        assert(seq![h[0]] + h.skip(1) == h);
    }
}

/// Where the first hyphen follows the digit at `k - 1`, the grouped text is
/// the first `k` digits, a hyphen, and the rest grouped.
proof fn lemma_grouped_step(h: Seq<char>, k: int)
    requires
        1 <= k <= h.len(),
        h.len() - k == 12 || h.len() - k == 16 || h.len() - k == 20 || h.len() - k == 24,
        k <= 4 || h.len() - k == 24,
    ensures
        grouped(h) == h.take(k) + seq!['-'] + grouped(h.skip(k)),
    decreases k,
{
    let rest = h.skip(1);
    if k == 1 {
        assert(grouped(h) == seq![h[0], '-'] + grouped(rest));
        assert(seq![h[0], '-'] == h.take(1) + seq!['-']);
    } else {
        lemma_grouped_step(rest, k - 1);
        assert(rest.skip(k - 1) == h.skip(k));
        assert(seq![h[0]] + (rest.take(k - 1) + seq!['-'] + grouped(h.skip(k))) == h.take(k)
            + seq!['-'] + grouped(h.skip(k)));
    }
}

/// Thirty-two hexadecimal digits, grouped, have the form of a UUID.
proof fn lemma_grouped_is_uuid(h: Seq<char>)
    requires
        h.len() == 32,
        forall|i: int| 0 <= i < 32 ==> is_hex(#[trigger] h[i]),
    ensures
        is_uuid(grouped(h)),
{
    let a = h.skip(8);
    let b = a.skip(4);
    let c = b.skip(4);
    let d = c.skip(4);
    lemma_grouped_step(h, 8);
    lemma_grouped_step(a, 4);
    lemma_grouped_step(b, 4);
    lemma_grouped_step(c, 4);
    lemma_grouped_short(d);
    let text = grouped(h);
    assert(text == h.take(8) + seq!['-'] + (a.take(4) + seq!['-'] + (b.take(4) + seq!['-'] + (
    c.take(4) + seq!['-'] + d))));
    assert(text.len() == 36);
    assert forall|i: int| 0 <= i < 36 implies if hyphen_position(i) {
        #[trigger] text[i] == '-'
    } else {
        is_hex(text[i])
    } by {
        if i < 8 {
            assert(text[i] == h[i]);
        } else if i == 8 {
        } else if i < 13 {
            assert(text[i] == h[i - 1]);
        } else if i == 13 {
        } else if i < 18 {
            assert(text[i] == h[i - 2]);
        } else if i == 18 {
        } else if i < 23 {
            assert(text[i] == h[i - 3]);
        } else if i == 23 {
        } else {
            assert(text[i] == h[i - 4]);
        }
    }
}

/// Reading what was written of a number of 128 bits as a UUID gives the
/// number back.
pub proof fn lemma_uuid_text_is_read_back(v: nat)
    requires
        v <= u128::MAX,
    ensures
        spec_parse_uuid(uuid_text(v)) == Some(v),
{
    lemma_pow16(32);
    lemma_hex_text(v, 32);
    let digits = hex_text(v, 32);
    lemma_grouped_is_uuid(digits);
    lemma_grouped_without_hyphens(digits);
}

} // verus!
