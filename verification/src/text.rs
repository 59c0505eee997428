//! Small verified helpers on text.
use vstd::prelude::*;
use vstd::string::*;

verus! {

/// The digit of a number below ten.
pub open spec fn digit(n: nat) -> char {
    (48 + n) as char
}

/// A number in decimal, without leading zeros.
pub open spec fn decimal(n: nat) -> Seq<char>
    decreases n,
{
    if n < 10 {
        seq![digit(n)]
    } else {
        decimal(n / 10).push(digit(n % 10))
    }
}

proof fn lemma_digit(n: int)
    requires
        0 <= n < 10,
    ensures
        hex_digit(n) == seq![digit(n as nat)],
{
    reveal_strlit("0");
    reveal_strlit("1");
    reveal_strlit("2");
    reveal_strlit("3");
    reveal_strlit("4");
    reveal_strlit("5");
    reveal_strlit("6");
    reveal_strlit("7");
    reveal_strlit("8");
    reveal_strlit("9");
    assert(hex_digit(n) =~= seq![digit(n as nat)]);
}

/// Appends a number in decimal.
pub fn append_decimal(text: &mut String, value: u64)
    ensures
        final(text)@ == old(text)@ + decimal(value as nat),
    decreases value,
{
    if value >= 10 {
        append_decimal(text, value / 10);
    }
    let last: u8 = (value % 10) as u8;
    text.append(write_hex_digit(last));
    proof {
        lemma_digit(last as int);
        assert(text@ =~= old(text)@ + decimal(value as nat));
    }
}

/// A number in decimal.
pub fn decimal_text(value: u64) -> (text: String)
    ensures
        text@ == decimal(value as nat),
{
    let mut text = String::new();
    append_decimal(&mut text, value);
    assert(text@ =~= decimal(value as nat));
    text
}

/// A copy of a text.
pub fn copy_text(text: &str) -> (copy: String)
    ensures
        copy@ == text@,
{
    text.to_owned()
}

/// What an optional text holds.
pub open spec fn opt_text(text: Option<String>) -> Option<Seq<char>> {
    match text {
        Some(t) => Some(t@),
        None => None,
    }
}

/// A copy of an optional text.
pub fn copy_opt_text(text: &Option<String>) -> (copy: Option<String>)
    ensures
        opt_text(copy) == opt_text(*text),
{
    match text {
        Some(t) => Some(t.clone()),
        None => None,
    }
}

/// What a list of texts holds.
pub open spec fn texts(list: Seq<String>) -> Seq<Seq<char>> {
    list.map_values(|t: String| t@)
}

/// A copy of a list of texts.
pub fn copy_texts(list: &Vec<String>) -> (copy: Vec<String>)
    ensures
        texts(copy@) == texts(list@),
{
    let mut copy: Vec<String> = Vec::new();
    let mut i: usize = 0;
    while i < list.len()
        invariant
            i <= list@.len(),
            copy@.len() == i,
            forall|j: int| 0 <= j < i ==> copy@[j]@ == (#[trigger] list@[j])@,
        decreases list@.len() - i,
    {
        copy.push(list[i].clone());
        i = i + 1;
    }
    assert(texts(copy@) =~= texts(list@));
    copy
}

/// Tells whether a text is in a list.
pub fn lists_text(list: &Vec<String>, text: &String) -> (found: bool)
    ensures
        found <==> texts(list@).contains(text@),
{
    let mut i: usize = 0;
    while i < list.len()
        invariant
            i <= list@.len(),
            forall|j: int| 0 <= j < i ==> (#[trigger] texts(list@)[j]) != text@,
        decreases list@.len() - i,
    {
        assert(texts(list@)[i as int] == list@[i as int]@);
        if list[i] == *text {
            return true;
        }
        i = i + 1;
    }
    false
}

/// A number below sixteen as a hexadecimal digit.
pub open spec fn hex_digit(n: int) -> Seq<char> {
    if n == 0 {
        "0"@
    } else if n == 1 {
        "1"@
    } else if n == 2 {
        "2"@
    } else if n == 3 {
        "3"@
    } else if n == 4 {
        "4"@
    } else if n == 5 {
        "5"@
    } else if n == 6 {
        "6"@
    } else if n == 7 {
        "7"@
    } else if n == 8 {
        "8"@
    } else if n == 9 {
        "9"@
    } else if n == 10 {
        "a"@
    } else if n == 11 {
        "b"@
    } else if n == 12 {
        "c"@
    } else if n == 13 {
        "d"@
    } else if n == 14 {
        "e"@
    } else {
        "f"@
    }
}

/// Bytes in hexadecimal, two digits each.
pub open spec fn hex(bytes: Seq<u8>) -> Seq<char>
    decreases bytes.len(),
{
    if bytes.len() == 0 {
        Seq::empty()
    } else {
        hex(bytes.drop_last()) + hex_digit(bytes.last() as int / 16) + hex_digit(bytes.last() as int % 16)
    }
}

fn write_hex_digit(n: u8) -> (text: &'static str)
    requires
        n < 16,
    ensures
        text@ == hex_digit(n as int),
{
    match n {
        0 => "0",
        1 => "1",
        2 => "2",
        3 => "3",
        4 => "4",
        5 => "5",
        6 => "6",
        7 => "7",
        8 => "8",
        9 => "9",
        10 => "a",
        11 => "b",
        12 => "c",
        13 => "d",
        14 => "e",
        _ => "f",
    }
}

/// Bytes in hexadecimal.
pub fn to_hex(bytes: &[u8]) -> (text: String)
    ensures
        text@ == hex(bytes@),
{
    let mut text = String::new();
    let mut i: usize = 0;
    while i < bytes.len()
        invariant
            i <= bytes@.len(),
            text@ == hex(bytes@.take(i as int)),
        decreases bytes@.len() - i,
    {
        let ghost next = bytes@.take(i + 1);
        assert(next.drop_last() =~= bytes@.take(i as int));
        assert(next.last() == bytes@[i as int]);
        let byte = bytes[i];
        text.append(write_hex_digit(byte / 16));
        text.append(write_hex_digit(byte % 16));
        i = i + 1;
    }
    assert(bytes@.take(bytes@.len() as int) =~= bytes@);
    text
}

/// The value of a hexadecimal digit, in upper or lower case.
pub open spec fn hex_value(c: char) -> Option<int> {
    if '0' <= c <= '9' {
        Some(c as int - '0' as int)
    } else if 'a' <= c <= 'f' {
        Some(c as int - 'a' as int + 10)
    } else if 'A' <= c <= 'F' {
        Some(c as int - 'A' as int + 10)
    } else {
        None
    }
}

/// Whether a text is bytes in hexadecimal: digits, two for each byte.
pub open spec fn is_hex(text: Seq<char>) -> bool {
    text.len() % 2 == 0 && forall|i: int| 0 <= i < text.len() ==> hex_value(#[trigger] text[i]) is Some
}

/// The bytes that a text spells in hexadecimal, if it spells any.
pub open spec fn hex_bytes(text: Seq<char>) -> Option<Seq<u8>> {
    if is_hex(text) {
        Some(
            Seq::new(
                text.len() / 2,
                |i: int| (hex_value(text[2 * i])->Some_0 * 16 + hex_value(text[2 * i + 1])->Some_0) as u8,
            ),
        )
    } else {
        None
    }
}

/// `hex::decode`: the bytes that a text spells, `None` if it holds anything but hexadecimal digits or an odd number of
/// them.
#[verifier::external_body]
pub(crate) fn decode_hex(text: &str) -> (bytes: Option<Vec<u8>>)
    ensures
        bytes is Some <==> hex_bytes(text@) is Some,
        bytes matches Some(b) ==> hex_bytes(text@) == Some(b@),
{
    hex::decode(text).ok()
}

proof fn lemma_hex_digit(n: int)
    requires
        0 <= n < 16,
    ensures
        hex_digit(n).len() == 1,
        hex_value(hex_digit(n)[0]) == Some(n),
{
    reveal_strlit("0");
    reveal_strlit("1");
    reveal_strlit("2");
    reveal_strlit("3");
    reveal_strlit("4");
    reveal_strlit("5");
    reveal_strlit("6");
    reveal_strlit("7");
    reveal_strlit("8");
    reveal_strlit("9");
    reveal_strlit("a");
    reveal_strlit("b");
    reveal_strlit("c");
    reveal_strlit("d");
    reveal_strlit("e");
    reveal_strlit("f");
}

/// Bytes that were written in hexadecimal are read back.
pub proof fn law_hex_is_read_back(bytes: Seq<u8>)
    ensures
        hex_bytes(hex(bytes)) == Some(bytes),
    decreases bytes.len(),
{
    let text = hex(bytes);
    if bytes.len() == 0 {
        assert(hex_bytes(text)->Some_0 =~= bytes);
    } else {
        let front = hex(bytes.drop_last());
        law_hex_is_read_back(bytes.drop_last());
        let last = bytes.last() as int;
        lemma_hex_digit(last / 16);
        lemma_hex_digit(last % 16);
        assert(front.len() == 2 * (bytes.len() - 1)) by {
            assert(hex_bytes(front)->Some_0.len() == bytes.len() - 1);
        }
        assert(text =~= front.push(hex_digit(last / 16)[0]).push(hex_digit(last % 16)[0]));
        assert forall|i: int| 0 <= i < text.len() implies hex_value(#[trigger] text[i]) is Some by {
            if i < front.len() {
                assert(text[i] == front[i]);
            }
        }
        let read = hex_bytes(text)->Some_0;
        assert forall|i: int| 0 <= i < bytes.len() implies read[i] == bytes[i] by {
            if i < bytes.len() - 1 {
                assert(text[2 * i] == front[2 * i] && text[2 * i + 1] == front[2 * i + 1]);
                assert(hex_bytes(front)->Some_0[i] == bytes.drop_last()[i]);
            }
        }
        assert(read =~= bytes);
    }
}

/// A byte in hexadecimal, without a leading zero.
pub open spec fn short_hex(byte: u8) -> Seq<char> {
    if byte < 16 {
        hex_digit(byte as int)
    } else {
        hex_digit(byte as int / 16) + hex_digit(byte as int % 16)
    }
}

/// Appends a byte in hexadecimal, without a leading zero.
pub fn append_short_hex(text: &mut String, byte: u8)
    ensures
        final(text)@ == old(text)@ + short_hex(byte),
{
    if byte < 16 {
        text.append(write_hex_digit(byte));
    } else {
        text.append(write_hex_digit(byte / 16));
        text.append(write_hex_digit(byte % 16));
        assert(text@ =~= old(text)@ + short_hex(byte));
    }
}

/// Whether a character is a decimal digit.
pub open spec fn is_digit(c: char) -> bool {
    '0' <= c <= '9'
}

/// The number that digits spell.
pub open spec fn digits_value(text: Seq<char>) -> nat
    decreases text.len(),
{
    if text.len() == 0 {
        0
    } else {
        digits_value(text.drop_last()) * 10 + (text.last() as u32 - '0' as u32) as nat
    }
}

/// Whether a text is made of digits, and of one at least.
pub open spec fn all_digits(text: Seq<char>) -> bool {
    text.len() > 0 && forall|i: int| 0 <= i < text.len() ==> is_digit(#[trigger] text[i])
}

/// The number that a text spells: digits, which a plus sign may stand before.
pub open spec fn number(text: Seq<char>) -> Option<nat> {
    let digits = if text.len() > 0 && text[0] == '+' {
        text.skip(1)
    } else {
        text
    };
    if all_digits(digits) {
        Some(digits_value(digits))
    } else {
        None
    }
}

proof fn lemma_value_grows(text: Seq<char>, n: int)
    requires
        0 <= n <= text.len(),
        forall|i: int| 0 <= i < text.len() ==> is_digit(#[trigger] text[i]),
    ensures
        digits_value(text.take(n)) <= digits_value(text),
    decreases text.len() - n,
{
    if n < text.len() {
        let longer = text.take(n + 1);
        assert(longer.drop_last() =~= text.take(n));
        assert(longer.last() == text[n]);
        assert(is_digit(text[n]));
        lemma_value_grows(text, n + 1);
    } else {
        assert(text.take(n) =~= text);
    }
}

/// Reads a number; `None` if the text spells none, or one that does not fit.
pub fn parse_u64(text: &str) -> (value: Option<u64>)
    ensures
        value == (match number(text@) {
            Some(n) => if n <= u64::MAX {
                Some(n as u64)
            } else {
                None
            },
            None => None,
        }),
{
    let len = text.unicode_len();
    let start: usize = if len > 0 && text.get_char(0) == '+' {
        1
    } else {
        0
    };
    let ghost digits = if text@.len() > 0 && text@[0] == '+' {
        text@.skip(1)
    } else {
        text@
    };
    assert(digits =~= text@.skip(start as int));
    if start == len {
        return None;
    }
    let mut value: u64 = 0;
    let mut i: usize = start;
    assert(digits.take(0) =~= Seq::empty());
    while i < len
        invariant
            start <= i <= len,
            start < len,
            len == text@.len(),
            digits == text@.skip(start as int),
            number(text@) == (if all_digits(digits) {
                Some(digits_value(digits))
            } else {
                None
            }),
            value == digits_value(digits.take(i - start)),
            forall|j: int| 0 <= j < i - start ==> is_digit(#[trigger] digits[j]),
        decreases len - i,
    {
        let c = text.get_char(i);
        let ghost n = i - start;
        assert(digits[n] == c);
        if !('0' <= c && c <= '9') {
            assert(!is_digit(digits[n]));
            return None;
        }
        let ghost longer = digits.take(n + 1);
        assert(longer.drop_last() =~= digits.take(n));
        assert(longer.last() == c);
        let digit: u64 = (c as u32 - '0' as u32) as u64;
        if value > (u64::MAX - digit) / 10 {
            proof {
                if all_digits(digits) {
                    lemma_value_grows(digits, n + 1);
                }
            }
            return None;
        }
        value = value * 10 + digit;
        i = i + 1;
    }
    assert(digits.take(len - start) =~= digits);
    Some(value)
}

/// The code of a character, with the letters of ASCII in lower case.
pub open spec fn lower_code(c: char) -> int {
    if 'A' <= c <= 'Z' {
        c as u32 + 32
    } else {
        c as u32 as int
    }
}

/// Whether two texts are the same but for the case of the letters of ASCII.
pub open spec fn same_letters(a: Seq<char>, b: Seq<char>) -> bool {
    a.len() == b.len() && forall|i: int| 0 <= i < a.len() ==> lower_code(#[trigger] a[i]) == lower_code(b[i])
}

fn lower_code_of(c: char) -> (code: u32)
    ensures
        code == lower_code(c),
{
    if 'A' <= c && c <= 'Z' {
        c as u32 + 32
    } else {
        c as u32
    }
}

/// Whether two texts are the same but for the case of the letters of ASCII.
pub fn is_same_letters(a: &str, b: &str) -> (same: bool)
    ensures
        same == same_letters(a@, b@),
{
    let len = a.unicode_len();
    if len != b.unicode_len() {
        return false;
    }
    let mut i: usize = 0;
    while i < len
        invariant
            i <= len,
            len == a@.len(),
            len == b@.len(),
            forall|j: int| 0 <= j < i ==> lower_code(#[trigger] a@[j]) == lower_code(b@[j]),
        decreases len - i,
    {
        if lower_code_of(a.get_char(i)) != lower_code_of(b.get_char(i)) {
            assert(lower_code(a@[i as int]) != lower_code(b@[i as int]));
            return false;
        }
        i = i + 1;
    }
    true
}

/// Whether a character is white space, as Unicode has it.
pub open spec fn is_white(c: char) -> bool {
    let code = c as u32;
    9 <= code <= 13 || code == 32 || code == 0x85 || code == 0xA0 || code == 0x1680 || 0x2000 <= code <= 0x200A || code
        == 0x2028 || code == 0x2029 || code == 0x202F || code == 0x205F || code == 0x3000
}

/// Whether a text holds nothing but white space.
pub open spec fn blank(text: Seq<char>) -> bool {
    forall|i: int| 0 <= i < text.len() ==> is_white(#[trigger] text[i])
}

/// Whether a text holds nothing but white space.
pub fn is_blank(text: &str) -> (result: bool)
    ensures
        result == blank(text@),
{
    let len = text.unicode_len();
    let mut i: usize = 0;
    while i < len
        invariant
            i <= len,
            len == text@.len(),
            forall|j: int| 0 <= j < i ==> is_white(#[trigger] text@[j]),
        decreases len - i,
    {
        let code = text.get_char(i) as u32;
        if !(9 <= code && code <= 13 || code == 32 || code == 0x85 || code == 0xA0 || code == 0x1680 || 0x2000 <= code
            && code <= 0x200A || code == 0x2028 || code == 0x2029 || code == 0x202F || code == 0x205F || code
            == 0x3000) {
            assert(!is_white(text@[i as int]));
            return false;
        }
        i = i + 1;
    }
    true
}

proof fn lemma_decimal(n: nat)
    ensures
        all_digits(decimal(n)),
        digits_value(decimal(n)) == n,
        n > 0 ==> decimal(n)[0] != '0',
    decreases n,
{
    let text = decimal(n);
    if n < 10 {
        assert(text.drop_last() =~= Seq::empty());
        assert(digits_value(Seq::<char>::empty()) == 0);
        assert(text[0] == digit(n));
    } else {
        lemma_decimal(n / 10);
        let start = decimal(n / 10);
        assert(text.drop_last() =~= start);
        assert(text.last() == digit(n % 10));
        assert forall|i: int| 0 <= i < text.len() implies is_digit(#[trigger] text[i]) by {
            if i < start.len() {
                assert(text[i] == start[i]);
            }
        }
        assert(text[0] == start[0]);
    }
}

/// A number in decimal is read back, with a plus sign or without, and it has no leading zero unless it is 0.
pub proof fn law_decimals_are_read_back(n: nat)
    ensures
        number(decimal(n)) == Some(n),
        number(seq!['+'] + decimal(n)) == Some(n),
        n > 0 ==> decimal(n)[0] != '0',
{
    lemma_decimal(n);
    let text = decimal(n);
    assert(is_digit(text[0]));
    assert((seq!['+'] + text).skip(1) =~= text);
}

/// Numbers grow with each digit: a digit behind a number makes it ten times as large, and adds the digit.
pub proof fn law_digits_count_by_tens(text: Seq<char>, n: nat)
    requires
        n < 10,
        all_digits(text),
    ensures
        number(text.push(digit(n))) == Some(digits_value(text) * 10 + n),
        number(text) == Some(digits_value(text)),
{
    let longer = text.push(digit(n));
    assert(is_digit(text[0]));
    assert(longer[0] == text[0]);
    assert(longer.drop_last() =~= text);
    assert forall|i: int| 0 <= i < longer.len() implies is_digit(#[trigger] longer[i]) by {
        if i < text.len() {
            assert(longer[i] == text[i]);
        }
    }
}

/// What is the same but for the case of letters is so both ways, and a small letter is the same as its capital.
pub proof fn law_same_letters(a: Seq<char>, b: Seq<char>, c: Seq<char>)
    ensures
        same_letters(a, a),
        same_letters(a, b) ==> same_letters(b, a),
        same_letters(a, b) && same_letters(b, c) ==> same_letters(a, c),
        forall|n: nat|
            n < 26 ==> #[trigger] lower_code((65 + n) as char) == lower_code((97 + n) as char) && lower_code(
                (97 + n) as char,
            ) == 97 + n,
{
    if same_letters(a, b) {
        assert forall|i: int| 0 <= i < b.len() implies lower_code(#[trigger] b[i]) == lower_code(a[i]) by {
            assert(lower_code(a[i]) == lower_code(b[i]));
        }
        if same_letters(b, c) {
            assert forall|i: int| 0 <= i < a.len() implies lower_code(#[trigger] a[i]) == lower_code(c[i]) by {
                assert(lower_code(b[i]) == lower_code(c[i]));
            }
        }
    }
}

}
