//! Text: UTF-8, decimal and hexadecimal numerals, trimming and lower case.

use vstd::prelude::*;
use vstd::string::*;
use vstd::utf8::*;

use crate::bytes::{bytes_eq, copy_range};

verus! {

/// What `String::from_utf8` says of bytes that are not UTF-8.
pub uninterp spec fn utf8_error_text(bytes: Seq<u8>) -> Seq<char>;

/// The small letters of a text, by the rules of Unicode.
pub uninterp spec fn lowercase_text(text: Seq<char>) -> Seq<char>;

/// Calls `String::from_utf8`: it accepts exactly the UTF-8 sequences and gives
/// the characters they encode. The text of its error is a function of the bytes.
#[verifier::external_body]
fn std_from_utf8(bytes: Vec<u8>) -> (r: Result<String, String>)
    ensures
        r is Ok == valid_utf8(bytes@),
        r is Ok ==> r->Ok_0@ == decode_utf8(bytes@),
        r is Err ==> r->Err_0@ == utf8_error_text(bytes@),
{
    String::from_utf8(bytes).map_err(|e| e.to_string())
}

/// Calls `String::push_str`: the characters of `more` follow those of `text`.
#[verifier::external_body]
fn std_push_str(text: &mut String, more: &str)
    ensures
        final(text)@ == old(text)@ + more@,
{
    text.push_str(more);
}

/// Calls `str::to_lowercase`. On ASCII text it maps the letters `A` to `Z` to
/// their small forms and keeps every other character; of other text nothing is
/// claimed but that the result is a function of it.
#[verifier::external_body]
fn std_to_lowercase(text: &str) -> (r: String)
    ensures
        r@ == lowercase_text(text@),
        is_ascii_chars(text@) ==> r@ == ascii_lower(text@),
{
    text.to_lowercase()
}

/// Calls `str::trim`: the white space at both ends is left out.
#[verifier::external_body]
fn std_trim(text: &str) -> (r: &str)
    ensures
        r@ == trim_text(text@),
{
    text.trim()
}

/// The characters with the Unicode property White_Space.
pub open spec fn is_white_space(c: char) -> bool {
    let n = c as u32;
    ||| 9 <= n <= 13
    ||| n == 0x20
    ||| n == 0x85
    ||| n == 0xA0
    ||| n == 0x1680
    ||| 0x2000 <= n <= 0x200A
    ||| n == 0x2028
    ||| n == 0x2029
    ||| n == 0x202F
    ||| n == 0x205F
    ||| n == 0x3000
}

pub open spec fn trim_start_text(s: Seq<char>) -> Seq<char>
    decreases s.len(),
{
    if s.len() > 0 && is_white_space(s[0]) {
        trim_start_text(s.skip(1))
    } else {
        s
    }
}

pub open spec fn trim_end_text(s: Seq<char>) -> Seq<char>
    decreases s.len(),
{
    if s.len() > 0 && is_white_space(s.last()) {
        trim_end_text(s.drop_last())
    } else {
        s
    }
}

/// `s` without the white space at its ends.
pub open spec fn trim_text(s: Seq<char>) -> Seq<char> {
    trim_end_text(trim_start_text(s))
}

pub open spec fn ascii_lower_char(c: char) -> char {
    if 'A' <= c && c <= 'Z' {
        (c as u32 + 32) as char
    } else {
        c
    }
}

/// ASCII letters made small, every other character kept.
pub open spec fn ascii_lower(s: Seq<char>) -> Seq<char> {
    s.map_values(|c: char| ascii_lower_char(c))
}

/// The name that is compared when a name is read in any case and with white
/// space around it.
pub open spec fn normalized_name(s: Seq<char>) -> Seq<char> {
    lowercase_text(trim_text(s))
}

/// Trims `s` and makes its letters small.
pub fn normalize_name(s: &str) -> (r: String)
    ensures
        r@ == normalized_name(s@),
        is_ascii_chars(trim_text(s@)) ==> r@ == ascii_lower(trim_text(s@)),
{
    std_to_lowercase(std_trim(s))
}

/// Reads bytes as UTF-8.
pub fn string_from_utf8(bytes: Vec<u8>) -> (r: Result<String, String>)
    ensures
        r is Ok == valid_utf8(bytes@),
        r is Ok ==> r->Ok_0@ == decode_utf8(bytes@),
        r is Err ==> r->Err_0@ == utf8_error_text(bytes@),
{
    std_from_utf8(bytes)
}

/// Appends `more` to `text`.
pub fn push_text(text: &mut String, more: &str)
    ensures
        final(text)@ == old(text)@ + more@,
{
    std_push_str(text, more);
}

pub proof fn lemma_encode_injective(a: Seq<char>, b: Seq<char>)
    ensures
        encode_utf8(a) == encode_utf8(b) <==> a == b,
{
    encode_utf8_decode_utf8(a);
    encode_utf8_decode_utf8(b);
}

/// Whether two texts are equal.
pub fn text_eq(a: &str, b: &str) -> (r: bool)
    ensures
        r == (a@ == b@),
{
    proof {
        lemma_encode_injective(a@, b@);
    }
    bytes_eq(a.as_bytes(), b.as_bytes())
}

/// Calls `str::strip_prefix` of the standard library: what follows the prefix, where the
/// text begins with it.
#[verifier::external_body]
pub(crate) fn strip_prefix<'a>(s: &'a str, prefix: &str) -> (r: Option<&'a str>)
    ensures
        match r {
            Some(rest) => s@ == prefix@ + rest@,
            None => !prefix@.is_prefix_of(s@),
        },
{
    s.strip_prefix(prefix)
}

/// An optional text by its characters.
pub open spec fn optional_text(t: Option<String>) -> Option<Seq<char>> {
    match t {
        Some(s) => Some(s@),
        None => None,
    }
}

/// Copies an optional text.
pub fn clone_optional(t: &Option<String>) -> (r: Option<String>)
    ensures
        optional_text(r) == optional_text(*t),
{
    match t {
        Some(s) => Some(s.clone()),
        None => None,
    }
}

/// The character that a byte below 128 encodes.
pub open spec fn ascii_chars(bytes: Seq<u8>) -> Seq<char> {
    bytes.map_values(|b: u8| b as char)
}

/// Text made of ASCII bytes.
pub fn string_from_ascii(bytes: Vec<u8>) -> (r: String)
    requires
        forall|i: int| 0 <= i < bytes@.len() ==> bytes@[i] < 128,
    ensures
        r@ == ascii_chars(bytes@),
{
    proof {
        let chars = ascii_chars(bytes@);
        assert forall|i: int| 0 <= i < chars.len() implies #[trigger] chars[i] as nat <= 127 by {
            assert(chars[i] == bytes@[i] as char);
        }
        assert(is_ascii_chars(chars));
        is_ascii_chars_encode_utf8(chars);
        assert(encode_utf8(chars) =~= bytes@);
        encode_utf8_valid_utf8(chars);
        encode_utf8_decode_utf8(chars);
    }
    match string_from_utf8(bytes) {
        Ok(s) => s,
        Err(_) => String::new(),
    }
}

/// The decimal numeral of `n`.
pub open spec fn decimal(n: nat) -> Seq<char>
    decreases n,
{
    if n < 10 {
        seq![('0' as u32 + n) as char]
    } else {
        decimal(n / 10) + seq![('0' as u32 + n % 10) as char]
    }
}

/// Writes `n` in decimal.
pub fn decimal_string(n: u64) -> (r: String)
    ensures
        r@ == decimal(n as nat),
{
    string_from_ascii(decimal_digits(n))
}

fn decimal_digits(n: u64) -> (r: Vec<u8>)
    ensures
        forall|i: int| 0 <= i < r@.len() ==> r@[i] < 128,
        ascii_chars(r@) == decimal(n as nat),
    decreases n,
{
    if n < 10 {
        let mut out: Vec<u8> = Vec::new();
        out.push((48 + n) as u8);
        assert(ascii_chars(out@) =~= decimal(n as nat));
        out
    } else {
        let mut out = decimal_digits(n / 10);
        let ghost before = out@;
        out.push((48 + n % 10) as u8);
        assert(ascii_chars(out@) =~= ascii_chars(before) + seq![('0' as u32 + n as nat % 10) as char]);
        out
    }
}

/// The small hexadecimal digit of a number below 16.
pub open spec fn hex_digit(n: nat) -> char {
    if n < 10 {
        ('0' as u32 + n) as char
    } else {
        ('a' as u32 + n - 10) as char
    }
}

/// Two small hexadecimal digits for each byte.
pub open spec fn hex_text(bytes: Seq<u8>) -> Seq<char> {
    Seq::new(
        2 * bytes.len(),
        |i: int|
            if i % 2 == 0 {
                hex_digit(bytes[i / 2] as nat / 16)
            } else {
                hex_digit(bytes[i / 2] as nat % 16)
            },
    )
}

/// The capital hexadecimal digit of a number below 16.
pub open spec fn upper_hex_digit(n: nat) -> char {
    if n < 10 {
        ('0' as u32 + n) as char
    } else {
        ('A' as u32 + n - 10) as char
    }
}

/// Two capital hexadecimal digits for each byte.
pub open spec fn upper_hex_text(bytes: Seq<u8>) -> Seq<char> {
    Seq::new(
        2 * bytes.len(),
        |i: int|
            if i % 2 == 0 {
                upper_hex_digit(bytes[i / 2] as nat / 16)
            } else {
                upper_hex_digit(bytes[i / 2] as nat % 16)
            },
    )
}

/// The number that a hexadecimal digit, small or capital, stands for.
pub open spec fn hex_value(b: u8) -> Option<nat> {
    if 48 <= b <= 57 {
        Some((b - 48) as nat)
    } else if 65 <= b <= 70 {
        Some((b - 55) as nat)
    } else if 97 <= b <= 102 {
        Some((b - 87) as nat)
    } else {
        None
    }
}

/// Whether `digits` are hexadecimal digits in pairs.
pub open spec fn is_hex(digits: Seq<u8>) -> bool {
    &&& digits.len() % 2 == 0
    &&& forall|i: int| 0 <= i < digits.len() ==> hex_value(#[trigger] digits[i]) is Some
}

/// The bytes that pairs of hexadecimal digits stand for.
pub open spec fn hex_bytes(digits: Seq<u8>) -> Seq<u8> {
    Seq::new(
        digits.len() / 2,
        |i: int| (16 * hex_value(digits[2 * i])->Some_0 + hex_value(digits[2 * i + 1])->Some_0) as u8,
    )
}

/// Calls `hex::encode`: two small hexadecimal digits for each byte. The text must
/// not be longer than memory can be.
#[verifier::external_body]
pub(crate) fn hex_encode(bytes: &[u8]) -> (r: String)
    requires
        bytes@.len() <= usize::MAX / 4,
    ensures
        r@ == hex_text(bytes@),
{
    hex::encode(bytes)
}

/// Calls `hex::decode`: it accepts an even number of hexadecimal digits, small
/// or capital, and gives the byte that each pair stands for.
#[verifier::external_body]
pub(crate) fn hex_decode(digits: &str) -> (r: Option<Vec<u8>>)
    ensures
        r is Some == is_hex(digits.spec_bytes()),
        r is Some ==> r->Some_0@ == hex_bytes(digits.spec_bytes()),
{
    hex::decode(digits).ok()
}

/// Writes bytes with two capital hexadecimal digits each.
pub fn upper_hex(bytes: &[u8]) -> (r: String)
    requires
        2 * bytes@.len() <= usize::MAX,
    ensures
        r@ == upper_hex_text(bytes@),
{
    let mut out: Vec<u8> = Vec::new();
    let mut i: usize = 0;
    while i < bytes.len()
        invariant
            i <= bytes@.len(),
            out@.len() == 2 * i,
            forall|j: int| 0 <= j < out@.len() ==> out@[j] < 128,
            forall|j: int| 0 <= j < out@.len() ==> #[trigger] out@[j] as char == upper_hex_text(bytes@)[j],
        decreases bytes@.len() - i,
    {
        let hi = upper_digit(bytes[i] / 16);
        let lo = upper_digit(bytes[i] % 16);
        out.push(hi);
        out.push(lo);
        i = i + 1;
    }
    assert(ascii_chars(out@) =~= upper_hex_text(bytes@));
    string_from_ascii(out)
}

fn upper_digit(n: u8) -> (d: u8)
    requires
        n < 16,
    ensures
        d < 128,
        d as char == upper_hex_digit(n as nat),
{
    if n < 10 {
        48 + n
    } else {
        55 + n
    }
}

/// Decoding the digits of some bytes gives the bytes back.
pub proof fn law_hex_roundtrip(bytes: Seq<u8>)
    ensures
        is_hex(encode_utf8(hex_text(bytes))),
        hex_bytes(encode_utf8(hex_text(bytes))) == bytes,
{
    let t = hex_text(bytes);
    assert forall|i: int| 0 <= i < t.len() implies (#[trigger] t[i]) as nat <= 127 by {}
    assert(is_ascii_chars(t));
    is_ascii_chars_encode_utf8(t);
    let d = encode_utf8(t);
    assert(d.len() == 2 * bytes.len());
    assert forall|i: int| 0 <= i < d.len() implies hex_value(#[trigger] d[i]) is Some by {
        assert(d[i] == t[i] as u8);
    }
    assert forall|i: int| 0 <= i < bytes.len() implies hex_bytes(d)[i] == bytes[i] by {
        assert(d[2 * i] == t[2 * i] as u8);
        assert(d[2 * i + 1] == t[2 * i + 1] as u8);
        assert((2 * i) / 2 == i);
        assert((2 * i + 1) / 2 == i);
        assert(hex_value(d[2 * i]) == Some(bytes[i] as nat / 16));
        assert(hex_value(d[2 * i + 1]) == Some(bytes[i] as nat % 16));
    }
    assert(hex_bytes(d) =~= bytes);
}

/// The number that hexadecimal digits stand for, most significant first.
pub open spec fn hex_number(digits: Seq<u8>) -> Option<nat>
    decreases digits.len(),
{
    if digits.len() == 0 {
        Some(0)
    } else {
        match (hex_number(digits.drop_last()), hex_value(digits.last())) {
            (Some(n), Some(v)) => Some(16 * n + v),
            _ => None,
        }
    }
}

/// The number below 2^32 that a hexadecimal numeral, with or without a leading
/// `+`, stands for.
pub open spec fn hex_u32(numeral: Seq<u8>) -> Option<u32> {
    let digits = if numeral.len() > 1 && numeral[0] == 43 {
        numeral.skip(1)
    } else {
        numeral
    };
    match hex_number(digits) {
        Some(n) => if digits.len() > 0 && n < 0x1_0000_0000 {
            Some(n as u32)
        } else {
            None
        },
        None => None,
    }
}

proof fn lemma_hex_number_prefix(digits: Seq<u8>, k: int)
    requires
        0 <= k <= digits.len(),
    ensures
        hex_number(digits.take(k)) is None ==> hex_number(digits) is None,
        hex_number(digits.take(k)) is Some && hex_number(digits) is Some ==> hex_number(digits)->Some_0 >= hex_number(
            digits.take(k),
        )->Some_0,
    decreases digits.len(),
{
    if k < digits.len() {
        assert(digits.drop_last().take(k) =~= digits.take(k));
        lemma_hex_number_prefix(digits.drop_last(), k);
    } else {
        assert(digits.take(k) =~= digits);
    }
}

fn hex_digit_value(b: u8) -> (r: Option<u64>)
    ensures
        match r {
            Some(v) => hex_value(b) == Some(v as nat) && v < 16,
            None => hex_value(b) is None,
        },
{
    if 48 <= b && b <= 57 {
        Some((b - 48) as u64)
    } else if 65 <= b && b <= 70 {
        Some((b - 55) as u64)
    } else if 97 <= b && b <= 102 {
        Some((b - 87) as u64)
    } else {
        None
    }
}

/// Reads a hexadecimal numeral of a number below 2^32.
pub fn parse_hex_u32(numeral: &str) -> (r: Option<u32>)
    ensures
        r == hex_u32(numeral.spec_bytes()),
{
    let raw = numeral.as_bytes();
    let start: usize = if raw.len() > 1 && raw[0] == 43 {
        1
    } else {
        0
    };
    let ghost digits = raw@.skip(start as int);
    proof {
        assert(raw@.skip(0) =~= raw@);
        assert(digits.take(0) =~= Seq::<u8>::empty());
    }
    if raw.len() == start {
        return None;
    }
    let mut n: u64 = 0;
    let mut i: usize = start;
    while i < raw.len()
        invariant
            start <= i <= raw@.len(),
            digits == raw@.skip(start as int),
            n < 0x1_0000_0000,
            hex_number(digits.take(i - start)) == Some(n as nat),
            raw@ == numeral.spec_bytes(),
            start == if raw@.len() > 1 && raw@[0] == 43 { 1int } else { 0int },
            start == 0 ==> digits == raw@,
        decreases raw@.len() - i,
    {
        proof {
            assert(digits.take(i - start + 1).drop_last() =~= digits.take(i - start));
            assert(digits.take(i - start + 1).last() == raw@[i as int]);
            lemma_hex_number_prefix(digits, i - start + 1);
        }
        match hex_digit_value(raw[i]) {
            Some(v) => {
                n = 16 * n + v;
                if n >= 0x1_0000_0000 {
                    return None;
                }
            },
            None => {
                return None;
            },
        }
        i = i + 1;
    }
    assert(digits.take(i - start) =~= digits);
    Some(n as u32)
}

/// The four bytes of a number, most significant first.
pub open spec fn big_endian4(n: u32) -> Seq<u8> {
    seq![
        (n / 0x100_0000) as u8,
        ((n / 0x1_0000) % 0x100) as u8,
        ((n / 0x100) % 0x100) as u8,
        (n % 0x100) as u8,
    ]
}

/// The eight capital hexadecimal digits of a number.
pub open spec fn hex8(n: u32) -> Seq<char> {
    upper_hex_text(big_endian4(n))
}

/// Writes a number with eight capital hexadecimal digits.
pub fn hex8_string(n: u32) -> (r: String)
    ensures
        r@ == hex8(n),
{
    let mut raw: Vec<u8> = Vec::new();
    raw.push((n / 0x100_0000) as u8);
    raw.push(((n / 0x1_0000) % 0x100) as u8);
    raw.push(((n / 0x100) % 0x100) as u8);
    raw.push((n % 0x100) as u8);
    assert(raw@ =~= big_endian4(n));
    upper_hex(raw.as_slice())
}

proof fn lemma_two_digits(d: Seq<u8>, i: int, n: nat, b: u8)
    requires
        0 <= i,
        i + 2 <= d.len(),
        hex_number(d.take(i)) == Some(n),
        hex_value(d[i]) == Some(b as nat / 16),
        hex_value(d[i + 1]) == Some(b as nat % 16),
    ensures
        hex_number(d.take(i + 2)) == Some(256 * n + b as nat),
{
    lemma_hex_number_step(d, i);
    lemma_hex_number_step(d, i + 1);
}

proof fn lemma_hex8_digits(n: u32) -> (d: Seq<u8>)
    ensures
        d == encode_utf8(hex8(n)),
        d.len() == 8,
        hex8(n).len() == 8,
        forall|k: int|
            0 <= k < 4 ==> hex_value(d[2 * k]) == Some((#[trigger] big_endian4(n)[k]) as nat / 16) && hex_value(
                d[2 * k + 1],
            ) == Some(big_endian4(n)[k] as nat % 16),
{
    let t = hex8(n);
    assert forall|i: int| 0 <= i < t.len() implies (#[trigger] t[i]) as nat <= 127 by {}
    assert(is_ascii_chars(t));
    is_ascii_chars_encode_utf8(t);
    let d = encode_utf8(t);
    let raw = big_endian4(n);
    assert forall|k: int| 0 <= k < 4 implies hex_value(d[2 * k]) == Some((#[trigger] raw[k]) as nat / 16) && hex_value(
        d[2 * k + 1],
    ) == Some(raw[k] as nat % 16) by {
        assert((2 * k) / 2 == k && (2 * k) % 2 == 0);
        assert((2 * k + 1) / 2 == k && (2 * k + 1) % 2 == 1);
        assert(t[2 * k] == upper_hex_digit(raw[k] as nat / 16));
        assert(t[2 * k + 1] == upper_hex_digit(raw[k] as nat % 16));
        assert(d[2 * k] == t[2 * k] as u8);
        assert(d[2 * k + 1] == t[2 * k + 1] as u8);
    }
    d
}

/// Reading the eight digits of a number gives the number back.
pub proof fn law_hex8_roundtrip(n: u32)
    ensures
        hex8(n).len() == 8,
        hex_u32(encode_utf8(hex8(n))) == Some(n),
{
    let d = lemma_hex8_digits(n);
    let raw = big_endian4(n);
    let n0 = raw[0] as nat;
    let n1 = raw[1] as nat;
    let n2 = raw[2] as nat;
    let n3 = raw[3] as nat;
    assert(d.take(0) =~= Seq::<u8>::empty());
    lemma_two_digits(d, 0, 0, raw[0]);
    lemma_two_digits(d, 2, n0, raw[1]);
    lemma_two_digits(d, 4, 256 * n0 + n1, raw[2]);
    lemma_two_digits(d, 6, 256 * (256 * n0 + n1) + n2, raw[3]);
    assert(d.take(8) =~= d);
    assert(hex_value(d[0]) is Some);
    assert(d[0] != 43);
    assert(256 * (256 * (256 * n0 + n1) + n2) + n3 == n);
}

proof fn lemma_hex_number_step(d: Seq<u8>, i: int)
    requires
        0 <= i < d.len(),
    ensures
        hex_number(d.take(i + 1)) == match (hex_number(d.take(i)), hex_value(d[i])) {
            (Some(n), Some(v)) => Some(16 * n + v),
            _ => None,
        },
{
    assert(d.take(i + 1).drop_last() =~= d.take(i));
    assert(d.take(i + 1).last() == d[i]);
}

/// Takes the white space off both ends of a text.
pub fn trimmed(s: &str) -> (r: &str)
    ensures
        r@ == trim_text(s@),
{
    std_trim(s)
}

/// The number that decimal digits stand for, most significant first.
pub open spec fn decimal_number(digits: Seq<u8>) -> Option<nat>
    decreases digits.len(),
{
    if digits.len() == 0 {
        Some(0)
    } else {
        match decimal_number(digits.drop_last()) {
            Some(n) => if 48 <= digits.last() <= 57 {
                Some(10 * n + (digits.last() - 48) as nat)
            } else {
                None
            },
            None => None,
        }
    }
}

/// The number below 65536 that a decimal numeral, with or without a leading `+`,
/// stands for.
pub open spec fn decimal_u16(numeral: Seq<u8>) -> Option<u16> {
    let digits = if numeral.len() > 1 && numeral[0] == 43 {
        numeral.skip(1)
    } else {
        numeral
    };
    match decimal_number(digits) {
        Some(n) => if digits.len() > 0 && n < 65536 {
            Some(n as u16)
        } else {
            None
        },
        None => None,
    }
}

proof fn lemma_decimal_prefix(digits: Seq<u8>, k: int)
    requires
        0 <= k <= digits.len(),
    ensures
        decimal_number(digits.take(k)) is None ==> decimal_number(digits) is None,
        decimal_number(digits.take(k)) is Some && decimal_number(digits) is Some ==> decimal_number(digits)->Some_0
            >= decimal_number(digits.take(k))->Some_0,
    decreases digits.len(),
{
    if k < digits.len() {
        assert(digits.drop_last().take(k) =~= digits.take(k));
        lemma_decimal_prefix(digits.drop_last(), k);
    } else {
        assert(digits.take(k) =~= digits);
    }
}

/// Reads a decimal numeral of a number below 65536.
pub fn parse_u16(numeral: &str) -> (r: Option<u16>)
    ensures
        r == decimal_u16(encode_utf8(numeral@)),
{
    let raw = numeral.as_bytes();
    let start: usize = if raw.len() > 1 && raw[0] == 43 {
        1
    } else {
        0
    };
    let ghost digits = raw@.skip(start as int);
    proof {
        assert(raw@.skip(0) =~= raw@);
        assert(digits.take(0) =~= Seq::<u8>::empty());
    }
    if raw.len() == start {
        return None;
    }
    let mut n: u32 = 0;
    let mut i: usize = start;
    while i < raw.len()
        invariant
            start <= i <= raw@.len(),
            digits == raw@.skip(start as int),
            n < 65536,
            decimal_number(digits.take(i - start)) == Some(n as nat),
            raw@ == encode_utf8(numeral@),
            start == if raw@.len() > 1 && raw@[0] == 43 { 1int } else { 0int },
            start == 0 ==> digits == raw@,
        decreases raw@.len() - i,
    {
        proof {
            assert(digits.take(i - start + 1).drop_last() =~= digits.take(i - start));
            assert(digits.take(i - start + 1).last() == raw@[i as int]);
            lemma_decimal_prefix(digits, i - start + 1);
        }
        if raw[i] < 48 || raw[i] > 57 {
            return None;
        }
        n = 10 * n + (raw[i] - 48) as u32;
        if n >= 65536 {
            return None;
        }
        i = i + 1;
    }
    assert(digits.take(i - start) =~= digits);
    Some(n as u16)
}

/// The pieces of a text between commas.
pub open spec fn comma_pieces(s: Seq<char>) -> Seq<Seq<char>>
    decreases s.len(),
{
    if s.len() == 0 {
        seq![Seq::empty()]
    } else {
        let before = comma_pieces(s.drop_last());
        if s.last() == ',' {
            before.push(Seq::empty())
        } else {
            before.drop_last().push(before.last().push(s.last()))
        }
    }
}

/// Texts without white space at their ends, but for those that are left empty.
pub open spec fn trimmed_pieces(pieces: Seq<Seq<char>>) -> Seq<Seq<char>>
    decreases pieces.len(),
{
    if pieces.len() == 0 {
        Seq::empty()
    } else {
        let before = trimmed_pieces(pieces.drop_last());
        let piece = trim_text(pieces.last());
        if piece.len() == 0 {
            before
        } else {
            before.push(piece)
        }
    }
}

/// The items of a list with commas.
pub open spec fn list_items(s: Seq<char>) -> Seq<Seq<char>> {
    trimmed_pieces(comma_pieces(s))
}

/// Texts by their characters.
pub open spec fn texts(v: Seq<String>) -> Seq<Seq<char>> {
    v.map_values(|s: String| s@)
}

proof fn lemma_pieces_nonempty(s: Seq<char>)
    ensures
        comma_pieces(s).len() > 0,
    decreases s.len(),
{
    if s.len() > 0 {
        lemma_pieces_nonempty(s.drop_last());
    }
}

/// The last piece of a text is what follows its last comma.
proof fn lemma_last_piece(s: Seq<char>, from: int)
    requires
        0 <= from <= s.len(),
        from == 0 || s[from - 1] == ',',
        forall|i: int| from <= i < s.len() ==> s[i] != ',',
    ensures
        comma_pieces(s) == comma_pieces(s.take(from)).drop_last().push(s.skip(from)),
    decreases s.len(),
{
    lemma_pieces_nonempty(s);
    lemma_pieces_nonempty(s.take(from));
    if from == s.len() {
        assert(s.take(from) =~= s);
        assert(s.skip(from) =~= Seq::empty());
        assert(comma_pieces(s).last() =~= Seq::empty());
        assert(comma_pieces(s) =~= comma_pieces(s).drop_last().push(Seq::empty()));
    } else {
        let front = s.drop_last();
        assert(front.take(from) =~= s.take(from));
        assert(s.last() != ',');
        lemma_last_piece(front, from);
        assert(front.skip(from).push(s.last()) =~= s.skip(from));
        let head = comma_pieces(s.take(from)).drop_last();
        assert(head.push(front.skip(from)).drop_last() =~= head);
    }
}

fn push_item(out: &mut Vec<String>, piece: &str)
    ensures
        texts(final(out)@) == (if trim_text(piece@).len() == 0 {
            texts(old(out)@)
        } else {
            texts(old(out)@).push(trim_text(piece@))
        }),
{
    let item = std_trim(piece);
    if item.unicode_len() > 0 {
        out.push(item.to_owned());
        assert(texts(out@) =~= texts(old(out)@).push(trim_text(piece@)));
    }
}

/// Reads a list with commas; empty items are left out.
pub fn split_list(s: &str) -> (r: Vec<String>)
    ensures
        texts(r@) == list_items(s@),
{
    let len: usize = s.unicode_len();
    let mut out: Vec<String> = Vec::new();
    let mut from: usize = 0;
    let mut i: usize = 0;
    proof {
        assert(s@.take(0) =~= Seq::empty());
        assert(comma_pieces(s@.take(0)).drop_last() =~= Seq::empty());
        assert(texts(out@) =~= Seq::empty());
    }
    while i < len
        invariant
            len == s@.len(),
            from <= i <= len,
            from == 0 || s@[from - 1] == ',',
            forall|k: int| from <= k < i ==> s@[k] != ',',
            texts(out@) == trimmed_pieces(comma_pieces(s@.take(from as int)).drop_last()),
        decreases len - i,
    {
        if s.get_char(i) == ',' {
            proof {
                let upto = s@.take(i as int);
                assert(upto.take(from as int) =~= s@.take(from as int));
                lemma_last_piece(upto, from as int);
                assert(upto.skip(from as int) =~= s@.subrange(from as int, i as int));
                assert(s@.take(i + 1).drop_last() =~= upto);
                let before = comma_pieces(upto);
                assert(comma_pieces(s@.take(i + 1)) =~= before.push(Seq::empty()));
                assert(comma_pieces(s@.take(i + 1)).drop_last() =~= before);
                assert(before.drop_last() =~= comma_pieces(s@.take(from as int)).drop_last());
            }
            push_item(&mut out, s.substring_char(from, i));
            from = i + 1;
        }
        i = i + 1;
    }
    proof {
        assert(s@.take(len as int) =~= s@);
        lemma_last_piece(s@, from as int);
        assert(s@.skip(from as int) =~= s@.subrange(from as int, len as int));
        assert(comma_pieces(s@).drop_last() =~= comma_pieces(s@.take(from as int)).drop_last());
    }
    push_item(&mut out, s.substring_char(from, len));
    out
}

/// Whether a text is among others.
pub fn lists_text(names: &Vec<String>, name: &str) -> (r: bool)
    ensures
        r == texts(names@).contains(name@),
{
    let mut i: usize = 0;
    while i < names.len()
        invariant
            i <= names@.len(),
            forall|j: int| 0 <= j < i ==> (#[trigger] names@[j])@ != name@,
        decreases names@.len() - i,
    {
        if text_eq(names[i].as_str(), name) {
            assert(texts(names@)[i as int] == name@);
            return true;
        }
        i = i + 1;
    }
    assert forall|j: int| 0 <= j < names@.len() implies texts(names@)[j] != name@ by {
        assert(texts(names@)[j] == names@[j]@);
    }
    false
}

} // verus!
