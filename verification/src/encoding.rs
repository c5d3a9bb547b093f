//! Decimal and hexadecimal text: what the strings are, and how they are read back.
use vstd::prelude::*;

use crate::error::{HexErrorKind, IntErrorKind};

verus! {

/// The ASCII character of the decimal digit `d` (`0 <= d < 10`).
pub open spec fn digit_char(d: int) -> char {
    (d + 48) as char
}

/// The decimal representation of `n`, without leading zeros ("0" for zero).
pub open spec fn decimal(n: nat) -> Seq<char>
    decreases n,
{
    if n < 10 {
        seq![digit_char(n as int)]
    } else {
        decimal(n / 10).push(digit_char((n % 10) as int))
    }
}

/// `k` copies of the character `'0'`.
pub open spec fn zeros(k: nat) -> Seq<char> {
    Seq::new(k, |i: int| '0')
}

/// `s` with `'0'` characters added in front until it is at least `width` long.
pub open spec fn pad_zeros(s: Seq<char>, width: nat) -> Seq<char> {
    if s.len() >= width {
        s
    } else {
        zeros((width - s.len()) as nat) + s
    }
}

/// The single-character string of a decimal digit.
fn digit_str(d: usize) -> (s: &'static str)
    requires
        d < 10,
    ensures
        s@ == seq![digit_char(d as int)],
{
    proof {
        reveal_strlit("0");
        reveal_strlit("1");
        reveal_strlit("2");
        reveal_strlit("3");
        reveal_strlit("4");
        reveal_strlit("5");
        reveal_strlit("6");
        reveal_strlit("7");
        reveal_strlit("8");
        reveal_strlit("9");
    }
    let s = if d == 0 {
        "0"
    } else if d == 1 {
        "1"
    } else if d == 2 {
        "2"
    } else if d == 3 {
        "3"
    } else if d == 4 {
        "4"
    } else if d == 5 {
        "5"
    } else if d == 6 {
        "6"
    } else if d == 7 {
        "7"
    } else if d == 8 {
        "8"
    } else {
        "9"
    };
    assert(s@ =~= seq![digit_char(d as int)]);
    s
}

/// Appends the decimal representation of `n` to `s`.
pub fn append_decimal(s: &mut String, n: usize)
    ensures
        final(s)@ == old(s)@ + decimal(n as nat),
    decreases n,
{
    if n >= 10 {
        append_decimal(s, n / 10);
    }
    s.append(digit_str(n % 10));
    proof {
        if n >= 10 {
            assert(old(s)@ + decimal(n as nat) =~= old(s)@ + decimal((n / 10) as nat) + seq![
                digit_char((n % 10) as int),
            ]);
        }
    }
}

/// The decimal representation of `n`.
pub fn decimal_string(n: usize) -> (s: String)
    ensures
        s@ == decimal(n as nat),
{
    let mut s = String::new();
    append_decimal(&mut s, n);
    assert(s@ =~= decimal(n as nat));
    s
}


/// `10` to the power `k`.
pub open spec fn pow10(k: nat) -> nat
    decreases k,
{
    if k == 0 {
        1
    } else {
        10 * pow10((k - 1) as nat)
    }
}

/// Whether `c` is one of the characters `'0'` to `'9'`.
pub open spec fn is_digit_char(c: char) -> bool {
    '0' <= c <= '9'
}

/// The value of a string of decimal digits, most significant first (zero when empty).
pub open spec fn digits_value(cs: Seq<char>) -> nat
    decreases cs.len(),
{
    if cs.len() == 0 {
        0
    } else {
        (10 * digits_value(cs.drop_last()) + (cs.last() as int - 48)) as nat
    }
}

/// The decimal representation has one digit, and at most as many digits as `n` (for `n > 0`).
pub proof fn lemma_decimal_len_bound(n: nat)
    ensures
        1 <= decimal(n).len(),
        decimal(n).len() <= if n == 0 { 1 } else { n },
    decreases n,
{
    if n >= 10 {
        lemma_decimal_len_bound(n / 10);
    }
}

/// The decimal representation of `n` has at most `k` digits exactly when `n < 10^k`.
pub proof fn lemma_decimal_len_pow10(n: nat, k: nat)
    requires
        k >= 1,
    ensures
        decimal(n).len() <= k <==> n < pow10(k),
    decreases n,
{
    reveal_with_fuel(pow10, 2);
    if n >= 10 {
        if k == 1 {
            lemma_decimal_len_bound(n / 10);
            lemma_pow10_positive(0);
        } else {
            lemma_decimal_len_pow10(n / 10, (k - 1) as nat);
            lemma_pow10_positive((k - 1) as nat);
            assert(n / 10 < pow10((k - 1) as nat) <==> n < 10 * pow10((k - 1) as nat));
        }
    } else {
        lemma_pow10_at_least_ten(k);
    }
}

/// Powers of ten are positive.
pub proof fn lemma_pow10_positive(k: nat)
    ensures
        pow10(k) >= 1,
    decreases k,
{
    if k > 0 {
        lemma_pow10_positive((k - 1) as nat);
    }
}

/// Positive powers of ten are at least ten.
pub proof fn lemma_pow10_at_least_ten(k: nat)
    requires
        k >= 1,
    ensures
        pow10(k) >= 10,
{
    lemma_pow10_positive((k - 1) as nat);
}

/// Every character of a decimal representation is a digit, and its value is the number.
pub proof fn lemma_decimal_digits(n: nat)
    ensures
        forall|i: int| 0 <= i < decimal(n).len() ==> is_digit_char(#[trigger] decimal(n)[i]),
        digits_value(decimal(n)) == n,
    decreases n,
{
    if n >= 10 {
        lemma_decimal_digits(n / 10);
        assert(decimal(n).drop_last() =~= decimal(n / 10));
        assert(decimal(n).last() as int == (n % 10) + 48);
        assert(10 * (n / 10) + n % 10 == n);
    } else {
        assert(decimal(n).last() as int == n + 48);
        assert(decimal(n).drop_last() =~= Seq::<char>::empty());
        assert(digits_value(Seq::<char>::empty()) == 0);
    }
}

/// Leading zeros do not change the value of a digit string.
pub proof fn lemma_zeros_value(k: nat, s: Seq<char>)
    ensures
        digits_value(zeros(k) + s) == digits_value(s),
    decreases s.len(), k,
{
    if s.len() == 0 {
        assert(zeros(k) + s =~= zeros(k));
        if k > 0 {
            assert(zeros(k).drop_last() =~= zeros((k - 1) as nat));
            lemma_zeros_value((k - 1) as nat, s);
            assert(zeros((k - 1) as nat) + s =~= zeros((k - 1) as nat));
        }
    } else {
        assert((zeros(k) + s).drop_last() =~= zeros(k) + s.drop_last());
        lemma_zeros_value(k, s.drop_last());
    }
}

/// The length of the decimal representation of `n`.
pub fn decimal_len(n: usize) -> (len: usize)
    ensures
        len == decimal(n as nat).len(),
    decreases n,
{
    proof {
        lemma_decimal_len_bound(n as nat);
    }
    if n >= 10 {
        proof {
            lemma_decimal_len_bound((n / 10) as nat);
        }
        decimal_len(n / 10) + 1
    } else {
        1
    }
}


/// Whether the byte `b` is an ASCII decimal digit.
pub open spec fn is_digit_byte(b: u8) -> bool {
    48 <= b <= 57
}

/// Reads digits from the left, as `usize::from_str` reads them after any sign: the first
/// non-digit gives `InvalidDigit`, and the first prefix whose value exceeds `usize::MAX`
/// gives `PosOverflow` (a non-digit wins over an overflow at the same byte).
pub open spec fn parse_digits(bs: Seq<u8>) -> Result<nat, IntErrorKind>
    decreases bs.len(),
{
    if bs.len() == 0 {
        Ok(0)
    } else {
        match parse_digits(bs.drop_last()) {
            Err(k) => Err(k),
            Ok(v) => if !is_digit_byte(bs.last()) {
                Err(IntErrorKind::InvalidDigit)
            } else if 10 * v + (bs.last() - 48) > usize::MAX {
                Err(IntErrorKind::PosOverflow)
            } else {
                Ok((10 * v + (bs.last() - 48)) as nat)
            },
        }
    }
}

/// The ASCII bytes of a string of ASCII characters.
pub open spec fn ascii_bytes(cs: Seq<char>) -> Seq<u8> {
    Seq::new(cs.len(), |i: int| cs[i] as u8)
}

/// Once a prefix fails to parse, every longer text fails the same way.
pub proof fn lemma_parse_digits_prefix_error(bs: Seq<u8>, i: int)
    requires
        0 <= i <= bs.len(),
        parse_digits(bs.take(i)) is Err,
    ensures
        parse_digits(bs) == parse_digits(bs.take(i)),
    decreases bs.len() - i,
{
    if i < bs.len() {
        assert(bs.take(i + 1).drop_last() =~= bs.take(i));
        lemma_parse_digits_prefix_error(bs, i + 1);
    } else {
        assert(bs.take(i) =~= bs);
    }
}

/// A digit string whose value fits in a `usize` parses to that value.
pub proof fn lemma_parse_digit_chars(cs: Seq<char>)
    requires
        forall|i: int| 0 <= i < cs.len() ==> is_digit_char(#[trigger] cs[i]),
        digits_value(cs) <= usize::MAX,
    ensures
        parse_digits(ascii_bytes(cs)) == Ok::<nat, IntErrorKind>(digits_value(cs)),
    decreases cs.len(),
{
    if cs.len() > 0 {
        assert(ascii_bytes(cs).drop_last() =~= ascii_bytes(cs.drop_last()));
        assert forall|i: int| 0 <= i < cs.drop_last().len() implies is_digit_char(
            #[trigger] cs.drop_last()[i],
        ) by {
            assert(cs.drop_last()[i] == cs[i]);
        }
        assert(is_digit_char(cs[cs.len() - 1]));
        lemma_parse_digit_chars(cs.drop_last());
        assert(ascii_bytes(cs).last() as int == cs.last() as int);
    }
}

/// Parses the decimal digits `bs[start..]` (no sign accepted) as `usize::from_str` reads
/// digits (see `parse_digits`).
pub fn parse_digit_bytes(bs: &[u8], start: usize) -> (r: Result<usize, IntErrorKind>)
    requires
        start <= bs@.len(),
    ensures
        match parse_digits(bs@.subrange(start as int, bs@.len() as int)) {
            Ok(v) => r == Ok::<usize, IntErrorKind>(v as usize),
            Err(k) => r == Err::<usize, IntErrorKind>(k),
        },
{
    let ghost all = bs@.subrange(start as int, bs@.len() as int);
    let mut acc: usize = 0;
    let mut i: usize = start;
    while i < bs.len()
        invariant
            start <= i <= bs@.len(),
            all == bs@.subrange(start as int, bs@.len() as int),
            parse_digits(all.take(i - start)) == Ok::<nat, IntErrorKind>(acc as nat),
        decreases bs@.len() - i,
    {
        let b = bs[i];
        let ghost next = all.take(i - start + 1);
        assert(next.drop_last() =~= all.take(i - start));
        assert(next.last() == b);
        if b < 48 || b > 57 {
            proof {
                lemma_parse_digits_prefix_error(all, i - start + 1);
            }
            return Err(IntErrorKind::InvalidDigit);
        }
        let d: usize = (b - 48) as usize;
        if acc > (usize::MAX - d) / 10 {
            assert(10 * acc + d > usize::MAX) by (nonlinear_arith)
                requires
                    acc > (usize::MAX - d) / 10,
                    d <= 9,
            ;
            proof {
                lemma_parse_digits_prefix_error(all, i - start + 1);
            }
            return Err(IntErrorKind::PosOverflow);
        }
        assert(10 * acc + d <= usize::MAX) by (nonlinear_arith)
            requires
                acc <= (usize::MAX - d) / 10,
                d <= 9,
        ;
        acc = 10 * acc + d;
        i = i + 1;
    }
    assert(all.take(i - start) =~= all);
    Ok(acc)
}

/// The lowercase hexadecimal character of the nibble `d` (`0 <= d < 16`).
pub open spec fn hex_char(d: int) -> char {
    if d < 10 {
        (d + 48) as char
    } else {
        (d + 87) as char
    }
}

/// The lowercase hexadecimal form of `bytes`: two characters per byte, high nibble first.
pub open spec fn hex_lower(bytes: Seq<u8>) -> Seq<char> {
    Seq::new(
        2 * bytes.len(),
        |i: int|
            if i % 2 == 0 {
                hex_char((bytes[i / 2] / 16) as int)
            } else {
                hex_char((bytes[i / 2] % 16) as int)
            },
    )
}

/// Whether `b` is an ASCII hexadecimal digit, in either case.
pub open spec fn is_hex_byte(b: u8) -> bool {
    (48 <= b <= 57) || (97 <= b <= 102) || (65 <= b <= 70)
}

/// The value of the hexadecimal digit `b`.
pub open spec fn hex_digit_value(b: u8) -> int {
    if 48 <= b <= 57 {
        b - 48
    } else if 97 <= b <= 102 {
        b - 87
    } else {
        b - 55
    }
}

/// Decoding the hexadecimal text `text` (two digits per byte, high nibble first, either
/// case): an odd length is refused first, then any byte that is not a hexadecimal digit.
pub open spec fn hex_decode(text: Seq<u8>) -> Result<Seq<u8>, HexErrorKind> {
    if text.len() % 2 != 0 {
        Err(HexErrorKind::OddLength)
    } else if exists|i: int| 0 <= i < text.len() && !is_hex_byte(#[trigger] text[i]) {
        Err(HexErrorKind::InvalidChar)
    } else {
        Ok(
            Seq::new(
                text.len() / 2,
                |i: int| (16 * hex_digit_value(text[2 * i]) + hex_digit_value(text[2 * i + 1])) as u8,
            ),
        )
    }
}

/// The displayed form of a 32-byte hash that is shown backwards (block hashes, transaction ids):
/// the lowercase hexadecimal form of its bytes in reverse order.
pub open spec fn hash_hex(bytes: Seq<u8>) -> Seq<char> {
    hex_lower(bytes.reverse())
}

/// Reading a 32-byte hash shown backwards from its text: the text must be 64 bytes long, then
/// made of hexadecimal digits; the decoded bytes are reversed.
pub open spec fn hash_from_hex(text: Seq<u8>) -> Result<Seq<u8>, HexErrorKind> {
    if text.len() != 64 {
        Err(HexErrorKind::InvalidLength)
    } else {
        match hex_decode(text) {
            Ok(b) => Ok(b.reverse()),
            Err(_) => Err(HexErrorKind::InvalidChar),
        }
    }
}

/// The single-character string of a nibble in lowercase hexadecimal.
fn hex_str(d: u8) -> (s: &'static str)
    requires
        d < 16,
    ensures
        s@ == seq![hex_char(d as int)],
{
    if d < 10 {
        digit_str(d as usize)
    } else {
        proof {
            reveal_strlit("a");
            reveal_strlit("b");
            reveal_strlit("c");
            reveal_strlit("d");
            reveal_strlit("e");
            reveal_strlit("f");
        }
        let s = if d == 10 {
            "a"
        } else if d == 11 {
            "b"
        } else if d == 12 {
            "c"
        } else if d == 13 {
            "d"
        } else if d == 14 {
            "e"
        } else {
            "f"
        };
        assert(s@ =~= seq![hex_char(d as int)]);
        s
    }
}

/// Appends the lowercase hexadecimal form of `bytes` to `s`.
pub fn append_hex(s: &mut String, bytes: &[u8])
    ensures
        final(s)@ == old(s)@ + hex_lower(bytes@),
{
    let mut i: usize = 0;
    while i < bytes.len()
        invariant
            i <= bytes@.len(),
            s@ =~= old(s)@ + hex_lower(bytes@.take(i as int)),
        decreases bytes@.len() - i,
    {
        let b = bytes[i];
        s.append(hex_str(b / 16));
        s.append(hex_str(b % 16));
        assert(hex_lower(bytes@.take(i + 1)) =~= hex_lower(bytes@.take(i as int)) + seq![
            hex_char((b / 16) as int),
            hex_char((b % 16) as int),
        ]);
        i = i + 1;
    }
    assert(bytes@.take(i as int) =~= bytes@);
}

/// The lowercase hexadecimal form of `bytes`.
pub fn to_hex(bytes: &[u8]) -> (s: String)
    ensures
        s@ == hex_lower(bytes@),
{
    let mut s = String::new();
    append_hex(&mut s, bytes);
    assert(s@ =~= hex_lower(bytes@));
    s
}

/// The displayed form of a hash shown backwards (see `hash_hex`).
pub fn hash_to_hex(bytes: &[u8; 32]) -> (s: String)
    ensures
        s@ == hash_hex(bytes@),
{
    let mut s = String::new();
    let mut i: usize = 32;
    while i > 0
        invariant
            i <= 32,
            bytes@.len() == 32,
            s@ =~= hex_lower(bytes@.reverse().take(32 - i)),
        decreases i,
    {
        i = i - 1;
        let b = bytes[i];
        s.append(hex_str(b / 16));
        s.append(hex_str(b % 16));
        assert(bytes@.reverse()[31 - i as int] == b);
        assert(hex_lower(bytes@.reverse().take(32 - i)) =~= hex_lower(
            bytes@.reverse().take(32 - i - 1),
        ) + seq![hex_char((b / 16) as int), hex_char((b % 16) as int)]);
    }
    assert(bytes@.reverse().take(32) =~= bytes@.reverse());
    s
}

/// The value of a hexadecimal digit byte.
fn hex_digit(b: u8) -> (r: Option<u8>)
    ensures
        is_hex_byte(b) ==> r == Some(hex_digit_value(b) as u8) && hex_digit_value(b) < 16,
        !is_hex_byte(b) ==> r is None,
{
    if 48 <= b && b <= 57 {
        Some(b - 48)
    } else if 97 <= b && b <= 102 {
        Some(b - 87)
    } else if 65 <= b && b <= 70 {
        Some(b - 55)
    } else {
        None
    }
}

/// Decodes hexadecimal text (see `hex_decode`).
pub fn decode_hex_bytes(text: &[u8]) -> (r: Result<Vec<u8>, HexErrorKind>)
    ensures
        match hex_decode(text@) {
            Ok(b) => r matches Ok(v) && v@ == b,
            Err(k) => r == Err::<Vec<u8>, HexErrorKind>(k),
        },
{
    if text.len() % 2 != 0 {
        return Err(HexErrorKind::OddLength);
    }
    let mut out: Vec<u8> = Vec::new();
    let mut i: usize = 0;
    while i < text.len() / 2
        invariant
            text@.len() % 2 == 0,
            i <= text@.len() / 2,
            out@.len() == i,
            forall|j: int| 0 <= j < 2 * i ==> is_hex_byte(#[trigger] text@[j]),
            forall|j: int|
                0 <= j < i ==> #[trigger] out@[j] == (16 * hex_digit_value(text@[2 * j])
                    + hex_digit_value(text@[2 * j + 1])) as u8,
        decreases text@.len() / 2 - i,
    {
        let hi = hex_digit(text[2 * i]);
        let lo = hex_digit(text[2 * i + 1]);
        match (hi, lo) {
            (Some(h), Some(l)) => {
                out.push(16 * h + l);
            },
            _ => {
                return Err(HexErrorKind::InvalidChar);
            },
        }
        i = i + 1;
    }
    assert(out@ =~= Seq::new(
        text@.len() / 2,
        |j: int| (16 * hex_digit_value(text@[2 * j]) + hex_digit_value(text@[2 * j + 1])) as u8,
    ));
    assert forall|j: int| 0 <= j < text@.len() implies is_hex_byte(#[trigger] text@[j]) by {}
    Ok(out)
}

/// Reads a hash shown backwards from its text (see `hash_from_hex`).
pub fn parse_hash(text: &[u8]) -> (r: Result<[u8; 32], HexErrorKind>)
    ensures
        match hash_from_hex(text@) {
            Ok(h) => r matches Ok(a) && a@ == h,
            Err(k) => r == Err::<[u8; 32], HexErrorKind>(k),
        },
{
    if text.len() != 64 {
        return Err(HexErrorKind::InvalidLength);
    }
    let decoded = match decode_hex_bytes(text) {
        Ok(v) => v,
        Err(_) => {
            return Err(HexErrorKind::InvalidChar);
        },
    };
    let mut a: [u8; 32] = [0u8; 32];
    let mut i: usize = 0;
    while i < 32
        invariant
            i <= 32,
            decoded@.len() == 32,
            forall|j: int| 0 <= j < i ==> #[trigger] a@[j] == decoded@[31 - j],
        decreases 32 - i,
    {
        a[i] = decoded[31 - i];
        i = i + 1;
    }
    assert(a@ =~= decoded@.reverse());
    Ok(a)
}


/// The byte of a hexadecimal character is a hexadecimal digit of the same value.
proof fn lemma_hex_char_value(d: int)
    requires
        0 <= d < 16,
    ensures
        is_hex_byte(hex_char(d) as u8),
        hex_digit_value(hex_char(d) as u8) == d,
{
    if d < 10 {
        assert(hex_char(d) as u8 == d + 48);
    } else {
        assert(hex_char(d) as u8 == d + 87);
    }
}

/// Decoding the hexadecimal form of bytes gives the bytes back.
pub proof fn law_hex_roundtrip(bytes: Seq<u8>)
    ensures
        hex_decode(ascii_bytes(hex_lower(bytes))) == Ok::<Seq<u8>, HexErrorKind>(bytes),
{
    let t = ascii_bytes(hex_lower(bytes));
    assert(t.len() == 2 * bytes.len());
    assert forall|i: int| 0 <= i < t.len() implies is_hex_byte(#[trigger] t[i]) by {
        let b = bytes[i / 2];
        if i % 2 == 0 {
            lemma_hex_char_value((b / 16) as int);
        } else {
            lemma_hex_char_value((b % 16) as int);
        }
    }
    assert forall|j: int| 0 <= j < bytes.len() implies (16 * hex_digit_value(t[2 * j])
        + hex_digit_value(t[2 * j + 1])) as u8 == bytes[j] by {
        let b = bytes[j];
        assert((2 * j) / 2 == j && (2 * j) % 2 == 0);
        assert((2 * j + 1) / 2 == j && (2 * j + 1) % 2 == 1);
        lemma_hex_char_value((b / 16) as int);
        lemma_hex_char_value((b % 16) as int);
        assert(16 * (b / 16) + b % 16 == b);
    }
    assert(!(exists|i: int| 0 <= i < t.len() && !is_hex_byte(#[trigger] t[i])));
    assert(hex_decode(t)->Ok_0 =~= bytes);
}

/// Reading back the displayed form of a 32-byte hash gives the hash back.
pub proof fn law_hash_roundtrip(hash: Seq<u8>)
    requires
        hash.len() == 32,
    ensures
        hash_from_hex(ascii_bytes(hash_hex(hash))) == Ok::<Seq<u8>, HexErrorKind>(hash),
{
    law_hex_roundtrip(hash.reverse());
    assert(hash.reverse().reverse() =~= hash);
}

/// A string of ASCII characters is encoded as its ASCII bytes.
pub proof fn lemma_ascii_encoding(cs: Seq<char>)
    requires
        vstd::utf8::is_ascii_chars(cs),
    ensures
        vstd::utf8::encode_utf8(cs) == ascii_bytes(cs),
{
    vstd::utf8::is_ascii_chars_encode_utf8(cs);
    assert(vstd::utf8::encode_utf8(cs) =~= ascii_bytes(cs));
}

} // verus!
