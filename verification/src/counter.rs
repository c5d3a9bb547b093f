//! The position of a persisted update, and the file name that stands for it.
use vstd::prelude::*;
use vstd::string::StringSliceAdditionalSpecFns;
use vstd::utf8::*;

use crate::encoding::{
    append_decimal, ascii_bytes, decimal, decimal_len, digit_char, is_digit_byte,
    is_digit_char, lemma_decimal_digits, lemma_decimal_len_pow10, lemma_parse_digit_chars,
    lemma_ascii_encoding, lemma_zeros_value, pad_zeros, parse_digits, parse_digit_bytes, pow10, zeros,
};
use crate::error::{IntErrorKind, WolletError};

verus! {

/// Number of characters of a persisted file name.
pub const PERSISTED_FILE_NAME_LENGTH: usize = 12;

/// The file name of the counter value `n`: its decimal digits, padded on the left with
/// zeros to `PERSISTED_FILE_NAME_LENGTH` characters (longer numbers are not cut).
pub open spec fn counter_string(n: nat) -> Seq<char> {
    pad_zeros(decimal(n), PERSISTED_FILE_NAME_LENGTH as nat)
}

/// What reading the file name with bytes `bs` gives: a name of another length than
/// `PERSISTED_FILE_NAME_LENGTH` bytes is refused (`Err(None)`); otherwise every byte must be a
/// decimal digit, read from the left (`Err(Some(kind))` at the first byte that is not a digit,
/// or once the value overflows a `usize`). No sign is accepted, so only the names that
/// `Counter::to_string` writes are read back.
pub open spec fn counter_parse(bs: Seq<u8>) -> Result<usize, Option<IntErrorKind>> {
    if bs.len() != PERSISTED_FILE_NAME_LENGTH {
        Err(None)
    } else {
        match parse_digits(bs) {
            Ok(v) => Ok(v as usize),
            Err(k) => Err(Some(k)),
        }
    }
}

/// Whether `err` is the error returned for a file name refused with `why` by `counter_parse`:
/// a name of the wrong length gives the message "Not 12 chars", a name that is not a number
/// gives the kind of parse failure.
pub open spec fn name_error(why: Option<IntErrorKind>, err: WolletError) -> bool {
    match why {
        None => {
            &&& err is Generic
            &&& err->Generic_0@ == "Not 12 chars"@
        },
        Some(k) => err == WolletError::ParseInt(k),
    }
}

/// Encapsulate an usize so that its to/from string representation are coherent
#[derive(Debug, PartialEq, Eq, Structural, PartialOrd, Ord, Clone, Copy)]
pub struct Counter(pub usize);

impl Counter {
    /// The file name of this counter (see `counter_string`).
    pub fn to_string(&self) -> (s: String)
        ensures
            s@ == counter_string(self.0 as nat),
    {
        let len = decimal_len(self.0);
        let mut s = String::new();
        let mut k: usize = len;
        while k < PERSISTED_FILE_NAME_LENGTH
            invariant
                len == decimal(self.0 as nat).len(),
                len <= PERSISTED_FILE_NAME_LENGTH ==> len <= k <= PERSISTED_FILE_NAME_LENGTH,
                len > PERSISTED_FILE_NAME_LENGTH ==> k == len,
                s@ =~= zeros((k - len) as nat),
            decreases PERSISTED_FILE_NAME_LENGTH - k,
        {
            proof {
                reveal_strlit("0");
            }
            s.append("0");
            k = k + 1;
        }
        append_decimal(&mut s, self.0);
        assert(s@ =~= counter_string(self.0 as nat));
        s
    }

    /// Reads a counter back from a file name (see `counter_parse`).
    pub fn from_str(s: &str) -> (r: Result<Counter, WolletError>)
        ensures
            match counter_parse(s.spec_bytes()) {
                Ok(v) => r == Ok::<Counter, WolletError>(Counter(v)),
                Err(why) => r is Err && name_error(why, r->Err_0),
            },
    {
        let bytes = s.as_bytes();
        if bytes.len() != PERSISTED_FILE_NAME_LENGTH {
            return Err(WolletError::Generic("Not 12 chars".to_owned()));
        }
        proof {
            assert(bytes@.subrange(0, bytes@.len() as int) =~= bytes@);
        }
        match parse_digit_bytes(bytes, 0) {
            Ok(v) => Ok(Counter(v)),
            Err(k) => Err(WolletError::ParseInt(k)),
        }
    }
}

impl Default for Counter {
    fn default() -> (c: Counter)
        ensures
            c.0 == 0,
    {
        Counter(0)
    }
}

impl From<usize> for Counter {
    fn from(value: usize) -> (c: Counter) {
        Counter(value)
    }
}

impl vstd::std_specs::convert::FromSpecImpl<usize> for Counter {
    open spec fn obeys_from_spec() -> bool {
        true
    }

    open spec fn from_spec(v: usize) -> Counter {
        Counter(v)
    }
}

impl<'a> From<&'a Counter> for usize {
    fn from(value: &'a Counter) -> (v: usize) {
        value.0
    }
}

impl<'a> vstd::std_specs::convert::FromSpecImpl<&'a Counter> for usize {
    open spec fn obeys_from_spec() -> bool {
        true
    }

    open spec fn from_spec(v: &'a Counter) -> usize {
        v.0
    }
}

impl From<Counter> for usize {
    fn from(value: Counter) -> (v: usize) {
        value.0
    }
}

impl vstd::std_specs::convert::FromSpecImpl<Counter> for usize {
    open spec fn obeys_from_spec() -> bool {
        true
    }

    open spec fn from_spec(v: Counter) -> usize {
        v.0
    }
}

impl core::ops::Add<usize> for Counter {
    type Output = Counter;

    fn add(self, rhs: usize) -> (c: Counter) {
        Counter(rhs + self.0)
    }
}

impl vstd::std_specs::ops::AddSpecImpl<usize> for Counter {
    open spec fn obeys_add_spec() -> bool {
        true
    }

    open spec fn add_req(self, rhs: usize) -> bool {
        rhs + self.0 <= usize::MAX
    }

    open spec fn add_spec(self, rhs: usize) -> Counter {
        Counter((rhs + self.0) as usize)
    }
}

impl core::str::FromStr for Counter {
    type Err = WolletError;

    fn from_str(s: &str) -> (r: Result<Counter, WolletError>)
        ensures
            match counter_parse(s.spec_bytes()) {
                Ok(v) => r == Ok::<Counter, WolletError>(Counter(v)),
                Err(why) => r is Err && name_error(why, r->Err_0),
            },
    {
        Counter::from_str(s)
    }
}


/// A digit text whose value is zero is made of zeros only.
proof fn lemma_zero_digits(bs: Seq<u8>)
    requires
        parse_digits(bs) == Ok::<nat, IntErrorKind>(0),
    ensures
        ascii_bytes(zeros(bs.len())) == bs,
    decreases bs.len(),
{
    if bs.len() > 0 {
        let v = parse_digits(bs.drop_last())->Ok_0;
        assert(parse_digits(bs.drop_last()) is Ok);
        assert(v == 0);
        lemma_zero_digits(bs.drop_last());
        assert(ascii_bytes(zeros(bs.len())) =~= ascii_bytes(zeros((bs.len() - 1) as nat)).push(48));
    } else {
        assert(ascii_bytes(zeros(bs.len())) =~= bs);
    }
}

/// Padding the decimal form of a parsed digit text to the text's length gives the text back.
proof fn lemma_format_parsed_digits(bs: Seq<u8>)
    requires
        bs.len() >= 1,
        parse_digits(bs) is Ok,
    ensures
        decimal(parse_digits(bs)->Ok_0).len() <= bs.len(),
        ascii_bytes(pad_zeros(decimal(parse_digits(bs)->Ok_0), bs.len())) == bs,
    decreases bs.len(),
{
    let init = bs.drop_last();
    let v = parse_digits(bs)->Ok_0;
    assert(parse_digits(init) is Ok);
    let w = parse_digits(init)->Ok_0;
    let d = bs.last() - 48;
    assert(is_digit_byte(bs.last()));
    assert(v == 10 * w + d);
    if w == 0 {
        assert(v == d);
        lemma_zero_digits(init);
        assert(decimal(v) == seq![digit_char(d)]);
        assert(digit_char(d) as u8 == bs.last());
        assert(ascii_bytes(pad_zeros(decimal(v), bs.len())) =~= ascii_bytes(zeros(init.len())).push(
            bs.last(),
        ));
        assert(bs =~= init.push(bs.last()));
    } else {
        lemma_format_parsed_digits(init);
        assert(v >= 10);
        assert(v / 10 == w && v % 10 == d);
        assert(decimal(v) == decimal(w).push(digit_char(d)));
        assert(digit_char(d) as u8 == bs.last());
        assert(ascii_bytes(pad_zeros(decimal(v), bs.len())) =~= ascii_bytes(
            pad_zeros(decimal(w), init.len()),
        ).push(bs.last()));
        assert(bs =~= init.push(bs.last()));
    }
}

/// The file name of a counter below `10^PERSISTED_FILE_NAME_LENGTH`: it has exactly
/// `PERSISTED_FILE_NAME_LENGTH` digits, and reading its bytes gives the counter back.
pub proof fn lemma_counter_string(n: usize)
    requires
        n < pow10(PERSISTED_FILE_NAME_LENGTH as nat),
    ensures
        counter_string(n as nat).len() == PERSISTED_FILE_NAME_LENGTH,
        forall|i: int|
            0 <= i < counter_string(n as nat).len() ==> is_digit_char(
                #[trigger] counter_string(n as nat)[i],
            ),
        is_ascii_chars(counter_string(n as nat)),
        counter_parse(ascii_bytes(counter_string(n as nat))) == Ok::<usize, Option<IntErrorKind>>(n),
{
    let cs = counter_string(n as nat);
    lemma_decimal_len_pow10(n as nat, PERSISTED_FILE_NAME_LENGTH as nat);
    lemma_decimal_digits(n as nat);
    let k = (PERSISTED_FILE_NAME_LENGTH - decimal(n as nat).len()) as nat;
    assert(cs =~= zeros(k) + decimal(n as nat));
    lemma_zeros_value(k, decimal(n as nat));
    assert forall|i: int| 0 <= i < cs.len() implies is_digit_char(#[trigger] cs[i]) by {
        if i >= k {
            assert(cs[i] == decimal(n as nat)[i - k]);
        }
    }
    assert(is_ascii_chars(cs));
    lemma_parse_digit_chars(cs);
}

/// Reading back the file name of a counter below `10^PERSISTED_FILE_NAME_LENGTH` gives that
/// counter: file names and counters stand for each other.
pub proof fn law_parse_inverts_format(n: usize, text: &str)
    requires
        n < pow10(PERSISTED_FILE_NAME_LENGTH as nat),
        text@ == counter_string(n as nat),
    ensures
        text@.len() == PERSISTED_FILE_NAME_LENGTH,
        counter_parse(text.spec_bytes()) == Ok::<usize, Option<IntErrorKind>>(n),
{
    lemma_counter_string(n);
    lemma_ascii_encoding(counter_string(n as nat));
}

/// Formatting the counter read from a file name gives the same name back: the only names
/// read as counters are the names that counters are written as.
pub proof fn law_format_inverts_parse(bs: Seq<u8>)
    requires
        counter_parse(bs) is Ok,
    ensures
        ascii_bytes(counter_string(counter_parse(bs)->Ok_0 as nat)) == bs,
{
    lemma_format_parsed_digits(bs);
}

} // verus!
