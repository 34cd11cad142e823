//! Messages and results as text: hexadecimal strings, bytes and words.

use vstd::prelude::*;
use crate::error::SessionError;

verus! {

/// The error of `hex::decode`.
#[verifier::external_type_specification]
#[verifier::external_body]
pub struct ExFromHexError(hex::FromHexError);

/// The value of a hexadecimal digit of either case.
pub open spec fn hex_value(c: char) -> Option<u8> {
    if '0' <= c <= '9' {
        Some((c as u32 - '0' as u32) as u8)
    } else if 'a' <= c <= 'f' {
        Some((c as u32 - 'a' as u32 + 10) as u8)
    } else if 'A' <= c <= 'F' {
        Some((c as u32 - 'A' as u32 + 10) as u8)
    } else {
        None
    }
}

/// The lower-case hexadecimal digit of a value below 16.
pub open spec fn hex_digit(d: int) -> char
    recommends
        0 <= d < 16,
{
    if d < 10 {
        ('0' as u32 + d) as char
    } else {
        ('a' as u32 + d - 10) as char
    }
}

/// A string of hexadecimal digits, two to a byte.
pub open spec fn is_hex(s: Seq<char>) -> bool {
    &&& s.len() % 2 == 0
    &&& forall|i: int| 0 <= i < s.len() ==> (#[trigger] hex_value(s[i])).is_some()
}

/// The bytes that a string of hexadecimal digits stands for: the first digit
/// of each pair is the high half of its byte.
pub open spec fn decoded(s: Seq<char>) -> Seq<u8>
    recommends
        is_hex(s),
{
    Seq::new(
        s.len() / 2,
        |i: int| (16 * hex_value(s[2 * i]).unwrap() + hex_value(s[2 * i + 1]).unwrap()) as u8,
    )
}

/// The lower-case hexadecimal string of `bytes`: two digits per byte, the
/// high half first.
pub open spec fn encoded(bytes: Seq<u8>) -> Seq<char> {
    Seq::new(
        2 * bytes.len(),
        |i: int|
            if i % 2 == 0 {
                hex_digit(bytes[i / 2] as int / 16)
            } else {
                hex_digit(bytes[i / 2] as int % 16)
            },
    )
}

/// Calls `hex::decode`. It succeeds exactly on the strings with an even
/// number of characters that are all hexadecimal digits, of either case, and
/// then returns one byte per pair of digits, the first digit being the high
/// half.
#[verifier::external_body]
fn hex_decode(s: &str) -> (r: Result<Vec<u8>, hex::FromHexError>)
    ensures
        r.is_ok() <==> is_hex(s@),
        r.is_ok() ==> r.unwrap()@ == decoded(s@),
{
    hex::decode(s)
}

/// Calls `hex::encode`. It returns two lower-case hexadecimal digits per
/// byte, the high half first.
#[verifier::external_body]
fn hex_encode(bytes: &Vec<u8>) -> (s: String)
    ensures
        s@ == encoded(bytes@),
{
    hex::encode(bytes)
}

/// Decodes a message given as a hexadecimal string.
///
/// Fails with [`SessionError::InputShape`] when the string has an odd number
/// of characters or holds a character that is no hexadecimal digit.
pub fn decode_hex(s: &str) -> (r: Result<Vec<u8>, SessionError>)
    ensures
        r.is_ok() <==> is_hex(s@),
        r.is_ok() ==> r.unwrap()@ == decoded(s@),
        r.is_err() ==> r == Err::<Vec<u8>, SessionError>(SessionError::InputShape),
{
    match hex_decode(s) {
        Ok(bytes) => Ok(bytes),
        Err(_) => Err(SessionError::InputShape),
    }
}

/// Encodes bytes as a lower-case hexadecimal string.
pub fn encode_hex(bytes: &Vec<u8>) -> (s: String)
    ensures
        s@ == encoded(bytes@),
        is_hex(s@),
        decoded(s@) == bytes@,
{
    proof {
        law_hex_round_trip(bytes@);
    }
    hex_encode(bytes)
}

/// Decoding the hexadecimal string of a byte sequence gives the bytes back.
pub proof fn law_hex_round_trip(bytes: Seq<u8>)
    ensures
        is_hex(encoded(bytes)),
        decoded(encoded(bytes)) == bytes,
{
    let s = encoded(bytes);
    assert forall|d: int| 0 <= d < 16 implies #[trigger] hex_value(hex_digit(d)) == Some(
        d as u8,
    ) by {
        if d < 10 {
            assert(hex_digit(d) as u32 == '0' as u32 + d);
        } else {
            assert(hex_digit(d) as u32 == 'a' as u32 + d - 10);
        }
    }
    assert forall|i: int| 0 <= i < s.len() implies (#[trigger] hex_value(s[i])).is_some() by {
        let b = bytes[i / 2] as int;
        if i % 2 == 0 {
            assert(hex_value(hex_digit(b / 16)).is_some());
        } else {
            assert(hex_value(hex_digit(b % 16)).is_some());
        }
    }
    assert forall|i: int| 0 <= i < bytes.len() implies #[trigger] decoded(s)[i] == bytes[i] by {
        let b = bytes[i] as int;
        assert(s[2 * i] == hex_digit(b / 16));
        assert(s[2 * i + 1] == hex_digit(b % 16));
        assert(hex_value(hex_digit(b / 16)) == Some((b / 16) as u8));
        assert(hex_value(hex_digit(b % 16)) == Some((b % 16) as u8));
    }
    assert(decoded(s) =~= bytes);
}

/// The byte of `bytes` at `i`, or zero past the end.
pub open spec fn byte_or_zero(bytes: Seq<u8>, i: int) -> nat {
    if 0 <= i < bytes.len() {
        bytes[i] as nat
    } else {
        0
    }
}

/// The little-endian value of the `n` bytes of `bytes` from `start`, with
/// zeros standing for the bytes past the end.
pub open spec fn le_value(bytes: Seq<u8>, start: int, n: nat) -> nat
    decreases n,
{
    if n == 0 {
        0
    } else {
        byte_or_zero(bytes, start) + 256 * le_value(bytes, start + 1, (n - 1) as nat)
    }
}

/// The words of a message of bytes: each run of 8 bytes is one word, read
/// with the low byte first, and a last run of fewer bytes is filled up with
/// zeros.
pub open spec fn words_of(bytes: Seq<u8>) -> Seq<u64> {
    Seq::new((bytes.len() + 7) / 8, |i: int| le_value(bytes, 8 * i, 8) as u64)
}

/// The value of `n` bytes is below `256^n`; stated for the 8 sizes in use.
proof fn lemma_le_value_bound(bytes: Seq<u8>, start: int, n: nat)
    requires
        n <= 8,
    ensures
        n == 0 ==> le_value(bytes, start, n) == 0,
        n == 1 ==> le_value(bytes, start, n) < 0x100,
        n == 2 ==> le_value(bytes, start, n) < 0x1_0000,
        n == 3 ==> le_value(bytes, start, n) < 0x100_0000,
        n == 4 ==> le_value(bytes, start, n) < 0x1_0000_0000,
        n == 5 ==> le_value(bytes, start, n) < 0x100_0000_0000,
        n == 6 ==> le_value(bytes, start, n) < 0x1_0000_0000_0000,
        n == 7 ==> le_value(bytes, start, n) < 0x100_0000_0000_0000,
        n == 8 ==> le_value(bytes, start, n) < 0x1_0000_0000_0000_0000,
    decreases n,
{
    if n > 0 {
        lemma_le_value_bound(bytes, start + 1, (n - 1) as nat);
    }
}

/// Packs a message of bytes into words of 64 bits, low byte first; a last
/// run of fewer than 8 bytes is filled up with zeros.
pub fn words_from_bytes(bytes: &Vec<u8>) -> (words: Vec<u64>)
    ensures
        words@ == words_of(bytes@),
{
    let count: usize = bytes.len() / 8 + (if bytes.len() % 8 == 0 {
        0
    } else {
        1
    });
    let mut words: Vec<u64> = Vec::new();
    let mut i: usize = 0;
    while i < count
        invariant
            i <= count,
            count == (bytes@.len() + 7) / 8,
            bytes@.len() <= usize::MAX,
            words@.len() == i,
            forall|j: int| 0 <= j < i ==> (#[trigger] words@[j]) as nat == le_value(bytes@, 8 * j, 8),
        decreases count - i,
    {
        let base: usize = 8 * i;
        let mut word: u64 = 0;
        let mut j: usize = 8;
        while j > 0
            invariant
                j <= 8,
                base == 8 * i,
                base < bytes@.len() <= usize::MAX,
                word == le_value(bytes@, base + j, (8 - j) as nat),
            decreases j,
        {
            j -= 1;
            let byte: u64 = if j < bytes.len() - base {
                bytes[base + j] as u64
            } else {
                0
            };
            proof {
                lemma_le_value_bound(bytes@, base + j + 1, (7 - j) as nat);
                lemma_le_value_bound(bytes@, base + j, (8 - j) as nat);
            }
            word = byte + 256 * word;
        }
        words.push(word);
        i += 1;
    }
    assert(words@ =~= words_of(bytes@));
    words
}

/// Byte `j` of `word`, counted from its high end.
pub open spec fn be_byte(word: u64, j: int) -> u8
    recommends
        0 <= j < 8,
{
    if j == 0 {
        (word / 0x100_0000_0000_0000) as u8
    } else if j == 1 {
        (word / 0x1_0000_0000_0000 % 256) as u8
    } else if j == 2 {
        (word / 0x100_0000_0000 % 256) as u8
    } else if j == 3 {
        (word / 0x1_0000_0000 % 256) as u8
    } else if j == 4 {
        (word / 0x100_0000 % 256) as u8
    } else if j == 5 {
        (word / 0x1_0000 % 256) as u8
    } else if j == 6 {
        (word / 0x100 % 256) as u8
    } else {
        (word % 256) as u8
    }
}

/// The bytes of a sequence of words: 8 per word, high byte first.
pub open spec fn be_bytes(words: Seq<u64>) -> Seq<u8> {
    Seq::new(8 * words.len(), |i: int| be_byte(words[i / 8], i % 8))
}

/// Writes output words out as bytes: 8 per word, high byte first.
pub fn words_to_be_bytes(words: &Vec<u64>) -> (bytes: Vec<u8>)
    ensures
        bytes@ == be_bytes(words@),
{
    let mut bytes: Vec<u8> = Vec::new();
    let mut i: usize = 0;
    while i < words.len()
        invariant
            i <= words.len(),
            bytes@.len() == 8 * i,
            forall|k: int| 0 <= k < 8 * i ==> #[trigger] bytes@[k] == be_byte(words@[k / 8], k % 8),
        decreases words.len() - i,
    {
        let w: u64 = words[i];
        bytes.push((w / 0x100_0000_0000_0000) as u8);
        bytes.push((w / 0x1_0000_0000_0000 % 256) as u8);
        bytes.push((w / 0x100_0000_0000 % 256) as u8);
        bytes.push((w / 0x1_0000_0000 % 256) as u8);
        bytes.push((w / 0x100_0000 % 256) as u8);
        bytes.push((w / 0x1_0000 % 256) as u8);
        bytes.push((w / 0x100 % 256) as u8);
        bytes.push((w % 256) as u8);
        i += 1;
    }
    assert(bytes@ =~= be_bytes(words@));
    bytes
}

/// A decimal digit.
pub open spec fn is_digit(c: char) -> bool {
    '0' <= c <= '9'
}

/// A numeral: one decimal digit or more, and nothing else.
pub open spec fn is_decimal(s: Seq<char>) -> bool {
    &&& s.len() > 0
    &&& forall|i: int| 0 <= i < s.len() ==> is_digit(#[trigger] s[i])
}

/// The number that a numeral stands for.
pub open spec fn decimal_value(s: Seq<char>) -> nat
    decreases s.len(),
{
    if s.len() == 0 {
        0
    } else {
        10 * decimal_value(s.drop_last()) + (s.last() as u32 - '0' as u32) as nat
    }
}

/// The lanes of a Keccak state that is given as numerals.
pub const LANES: usize = 25;

/// A numeral stands for at least as much as each of its prefixes.
proof fn lemma_decimal_prefix(s: Seq<char>, k: int)
    requires
        0 <= k <= s.len(),
        forall|i: int| 0 <= i < s.len() ==> is_digit(#[trigger] s[i]),
    ensures
        decimal_value(s.take(k)) <= decimal_value(s),
    decreases s.len(),
{
    if k == s.len() {
        assert(s.take(k) =~= s);
    } else {
        assert(s.drop_last().take(k) =~= s.take(k));
        lemma_decimal_prefix(s.drop_last(), k);
    }
}

/// Reads a numeral of decimal digits.
///
/// Fails with [`SessionError::InputShape`] when the string is empty, holds a
/// character that is no decimal digit, or stands for a number that does not
/// fit in 64 bits.
pub fn parse_decimal(s: &str) -> (r: Result<u64, SessionError>)
    ensures
        r.is_ok() <==> is_decimal(s@) && decimal_value(s@) <= u64::MAX,
        r.is_ok() ==> r.unwrap() == decimal_value(s@),
        r.is_err() ==> r == Err::<u64, SessionError>(SessionError::InputShape),
{
    if !s.is_ascii() {
        return Err(SessionError::InputShape);
    }
    let bytes = s.as_bytes();
    proof {
        vstd::string::is_ascii_spec_bytes(s);
    }
    if bytes.len() == 0 {
        return Err(SessionError::InputShape);
    }
    let mut value: u64 = 0;
    let mut i: usize = 0;
    while i < bytes.len()
        invariant
            i <= bytes@.len(),
            bytes@.len() == s@.len(),
            forall|j: int| 0 <= j < s@.len() ==> bytes@[j] == (#[trigger] s@[j]) as u8,
            vstd::utf8::is_ascii_chars(s@),
            forall|j: int| 0 <= j < i ==> is_digit(#[trigger] s@[j]),
            value == decimal_value(s@.take(i as int)),
        decreases bytes.len() - i,
    {
        let b: u8 = bytes[i];
        if b < 48 || b > 57 {
            assert(!is_digit(s@[i as int]));
            return Err(SessionError::InputShape);
        }
        let d: u64 = (b - 48) as u64;
        proof {
            assert(s@.take(i + 1).drop_last() =~= s@.take(i as int));
            assert(s@.take(i + 1).last() == s@[i as int]);
            assert(decimal_value(s@.take(i + 1)) == 10 * value + d);
        }
        if value > (u64::MAX - d) / 10 {
            proof {
                if is_decimal(s@) {
                    lemma_decimal_prefix(s@, i + 1);
                }
            }
            return Err(SessionError::InputShape);
        }
        value = value * 10 + d;
        i += 1;
    }
    assert(s@.take(i as int) =~= s@);
    Ok(value)
}

/// Reads the 25 lanes of a Keccak state, each given as a numeral.
///
/// Fails with [`SessionError::InputShape`] when there are not exactly 25
/// numerals, or when one of them is not a numeral that fits in 64 bits.
pub fn parse_lanes(values: &Vec<String>) -> (r: Result<Vec<u64>, SessionError>)
    ensures
        r.is_ok() <==> values@.len() == LANES && forall|i: int|
            0 <= i < values@.len() ==> is_decimal(#[trigger] values@[i]@) && decimal_value(
                values@[i]@,
            ) <= u64::MAX,
        r.is_ok() ==> r.unwrap()@.len() == LANES && forall|i: int|
            0 <= i < LANES ==> #[trigger] r.unwrap()@[i] == decimal_value(values@[i]@),
        r.is_err() ==> r == Err::<Vec<u64>, SessionError>(SessionError::InputShape),
{
    if values.len() != LANES {
        return Err(SessionError::InputShape);
    }
    let mut lanes: Vec<u64> = Vec::new();
    let mut i: usize = 0;
    while i < values.len()
        invariant
            i <= values@.len(),
            values@.len() == LANES,
            lanes@.len() == i,
            forall|j: int|
                0 <= j < i ==> is_decimal(#[trigger] values@[j]@) && decimal_value(values@[j]@)
                    <= u64::MAX,
            forall|j: int| 0 <= j < i ==> #[trigger] lanes@[j] == decimal_value(values@[j]@),
        decreases values.len() - i,
    {
        match parse_decimal(values[i].as_str()) {
            Ok(lane) => {
                lanes.push(lane);
            },
            Err(e) => {
                return Err(e);
            },
        }
        i += 1;
    }
    Ok(lanes)
}

/// A numeral of one digit stands for that digit.
proof fn lemma_decimal_single(s: Seq<char>)
    requires
        s.len() == 1,
    ensures
        decimal_value(s) == (s[0] as u32 - '0' as u32) as nat,
{
    reveal_with_fuel(decimal_value, 2);
    assert(s.drop_last().len() == 0);
}

/// The string of one decimal digit.
fn digit_str(d: u64) -> (s: &'static str)
    requires
        d < 10,
    ensures
        s@.len() == 1,
        is_digit(s@[0]),
        s@[0] as u32 - '0' as u32 == d,
{
    proof {
        reveal_strlit("0");
        reveal_strlit("1");
        reveal_strlit("2");
        reveal_strlit("3");
        reveal_strlit("4");
        reveal_strlit("5");
        reveal_strlit("6");
        reveal_strlit("7");
        reveal_strlit("8");
        reveal_strlit("9");
    }
    if d == 0 {
        "0"
    } else if d == 1 {
        "1"
    } else if d == 2 {
        "2"
    } else if d == 3 {
        "3"
    } else if d == 4 {
        "4"
    } else if d == 5 {
        "5"
    } else if d == 6 {
        "6"
    } else if d == 7 {
        "7"
    } else if d == 8 {
        "8"
    } else {
        "9"
    }
}

/// Writes a word as a numeral, without leading zeros.
pub fn decimal_string(word: u64) -> (s: String)
    ensures
        is_decimal(s@),
        decimal_value(s@) == word,
        s@.len() > 1 ==> s@[0] != '0',
    decreases word,
{
    if word < 10 {
        let s = String::from_str(digit_str(word));
        proof {
            lemma_decimal_single(s@);
        }
        s
    } else {
        let mut s = decimal_string(word / 10);
        let ghost high = s@;
        let low = digit_str(word % 10);
        s.append(low);
        proof {
            assert(s@.drop_last() =~= high);
            assert(s@.last() == low@[0]);
            assert(high.len() == 1 ==> high[0] != '0') by {
                if high.len() == 1 {
                    lemma_decimal_single(high);
                }
            }
        }
        s
    }
}

/// What a session hands to its caller: the output words, and the two parts
/// of the proof, each as a hexadecimal string.
#[derive(Debug)]
pub struct Output {
    hash: String,
    transcript: String,
    advice: String,
}

impl Output {
    /// The result of a session with output `words` and a proof made of
    /// `transcript` and `advice`.
    pub fn new(words: &Vec<u64>, transcript: &Vec<u8>, advice: &Vec<u8>) -> (out: Output)
        ensures
            out.hash()@ == encoded(be_bytes(words@)),
            out.transcript()@ == encoded(transcript@),
            out.advice()@ == encoded(advice@),
    {
        let bytes: Vec<u8> = words_to_be_bytes(words);
        Output {
            hash: encode_hex(&bytes),
            transcript: encode_hex(transcript),
            advice: encode_hex(advice),
        }
    }

    /// A result whose three strings are given.
    pub fn from_parts(hash: String, transcript: String, advice: String) -> (out: Output)
        ensures
            out.hash()@ == hash@,
            out.transcript()@ == transcript@,
            out.advice()@ == advice@,
    {
        Output { hash, transcript, advice }
    }

    /// The output words, 16 hexadecimal digits each.
    pub closed spec fn spec_hash(&self) -> &String {
        &self.hash
    }

    pub closed spec fn spec_transcript(&self) -> &String {
        &self.transcript
    }

    pub closed spec fn spec_advice(&self) -> &String {
        &self.advice
    }

    #[verifier::when_used_as_spec(spec_hash)]
    pub fn hash(&self) -> (s: &String)
        ensures
            s == self.spec_hash(),
    {
        &self.hash
    }

    /// The transcript of the proof.
    #[verifier::when_used_as_spec(spec_transcript)]
    pub fn transcript(&self) -> (s: &String)
        ensures
            s == self.spec_transcript(),
    {
        &self.transcript
    }

    /// The advice of the proof.
    #[verifier::when_used_as_spec(spec_advice)]
    pub fn advice(&self) -> (s: &String)
        ensures
            s == self.spec_advice(),
    {
        &self.advice
    }
}

} // verus!
