//! A key as two hexadecimal strings, and back.
//!
//! Each field is written as `0x` and two lower-case digits for each byte.
//! On the way back the digits may be of either case, and any number of `0x`
//! at the front is dropped.

use crate::types::Key;
use vstd::prelude::*;
use vstd::string::{StrSliceExecFns, StringExecFns, StringSliceAdditionalSpecFns};
use vstd::utf8::encode_utf8;

verus! {

/// A field of a key.
#[derive(Clone, Copy, Debug, PartialEq, Eq)]
pub enum KeyField {
    Address,
    Slot,
}

/// Why a text is not made of pairs of hexadecimal digits, as `hex` tells it.
#[derive(Clone, Copy, Debug, PartialEq, Eq)]
pub enum HexFault {
    /// Byte `index` of the text, `c` as a character, is no hexadecimal digit.
    InvalidHexCharacter { c: char, index: usize },
    /// The text has an odd number of bytes.
    OddLength,
    /// The text does not have the length of what it is read into. Reading
    /// into a list of bytes never gives this.
    InvalidStringLength,
}

/// Why two strings are not a key.
#[derive(Clone, Copy, Debug, PartialEq, Eq)]
pub enum KeyError {
    /// The text of `field` is not made of pairs of hexadecimal digits.
    InvalidHex { field: KeyField, fault: HexFault },
    /// The text of `field` stands for `len` bytes, which is not the length
    /// of that field.
    MalformedKey { field: KeyField, len: usize },
}

// What `hex` says of a byte that is no hexadecimal digit.
pub uninterp spec fn invalid_character_words(c: char, index: usize) -> Seq<char>;

/// What `hex` says of a fault.
pub open spec fn fault_words(fault: HexFault) -> Seq<char> {
    match fault {
        HexFault::InvalidHexCharacter { c, index } => invalid_character_words(c, index),
        HexFault::OddLength => "Odd number of digits"@,
        HexFault::InvalidStringLength => "Invalid string length"@,
    }
}

/// `Display` of `hex::FromHexError`: the fault in the words of `hex`. Two of
/// the three texts are fixed; the third names the character and its place.
#[verifier::external_body]
fn fault_text(fault: HexFault) -> (text: String)
    ensures
        text@ == fault_words(fault),
        fault matches HexFault::InvalidHexCharacter { c, index } ==> text@
            == invalid_character_words(c, index),
{
    let outside = match fault {
        HexFault::InvalidHexCharacter { c, index } => hex::FromHexError::InvalidHexCharacter {
            c,
            index,
        },
        HexFault::OddLength => hex::FromHexError::OddLength,
        HexFault::InvalidStringLength => hex::FromHexError::InvalidStringLength,
    };
    outside.to_string()
}

impl KeyError {
    /// The fault in words.
    pub open spec fn message_text(self) -> Seq<char> {
        match self {
            KeyError::InvalidHex { fault, .. } => fault_words(fault),
            KeyError::MalformedKey { field: KeyField::Address, .. } => "address must be 20 bytes"@,
            KeyError::MalformedKey { field: KeyField::Slot, .. } => "slot must be 32 bytes"@,
        }
    }

    /// The fault in words.
    pub fn message(&self) -> (text: String)
        ensures
            text@ == self.message_text(),
    {
        match self {
            KeyError::InvalidHex { fault, .. } => fault_text(*fault),
            KeyError::MalformedKey { field: KeyField::Address, .. } => String::from_str(
                "address must be 20 bytes",
            ),
            KeyError::MalformedKey { field: KeyField::Slot, .. } => String::from_str(
                "slot must be 32 bytes",
            ),
        }
    }
}

/// The digit for a number below sixteen.
pub open spec fn digit_char(v: int) -> char {
    if v < 10 {
        (48 + v) as char
    } else {
        (87 + v) as char
    }
}

/// The character is a hexadecimal digit, of either case.
pub open spec fn is_digit(c: char) -> bool {
    ||| 48 <= c as int <= 57
    ||| 97 <= c as int <= 102
    ||| 65 <= c as int <= 70
}

/// The number that a hexadecimal digit stands for.
pub open spec fn digit_value(c: char) -> int {
    if c as int <= 57 {
        c as int - 48
    } else if c as int <= 70 {
        c as int - 55
    } else {
        c as int - 87
    }
}

/// The bytes as text: two digits for each byte, the high half first.
pub open spec fn hex_of(bytes: Seq<u8>) -> Seq<char> {
    Seq::new(
        2 * bytes.len(),
        |i: int|
            if i % 2 == 0 {
                digit_char(bytes[i / 2] as int / 16)
            } else {
                digit_char(bytes[i / 2] as int % 16)
            },
    )
}

/// The text is made of pairs of hexadecimal digits.
pub open spec fn is_hex(text: Seq<char>) -> bool {
    text.len() % 2 == 0 && forall|i: int| 0 <= i < text.len() ==> is_digit(#[trigger] text[i])
}

/// The bytes that a text of pairs of digits stands for.
pub open spec fn bytes_of(text: Seq<char>) -> Seq<u8> {
    Seq::new(
        text.len() / 2,
        |i: int| (16 * digit_value(text[2 * i]) + digit_value(text[2 * i + 1])) as u8,
    )
}

/// The text without the `0x` at its front, however often it stands there.
pub open spec fn without_prefix(text: Seq<char>) -> Seq<char>
    decreases text.len(),
{
    if text.len() >= 2 && text[0] == '0' && text[1] == 'x' {
        without_prefix(text.skip(2))
    } else {
        text
    }
}

/// The byte is a hexadecimal digit, of either case.
pub open spec fn is_digit_byte(b: u8) -> bool {
    ||| 48 <= b <= 57
    ||| 97 <= b <= 102
    ||| 65 <= b <= 70
}

/// The place of the first byte that is no hexadecimal digit, or the number
/// of bytes where all are.
pub open spec fn first_bad(bytes: Seq<u8>) -> int
    decreases bytes.len(),
{
    if bytes.len() == 0 || !is_digit_byte(bytes[0]) {
        0
    } else {
        1 + first_bad(bytes.drop_first())
    }
}

/// The fault that `hex` finds in the bytes of a text that it cannot read:
/// an odd number of bytes, or else the first byte that is no digit.
pub open spec fn fault_of(bytes: Seq<u8>) -> HexFault {
    if bytes.len() % 2 != 0 {
        HexFault::OddLength
    } else {
        HexFault::InvalidHexCharacter {
            c: bytes[first_bad(bytes)] as char,
            index: first_bad(bytes) as usize,
        }
    }
}

/// `hex::encode`: the text has two lower-case digits for each byte, the high
/// half of the byte first.
#[verifier::external_body]
fn hex_encode(bytes: &[u8]) -> (text: String)
    ensures
        text@ == hex_of(bytes@),
{
    hex::encode(bytes)
}

/// `hex::decode`: succeeds on the texts that are made of pairs of
/// hexadecimal digits of either case, and then gives one byte for each pair,
/// the first digit being the high half. On any other text it tells an odd
/// number of bytes, or else the first byte that is no digit.
#[verifier::external_body]
fn hex_decode(text: &str) -> (r: Result<Vec<u8>, HexFault>)
    ensures
        r is Ok <==> is_hex(text@),
        r matches Ok(bytes) ==> bytes@ == bytes_of(text@),
        r matches Err(fault) ==> fault == fault_of(text.spec_bytes()),
{
    match hex::decode(text) {
        Ok(bytes) => Ok(bytes),
        Err(hex::FromHexError::InvalidHexCharacter { c, index }) => Err(
            HexFault::InvalidHexCharacter { c, index },
        ),
        Err(hex::FromHexError::OddLength) => Err(HexFault::OddLength),
        Err(hex::FromHexError::InvalidStringLength) => Err(HexFault::InvalidStringLength),
    }
}

/// Drops the `0x` at the front of a text, however often it stands there.
fn strip_prefix(text: &str) -> (rest: &str)
    ensures
        rest@ == without_prefix(text@),
{
    let n = text.unicode_len();
    let mut i: usize = 0;
    proof {
        assert(text@.skip(0) =~= text@);
    }
    while n - i >= 2 && text.get_char(i) == '0' && text.get_char(i + 1) == 'x'
        invariant
            i <= n == text@.len(),
            without_prefix(text@) == without_prefix(text@.skip(i as int)),
        decreases n - i,
    {
        proof {
            assert(text@.skip(i as int).skip(2) =~= text@.skip(i + 2));
        }
        i += 2;
    }
    proof {
        assert(text@.subrange(i as int, n as int) =~= text@.skip(i as int));
    }
    text.substring_char(i, n)
}

/// The first `N` bytes of a list, as an array.
fn to_array<const N: usize>(bytes: &Vec<u8>) -> (array: [u8; N])
    requires
        bytes@.len() == N,
    ensures
        array@ == bytes@,
{
    let mut array: [u8; N] = [0u8; N];
    for i in 0..N
        invariant
            bytes@.len() == N,
            forall|j: int| 0 <= j < i ==> array@[j] == bytes@[j],
    {
        array[i] = bytes[i];
    }
    array
}

/// A field as text: `0x`, then its bytes in hexadecimal.
pub open spec fn field_text(bytes: Seq<u8>) -> Seq<char> {
    seq!['0', 'x'] + hex_of(bytes)
}

/// What the two texts stand for: the bytes of the address and of the slot,
/// or the first fault. Both texts must be hexadecimal; only then are the
/// lengths looked at, the address first.
pub open spec fn decoded(address: Seq<char>, slot: Seq<char>) -> Result<
    (Seq<u8>, Seq<u8>),
    KeyError,
> {
    let a = without_prefix(address);
    let s = without_prefix(slot);
    if !is_hex(a) {
        Err(KeyError::InvalidHex { field: KeyField::Address, fault: fault_of(encode_utf8(a)) })
    } else if !is_hex(s) {
        Err(KeyError::InvalidHex { field: KeyField::Slot, fault: fault_of(encode_utf8(s)) })
    } else if a.len() != 40 {
        Err(KeyError::MalformedKey { field: KeyField::Address, len: (a.len() / 2) as usize })
    } else if s.len() != 64 {
        Err(KeyError::MalformedKey { field: KeyField::Slot, len: (s.len() / 2) as usize })
    } else {
        Ok((bytes_of(a), bytes_of(s)))
    }
}

/// `r` is what reading the two texts gives.
pub open spec fn reads_as(address: Seq<char>, slot: Seq<char>, r: Result<Key, KeyError>) -> bool {
    match decoded(address, slot) {
        Ok(fields) => r matches Ok(key) && key.address@ == fields.0 && key.slot@ == fields.1,
        Err(e) => r == Err::<Key, KeyError>(e),
    }
}

impl Key {
    /// Writes the key as two texts, the address and the slot.
    pub fn to_hex(&self) -> (texts: (String, String))
        ensures
            texts.0@ == field_text(self.address@),
            texts.1@ == field_text(self.slot@),
    {
        proof {
            reveal_strlit("0x");
            assert("0x"@ =~= seq!['0', 'x']);
        }
        let address = String::from_str("0x").concat(hex_encode(self.address.as_slice()).as_str());
        let slot = String::from_str("0x").concat(hex_encode(self.slot.as_slice()).as_str());
        (address, slot)
    }

    /// Reads a key from two texts, the address and the slot.
    pub fn from_hex(address: &str, slot: &str) -> (r: Result<Key, KeyError>)
        ensures
            reads_as(address@, slot@, r),
    {
        let address_bytes = match hex_decode(strip_prefix(address)) {
            Ok(bytes) => bytes,
            Err(fault) => {
                return Err(KeyError::InvalidHex { field: KeyField::Address, fault });
            },
        };
        let slot_bytes = match hex_decode(strip_prefix(slot)) {
            Ok(bytes) => bytes,
            Err(fault) => {
                return Err(KeyError::InvalidHex { field: KeyField::Slot, fault });
            },
        };
        if address_bytes.len() != 20 {
            return Err(
                KeyError::MalformedKey { field: KeyField::Address, len: address_bytes.len() },
            );
        }
        if slot_bytes.len() != 32 {
            return Err(KeyError::MalformedKey { field: KeyField::Slot, len: slot_bytes.len() });
        }
        Ok(Key { address: to_array(&address_bytes), slot: to_array(&slot_bytes) })
    }
}

/// A digit that was written for a number reads back as that number.
proof fn lemma_digit_round_trip(v: int)
    requires
        0 <= v < 16,
    ensures
        is_digit(digit_char(v)),
        digit_value(digit_char(v)) == v,
        digit_char(v) != 'x',
{
}

/// Bytes that were written as text read back as the same bytes.
pub proof fn lemma_hex_round_trip(bytes: Seq<u8>)
    ensures
        is_hex(hex_of(bytes)),
        bytes_of(hex_of(bytes)) == bytes,
        without_prefix(field_text(bytes)) == hex_of(bytes),
{
    let text = hex_of(bytes);
    assert forall|i: int| 0 <= i < text.len() implies is_digit(#[trigger] text[i]) by {
        lemma_digit_round_trip(bytes[i / 2] as int / 16);
        lemma_digit_round_trip(bytes[i / 2] as int % 16);
    }
    assert forall|i: int| 0 <= i < bytes.len() implies bytes_of(text)[i] == bytes[i] by {
        lemma_digit_round_trip(bytes[i] as int / 16);
        lemma_digit_round_trip(bytes[i] as int % 16);
        assert(text[2 * i] == digit_char(bytes[i] as int / 16));
        assert(text[2 * i + 1] == digit_char(bytes[i] as int % 16));
    }
    assert(bytes_of(text) =~= bytes);
    assert(field_text(bytes).skip(2) =~= text);
    if text.len() >= 2 {
        lemma_digit_round_trip(bytes[0] as int % 16);
        assert(text[1] == digit_char(bytes[0] as int % 16));
    }
    assert(without_prefix(text) == text);
    assert(field_text(bytes)[0] == '0' && field_text(bytes)[1] == 'x');
}

/// A key that is written as two texts and read back is the same key.
pub proof fn lemma_round_trip(key: Key, back: Result<Key, KeyError>)
    requires
        reads_as(field_text(key.address@), field_text(key.slot@), back),
    ensures
        back == Ok::<Key, KeyError>(key),
{
    lemma_hex_round_trip(key.address@);
    lemma_hex_round_trip(key.slot@);
    let found = back->Ok_0;
    assert(found.address =~= key.address);
    assert(found.slot =~= key.slot);
}

} // verus!
