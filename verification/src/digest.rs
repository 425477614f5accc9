//! Content digests: twenty bytes that identify a command definition, with
//! their hexadecimal text form.

use vstd::prelude::*;
use vstd::string::*;
use vstd::utf8::*;

verus! {

/// The number of bytes in a digest.
pub const DIGEST_LEN: usize = 20;

/// Why a text is not the hexadecimal form of a byte string.
#[derive(Clone, Copy, Debug, PartialEq, Eq, Structural)]
pub enum HexError {
    /// A byte that is no hexadecimal digit, and where it stands.
    InvalidHexCharacter { c: char, index: usize },
    /// An odd number of digits.
    OddLength,
    /// A length that does not fit the container decoded into.
    InvalidStringLength,
}

/// Why a text is not the hexadecimal form of a digest.
#[derive(Clone, Copy, Debug, PartialEq, Eq, Structural)]
pub enum DigestError {
    FromHexError(HexError),
    WrongPayloadSize { expected: usize, observed: usize },
}

/// The SHA-1 hash of `data`.
pub uninterp spec fn sha1_digest(data: Seq<u8>) -> Seq<u8>;

/// The lower-case hexadecimal digit for `n`, where `n < 16`.
pub open spec fn hex_digit(n: u8) -> char {
    if n < 10 {
        ((48 + n) as u8) as char
    } else {
        ((87 + n) as u8) as char
    }
}

/// Two lower-case hexadecimal digits for each byte, in order.
pub open spec fn hex_encoding(bytes: Seq<u8>) -> Seq<char> {
    Seq::new(
        2 * bytes.len(),
        |i: int|
            if i % 2 == 0 {
                hex_digit(bytes[i / 2] / 16)
            } else {
                hex_digit(bytes[i / 2] % 16)
            },
    )
}

/// The number that the hexadecimal digit `c` stands for, whatever its case.
pub open spec fn hex_value(c: u8) -> Option<u8> {
    if 48 <= c <= 57 {
        Some((c - 48) as u8)
    } else if 97 <= c <= 102 {
        Some((c - 87) as u8)
    } else if 65 <= c <= 70 {
        Some((c - 55) as u8)
    } else {
        None
    }
}

/// The first position at or after `from` that holds no hexadecimal digit.
pub open spec fn first_invalid(s: Seq<u8>, from: int) -> int
    decreases s.len() - from,
{
    if 0 <= from < s.len() && hex_value(s[from]) is Some {
        first_invalid(s, from + 1)
    } else {
        from
    }
}

/// The bytes written by the hexadecimal digits `s`: an error for an odd
/// number of digits, else an error for the first byte that is no digit,
/// else one byte for each pair of digits.
pub open spec fn hex_decoding(s: Seq<u8>) -> Result<Seq<u8>, HexError> {
    let bad: int = first_invalid(s, 0);
    if s.len() % 2 != 0 {
        Err(HexError::OddLength)
    } else if bad < s.len() {
        Err(HexError::InvalidHexCharacter { c: s[bad] as char, index: bad as usize })
    } else {
        Ok(
            Seq::new(
                s.len() / 2,
                |k: int| (hex_value(s[2 * k]).unwrap() * 16 + hex_value(s[2 * k + 1]).unwrap()) as u8,
            ),
        )
    }
}

/// The digest payload written by the hexadecimal text `text`.
pub open spec fn digest_from_hex(text: Seq<char>) -> Result<Seq<u8>, DigestError> {
    match hex_decoding(encode_utf8(text)) {
        Err(e) => Err(DigestError::FromHexError(e)),
        Ok(bytes) => if bytes.len() == DIGEST_LEN {
            Ok(bytes)
        } else {
            Err(
                DigestError::WrongPayloadSize {
                    expected: DIGEST_LEN,
                    observed: bytes.len() as usize,
                },
            )
        },
    }
}

/// Calls `sha1::Sha1::digest`: the result is the SHA-1 hash of `data`, which
/// is named here and not defined.
#[verifier::external_body]
pub(crate) fn sha1(data: &[u8]) -> (digest: [u8; 20])
    ensures
        digest@ == sha1_digest(data@),
{
    <sha1::Sha1 as sha1::Digest>::digest(data).into()
}

/// Calls `hex::encode`: two lower-case hexadecimal digits for each byte of
/// `data`, high half first.
#[verifier::external_body]
pub(crate) fn hex_encode(data: &[u8]) -> (text: String)
    ensures
        text@ == hex_encoding(data@),
{
    hex::encode(data)
}

/// Calls `hex::decode`: fails on an odd number of bytes, else on the first
/// byte that is no hexadecimal digit of either case, else gives one byte for
/// each pair of digits, high half first.
#[verifier::external_body]
pub(crate) fn hex_decode(data: &[u8]) -> (decoded: Result<Vec<u8>, HexError>)
    ensures
        match hex_decoding(data@) {
            Ok(bytes) => decoded matches Ok(v) && v@ == bytes,
            Err(e) => decoded == Err::<Vec<u8>, HexError>(e),
        },
{
    match hex::decode(data) {
        Ok(bytes) => Ok(bytes),
        Err(hex::FromHexError::InvalidHexCharacter { c, index }) => Err(
            HexError::InvalidHexCharacter { c, index },
        ),
        Err(hex::FromHexError::OddLength) => Err(HexError::OddLength),
        Err(hex::FromHexError::InvalidStringLength) => Err(HexError::InvalidStringLength),
    }
}

/// Reads a digest payload from its hexadecimal text.
fn payload_from_str(value: &str) -> (r: Result<[u8; 20], DigestError>)
    ensures
        match digest_from_hex(value@) {
            Ok(bytes) => r matches Ok(payload) && payload@ == bytes,
            Err(e) => r == Err::<[u8; 20], DigestError>(e),
        },
{
    match hex_decode(value.as_bytes()) {
        Err(e) => Err(DigestError::FromHexError(e)),
        Ok(bytes) => {
            if bytes.len() != DIGEST_LEN {
                return Err(
                    DigestError::WrongPayloadSize { expected: DIGEST_LEN, observed: bytes.len() },
                );
            }
            let mut payload: [u8; 20] = [0u8; 20];
            let mut i: usize = 0;
            while i < DIGEST_LEN
                invariant
                    i <= DIGEST_LEN,
                    bytes@.len() == DIGEST_LEN,
                    forall|k: int| 0 <= k < i ==> payload@[k] == bytes@[k],
                decreases DIGEST_LEN - i,
            {
                payload[i] = bytes[i];
                i += 1;
            }
            assert(payload@ =~= bytes@);
            Ok(payload)
        },
    }
}

fn same_payload(a: &[u8; 20], b: &[u8; 20]) -> (same: bool)
    ensures
        same == (a@ == b@),
{
    let mut i: usize = 0;
    while i < DIGEST_LEN
        invariant
            i <= DIGEST_LEN,
            forall|k: int| 0 <= k < i ==> a@[k] == b@[k],
        decreases DIGEST_LEN - i,
    {
        if a[i] != b[i] {
            return false;
        }
        i += 1;
    }
    assert(a@ =~= b@);
    true
}

/// The digest of a command's definition: its identity in a graph and the
/// key under which its result is cached.
#[derive(Clone, Copy, Debug, PartialEq, Eq, Hash)]
pub struct CommandDefDigest([u8; 20]);

/// The digest of one execution of a command.
#[derive(Clone, Copy, Debug, PartialEq, Eq, Hash)]
pub struct ExecDigest([u8; 20]);

impl View for CommandDefDigest {
    type V = Seq<u8>;

    closed spec fn view(&self) -> Seq<u8> {
        self.0@
    }
}

impl View for ExecDigest {
    type V = Seq<u8>;

    closed spec fn view(&self) -> Seq<u8> {
        self.0@
    }
}

impl CommandDefDigest {
    pub fn new(val: [u8; 20]) -> (digest: Self)
        ensures
            digest@ == val@,
    {
        CommandDefDigest(val)
    }

    pub fn get_payload(&self) -> (payload: &[u8; 20])
        ensures
            payload@ == self@,
            self@.len() == DIGEST_LEN,
    {
        &self.0
    }

    /// The digest as forty lower-case hexadecimal digits.
    pub fn to_string(&self) -> (text: String)
        ensures
            text@ == hex_encoding(self@),
    {
        hex_encode(self.0.as_slice())
    }

    /// Reads a digest from hexadecimal digits of either case.
    pub fn from_str(value: &str) -> (r: Result<Self, DigestError>)
        ensures
            match digest_from_hex(value@) {
                Ok(bytes) => r matches Ok(digest) && digest@ == bytes,
                Err(e) => r == Err::<Self, DigestError>(e),
            },
    {
        match payload_from_str(value) {
            Ok(payload) => Ok(CommandDefDigest(payload)),
            Err(e) => Err(e),
        }
    }

    /// Whether two digests hold the same bytes.
    pub fn same_as(&self, other: &Self) -> (same: bool)
        ensures
            same == (self@ == other@),
    {
        same_payload(&self.0, &other.0)
    }
}

impl ExecDigest {
    pub fn new(val: [u8; 20]) -> (digest: Self)
        ensures
            digest@ == val@,
    {
        ExecDigest(val)
    }

    pub fn get_payload(&self) -> (payload: &[u8; 20])
        ensures
            payload@ == self@,
            self@.len() == DIGEST_LEN,
    {
        &self.0
    }

    /// The digest as forty lower-case hexadecimal digits.
    pub fn to_string(&self) -> (text: String)
        ensures
            text@ == hex_encoding(self@),
    {
        hex_encode(self.0.as_slice())
    }

    /// Reads a digest from hexadecimal digits of either case.
    pub fn from_str(value: &str) -> (r: Result<Self, DigestError>)
        ensures
            match digest_from_hex(value@) {
                Ok(bytes) => r matches Ok(digest) && digest@ == bytes,
                Err(e) => r == Err::<Self, DigestError>(e),
            },
    {
        match payload_from_str(value) {
            Ok(payload) => Ok(ExecDigest(payload)),
            Err(e) => Err(e),
        }
    }
}

impl DigestError {
    /// The text a user is shown for this error.
    pub fn to_string(&self) -> (text: String)
        ensures
            text@ == match self {
                DigestError::FromHexError(_) =>
                    "Could not convert hex string to command digest due to str format"@,
                DigestError::WrongPayloadSize { .. } => "Digest wasn't the right size"@,
            },
    {
        match self {
            DigestError::FromHexError(_) => String::from_str(
                "Could not convert hex string to command digest due to str format",
            ),
            DigestError::WrongPayloadSize { .. } => String::from_str(
                "Digest wasn't the right size",
            ),
        }
    }
}

/// A hexadecimal digit read back gives the number it was written for.
proof fn lemma_hex_digit_value(n: u8)
    requires
        n < 16,
    ensures
        '\0' <= hex_digit(n) <= '\u{7f}',
        hex_value(hex_digit(n) as u8) == Some(n),
{
}

/// In a text of hexadecimal digits, no position is invalid.
proof fn lemma_all_valid(s: Seq<u8>, from: int)
    requires
        0 <= from <= s.len(),
        forall|k: int| from <= k < s.len() ==> hex_value(#[trigger] s[k]) is Some,
    ensures
        first_invalid(s, from) == s.len(),
    decreases s.len() - from,
{
    if from < s.len() {
        lemma_all_valid(s, from + 1);
    }
}

/// The hexadecimal text of any bytes decodes to those bytes.
pub proof fn lemma_hex_round_trip(bytes: Seq<u8>)
    ensures
        hex_decoding(encode_utf8(hex_encoding(bytes))) == Ok::<Seq<u8>, HexError>(bytes),
{
    let text: Seq<char> = hex_encoding(bytes);
    assert forall|i: int| 0 <= i < text.len() implies '\0' <= #[trigger] text[i] <= '\u{7f}' by {
        lemma_hex_digit_value(bytes[i / 2] / 16);
        lemma_hex_digit_value(bytes[i / 2] % 16);
    }
    assert(is_ascii_chars(text));
    is_ascii_chars_encode_utf8(text);
    let s: Seq<u8> = encode_utf8(text);
    assert forall|k: int| 0 <= k < s.len() implies hex_value(#[trigger] s[k]) is Some by {
        assert(s[k] == text[k] as u8);
        lemma_hex_digit_value(bytes[k / 2] / 16);
        lemma_hex_digit_value(bytes[k / 2] % 16);
    }
    lemma_all_valid(s, 0);
    let decoded: Seq<u8> = hex_decoding(s).unwrap();
    assert(decoded =~= bytes) by {
        assert forall|k: int| 0 <= k < bytes.len() implies decoded[k] == bytes[k] by {
            assert(s[2 * k] == text[2 * k] as u8);
            assert(s[2 * k + 1] == text[2 * k + 1] as u8);
            assert((2 * k) / 2 == k && (2 * k + 1) / 2 == k);
            assert((2 * k) % 2 == 0 && (2 * k + 1) % 2 == 1);
            lemma_hex_digit_value(bytes[k] / 16);
            lemma_hex_digit_value(bytes[k] % 16);
        }
    }
}

/// A digest read back from its own text is the same digest.
pub proof fn lemma_digest_round_trip(digest: CommandDefDigest)
    ensures
        digest_from_hex(hex_encoding(digest@)) == Ok::<Seq<u8>, DigestError>(digest@),
{
    lemma_hex_round_trip(digest@);
}

} // verus!
