//! Decoding of the Thread active dataset, baked into the repeater and the
//! SRP probe at build time as a hex string of its TLVs.
use vstd::prelude::*;
use vstd::string::StringSliceAdditionalSpecFns;

verus! {

/// Why a dataset hex string cannot be decoded.
#[derive(Debug, Clone, Copy, PartialEq, Eq, Structural)]
pub enum HexError {
    /// It holds more bytes than the dataset buffer.
    TooLong,
    /// A byte's two characters are not a base-16 number.
    BadDigit,
}

/// The value of an ASCII base-16 digit (either case).
pub open spec fn hex_digit(b: u8) -> Option<u8> {
    if 0x30 <= b <= 0x39 {
        Some((b - 0x30) as u8)
    } else if 0x61 <= b <= 0x66 {
        Some((b - 0x61 + 10) as u8)
    } else if 0x41 <= b <= 0x46 {
        Some((b - 0x41 + 10) as u8)
    } else {
        None
    }
}

/// The byte that a two-character chunk spells as an unsigned base-16
/// number: two digits, or a `+` sign followed by one digit.
pub open spec fn hex_pair(b0: u8, b1: u8) -> Option<u8> {
    if b0 == 0x2b {
        hex_digit(b1)
    } else {
        match (hex_digit(b0), hex_digit(b1)) {
            (Some(hi), Some(lo)) => Some((16 * hi + lo) as u8),
            _ => None,
        }
    }
}

/// The first `n` bytes spelled by the chunks `s[0..2]`, `s[2..4]`, ...
pub open spec fn hex_bytes(s: Seq<u8>, n: nat) -> Option<Seq<u8>>
    decreases n,
{
    if n == 0 {
        Some(Seq::empty())
    } else {
        match (hex_bytes(s, (n - 1) as nat), hex_pair(s[2 * (n - 1)], s[2 * (n - 1) + 1])) {
            (Some(prefix), Some(b)) => Some(prefix.push(b)),
            _ => None,
        }
    }
}

/// What decoding the text `s` (as bytes) gives: the bytes spelled by its
/// whole two-character chunks (an odd last character is ignored), when
/// they fit in `capacity` bytes and every chunk is a base-16 number.
pub open spec fn decoded_dataset(s: Seq<u8>, capacity: usize) -> Result<Seq<u8>, HexError> {
    let n = s.len() / 2;
    if n > capacity {
        Err(HexError::TooLong)
    } else {
        match hex_bytes(s, n as nat) {
            Some(v) => Ok(v),
            None => Err(HexError::BadDigit),
        }
    }
}

fn hex_digit_value(b: u8) -> (d: Option<u8>)
    ensures
        d == hex_digit(b),
{
    if 0x30 <= b && b <= 0x39 {
        Some(b - 0x30)
    } else if 0x61 <= b && b <= 0x66 {
        Some(b - 0x61 + 10)
    } else if 0x41 <= b && b <= 0x46 {
        Some(b - 0x41 + 10)
    } else {
        None
    }
}

fn hex_pair_value(b0: u8, b1: u8) -> (v: Option<u8>)
    ensures
        v == hex_pair(b0, b1),
{
    if b0 == 0x2b {
        hex_digit_value(b1)
    } else {
        match (hex_digit_value(b0), hex_digit_value(b1)) {
            (Some(hi), Some(lo)) => Some(16 * hi + lo),
            _ => None,
        }
    }
}

/// Decodes already-trimmed dataset hex into at most `capacity` bytes.
fn decode_trimmed(hex: &str, capacity: usize) -> (r: Result<Vec<u8>, HexError>)
    ensures
        match r {
            Ok(v) => decoded_dataset(hex.spec_bytes(), capacity) == Ok::<Seq<u8>, HexError>(v@),
            Err(e) => decoded_dataset(hex.spec_bytes(), capacity) == Err::<Seq<u8>, HexError>(e),
        },
{
    let s = hex.as_bytes();
    let len = s.len();
    let n = len / 2;
    if n > capacity {
        return Err(HexError::TooLong);
    }
    let mut out: Vec<u8> = Vec::new();
    let mut i: usize = 0;
    while i < n
        invariant
            s@ == hex.spec_bytes(),
            n <= capacity,
            len == s@.len(),
            n == s@.len() / 2,
            i <= n,
            hex_bytes(s@, i as nat) == Some(out@),
        decreases n - i,
    {
        match hex_pair_value(s[2 * i], s[2 * i + 1]) {
            Some(b) => {
                out.push(b);
            },
            None => {
                proof {
                    lemma_bad_chunk_spoils(s@, i as nat, n as nat);
                }
                return Err(HexError::BadDigit);
            },
        }
        i = i + 1;
    }
    Ok(out)
}

/// The ASCII character of the base-16 digit `d` (below 16), in upper or
/// lower case.
pub open spec fn digit_char(d: u8, upper: bool) -> u8 {
    if d < 10 {
        (48 + d) as u8
    } else if upper {
        (65 + d - 10) as u8
    } else {
        (97 + d - 10) as u8
    }
}

/// The base-16 spelling of `bytes`: two digits per byte, high digit first,
/// in upper or lower case.
pub open spec fn hex_spelling(bytes: Seq<u8>, upper: bool) -> Seq<u8> {
    Seq::new(
        2 * bytes.len(),
        |i: int|
            if i % 2 == 0 {
                digit_char(bytes[i / 2] / 16, upper)
            } else {
                digit_char(bytes[i / 2] % 16, upper)
            },
    )
}

/// The two digits of one byte spell that byte.
proof fn lemma_pair_spells_byte(v: u8, upper: bool)
    ensures
        hex_pair(digit_char(v / 16, upper), digit_char(v % 16, upper)) == Some(v),
{
    assert(16 * (v / 16) + v % 16 == v);
}

/// The first `n` chunks of a spelling give back the first `n` bytes.
proof fn lemma_spelling_prefix(bytes: Seq<u8>, upper: bool, n: nat)
    requires
        n <= bytes.len(),
    ensures
        hex_bytes(hex_spelling(bytes, upper), n) == Some(bytes.take(n as int)),
    decreases n,
{
    if n > 0 {
        let k = n - 1;
        lemma_spelling_prefix(bytes, upper, k as nat);
        let s = hex_spelling(bytes, upper);
        assert(s[2 * k] == digit_char(bytes[k] / 16, upper));
        assert(s[2 * k + 1] == digit_char(bytes[k] % 16, upper));
        lemma_pair_spells_byte(bytes[k], upper);
        assert(bytes.take(k).push(bytes[k]) =~= bytes.take(n as int));
    }
}

/// Every byte string round-trips through its base-16 spelling: the two
/// digits of each byte, in upper or lower case, decode to exactly the
/// bytes, when they fit in `capacity` (so each of `0`..`9` is the digit of
/// its value, and `a`..`f` and `A`..`F` those of ten to fifteen).
pub proof fn lemma_spelling_round_trips(bytes: Seq<u8>, upper: bool, capacity: usize)
    requires
        bytes.len() <= capacity,
    ensures
        decoded_dataset(hex_spelling(bytes, upper), capacity) == Ok::<Seq<u8>, HexError>(bytes),
        dataset_problem(hex_spelling(bytes, upper), capacity) is None,
{
    lemma_spelling_prefix(bytes, upper, bytes.len());
    assert(bytes.take(bytes.len() as int) =~= bytes);
}

/// Chunks within `s` decode the same after more text is appended.
proof fn lemma_hex_bytes_extend(s: Seq<u8>, t: Seq<u8>, n: nat)
    requires
        2 * n <= s.len(),
    ensures
        hex_bytes(s + t, n) == hex_bytes(s, n),
    decreases n,
{
    if n > 0 {
        lemma_hex_bytes_extend(s, t, (n - 1) as nat);
        assert((s + t)[2 * (n - 1)] == s[2 * (n - 1)]);
        assert((s + t)[2 * (n - 1) + 1] == s[2 * (n - 1) + 1]);
    }
}

/// An odd last character is ignored: appending one character to text of
/// whole chunks changes neither what it decodes to nor why it fails.
pub proof fn lemma_odd_character_ignored(s: Seq<u8>, c: u8, capacity: usize)
    requires
        s.len() % 2 == 0,
    ensures
        decoded_dataset(s.push(c), capacity) == decoded_dataset(s, capacity),
{
    assert(s.push(c) =~= s + seq![c]);
    assert(s.push(c).len() / 2 == s.len() / 2);
    lemma_hex_bytes_extend(s, seq![c], (s.len() / 2) as nat);
}

/// A chunk that is not a number spoils every longer decoding.
proof fn lemma_bad_chunk_spoils(s: Seq<u8>, i: nat, n: nat)
    requires
        i < n,
        hex_pair(s[2 * (i as int)], s[2 * (i as int) + 1]) is None,
    ensures
        hex_bytes(s, n) is None,
    decreases n,
{
    if n - 1 > i {
        lemma_bad_chunk_spoils(s, i, (n - 1) as nat);
    }
}

/// A character of Unicode's `White_Space` property (the 25 code points
/// U+0009–U+000D, U+0020, U+0085, U+00A0, U+1680, U+2000–U+200A, U+2028,
/// U+2029, U+202F, U+205F and U+3000).
pub open spec fn is_white_space(c: char) -> bool {
    let u = c as u32;
    ||| 0x09 <= u <= 0x0d
    ||| u == 0x20
    ||| u == 0x85
    ||| u == 0xa0
    ||| u == 0x1680
    ||| 0x2000 <= u <= 0x200a
    ||| u == 0x2028
    ||| u == 0x2029
    ||| u == 0x202f
    ||| u == 0x205f
    ||| u == 0x3000
}

/// `s` without its leading whitespace.
pub open spec fn trim_leading(s: Seq<char>) -> Seq<char>
    decreases s.len(),
{
    if s.len() > 0 && is_white_space(s[0]) {
        trim_leading(s.drop_first())
    } else {
        s
    }
}

/// `s` without its trailing whitespace.
pub open spec fn trim_trailing(s: Seq<char>) -> Seq<char>
    decreases s.len(),
{
    if s.len() > 0 && is_white_space(s.last()) {
        trim_trailing(s.drop_last())
    } else {
        s
    }
}

/// `s` without its leading and trailing whitespace.
pub open spec fn trim_text(s: Seq<char>) -> Seq<char> {
    trim_trailing(trim_leading(s))
}

/// `str::trim`: the text without its leading and trailing characters of
/// Unicode's `White_Space` property.
#[verifier::external_body]
fn trim(s: &str) -> (t: &str)
    ensures
        t@ == trim_text(s@),
{
    s.trim()
}

/// The bytes of the dataset hex `hex` that are decoded: its text without
/// surrounding whitespace.
pub open spec fn dataset_text(hex: Seq<char>) -> Seq<u8> {
    vstd::utf8::encode_utf8(trim_text(hex))
}

/// Why the bytes `s` cannot be decoded into `capacity` bytes, if they
/// cannot: too long first, then a chunk that is not a number.
pub open spec fn dataset_problem(s: Seq<u8>, capacity: usize) -> Option<HexError> {
    match decoded_dataset(s, capacity) {
        Ok(_) => None,
        Err(e) => Some(e),
    }
}

/// Why the dataset hex `hex` (surrounding whitespace ignored) cannot be
/// decoded into `capacity` bytes, or `None` when it can.
pub fn dataset_hex_problem(hex: &str, capacity: usize) -> (problem: Option<HexError>)
    ensures
        problem == dataset_problem(dataset_text(hex@), capacity),
{
    let t = trim(hex);
    match decode_trimmed(t, capacity) {
        Ok(_) => None,
        Err(e) => Some(e),
    }
}

/// Decodes the dataset hex `hex`, ignoring surrounding whitespace: the
/// bytes spelled by its whole two-character chunks (an odd last character
/// is ignored), which fit in `capacity` bytes.
pub fn decode_hex(hex: &str, capacity: usize) -> (bytes: Vec<u8>)
    requires
        dataset_problem(dataset_text(hex@), capacity) is None,
    ensures
        decoded_dataset(dataset_text(hex@), capacity) == Ok::<Seq<u8>, HexError>(bytes@),
        Some(bytes@) == hex_bytes(dataset_text(hex@), dataset_text(hex@).len() / 2),
        bytes@.len() <= capacity,
{
    let t = trim(hex);
    match decode_trimmed(t, capacity) {
        Ok(v) => {
            proof {
                lemma_hex_bytes_len(dataset_text(hex@), dataset_text(hex@).len() / 2);
            }
            v
        },
        Err(_) => {
            assert(false);
            Vec::new()
        },
    }
}

/// A decoding of `n` chunks holds `n` bytes.
proof fn lemma_hex_bytes_len(s: Seq<u8>, n: nat)
    ensures
        hex_bytes(s, n) matches Some(v) ==> v.len() == n,
    decreases n,
{
    if n > 0 {
        lemma_hex_bytes_len(s, (n - 1) as nat);
    }
}

} // verus!
