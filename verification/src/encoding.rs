//! Text renderings of binary data: the lowercase hex SHA-256 digest that
//! tells whether a save changed, and the base64 `data:` URLs icons are served
//! as.

use vstd::prelude::*;
use vstd::string::StringExecFns;

use base64::Engine;
use sha2::Digest;

use crate::text::push_char;

verus! {

/// What SHA-256 makes of a byte sequence.
pub uninterp spec fn sha256_of(bytes: Seq<u8>) -> Seq<u8>;

/// Calls `sha2::Sha256::digest`: the result is the named digest of `bytes`,
/// which is 32 bytes long. The hasher counts the message in bits in a `u64`,
/// so a message of 2^61 bytes or more is left out.
#[verifier::external_body]
fn sha256(bytes: &[u8]) -> (r: Vec<u8>)
    requires
        bytes@.len() < 0x2000_0000_0000_0000,
    ensures
        r@ == sha256_of(bytes@),
        r@.len() == 32,
{
    sha2::Sha256::digest(bytes).to_vec()
}

/// The lowercase hex digit for `d`, which is below 16.
pub open spec fn hex_digit(d: int) -> char {
    if d < 10 {
        (48 + d) as char
    } else {
        (87 + d) as char
    }
}

/// Two lowercase hex digits per byte, high nibble first.
pub open spec fn hex_of(bytes: Seq<u8>) -> Seq<char>
    decreases bytes.len(),
{
    if bytes.len() == 0 {
        Seq::empty()
    } else {
        hex_of(bytes.drop_last()) + seq![hex_digit(bytes.last() as int / 16), hex_digit(bytes.last() as int % 16)]
    }
}

pub(crate) fn hex_char(d: u8) -> (c: char)
    requires
        d < 16,
    ensures
        c == hex_digit(d as int),
{
    if d < 10 {
        (48u8 + d) as char
    } else {
        (87u8 + d) as char
    }
}

/// `bytes` as lowercase hex.
pub fn to_hex(bytes: &[u8]) -> (s: String)
    ensures
        s@ == hex_of(bytes@),
        s@.len() == 2 * bytes@.len(),
{
    let mut s = String::new();
    let mut i: usize = 0;
    proof {
        assert(bytes@.take(0) =~= Seq::<u8>::empty());
    }
    while i < bytes.len()
        invariant
            i <= bytes@.len(),
            s@ == hex_of(bytes@.take(i as int)),
            s@.len() == 2 * i,
        decreases bytes@.len() - i,
    {
        let b = bytes[i];
        proof {
            assert(bytes@.take(i + 1).drop_last() =~= bytes@.take(i as int));
            assert(bytes@.take(i + 1).last() == b);
        }
        push_char(&mut s, hex_char(b / 16));
        push_char(&mut s, hex_char(b % 16));
        proof {
            assert(s@ =~= hex_of(bytes@.take(i as int)) + seq![hex_digit(b as int / 16), hex_digit(b as int % 16)]);
        }
        i += 1;
    }
    proof {
        assert(bytes@.take(bytes@.len() as int) =~= bytes@);
    }
    s
}

/// The SHA-256 digest of `bytes` as 64 lowercase hex digits: the content
/// hash a snapshot records, so an unchanged save is recognised and skipped.
pub fn sha256_hex(bytes: &[u8]) -> (s: String)
    requires
        bytes@.len() < 0x2000_0000_0000_0000,
    ensures
        s@ == hex_of(sha256_of(bytes@)),
        s@.len() == 64,
{
    let digest = sha256(bytes);
    to_hex(digest.as_slice())
}

/// The standard base64 alphabet: `A`–`Z`, `a`–`z`, `0`–`9`, `+`, `/`.
pub open spec fn b64_digit(x: int) -> char {
    if x < 26 {
        (65 + x) as char
    } else if x < 52 {
        (71 + x) as char
    } else if x < 62 {
        (x - 4) as char
    } else if x == 62 {
        '+'
    } else {
        '/'
    }
}

/// Standard base64 with `=` padding: each group of three bytes becomes four
/// characters of six bits each, and a final group of one or two bytes is
/// padded out to four.
pub open spec fn base64_of(b: Seq<u8>) -> Seq<char>
    decreases b.len(),
{
    if b.len() == 0 {
        Seq::empty()
    } else {
        let x = b[0] as int;
        let y = if b.len() > 1 { b[1] as int } else { 0 };
        let z = if b.len() > 2 { b[2] as int } else { 0 };
        if b.len() == 1 {
            seq![b64_digit(x / 4), b64_digit((x % 4) * 16), '=', '=']
        } else if b.len() == 2 {
            seq![b64_digit(x / 4), b64_digit((x % 4) * 16 + y / 16), b64_digit((y % 16) * 4), '=']
        } else {
            seq![b64_digit(x / 4), b64_digit((x % 4) * 16 + y / 16), b64_digit((y % 16) * 4 + z / 64), b64_digit(z % 64)]
                + base64_of(b.skip(3))
        }
    }
}

/// Calls `base64::engine::general_purpose::STANDARD.encode`, the standard
/// alphabet with padding. It panics when the encoded length overflows
/// `usize`, so inputs of a quarter of `usize::MAX` or more are left out.
#[verifier::external_body]
fn base64_standard(bytes: &[u8]) -> (s: String)
    requires
        bytes@.len() < usize::MAX / 4,
    ensures
        s@ == base64_of(bytes@),
{
    base64::engine::general_purpose::STANDARD.encode(bytes)
}

/// What every icon URL starts with.
pub const PNG_DATA_URL_PREFIX: &'static str = "data:image/png;base64,";

/// A PNG file as a `data:` URL a webview can show directly.
pub fn to_png_data_url(png: &[u8]) -> (s: String)
    requires
        png@.len() < usize::MAX / 4,
    ensures
        s@ == PNG_DATA_URL_PREFIX@ + base64_of(png@),
{
    let encoded = base64_standard(png);
    let mut s = PNG_DATA_URL_PREFIX.to_owned();
    s.append(encoded.as_str());
    s
}

} // verus!
