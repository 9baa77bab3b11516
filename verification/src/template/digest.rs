//! Fingerprints of files.
use crate::text;
use sha2::Digest;
use vstd::prelude::*;

verus! {

/// The SHA-256 digest of `data`.
pub uninterp spec fn sha256(data: Seq<u8>) -> Seq<u8>;

/// `sha2::Sha256`, fed with `data` and finalized: the digest, 32 bytes long.
#[verifier::external_body]
fn digest(data: &[u8]) -> (r: Vec<u8>)
    ensures
        r@ == sha256(data@),
        r@.len() == 32,
{
    let mut h = sha2::Sha256::new();
    h.update(data);
    h.finalize().to_vec()
}

/// The hexadecimal digit that stands for `d`, for `d` below sixteen.
pub open spec fn hex_digit(d: int) -> char {
    if d < 10 {
        ((48 + d) as u8) as char
    } else {
        ((87 + d) as u8) as char
    }
}

/// Two lower-case hexadecimal digits for each byte.
pub open spec fn hex(data: Seq<u8>) -> Seq<char> {
    Seq::new(
        2 * data.len(),
        |i: int|
            if i % 2 == 0 {
                hex_digit(data[i / 2] as int / 16)
            } else {
                hex_digit(data[i / 2] as int % 16)
            },
    )
}

fn hex_char(d: u8) -> (r: char)
    requires
        d < 16,
    ensures
        r == hex_digit(d as int),
{
    let b: u8 = if d < 10 {
        48u8 + d
    } else {
        87u8 + d
    };
    b as char
}

fn hex_of(data: &Vec<u8>) -> (r: Vec<char>)
    ensures
        r@ == hex(data@),
{
    let mut out: Vec<char> = Vec::new();
    let mut i: usize = 0;
    while i < data.len()
        invariant
            i <= data@.len(),
            out@.len() == 2 * i,
            forall|j: int| 0 <= j < 2 * i ==> #[trigger] out@[j] == hex(data@)[j],
        decreases data@.len() - i,
    {
        out.push(hex_char(data[i] / 16));
        out.push(hex_char(data[i] % 16));
        i = i + 1;
    }
    assert(out@ =~= hex(data@));
    out
}

/// The SHA-256 fingerprint of `bytes`: sixty-four hexadecimal digits.
pub fn hex_sha256(bytes: &[u8]) -> (r: String)
    ensures
        r@ == hex(sha256(bytes@)),
        r@.len() == 64,
{
    text::string_of(&hex_of(&digest(bytes)))
}

/// Different numbers have different digits.
proof fn lemma_hex_digit(a: int, b: int)
    requires
        0 <= a < 16,
        0 <= b < 16,
        hex_digit(a) == hex_digit(b),
    ensures
        a == b,
{
    let x = if a < 10 {
        (48 + a) as u8
    } else {
        (87 + a) as u8
    };
    let y = if b < 10 {
        (48 + b) as u8
    } else {
        (87 + b) as u8
    };
    assert(x as char as u32 == x as u32);
    assert(y as char as u32 == y as u32);
}

/// Different bytes are written differently: the text of a digest identifies the digest.
pub proof fn law_hex_injective(a: Seq<u8>, b: Seq<u8>)
    requires
        hex(a) == hex(b),
    ensures
        a == b,
{
    assert(hex(a).len() == 2 * a.len());
    assert(hex(b).len() == 2 * b.len());
    assert forall|i: int| 0 <= i < a.len() implies a[i] == b[i] by {
        assert(hex(a)[2 * i] == hex(b)[2 * i]);
        assert(hex(a)[2 * i + 1] == hex(b)[2 * i + 1]);
        assert((2 * i) / 2 == i && (2 * i + 1) / 2 == i && (2 * i) % 2 == 0 && (2 * i + 1) % 2
            == 1);
        assert(hex(a)[2 * i] == hex_digit(a[i] as int / 16));
        assert(hex(b)[2 * i] == hex_digit(b[i] as int / 16));
        assert(hex(a)[2 * i + 1] == hex_digit(a[i] as int % 16));
        assert(hex(b)[2 * i + 1] == hex_digit(b[i] as int % 16));
        lemma_hex_digit(a[i] as int / 16, b[i] as int / 16);
        lemma_hex_digit(a[i] as int % 16, b[i] as int % 16);
    }
    assert(a =~= b);
}

/// Each byte is written as two digits, the sixteens in front, in the digits `0` to `9` and `a` to `f`;
/// bytes are written one after the other.
pub proof fn law_hex_digits(data: Seq<u8>, i: int, d: int)
    requires
        0 <= i < data.len(),
        0 <= d < 16,
    ensures
        hex(data).len() == 2 * data.len(),
        hex(data)[2 * i] == hex_digit(data[i] as int / 16),
        hex(data)[2 * i + 1] == hex_digit(data[i] as int % 16),
        d < 10 ==> hex_digit(d) as int == '0' as int + d,
        d >= 10 ==> hex_digit(d) as int == 'a' as int + d - 10,
{
    assert((2 * i) / 2 == i && (2 * i + 1) / 2 == i && (2 * i) % 2 == 0 && (2 * i + 1) % 2 == 1);
    let x = if d < 10 {
        (48 + d) as u8
    } else {
        (87 + d) as u8
    };
    assert(x as char as u32 == x as u32);
}

} // verus!
