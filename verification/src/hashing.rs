use sha2::Digest;
use sha2::Sha256;
use vstd::prelude::*;

verus! {

/// The SHA-256 digest (FIPS 180-4) of `data`.
pub uninterp spec fn sha256(data: Seq<u8>) -> Seq<u8>;

/// Calls `sha2::Sha256::digest`. Claimed of it: the result is the 32-byte
/// SHA-256 digest of `data`, a function of `data` alone.
#[verifier::external_body]
fn sha256_digest(data: &[u8]) -> (digest: Vec<u8>)
    ensures
        digest@ == sha256(data@),
        digest@.len() == 32,
{
    Sha256::digest(data).to_vec()
}

/// The lower-case hexadecimal digit of `n` (`n < 16`).
pub open spec fn hex_digit(n: u8) -> char {
    if n < 10 {
        (48 + n) as char
    } else {
        (87 + n) as char
    }
}

/// Lower-case hexadecimal text of `data`, two digits per byte, most
/// significant digit first (`{:x}` on a digest).
pub open spec fn hex_lower(data: Seq<u8>) -> Seq<char>
    decreases data.len(),
{
    if data.len() == 0 {
        Seq::empty()
    } else {
        hex_lower(data.drop_last()) + seq![hex_digit(data.last() / 16), hex_digit(data.last() % 16)]
    }
}

/// The content hash of some bytes: the hex text of their SHA-256 digest.
pub open spec fn spec_content_hash(content: Seq<u8>) -> Seq<char> {
    hex_lower(sha256(content))
}

/// The four little-endian bytes of `x` (`u32::to_le_bytes`).
pub open spec fn le_bytes(x: u32) -> Seq<u8> {
    seq![
        (x % 256) as u8,
        ((x / 256) % 256) as u8,
        ((x / 65536) % 256) as u8,
        (x / 16777216) as u8,
    ]
}

/// What an image's content hash is taken of: width and height, then the pixels.
pub open spec fn image_hash_input(rgba: Seq<u8>, width: u32, height: u32) -> Seq<u8> {
    le_bytes(width) + le_bytes(height) + rgba
}

pub proof fn lemma_hex_lower_len(data: Seq<u8>)
    ensures
        hex_lower(data).len() == 2 * data.len(),
    decreases data.len(),
{
    if data.len() > 0 {
        lemma_hex_lower_len(data.drop_last());
    }
}

proof fn lemma_hex_digit_injective(a: u8, b: u8)
    requires
        a < 16,
        b < 16,
        hex_digit(a) == hex_digit(b),
    ensures
        a == b,
{
    let x = hex_digit(a) as u32;
    assert(a < 10 ==> x == 48 + a);
    assert(a >= 10 ==> x == 87 + a);
    assert(b < 10 ==> x == 48 + b);
    assert(b >= 10 ==> x == 87 + b);
}

/// Different bytes give different hex text: the hex text of a digest
/// determines the digest.
pub proof fn lemma_hex_lower_injective(a: Seq<u8>, b: Seq<u8>)
    requires
        hex_lower(a) == hex_lower(b),
    ensures
        a == b,
    decreases a.len(),
{
    lemma_hex_lower_len(a);
    lemma_hex_lower_len(b);
    if a.len() > 0 {
        let ha = hex_lower(a.drop_last());
        let hb = hex_lower(b.drop_last());
        lemma_hex_lower_len(a.drop_last());
        lemma_hex_lower_len(b.drop_last());
        let n = ha.len() as int;
        let da = seq![hex_digit(a.last() / 16), hex_digit(a.last() % 16)];
        let db = seq![hex_digit(b.last() / 16), hex_digit(b.last() % 16)];
        assert(hex_lower(a) == ha + da);
        assert(hex_lower(b) == hb + db);
        assert((ha + da)[n] == da[0] && (hb + db)[n] == db[0]);
        assert((ha + da)[n + 1] == da[1] && (hb + db)[n + 1] == db[1]);
        lemma_hex_digit_injective(a.last() / 16, b.last() / 16);
        lemma_hex_digit_injective(a.last() % 16, b.last() % 16);
        assert(a.last() == b.last());
        assert(ha =~= hex_lower(a).subrange(0, n));
        assert(hb =~= hex_lower(b).subrange(0, n));
        lemma_hex_lower_injective(a.drop_last(), b.drop_last());
        assert(a =~= b.drop_last().push(b.last()));
    }
}

/// The four bytes are `x` in base 256, least significant first.
pub proof fn lemma_le_bytes_value(x: u32)
    ensures
        le_bytes(x).len() == 4,
        le_bytes(x)[0] + 256 * le_bytes(x)[1] + 65536 * le_bytes(x)[2] + 16777216 * le_bytes(x)[3]
            == x,
{
    let b = le_bytes(x);
    assert(b[0] == x % 256 && b[1] == (x / 256) % 256 && b[2] == (x / 65536) % 256 && b[3] == x
        / 16777216);
    assert(x % 256 + 256 * ((x / 256) % 256) + 65536 * ((x / 65536) % 256) + 16777216 * (x
        / 16777216) == x) by (nonlinear_arith);
}

/// Every character of a content hash is one of `0-9a-f`.
pub open spec fn is_lower_hex(s: Seq<char>) -> bool {
    forall|i: int| 0 <= i < s.len() ==> ('0' <= #[trigger] s[i] <= '9' || 'a' <= s[i] <= 'f')
}

pub proof fn lemma_hex_lower_digits(data: Seq<u8>)
    ensures
        is_lower_hex(hex_lower(data)),
    decreases data.len(),
{
    if data.len() > 0 {
        lemma_hex_lower_digits(data.drop_last());
        lemma_hex_lower_len(data.drop_last());
        let prefix = hex_lower(data.drop_last());
        let whole = hex_lower(data);
        assert forall|i: int| 0 <= i < whole.len() implies ('0' <= #[trigger] whole[i] <= '9'
            || 'a' <= whole[i] <= 'f') by {
            if i < prefix.len() {
                assert(whole[i] == prefix[i]);
            }
        }
    }
}

/// A content hash is 64 lower-case hexadecimal digits.
pub proof fn lemma_content_hash_shape(content: Seq<u8>, digest: Seq<u8>)
    requires
        digest == sha256(content),
        digest.len() == 32,
    ensures
        spec_content_hash(content).len() == 64,
        is_lower_hex(spec_content_hash(content)),
{
    lemma_hex_lower_len(digest);
    lemma_hex_lower_digits(digest);
}

fn hex_digit_of(n: u8) -> (c: char)
    requires
        n < 16,
    ensures
        c == hex_digit(n),
{
    if n < 10 {
        (48 + n) as char
    } else {
        (87 + n) as char
    }
}

/// Lower-case hexadecimal text of `data`.
pub fn to_hex_lower(data: &[u8]) -> (hex: String)
    ensures
        hex@ == hex_lower(data@),
{
    let mut digits: Vec<char> = Vec::new();
    let mut i: usize = 0;
    while i < data.len()
        invariant
            i <= data@.len(),
            digits@ == hex_lower(data@.take(i as int)),
        decreases data@.len() - i,
    {
        let b = data[i];
        digits.push(hex_digit_of(b / 16));
        digits.push(hex_digit_of(b % 16));
        assert(data@.take(i + 1).drop_last() =~= data@.take(i as int));
        i = i + 1;
    }
    assert(data@.take(i as int) =~= data@);
    crate::text::string_of(digits.as_slice())
}

/// The content hash of `content`: the lower-case hex text of its SHA-256 digest.
pub fn content_hash(content: &[u8]) -> (hash: String)
    ensures
        hash@ == spec_content_hash(content@),
        hash@.len() == 64,
        is_lower_hex(hash@),
{
    let digest = sha256_digest(content);
    proof {
        lemma_content_hash_shape(content@, digest@);
    }
    to_hex_lower(digest.as_slice())
}

fn append_bytes(v: &mut Vec<u8>, data: &[u8])
    ensures
        final(v)@ == old(v)@ + data@,
{
    let mut i: usize = 0;
    while i < data.len()
        invariant
            i <= data@.len(),
            v@ == old(v)@ + data@.take(i as int),
        decreases data@.len() - i,
    {
        v.push(data[i]);
        assert(data@.take(i + 1) =~= data@.take(i as int).push(data@[i as int]));
        i = i + 1;
    }
    assert(data@.take(i as int) =~= data@);
}

fn append_le_bytes(v: &mut Vec<u8>, x: u32)
    ensures
        final(v)@ == old(v)@ + le_bytes(x),
{
    v.push((x % 256) as u8);
    v.push(((x / 256) % 256) as u8);
    v.push(((x / 65536) % 256) as u8);
    v.push((x / 16777216) as u8);
    assert(v@ =~= old(v)@ + le_bytes(x));
}

/// The bytes an image's content hash is taken of.
pub fn image_hash_bytes(rgba: &[u8], width: u32, height: u32) -> (input: Vec<u8>)
    ensures
        input@ == image_hash_input(rgba@, width, height),
{
    let mut input: Vec<u8> = Vec::new();
    append_le_bytes(&mut input, width);
    append_le_bytes(&mut input, height);
    append_bytes(&mut input, rgba);
    assert(input@ =~= image_hash_input(rgba@, width, height));
    input
}

} // verus!
