use vstd::prelude::*;

verus! {

/// The SHA-256 digest of a byte sequence (FIPS 180-4), as `sha2` computes it.
pub uninterp spec fn sha256_spec(data: Seq<u8>) -> Seq<u8>;

/// Calls `sha2::Sha256::digest` (the `Digest` trait's one-shot form, which
/// hashes exactly the bytes given). The contract claims that the 32 bytes
/// returned are the SHA-256 digest of `data`, named `sha256_spec`; feeding
/// the same bytes through several `update` calls gives the same digest.
#[verifier::external_body]
pub(crate) fn sha256(data: &[u8]) -> (h: [u8; 32])
    ensures
        h@ == sha256_spec(data@),
{
    <sha2::Sha256 as sha2::Digest>::digest(data).into()
}

/// The lower-case hexadecimal digit for a value below sixteen.
pub open spec fn hex_digit(v: u8) -> char {
    if v < 10 {
        ((v + 48) as u8) as char
    } else {
        ((v + 87) as u8) as char
    }
}

/// Two lower-case hexadecimal digits per byte, high nibble first.
pub open spec fn hex_spec(data: Seq<u8>) -> Seq<char>
    decreases data.len(),
{
    if data.len() == 0 {
        Seq::empty()
    } else {
        seq![hex_digit(data[0] / 16), hex_digit(data[0] % 16)] + hex_spec(data.drop_first())
    }
}

/// Calls `hex::encode`, which writes each byte as two characters from the
/// table `0123456789abcdef`, high nibble first. The contract claims exactly
/// that (`hex_spec`).
#[verifier::external_body]
pub(crate) fn hex_encode(data: &[u8]) -> (s: String)
    ensures
        s@ == hex_spec(data@),
{
    hex::encode(data)
}

/// The `n` low bytes of `x`, least significant first.
pub open spec fn le_bytes(x: nat, n: nat) -> Seq<u8>
    decreases n,
{
    if n == 0 {
        Seq::empty()
    } else {
        seq![(x % 256) as u8] + le_bytes(x / 256, (n - 1) as nat)
    }
}

/// The two's complement bit pattern of a signed 64-bit integer, read as an
/// unsigned one.
pub open spec fn i64_bits(x: i64) -> nat {
    if x >= 0 {
        x as nat
    } else {
        (x + 0x1_0000_0000_0000_0000) as nat
    }
}

/// `u64::to_le_bytes`.
pub fn u64_le_bytes(x: u64) -> (b: Vec<u8>)
    ensures
        b@ == le_bytes(x as nat, 8),
{
    let mut b: Vec<u8> = Vec::new();
    let mut v = x;
    let mut i: usize = 0;
    while i < 8
        invariant
            i <= 8,
            b@ + le_bytes(v as nat, (8 - i) as nat) == le_bytes(x as nat, 8),
        decreases 8 - i,
    {
        let ghost old_b = b@;
        let ghost old_v = v;
        b.push((v % 256) as u8);
        v = v / 256;
        i = i + 1;
        proof {
            assert(le_bytes(old_v as nat, (8 - (i - 1)) as nat) == seq![(old_v % 256) as u8] + le_bytes(
                v as nat,
                (8 - i) as nat,
            ));
            assert(b@ == old_b + seq![(old_v % 256) as u8]);
            assert(b@ + le_bytes(v as nat, (8 - i) as nat) =~= old_b + le_bytes(old_v as nat, (8 - (i - 1)) as nat));
        }
    }
    proof {
        assert(le_bytes(v as nat, 0) =~= Seq::<u8>::empty());
        assert(b@ + Seq::<u8>::empty() =~= b@);
    }
    b
}

/// `i64::to_le_bytes`: the bytes of the two's complement form.
pub fn i64_le_bytes(x: i64) -> (b: Vec<u8>)
    ensures
        b@ == le_bytes(i64_bits(x), 8),
{
    let bits: u64 = if x >= 0 {
        x as u64
    } else {
        let m: i64 = -(x + 1);
        u64::MAX - (m as u64)
    };
    assert(bits as nat == i64_bits(x));
    u64_le_bytes(bits)
}

} // verus!
