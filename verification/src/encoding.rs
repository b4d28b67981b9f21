//! Bytes written as text in an alphabet of a power of two, and content
//! identifiers.
use sha2::Digest;
use vstd::prelude::*;

verus! {

/// Two to the power of `exponent`.
pub open spec fn power_of_two(exponent: nat) -> nat
    decreases exponent,
{
    if exponent == 0 {
        1
    } else {
        2 * power_of_two((exponent - 1) as nat)
    }
}

/// The `k`-th bit of a byte string, the highest of the first byte first; zero
/// behind the end.
pub open spec fn bit_at(bytes: Seq<u8>, k: int) -> nat {
    if 0 <= k < 8 * bytes.len() {
        (bytes[k / 8] as nat / power_of_two((7 - k % 8) as nat)) % 2
    } else {
        0
    }
}

/// The number that `width` bits from the `k`-th on spell.
pub open spec fn bit_group(bytes: Seq<u8>, k: int, width: nat) -> nat
    decreases width,
{
    if width == 0 {
        0
    } else {
        2 * bit_group(bytes, k, (width - 1) as nat) + bit_at(bytes, k + width - 1)
    }
}

/// A byte string in an alphabet of `2^width` letters: each letter stands for
/// `width` bits, and the last group is filled up with zeros.
pub open spec fn radix_text(bytes: Seq<u8>, width: nat, alphabet: Seq<char>) -> Seq<char> {
    Seq::new(
        ((8 * bytes.len() + width - 1) / width as int) as nat,
        |i: int| alphabet[bit_group(bytes, i * width, width) as int],
    )
}

/// The alphabet of base64.
pub const BASE64_ALPHABET: &'static str =
    "ABCDEFGHIJKLMNOPQRSTUVWXYZabcdefghijklmnopqrstuvwxyz0123456789+/";

/// The alphabet of base32 in lower case.
pub const BASE32_ALPHABET: &'static str = "abcdefghijklmnopqrstuvwxyz234567";

/// `data_encoding::BASE64_NOPAD`: base64 without padding.
#[verifier::external_body]
pub(crate) fn base64_nopad(bytes: &[u8]) -> (r: String)
    ensures
        r@ == radix_text(bytes@, 6, BASE64_ALPHABET@),
{
    data_encoding::BASE64_NOPAD.encode(bytes)
}

/// What `sha2::Sha256` digests a byte string to.
pub uninterp spec fn sha256(bytes: Seq<u8>) -> Seq<u8>;

/// `sha2::Sha256::digest`: the 32 bytes of the digest, as a function of the
/// input alone.
#[verifier::external_body]
fn sha256_digest(bytes: &[u8]) -> (r: Vec<u8>)
    ensures
        r@ == sha256(bytes@),
        r@.len() == 32,
{
    sha2::Sha256::digest(bytes).to_vec()
}

/// `cid::Cid::new_v1` over `multihash::Multihash::wrap`, written as text: the
/// version, the codec, the hash code, the length and the digest, in base32
/// behind the letter that names the base. Each of the numbers is a single
/// byte below 128.
#[verifier::external_body]
fn cid_v1_text(codec: u64, hash_code: u64, digest: &[u8]) -> (r: String)
    requires
        codec < 128,
        hash_code < 128,
        digest@.len() <= 64,
    ensures
        r@ == seq!['b'] + radix_text(
            seq![1u8, codec as u8, hash_code as u8, digest@.len() as u8] + digest@,
            5,
            BASE32_ALPHABET@,
        ),
{
    let hash = multihash::Multihash::<64>::wrap(hash_code, digest).unwrap();
    cid::Cid::new_v1(codec, hash).to_string()
}

/// The identifier of a record with the given digest: CIDv1, DAG-CBOR,
/// SHA2-256, in lower-case base32.
pub open spec fn cid_of_digest(digest: Seq<u8>) -> Seq<char> {
    seq!['b'] + radix_text(seq![0x01u8, 0x71u8, 0x12u8, 0x20u8] + digest, 5, BASE32_ALPHABET@)
}

/// The identifier of a record, computed from its DAG-CBOR bytes.
pub fn record_cid(dag_cbor: &[u8]) -> (r: String)
    ensures
        r@ == cid_of_digest(sha256(dag_cbor@)),
        sha256(dag_cbor@).len() == 32,
{
    let digest = sha256_digest(dag_cbor);
    cid_for_digest(digest.as_slice())
}

/// The identifier of the record with a given SHA2-256 digest.
pub fn cid_for_digest(digest: &[u8]) -> (r: String)
    requires
        digest@.len() == 32,
    ensures
        r@ == cid_of_digest(digest@),
{
    cid_v1_text(0x71, 0x12, digest)
}

/// The bits of the `j`-th byte.
proof fn lemma_byte_bits(bytes: Seq<u8>, j: int)
    requires
        0 <= j < bytes.len(),
    ensures
        bit_at(bytes, 8 * j) == bytes[j] as nat / 128 % 2,
        bit_at(bytes, 8 * j + 1) == bytes[j] as nat / 64 % 2,
        bit_at(bytes, 8 * j + 2) == bytes[j] as nat / 32 % 2,
        bit_at(bytes, 8 * j + 3) == bytes[j] as nat / 16 % 2,
        bit_at(bytes, 8 * j + 4) == bytes[j] as nat / 8 % 2,
        bit_at(bytes, 8 * j + 5) == bytes[j] as nat / 4 % 2,
        bit_at(bytes, 8 * j + 6) == bytes[j] as nat / 2 % 2,
        bit_at(bytes, 8 * j + 7) == bytes[j] as nat % 2,
{
    reveal_with_fuel(power_of_two, 8);
    assert(power_of_two(0) == 1 && power_of_two(1) == 2 && power_of_two(2) == 4);
    assert(power_of_two(3) == 8 && power_of_two(4) == 16 && power_of_two(5) == 32);
    assert(power_of_two(6) == 64 && power_of_two(7) == 128);
    assert((8 * j + 1) / 8 == j && (8 * j + 1) % 8 == 1);
    assert((8 * j + 2) / 8 == j && (8 * j + 2) % 8 == 2);
    assert((8 * j + 3) / 8 == j && (8 * j + 3) % 8 == 3);
    assert((8 * j + 4) / 8 == j && (8 * j + 4) % 8 == 4);
    assert((8 * j + 5) / 8 == j && (8 * j + 5) % 8 == 5);
    assert((8 * j + 6) / 8 == j && (8 * j + 6) % 8 == 6);
    assert((8 * j + 7) / 8 == j && (8 * j + 7) % 8 == 7);
    assert(bytes[j] as nat / power_of_two(0) == bytes[j] as nat / 1);
}

/// Five bits spelled out.
proof fn lemma_five_bits(bytes: Seq<u8>, k: int)
    ensures
        bit_group(bytes, k, 5) == 16 * bit_at(bytes, k) + 8 * bit_at(bytes, k + 1) + 4 * bit_at(
            bytes,
            k + 2,
        ) + 2 * bit_at(bytes, k + 3) + bit_at(bytes, k + 4),
{
    reveal_with_fuel(bit_group, 6);
}

/// Every record identifier starts with the same seven letters, and has 59.
pub proof fn law_cid_prefix(digest: Seq<u8>)
    requires
        digest.len() == 32,
    ensures
        cid_of_digest(digest).len() == 59,
        cid_of_digest(digest).take(7) == "bafyrei"@,
{
    let bytes = seq![0x01u8, 0x71u8, 0x12u8, 0x20u8] + digest;
    let cid = cid_of_digest(digest);
    reveal_strlit("bafyrei");
    reveal_strlit("abcdefghijklmnopqrstuvwxyz234567");
    lemma_byte_bits(bytes, 0);
    lemma_byte_bits(bytes, 1);
    lemma_byte_bits(bytes, 2);
    lemma_byte_bits(bytes, 3);
    lemma_five_bits(bytes, 0);
    lemma_five_bits(bytes, 5);
    lemma_five_bits(bytes, 10);
    lemma_five_bits(bytes, 15);
    lemma_five_bits(bytes, 20);
    lemma_five_bits(bytes, 25);
    assert(bytes[0] == 0x01 && bytes[1] == 0x71 && bytes[2] == 0x12 && bytes[3] == 0x20);
    assert(bit_group(bytes, 0, 5) == 0);
    assert(bit_group(bytes, 5, 5) == 5);
    assert(bit_group(bytes, 10, 5) == 24);
    assert(bit_group(bytes, 15, 5) == 17);
    assert(bit_group(bytes, 20, 5) == 4);
    assert(bit_group(bytes, 25, 5) == 8);
    assert(cid[1] == 'a' && cid[2] == 'f' && cid[3] == 'y');
    assert(cid[4] == 'r' && cid[5] == 'e' && cid[6] == 'i');
    assert(cid.take(7) =~= "bafyrei"@);
}

} // verus!
