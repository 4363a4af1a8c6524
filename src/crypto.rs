use vstd::prelude::*;

verus! {

/// Length in bytes of a digest, and of a public key.
pub const HASH_SIZE: usize = 32;

/// Length in bytes of a signature.
pub const SIGNATURE_SIZE: usize = 64;

/// The BLAKE3 digest of a byte string.
pub uninterp spec fn blake3_digest(data: Seq<u8>) -> Seq<u8>;

/// Whether an Ed25519 signature over `message` verifies under `key`.
pub uninterp spec fn ed25519_accepts(key: Seq<u8>, message: Seq<u8>, signature: Seq<u8>) -> bool;

/// The human-readable part and the payload of a bech32 (or bech32m) string,
/// when its checksum is valid.
pub uninterp spec fn bech32_decoding(s: Seq<char>) -> Option<(Seq<u8>, Seq<u8>)>;

/// Relies on `blake3::hash`: a 32-byte digest that depends on the input alone.
#[verifier::external_body]
fn blake3_hash(data: &Vec<u8>) -> (r: Vec<u8>)
    ensures
        r@ == blake3_digest(data@),
        r@.len() == HASH_SIZE,
{
    blake3::hash(data.as_slice()).as_bytes().to_vec()
}

/// Relies on `ed25519_dalek::VerifyingKey::from_bytes` and `verify_strict`: a
/// key that does not decode verifies nothing, and the answer depends on the
/// three byte strings alone.
#[verifier::external_body]
fn ed25519_verify(key: &Vec<u8>, message: &Vec<u8>, signature: &Vec<u8>) -> (r: bool)
    requires
        key@.len() == HASH_SIZE,
        signature@.len() == SIGNATURE_SIZE,
    ensures
        r == ed25519_accepts(key@, message@, signature@),
{
    let k: [u8; 32] = key.as_slice().try_into().unwrap();
    let s: [u8; 64] = signature.as_slice().try_into().unwrap();
    match ed25519_dalek::VerifyingKey::from_bytes(&k) {
        Ok(vk) => vk.verify_strict(message.as_slice(), &ed25519_dalek::Signature::from_bytes(&s)).is_ok(),
        Err(_) => false,
    }
}

/// Relies on `bech32::decode`: the human-readable part (as parsed) and the
/// payload bytes of a string with a valid checksum, nothing otherwise.
#[verifier::external_body]
fn bech32_decode(s: &str) -> (r: Option<(Vec<u8>, Vec<u8>)>)
    ensures
        match r {
            Some((hrp, data)) => bech32_decoding(s@) == Some((hrp@, data@)),
            None => bech32_decoding(s@) is None,
        },
{
    match bech32::decode(s) {
        Ok((hrp, data)) => Some((hrp.as_bytes().to_vec(), data)),
        Err(_) => None,
    }
}

/// Element-wise comparison of two byte vectors.
pub fn bytes_equal(a: &Vec<u8>, b: &Vec<u8>) -> (r: bool)
    ensures
        r == (a@ == b@),
{
    if a.len() != b.len() {
        return false;
    }
    let mut i: usize = 0;
    while i < a.len()
        invariant
            a@.len() == b@.len(),
            i <= a@.len(),
            forall|j: int| 0 <= j < i ==> a@[j] == b@[j],
        decreases a@.len() - i,
    {
        if a[i] != b[i] {
            return false;
        }
        i += 1;
    }
    assert(a@ =~= b@);
    true
}

/// Copy of a byte vector.
pub fn copy_bytes(a: &Vec<u8>) -> (r: Vec<u8>)
    ensures
        r@ == a@,
{
    let r = a.clone();
    assert(r@ =~= a@);
    r
}

/// A fixed-width digest.
#[derive(Debug)]
pub struct Hash {
    pub bytes: Vec<u8>,
}

impl View for Hash {
    type V = Seq<u8>;

    open spec fn view(&self) -> Seq<u8> {
        self.bytes@
    }
}

impl Hash {
    /// A digest has exactly `HASH_SIZE` bytes.
    pub open spec fn wf(&self) -> bool {
        self.bytes@.len() == HASH_SIZE
    }

    /// The all-zero sentinel digest.
    pub fn zero() -> (r: Hash)
        ensures
            r@ == Seq::new(HASH_SIZE as nat, |i: int| 0u8),
            r.wf(),
    {
        let mut bytes: Vec<u8> = Vec::new();
        let mut i: usize = 0;
        while i < HASH_SIZE
            invariant
                i <= HASH_SIZE,
                bytes@ == Seq::new(i as nat, |k: int| 0u8),
            decreases HASH_SIZE - i,
        {
            bytes.push(0u8);
            i += 1;
            assert(bytes@ =~= Seq::new(i as nat, |k: int| 0u8));
        }
        Hash { bytes }
    }

    /// The digest of `data`.
    pub fn digest(data: &Vec<u8>) -> (r: Hash)
        ensures
            r@ == blake3_digest(data@),
            r.wf(),
    {
        Hash { bytes: blake3_hash(data) }
    }

    pub fn as_bytes(&self) -> (r: &Vec<u8>)
        ensures
            r@ == self@,
    {
        &self.bytes
    }
}

impl Clone for Hash {
    fn clone(&self) -> (r: Self)
        ensures
            r@ == self@,
    {
        Hash { bytes: copy_bytes(&self.bytes) }
    }
}

impl PartialEq for Hash {
    fn eq(&self, other: &Hash) -> (r: bool) {
        bytes_equal(&self.bytes, &other.bytes)
    }
}

impl vstd::std_specs::cmp::PartialEqSpecImpl for Hash {
    open spec fn obeys_eq_spec() -> bool {
        true
    }

    open spec fn eq_spec(&self, other: &Hash) -> bool {
        self@ == other@
    }
}

impl Eq for Hash {}


/// An account's public key.
#[derive(Debug)]
pub struct PublicKey {
    pub bytes: Vec<u8>,
}

impl View for PublicKey {
    type V = Seq<u8>;

    open spec fn view(&self) -> Seq<u8> {
        self.bytes@
    }
}

/// The human-readable part that every address carries: `xel`.
pub open spec fn address_prefix() -> Seq<u8> {
    seq![120u8, 101u8, 108u8]
}

/// The key that an address names, if it is one.
pub open spec fn key_of_address(s: Seq<char>) -> Option<Seq<u8>> {
    match bech32_decoding(s) {
        Some((hrp, data)) => if hrp == address_prefix() && data.len() == HASH_SIZE {
            Some(data)
        } else {
            None
        },
        None => None,
    }
}

impl PublicKey {
    pub open spec fn wf(&self) -> bool {
        self.bytes@.len() == HASH_SIZE
    }

    pub fn from_bytes(bytes: Vec<u8>) -> (r: Option<PublicKey>)
        ensures
            r is Some <==> bytes@.len() == HASH_SIZE,
            r matches Some(k) ==> k@ == bytes@,
    {
        if bytes.len() == HASH_SIZE {
            Some(PublicKey { bytes })
        } else {
            None
        }
    }

    /// Parses a bech32 address whose human-readable part is `xel` and whose
    /// payload is a 32-byte key.
    pub fn from_address(address: &str) -> (r: Option<PublicKey>)
        ensures
            r is Some <==> key_of_address(address@) is Some,
            r matches Some(k) ==> k@ == key_of_address(address@)->0 && k.wf(),
    {
        match bech32_decode(address) {
            Some((hrp, data)) => {
                if hrp.len() == 3 && hrp[0] == 120u8 && hrp[1] == 101u8 && hrp[2] == 108u8
                    && data.len() == HASH_SIZE {
                    assert(hrp@ =~= address_prefix());
                    Some(PublicKey { bytes: data })
                } else {
                    assert(hrp@ != address_prefix() || data@.len() != HASH_SIZE) by {
                        if hrp@ == address_prefix() {
                            assert(hrp@.len() == 3);
                        }
                    }
                    None
                }
            },
            None => None,
        }
    }

    pub fn as_bytes(&self) -> (r: &Vec<u8>)
        ensures
            r@ == self@,
    {
        &self.bytes
    }
}

impl Clone for PublicKey {
    fn clone(&self) -> (r: Self)
        ensures
            r@ == self@,
    {
        PublicKey { bytes: copy_bytes(&self.bytes) }
    }
}

impl PartialEq for PublicKey {
    fn eq(&self, other: &PublicKey) -> (r: bool) {
        bytes_equal(&self.bytes, &other.bytes)
    }
}

impl vstd::std_specs::cmp::PartialEqSpecImpl for PublicKey {
    open spec fn obeys_eq_spec() -> bool {
        true
    }

    open spec fn eq_spec(&self, other: &PublicKey) -> bool {
        self@ == other@
    }
}

impl Eq for PublicKey {}

/// An Ed25519 signature.
#[derive(Debug)]
pub struct Signature {
    pub bytes: Vec<u8>,
}

impl View for Signature {
    type V = Seq<u8>;

    open spec fn view(&self) -> Seq<u8> {
        self.bytes@
    }
}

impl Clone for Signature {
    fn clone(&self) -> (r: Self)
        ensures
            r@ == self@,
    {
        Signature { bytes: copy_bytes(&self.bytes) }
    }
}

/// Whether `signature` is a valid signature of `message` by `key`; keys and
/// signatures of the wrong length never verify.
pub open spec fn signature_valid(key: Seq<u8>, message: Seq<u8>, signature: Seq<u8>) -> bool {
    key.len() == HASH_SIZE && signature.len() == SIGNATURE_SIZE && ed25519_accepts(
        key,
        message,
        signature,
    )
}

pub fn verify_signature(key: &PublicKey, message: &Vec<u8>, signature: &Signature) -> (r: bool)
    ensures
        r == signature_valid(key@, message@, signature@),
{
    if key.bytes.len() != HASH_SIZE || signature.bytes.len() != SIGNATURE_SIZE {
        return false;
    }
    ed25519_verify(&key.bytes, message, &signature.bytes)
}

} // verus!
