//! Secret keys of the curve secp256k1, and what is computed with them.
use vstd::prelude::*;

verus! {

/// The number that a byte string stands for, the most significant byte first.
pub open spec fn big_endian(bytes: Seq<u8>) -> int
    decreases bytes.len(),
{
    if bytes.len() == 0 {
        0
    } else {
        big_endian(bytes.drop_last()) * 256 + bytes.last()
    }
}

/// The order of the curve's group.
pub open spec fn curve_order() -> int {
    0xFFFFFFFF_FFFFFFFF_FFFFFFFF_FFFFFFFE_BAAEDCE6_AF48A03B_BFD25E8C_D0364141int
}

/// The bytes are a secret key: 32 of them, which stand for a number between zero and the order of
/// the group.
pub open spec fn is_secret_key(bytes: Seq<u8>) -> bool {
    bytes.len() == 32 && 0 < big_endian(bytes) < curve_order()
}

/// The compressed public key of a secret key.
pub uninterp spec fn public_key_of(secret: Seq<u8>) -> Seq<u8>;

/// The signature of a message in compact form.
pub uninterp spec fn signature_of(message: Seq<u8>, secret: Seq<u8>) -> Seq<u8>;

/// The recovery id of a message's signature: with it the public key can be recovered.
pub uninterp spec fn recovery_id_of(message: Seq<u8>, secret: Seq<u8>) -> u8;

/// Tells whether bytes are a secret key.
///
/// Calls `secp256k1::SecretKey::from_slice`, which accepts 32 bytes that are neither zero nor at
/// least the order of the group. That is the claim of the contract.
#[verifier::external_body]
fn check_secret_key(bytes: &[u8]) -> (valid: bool)
    ensures
        valid == is_secret_key(bytes@),
{
    secp256k1::SecretKey::from_slice(bytes).is_ok()
}

/// The compressed public key of a secret key.
///
/// Calls `secp256k1::PublicKey::from_secret_key` and then `serialize`. The contract claims that
/// the key is a function of the secret key.
#[verifier::external_body]
fn compute_public_key(secret: &[u8; 32]) -> (public: [u8; 33])
    requires
        is_secret_key(secret@),
    ensures
        public@ == public_key_of(secret@),
{
    let key = secp256k1::SecretKey::from_slice(secret).unwrap();
    secp256k1::PublicKey::from_secret_key(&secp256k1::Secp256k1::signing_only(), &key).serialize()
}

/// Signs a message.
///
/// Calls `secp256k1::Secp256k1::sign` and then `serialize_compact`. The nonce is derived from the
/// message and the key, so that the contract claims that the signature is a function of both.
#[verifier::external_body]
fn compute_signature(message: &[u8; 32], secret: &[u8; 32]) -> (signature: [u8; 64])
    requires
        is_secret_key(secret@),
    ensures
        signature@ == signature_of(message@, secret@),
{
    let key = secp256k1::SecretKey::from_slice(secret).unwrap();
    let msg = secp256k1::Message::from_slice(message).unwrap();
    secp256k1::Secp256k1::signing_only().sign(&msg, &key).serialize_compact()
}

/// Signs a message so that the public key can be recovered.
///
/// Calls `secp256k1::Secp256k1::sign_recoverable` and then `serialize_compact`. It signs as `sign`
/// does, with the same nonce, and keeps the recovery id besides. So the contract claims that the
/// compact form is that of the plain signature, and that the recovery id is a function of the
/// message and the key.
#[verifier::external_body]
fn compute_recoverable_signature(message: &[u8; 32], secret: &[u8; 32]) -> (signature: (
    [u8; 64],
    u8,
))
    requires
        is_secret_key(secret@),
    ensures
        signature.0@ == signature_of(message@, secret@),
        signature.1 == recovery_id_of(message@, secret@),
{
    let key = secp256k1::SecretKey::from_slice(secret).unwrap();
    let msg = secp256k1::Message::from_slice(message).unwrap();
    let signed = secp256k1::Secp256k1::signing_only().sign_recoverable(&msg, &key);
    let (recovery_id, data) = signed.serialize_compact();
    (data, recovery_id.to_i32() as u8)
}

/// A secret key.
#[derive(Clone, Copy)]
pub struct SecretKey {
    bytes: [u8; 32],
}

impl View for SecretKey {
    type V = Seq<u8>;

    closed spec fn view(&self) -> Seq<u8> {
        self.bytes@
    }
}

impl SecretKey {
    /// The key can be used.
    pub open spec fn wf(self) -> bool {
        is_secret_key(self@)
    }

    /// Reads a secret key; `None` where the bytes are none.
    pub fn from_slice(bytes: &[u8]) -> (key: Option<SecretKey>)
        ensures
            key is Some <==> is_secret_key(bytes@),
            key matches Some(key) ==> key@ == bytes@ && key.wf(),
    {
        if !check_secret_key(bytes) {
            return None;
        }
        let mut copied: [u8; 32] = [0; 32];
        let mut i: usize = 0;
        while i < 32
            invariant
                i <= 32,
                bytes@.len() == 32,
                forall|k: int| 0 <= k < i ==> copied@[k] == bytes@[k],
            decreases 32 - i,
        {
            copied[i] = bytes[i];
            i += 1;
        }
        assert(copied@ =~= bytes@);
        Some(SecretKey { bytes: copied })
    }

    /// The compressed public key.
    pub fn public_key(&self) -> (public: [u8; 33])
        requires
            self.wf(),
        ensures
            public@ == public_key_of(self@),
    {
        compute_public_key(&self.bytes)
    }

    /// Signs a message.
    pub fn sign(&self, message: &[u8; 32]) -> (signature: [u8; 64])
        requires
            self.wf(),
        ensures
            signature@ == signature_of(message@, self@),
    {
        compute_signature(message, &self.bytes)
    }

    /// Signs a message so that the public key can be recovered: the signature is the plain one,
    /// and the recovery id comes with it.
    pub fn sign_recoverable(&self, message: &[u8; 32]) -> (signature: ([u8; 64], u8))
        requires
            self.wf(),
        ensures
            signature.0@ == signature_of(message@, self@),
            signature.1 == recovery_id_of(message@, self@),
    {
        compute_recoverable_signature(message, &self.bytes)
    }

    /// The bytes of the key.
    pub fn as_bytes(&self) -> (bytes: &[u8; 32])
        ensures
            bytes@ == self@,
    {
        &self.bytes
    }

    /// What a key is overwritten with: zeros, which cannot be used.
    pub fn zeroed() -> (key: SecretKey)
        ensures
            key@ == zeros(),
            !key.wf(),
    {
        let key = SecretKey { bytes: [0; 32] };
        proof {
            assert(key@ =~= zeros());
            lemma_zeros(key@);
        }
        key
    }
}

/// The bytes of a key that was overwritten.
pub open spec fn zeros() -> Seq<u8> {
    Seq::new(32, |i: int| 0u8)
}

proof fn lemma_zeros(bytes: Seq<u8>)
    requires
        forall|i: int| 0 <= i < bytes.len() ==> bytes[i] == 0,
    ensures
        big_endian(bytes) == 0,
    decreases bytes.len(),
{
    if bytes.len() > 0 {
        lemma_zeros(bytes.drop_last());
    }
}

/// A byte more makes the number 256 times as large and adds the byte.
pub proof fn law_bytes_are_read_big_endian(bytes: Seq<u8>, byte: u8)
    ensures
        big_endian(Seq::empty()) == 0,
        big_endian(bytes.push(byte)) == big_endian(bytes) * 256 + byte,
{
    assert(bytes.push(byte).drop_last() =~= bytes);
}

/// Every 32 bytes that stand for a number between zero and the order of the group are a secret
/// key, and no others are.
pub proof fn law_secret_keys_are_below_the_order(bytes: Seq<u8>)
    ensures
        is_secret_key(bytes) <==> bytes.len() == 32 && 0 < big_endian(bytes)
            < 0xFFFFFFFF_FFFFFFFF_FFFFFFFF_FFFFFFFE_BAAEDCE6_AF48A03B_BFD25E8C_D0364141int,
{
}

/// A key that was overwritten is 32 zeros.
pub proof fn law_overwritten_keys_are_zeros(at: int)
    ensures
        zeros().len() == 32,
        0 <= at < 32 ==> zeros()[at] == 0,
{
}

} // verus!
