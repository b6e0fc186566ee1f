//! Signs with secret keys that are held in memory.
use vstd::prelude::*;

use crate::bytes::{concat_text, decimal_text};
use crate::secp::SecretKey;
use crate::table::{Table, TableValue};
use crate::views::{blake2b_256, TransactionView};

verus! {

/// The length of an id.
pub const ID_SIZE: usize = 20;

/// The length of a message that can be signed.
pub const MESSAGE_SIZE: usize = 32;

/// Why a message was not signed.
#[derive(Debug, PartialEq, Eq)]
pub enum SignerError {
    /// No key has the id.
    IdNotFound,
    /// The message cannot be signed; why.
    InvalidMessage(String),
}

impl TableValue for SecretKey {
    fn copy_value(&self) -> (copied: Self) {
        *self
    }
}

/// The id that these bytes are.
pub open spec fn id_array(bytes: Seq<u8>) -> [u8; 20] {
    choose|array: [u8; 20]| array@ == bytes
}

/// The id of a public key: the first bytes of its hash.
pub open spec fn id_of_public_key(public: Seq<u8>) -> [u8; 20] {
    id_array(crate::views::blake2b_of(public).take(20))
}

/// The id of a secret key: that of its public key.
pub open spec fn id_of(secret: Seq<u8>) -> [u8; 20] {
    id_of_public_key(crate::secp::public_key_of(secret))
}

/// The id of a secret key has the first bytes of its public key's hash.
pub open spec fn id_has_its_bytes(secret: Seq<u8>) -> bool {
    id_of(secret)@ == crate::views::blake2b_of(crate::secp::public_key_of(secret)).take(20)
}

/// The keys by their ids, the last one where two have the same.
pub open spec fn keys_by_id(secrets: Seq<Seq<u8>>) -> Map<[u8; 20], Seq<u8>>
    decreases secrets.len(),
{
    if secrets.len() == 0 {
        Map::empty()
    } else {
        keys_by_id(secrets.drop_last()).insert(id_of(secrets.last()), secrets.last())
    }
}

/// The bytes are the id of a key.
pub open spec fn matches_id(keys: Map<[u8; 20], Seq<u8>>, id: Seq<u8>) -> bool {
    id.len() == ID_SIZE && keys.dom().contains(id_array(id))
}

proof fn lemma_id_array(array: [u8; 20])
    ensures
        id_array(array@) == array,
{
    crate::bytes::lemma_same_array(id_array(array@), array);
}

/// The first bytes of a hash.
pub fn hash_prefix(digest: &[u8; 32]) -> (prefix: [u8; 20])
    ensures
        prefix@ == digest@.take(20),
{
    let mut prefix: [u8; 20] = [0; 20];
    let mut i: usize = 0;
    while i < 20
        invariant
            i <= 20,
            forall|k: int| 0 <= k < i ==> prefix@[k] == digest@[k],
        decreases 20 - i,
    {
        prefix[i] = digest[i];
        i += 1;
    }
    assert(prefix@ =~= digest@.take(20));
    prefix
}

/// The id that bytes of an id's length are.
pub fn id_from_slice(id: &[u8]) -> (array: [u8; 20])
    requires
        id@.len() == ID_SIZE,
    ensures
        array@ == id@,
        array == id_array(id@),
{
    let mut array: [u8; 20] = [0; 20];
    let mut i: usize = 0;
    while i < 20
        invariant
            i <= 20,
            id@.len() == 20,
            forall|k: int| 0 <= k < i ==> array@[k] == id@[k],
        decreases 20 - i,
    {
        array[i] = id[i];
        i += 1;
    }
    assert(array@ =~= id@);
    proof {
        lemma_id_array(array);
    }
    array
}

/// The bytes of a recoverable signature: the compact form, then the recovery id.
pub fn serialize_signature(data: &[u8; 64], recovery_id: u8) -> (signature: [u8; 65])
    ensures
        signature@ == data@.push(recovery_id),
{
    let mut signature: [u8; 65] = [0; 65];
    let mut i: usize = 0;
    while i < 64
        invariant
            i <= 64,
            forall|k: int| 0 <= k < i ==> signature@[k] == data@[k],
        decreases 64 - i,
    {
        signature[i] = data[i];
        i += 1;
    }
    signature[64] = recovery_id;
    assert(signature@ =~= data@.push(recovery_id));
    signature
}

/// A signer with secret keys by their ids; an id is the first bytes of the public key's hash.
pub struct SecpCkbRawKeySigner {
    keys: Table<[u8; 20], SecretKey>,
}

impl View for SecpCkbRawKeySigner {
    type V = Map<[u8; 20], Seq<u8>>;

    closed spec fn view(&self) -> Map<[u8; 20], Seq<u8>> {
        secrets(self.keys@)
    }
}

/// The bytes of keys.
pub open spec fn secrets(keys: Map<[u8; 20], SecretKey>) -> Map<[u8; 20], Seq<u8>> {
    keys.map_values(|key: SecretKey| key@)
}

/// Every key can be used.
pub open spec fn usable(keys: Map<[u8; 20], SecretKey>) -> bool {
    forall|id: [u8; 20]| #[trigger] keys.dom().contains(id) ==> keys[id].wf()
}

impl Default for SecpCkbRawKeySigner {
    fn default() -> (signer: SecpCkbRawKeySigner)
        ensures
            signer.wf(),
            signer@ == Map::<[u8; 20], Seq<u8>>::empty(),
    {
        let signer = SecpCkbRawKeySigner { keys: Table::new() };
        assert(signer@ =~= Map::<[u8; 20], Seq<u8>>::empty());
        signer
    }
}

impl Clone for SecpCkbRawKeySigner {
    fn clone(&self) -> (copied: Self)
        ensures
            copied@ == self@,
            self.wf() ==> copied.wf(),
    {
        SecpCkbRawKeySigner { keys: self.keys.copy() }
    }
}

impl SecpCkbRawKeySigner {
    /// No id stands twice.
    pub closed spec fn no_id_twice(&self) -> bool {
        self.keys.wf()
    }

    /// No id stands twice, and every key can be used.
    pub closed spec fn wf(&self) -> bool {
        self.no_id_twice() && usable(self.keys@)
    }

    /// A signer with these keys by these ids.
    pub fn new(keys: Table<[u8; 20], SecretKey>) -> (signer: SecpCkbRawKeySigner)
        requires
            keys.wf(),
            usable(keys@),
        ensures
            signer.wf(),
            signer@ == secrets(keys@),
    {
        SecpCkbRawKeySigner { keys }
    }

    /// A signer with these keys, each by the id of its public key.
    pub fn new_with_secret_keys(keys: Vec<SecretKey>) -> (signer: SecpCkbRawKeySigner)
        requires
            forall|i: int| 0 <= i < keys@.len() ==> (#[trigger] keys@[i]).wf(),
        ensures
            signer.wf(),
            signer@ == keys_by_id(keys@.map_values(|key: SecretKey| key@)),
            forall|i: int|
                0 <= i < keys@.len() ==> id_of((#[trigger] keys@[i])@)@ == crate::views::blake2b_of(
                    crate::secp::public_key_of(keys@[i]@),
                ).take(20),
    {
        let mut signer = SecpCkbRawKeySigner::default();
        let ghost all = keys@.map_values(|key: SecretKey| key@);
        let n: usize = keys.len();
        let mut i: usize = 0;
        assert(all.take(0) =~= Seq::empty());
        while i < n
            invariant
                i <= n,
                n == keys@.len(),
                all == keys@.map_values(|key: SecretKey| key@),
                forall|k: int| 0 <= k < keys@.len() ==> (#[trigger] keys@[k]).wf(),
                signer.wf(),
                signer@ == keys_by_id(all.take(i as int)),
                forall|k: int| 0 <= k < i ==> id_has_its_bytes((#[trigger] keys@[k])@),
            decreases n - i,
        {
            signer.add_secret_key(keys[i]);
            assert(all.take(i + 1).drop_last() =~= all.take(i as int));
            i += 1;
        }
        assert(all.take(n as int) =~= all);
        signer
    }

    /// Adds a key by the id of its public key.
    pub fn add_secret_key(&mut self, key: SecretKey)
        requires
            old(self).wf(),
            key.wf(),
        ensures
            final(self).wf(),
            final(self)@ == old(self)@.insert(id_of(key@), key@),
            id_of(key@)@ == crate::views::blake2b_of(crate::secp::public_key_of(key@)).take(20),
    {
        let public = key.public_key();
        let digest = blake2b_256(public.as_slice());
        let id = hash_prefix(&digest);
        proof {
            lemma_id_array(id);
        }
        self.keys.insert(id, key);
        assert(self@ =~= old(self)@.insert(id_of(key@), key@));
        assert(usable(self.keys@)) by {
            assert forall|other: [u8; 20]| #[trigger]
                self.keys@.dom().contains(other) implies self.keys@[other].wf() by {
                if other != id {
                    assert(old(self).keys@.dom().contains(other));
                }
            }
        }
    }

    /// Tells whether the signer has a key of an id.
    pub fn match_id(&self, id: &[u8]) -> (found: bool)
        requires
            self.wf(),
        ensures
            found == matches_id(self@, id@),
    {
        id.len() == ID_SIZE && self.keys.contains_key(&id_from_slice(id))
    }

    /// Signs a message with the key of an id, so that the public key can be recovered or not.
    pub fn sign(&self, id: &[u8], message: &[u8], recoverable: bool, _tx: &TransactionView) -> (result:
        Result<Vec<u8>, SignerError>)
        requires
            self.wf(),
        ensures
            if !matches_id(self@, id@) {
                result == Err::<Vec<u8>, SignerError>(SignerError::IdNotFound)
            } else if message@.len() != MESSAGE_SIZE {
                result matches Err(SignerError::InvalidMessage(text)) && text@
                    == "expected length: 32, got: "@ + crate::bytes::decimal(message@.len())
            } else {
                result matches Ok(signature) && signature@ == signed(
                    message@,
                    self@[id_array(id@)],
                    recoverable,
                ) && signature@ == (if recoverable {
                    crate::secp::signature_of(message@, self@[id_array(id@)]).push(
                        crate::secp::recovery_id_of(message@, self@[id_array(id@)]),
                    )
                } else {
                    crate::secp::signature_of(message@, self@[id_array(id@)])
                }) && signature@.len() == (if recoverable {
                    65nat
                } else {
                    64nat
                })
            },
    {
        if !self.match_id(id) {
            return Err(SignerError::IdNotFound);
        }
        if message.len() != MESSAGE_SIZE {
            let got = decimal_text(message.len() as u64);
            return Err(
                SignerError::InvalidMessage(
                    concat_text("expected length: 32, got: ", got.as_str()),
                ),
            );
        }
        let mut msg: [u8; 32] = [0; 32];
        let mut i: usize = 0;
        while i < 32
            invariant
                i <= 32,
                message@.len() == 32,
                forall|k: int| 0 <= k < i ==> msg@[k] == message@[k],
            decreases 32 - i,
        {
            msg[i] = message[i];
            i += 1;
        }
        assert(msg@ =~= message@);
        match self.keys.get(&id_from_slice(id)) {
            Some(key) => {
                if recoverable {
                    let (data, recovery_id) = key.sign_recoverable(&msg);
                    let signature = serialize_signature(&data, recovery_id);
                    Ok(vstd::slice::slice_to_vec(signature.as_slice()))
                } else {
                    let signature = key.sign(&msg);
                    Ok(vstd::slice::slice_to_vec(signature.as_slice()))
                }
            },
            None => Err(SignerError::IdNotFound),
        }
    }

    /// Overwrites every key with zeros, where it stands.
    pub fn overwrite_keys(&mut self)
        requires
            old(self).wf(),
        ensures
            final(self).no_id_twice(),
            final(self)@.dom() == old(self)@.dom(),
            forall|id: [u8; 20]| #[trigger]
                final(self)@.dom().contains(id) ==> final(self)@[id] == crate::secp::zeros(),
    {
        self.keys.fill(&SecretKey::zeroed());
        assert(self@.dom() =~= old(self)@.dom());
    }

    /// Overwrites every key with zeros and forgets it. Hands back what the keys were overwritten
    /// with, so that the caller can see to it that it is written.
    pub fn wipe(&mut self) -> (overwritten: Table<[u8; 20], SecretKey>)
        requires
            old(self).wf(),
        ensures
            final(self).wf(),
            final(self)@ == Map::<[u8; 20], Seq<u8>>::empty(),
            overwritten.wf(),
            secrets(overwritten@).dom() == old(self)@.dom(),
            forall|id: [u8; 20]| #[trigger]
                secrets(overwritten@).dom().contains(id) ==> secrets(overwritten@)[id]
                    == crate::secp::zeros(),
    {
        self.overwrite_keys();
        let mut overwritten: Table<[u8; 20], SecretKey> = Table::new();
        std::mem::swap(&mut overwritten, &mut self.keys);
        assert(self@ =~= Map::<[u8; 20], Seq<u8>>::empty());
        overwritten
    }
}

/// The signature of a message with a key, in the form asked for.
pub open spec fn signed(message: Seq<u8>, secret: Seq<u8>, recoverable: bool) -> Seq<u8> {
    let signature = crate::secp::signature_of(message, secret);
    if recoverable {
        signature.push(crate::secp::recovery_id_of(message, secret))
    } else {
        signature
    }
}

/// Both forms carry the same signature: the recoverable one is the plain one and one byte more.
pub proof fn law_both_forms_carry_the_same_signature(message: Seq<u8>, secret: Seq<u8>)
    ensures
        signed(message, secret, true).len() == signed(message, secret, false).len() + 1,
        signed(message, secret, true).drop_last() == signed(message, secret, false),
        signed(message, secret, true).len() == 65 ==> signed(message, secret, true).take(64)
            == signed(message, secret, false),
{
    let plain = signed(message, secret, false);
    let recoverable = signed(message, secret, true);
    assert(recoverable.drop_last() =~= plain);
    if recoverable.len() == 65 {
        assert(recoverable.take(64) =~= recoverable.drop_last());
    }
}

/// A signer made of a list of keys knows the ids of their public keys and no others.
pub proof fn law_signer_knows_its_keys(secrets: Seq<Seq<u8>>, id: [u8; 20])
    ensures
        keys_by_id(secrets).dom().contains(id) <==> exists|i: int|
            0 <= i < secrets.len() && id_of(#[trigger] secrets[i]) == id,
    decreases secrets.len(),
{
    if secrets.len() > 0 {
        let before = secrets.drop_last();
        law_signer_knows_its_keys(before, id);
        if exists|i: int| 0 <= i < secrets.len() && id_of(#[trigger] secrets[i]) == id {
            let i = choose|i: int| 0 <= i < secrets.len() && id_of(#[trigger] secrets[i]) == id;
            if i < before.len() {
                assert(id_of(before[i]) == id);
            }
        }
        if keys_by_id(before).dom().contains(id) {
            let i = choose|i: int| 0 <= i < before.len() && id_of(#[trigger] before[i]) == id;
            assert(id_of(secrets[i]) == id);
        }
        assert(id_of(secrets[secrets.len() - 1]) == id_of(secrets.last()));
    }
}

/// The key that a signer made of a list has for an id is one of the list, and its public key has
/// that id.
pub proof fn law_signer_signs_with_the_key_of_the_id(secrets: Seq<Seq<u8>>, id: [u8; 20])
    requires
        keys_by_id(secrets).dom().contains(id),
    ensures
        secrets.contains(keys_by_id(secrets)[id]),
        id_of(keys_by_id(secrets)[id]) == id,
    decreases secrets.len(),
{
    if secrets.len() > 0 {
        let before = secrets.drop_last();
        if id_of(secrets.last()) == id {
            assert(secrets[secrets.len() - 1] == secrets.last());
        } else {
            law_signer_signs_with_the_key_of_the_id(before, id);
            let i = before.index_of(keys_by_id(before)[id]);
            assert(secrets[i] == keys_by_id(before)[id]);
        }
    }
}

/// An added key is known by its id, and every id that was known still is.
pub proof fn law_adding_a_key_keeps_the_others(
    keys: Map<[u8; 20], Seq<u8>>,
    secret: Seq<u8>,
    id: Seq<u8>,
)
    ensures
        matches_id(keys.insert(id_of(secret), secret), id_of(secret)@),
        matches_id(keys, id) ==> matches_id(keys.insert(id_of(secret), secret), id),
{
    lemma_id_array(id_of(secret));
}

/// A signer without keys, such as one that was wiped, knows no id.
pub proof fn law_no_keys_match_no_id(id: Seq<u8>)
    ensures
        !matches_id(Map::<[u8; 20], Seq<u8>>::empty(), id),
{
}

/// What is signed is the message itself, with the key itself: the plain form is their signature,
/// and the recoverable form the same followed by its recovery id.
pub proof fn law_the_message_itself_is_signed(message: Seq<u8>, secret: Seq<u8>)
    ensures
        signed(message, secret, false) == crate::secp::signature_of(message, secret),
        signed(message, secret, true) == crate::secp::signature_of(message, secret).push(
            crate::secp::recovery_id_of(message, secret),
        ),
{
}

/// Bytes match exactly where they are, byte for byte, an id that the signer has a key for.
pub proof fn law_an_id_matches_byte_for_byte(keys: Map<[u8; 20], Seq<u8>>, id: Seq<u8>)
    ensures
        id.len() == 20 && (exists|own: [u8; 20]| keys.dom().contains(own) && #[trigger] own@ == id)
            ==> matches_id(keys, id),
        matches_id(keys, id) ==> id.len() == 20 && keys.dom().contains(id_array(id)),
        forall|own: [u8; 20]| #[trigger] own@ == id ==> id_array(id) == own,
{
    assert forall|own: [u8; 20]| #[trigger] own@ == id implies id_array(id) == own by {
        lemma_id_array(own);
    }
}

/// Each key is added by its id, after the others; a signer made of no keys has none.
pub proof fn law_keys_are_added_one_by_one(secrets: Seq<Seq<u8>>, secret: Seq<u8>)
    ensures
        keys_by_id(Seq::empty()) == Map::<[u8; 20], Seq<u8>>::empty(),
        keys_by_id(secrets.push(secret)) == keys_by_id(secrets).insert(id_of(secret), secret),
{
    assert(secrets.push(secret).drop_last() =~= secrets);
}

/// Keys handed over by their ids are held under those ids, each with its own bytes.
pub proof fn law_keys_are_held_under_their_ids(keys: Map<[u8; 20], SecretKey>, id: [u8; 20])
    ensures
        secrets(keys).dom() == keys.dom(),
        keys.dom().contains(id) ==> secrets(keys)[id] == keys[id]@,
        usable(keys) && keys.dom().contains(id) ==> crate::secp::is_secret_key(keys[id]@),
{
    assert(secrets(keys).dom() =~= keys.dom());
}

} // verus!
