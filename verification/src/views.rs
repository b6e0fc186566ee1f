//! Hashes of the chain's data, and the transactions and headers that carry their own.
use ckb_types::prelude::{Builder, Entity, Pack, Unpack};
use ckb_types::{packed, H256};
use vstd::prelude::*;

use crate::bytes::copy_bytes;
use crate::types::Script;

verus! {

/// The length of a header as the chain encodes it.
pub const HEADER_SIZE: usize = 208;

/// The chain's hash of a byte string: blake2b with a 32 byte digest and the chain's
/// personalization.
pub uninterp spec fn blake2b_of(data: Seq<u8>) -> Seq<u8>;

/// A number in 32 bits, the least significant byte first.
pub open spec fn number_encoding(n: nat) -> Seq<u8> {
    seq![
        (n % 256) as u8,
        (n / 0x100 % 256) as u8,
        (n / 0x1_0000 % 256) as u8,
        (n / 0x100_0000 % 256) as u8,
    ]
}

/// A script as the chain encodes it: the length of the whole, where each field starts, and then
/// the fields, the arguments with their length before them.
pub open spec fn script_encoding(code_hash: Seq<u8>, hash_type: u8, args: Seq<u8>) -> Seq<u8> {
    number_encoding(53 + args.len()) + number_encoding(16) + number_encoding(48) + number_encoding(
        49,
    ) + code_hash + seq![hash_type] + number_encoding(args.len()) + args
}

/// The hash of a script: the hash of its encoding.
pub open spec fn script_hash_of(code_hash: Seq<u8>, hash_type: u8, args: Seq<u8>) -> Seq<u8> {
    blake2b_of(script_encoding(code_hash, hash_type, args))
}

/// The hash of an encoded transaction without its witnesses, where the bytes encode one.
pub uninterp spec fn transaction_hash_of(data: Seq<u8>) -> Option<Seq<u8>>;

/// The hash of a byte string.
///
/// Calls `ckb_hash::blake2b_256`. The contract claims that the digest is a function of the bytes.
#[verifier::external_body]
pub(crate) fn blake2b_256(data: &[u8]) -> (digest: [u8; 32])
    ensures
        digest@ == blake2b_of(data@),
{
    ckb_hash::blake2b_256(data)
}

/// The hash of a script.
///
/// Builds a `ckb_types::packed::Script` of the three fields and calls its `calc_script_hash`. The
/// contract claims that this is the hash of the script's encoding.
#[verifier::external_body]
pub(crate) fn calc_script_hash(script: &Script) -> (hash: [u8; 32])
    ensures
        hash@ == script_hash_of(script@.code_hash@, script@.hash_type, script@.args),
{
    let packed_script = packed::Script::new_builder()
        .code_hash(script.code_hash.pack())
        .hash_type(script.hash_type.into())
        .args(script.args.as_slice().pack())
        .build();
    let hash: H256 = packed_script.calc_script_hash().unpack();
    hash.0
}

/// The hash of a cell's data: zeros for a cell without data.
pub open spec fn data_hash_of(data: Seq<u8>) -> Seq<u8> {
    if data.len() == 0 {
        Seq::new(32, |i: int| 0u8)
    } else {
        blake2b_of(data)
    }
}

/// The hash of a cell's data.
///
/// Calls `calc_data_hash` of `ckb_types::packed::CellOutput`. The contract claims that it gives
/// zeros where there is no data, and else the hash of the data.
#[verifier::external_body]
pub(crate) fn calc_data_hash(data: &[u8]) -> (hash: [u8; 32])
    ensures
        hash@ == data_hash_of(data@),
{
    let hash: H256 = packed::CellOutput::calc_data_hash(data).unpack();
    hash.0
}

/// The transaction hash and the witness hash of an encoded transaction.
///
/// Calls `from_slice` of `ckb_types::packed::Transaction` and then its `into_view`, which computes
/// both hashes. The contract claims that whether the bytes encode a transaction, and which
/// transaction hash it has, are functions of the bytes, and that the witness hash is the hash of
/// all of them.
#[verifier::external_body]
pub(crate) fn transaction_hashes(data: &[u8]) -> (hashes: Option<([u8; 32], [u8; 32])>)
    ensures
        hashes matches Some((hash, witness_hash)) ==> transaction_hash_of(data@) == Some(hash@)
            && witness_hash@ == blake2b_of(data@),
        hashes is None ==> transaction_hash_of(data@) is None,
{
    let view = packed::Transaction::from_slice(data).ok()?.into_view();
    let hash: H256 = view.hash().unpack();
    let witness_hash: H256 = view.witness_hash().unpack();
    Some((hash.0, witness_hash.0))
}

/// The hash of an encoded header.
///
/// Calls `from_slice` of `ckb_types::packed::Header`, which accepts exactly the byte strings of
/// the header's fixed length, and then its `into_view`, which hashes all of them. That is the
/// claim of the contract.
#[verifier::external_body]
pub(crate) fn header_hash(data: &[u8]) -> (hash: Option<[u8; 32]>)
    ensures
        hash is Some <==> data@.len() == HEADER_SIZE,
        hash matches Some(hash) ==> hash@ == blake2b_of(data@),
{
    let view = packed::Header::from_slice(data).ok()?.into_view();
    let hash: H256 = view.hash().unpack();
    Some(hash.0)
}

/// A transaction with its hashes.
#[derive(Debug, PartialEq, Eq)]
pub struct TransactionView {
    /// The transaction as the chain encodes it.
    pub data: Vec<u8>,
    pub hash: [u8; 32],
    pub witness_hash: [u8; 32],
}

/// What a [`TransactionView`] holds.
pub struct TransactionModel {
    pub data: Seq<u8>,
    pub hash: [u8; 32],
    pub witness_hash: [u8; 32],
}

impl View for TransactionView {
    type V = TransactionModel;

    open spec fn view(&self) -> TransactionModel {
        TransactionModel { data: self.data@, hash: self.hash, witness_hash: self.witness_hash }
    }
}

impl TransactionView {
    /// Reads an encoded transaction and computes its hashes; `None` where the bytes encode none.
    pub fn from_slice(data: &[u8]) -> (view: Option<TransactionView>)
        ensures
            view is Some <==> transaction_hash_of(data@) is Some,
            view matches Some(view) ==> {
                &&& view@.data == data@
                &&& transaction_hash_of(data@) == Some(view@.hash@)
                &&& view@.witness_hash@ == blake2b_of(data@)
            },
    {
        match transaction_hashes(data) {
            Some((hash, witness_hash)) => Some(
                TransactionView { data: vstd::slice::slice_to_vec(data), hash, witness_hash },
            ),
            None => None,
        }
    }

    /// A copy of the transaction.
    pub fn copy(&self) -> (copied: TransactionView)
        ensures
            copied@ == self@,
    {
        TransactionView {
            data: copy_bytes(&self.data),
            hash: self.hash,
            witness_hash: self.witness_hash,
        }
    }
}

/// A block header with its hash.
#[derive(Debug, PartialEq, Eq)]
pub struct HeaderView {
    /// The header as the chain encodes it.
    pub data: Vec<u8>,
    pub hash: [u8; 32],
}

/// What a [`HeaderView`] holds.
pub struct HeaderModel {
    pub data: Seq<u8>,
    pub hash: [u8; 32],
}

impl View for HeaderView {
    type V = HeaderModel;

    open spec fn view(&self) -> HeaderModel {
        HeaderModel { data: self.data@, hash: self.hash }
    }
}

impl HeaderView {
    /// Reads an encoded header and computes its hash; `None` where the length is not a header's.
    pub fn from_slice(data: &[u8]) -> (view: Option<HeaderView>)
        ensures
            view is Some <==> data@.len() == HEADER_SIZE,
            view matches Some(view) ==> view@.data == data@ && view@.hash@ == blake2b_of(data@),
    {
        match header_hash(data) {
            Some(hash) => Some(HeaderView { data: vstd::slice::slice_to_vec(data), hash }),
            None => None,
        }
    }

    /// A copy of the header.
    pub fn copy(&self) -> (copied: HeaderView)
        ensures
            copied@ == self@,
    {
        HeaderView { data: copy_bytes(&self.data), hash: self.hash }
    }
}

/// A script's hash is the chain's hash of its encoding, in which each field stands in its place,
/// whole and unchanged.
#[verifier::rlimit(40)]
pub proof fn law_a_script_is_hashed_whole(code_hash: Seq<u8>, hash_type: u8, args: Seq<u8>)
    requires
        code_hash.len() == 32,
    ensures
        ({
            let encoding = script_encoding(code_hash, hash_type, args);
            &&& script_hash_of(code_hash, hash_type, args) == blake2b_of(encoding)
            &&& encoding.len() == 53 + args.len()
            &&& encoding.subrange(16, 48) == code_hash
            &&& encoding[48] == hash_type
            &&& encoding.skip(53) == args
            &&& encoding[0] == (53 + args.len()) % 256
            &&& encoding[1] == (53 + args.len()) / 256 % 256
            &&& encoding[2] == (53 + args.len()) / 65536 % 256
            &&& encoding[3] == (53 + args.len()) / 16777216 % 256
            &&& encoding.subrange(4, 16) == seq![16u8, 0, 0, 0, 48, 0, 0, 0, 49, 0, 0, 0]
            &&& encoding[49] == args.len() % 256
            &&& encoding[50] == args.len() / 256 % 256
            &&& encoding[51] == args.len() / 65536 % 256
            &&& encoding[52] == args.len() / 16777216 % 256
        }),
{
    let encoding = script_encoding(code_hash, hash_type, args);
    assert(encoding.subrange(16, 48) =~= code_hash);
    assert(encoding.skip(53) =~= args);
    assert(encoding.subrange(4, 16) =~= seq![16u8, 0, 0, 0, 48, 0, 0, 0, 49, 0, 0, 0]);
}

/// The hash of a cell's data is the chain's hash of all of it, whatever its length; only a cell
/// without data has zeros instead.
pub proof fn law_data_is_hashed_whole(data: Seq<u8>, at: int)
    ensures
        data.len() > 0 ==> data_hash_of(data) == blake2b_of(data),
        data.len() == 0 ==> data_hash_of(data).len() == 32,
        data.len() == 0 && 0 <= at < 32 ==> data_hash_of(data)[at] == 0,
{
}

/// A transaction is told by its bytes and its two hashes, and a header by its bytes and its hash.
pub proof fn law_transactions_and_headers_are_their_fields(tx: TransactionView, header: HeaderView)
    ensures
        tx@.data == tx.data@,
        tx@.hash == tx.hash,
        tx@.witness_hash == tx.witness_hash,
        header@.data == header.data@,
        header@.hash == header.hash,
{
}

} // verus!
