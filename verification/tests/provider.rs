use ckb_default_impls::header_dep::{DefaultHeaderDepResolver, HeaderEvent, HeaderStep};
use ckb_default_impls::tx_dep::{
    Cause, CellWithStatus, DefaultTransactionDependencyProvider, DepStep, Status,
    TransactionDependencyError, TransactionWithStatus, TxStatus,
};
use ckb_default_impls::types::{CellOutput, OutPoint, Script};
use ckb_default_impls::views::{HeaderView, TransactionView};
use ckb_types::packed;
use ckb_types::prelude::{Builder, Entity, Pack, Unpack};
use ckb_types::H256;

fn packed_transaction(version: u32) -> packed::Transaction {
    let raw = packed::RawTransaction::new_builder()
        .version(version.pack())
        .build();
    packed::Transaction::new_builder().raw(raw).build()
}

fn transaction(version: u32) -> TransactionView {
    TransactionView::from_slice(packed_transaction(version).as_slice()).unwrap()
}

fn packed_header(number: u64) -> packed::Header {
    let raw = packed::RawHeader::new_builder()
        .number(number.pack())
        .build();
    packed::Header::new_builder().raw(raw).build()
}

fn header(number: u64) -> HeaderView {
    HeaderView::from_slice(packed_header(number).as_slice()).unwrap()
}

fn output(capacity: u64) -> CellOutput {
    CellOutput {
        capacity,
        lock: Script {
            code_hash: [1; 32],
            hash_type: 1,
            args: vec![],
        },
        type_: Some(Script {
            code_hash: [2; 32],
            hash_type: 0,
            args: vec![5],
        }),
    }
}

fn place(index: u32) -> OutPoint {
    OutPoint {
        tx_hash: [8; 32],
        index,
    }
}

fn status(status: Status) -> TxStatus {
    TxStatus {
        status,
        block_hash: None,
        reason: None,
    }
}

fn committed(version: u32) -> Option<Result<Option<TransactionWithStatus>, u8>> {
    Some(Ok(Some(TransactionWithStatus {
        transaction: Some(transaction(version)),
        tx_status: TxStatus {
            status: Status::Committed,
            block_hash: Some([3; 32]),
            reason: None,
        },
    })))
}

fn live(capacity: u64, data: &[u8]) -> Option<Result<CellWithStatus, u8>> {
    Some(Ok(CellWithStatus {
        cell: Some((output(capacity), Some(data.to_vec()))),
        status: "live".to_string(),
    }))
}

fn found<T, E>(value: T) -> DepStep<T, E> {
    DepStep::Done(Ok(value))
}

fn message<T>(text: &str) -> DepStep<T, u8> {
    DepStep::Done(Err(TransactionDependencyError::Other(Cause::Message(
        text.to_string(),
    ))))
}

#[test]
fn transaction_hashes_are_those_of_the_chain_types() {
    let packed_tx = packed_transaction(4);
    let expected = packed_tx.clone().into_view();
    let hash: H256 = expected.hash().unpack();
    let witness_hash: H256 = expected.witness_hash().unpack();
    let view = TransactionView::from_slice(packed_tx.as_slice()).unwrap();
    assert_eq!(view.data, packed_tx.as_slice());
    assert_eq!(view.hash, hash.0);
    assert_eq!(view.witness_hash, witness_hash.0);
    assert_ne!(view.hash, view.witness_hash);
    assert_eq!(view.witness_hash, ckb_hash::blake2b_256(packed_tx.as_slice()));
    assert_ne!(view.hash, transaction(5).hash);
}

#[test]
fn bytes_that_are_no_transaction() {
    assert_eq!(TransactionView::from_slice(&[]), None);
    assert_eq!(TransactionView::from_slice(&[0; 100]), None);
    let encoded = packed_transaction(4);
    let bytes = encoded.as_slice();
    assert_eq!(TransactionView::from_slice(&bytes[..bytes.len() - 1]), None);
}

#[test]
fn header_hash_is_that_of_the_chain_types() {
    let encoded = packed_header(6);
    let expected: H256 = encoded.clone().into_view().hash().unpack();
    let view = HeaderView::from_slice(encoded.as_slice()).unwrap();
    assert_eq!(view.data, encoded.as_slice());
    assert_eq!(view.hash, expected.0);
    assert_eq!(view.hash, ckb_hash::blake2b_256(encoded.as_slice()));
}

#[test]
fn headers_have_a_fixed_length() {
    assert_eq!(packed_header(0).as_slice().len(), 208);
    assert_eq!(HeaderView::from_slice(&[0; 207]), None);
    assert_eq!(HeaderView::from_slice(&[0; 209]), None);
    assert!(HeaderView::from_slice(&[0xff; 208]).is_some());
}

#[test]
fn transaction_is_not_asked_for_twice() {
    let mut provider = DefaultTransactionDependencyProvider::new(2);
    let key = [1; 32];
    assert_eq!(provider.get_transaction::<u8>(&key, None), DepStep::Ask);
    assert_eq!(
        provider.get_transaction(&key, committed(1)),
        found(transaction(1))
    );
    assert_eq!(
        provider.get_transaction::<u8>(&key, None),
        found(transaction(1))
    );
    assert_eq!(provider.get_transaction::<u8>(&[2; 32], None), DepStep::Ask);
    assert_eq!(provider.get_header::<u8>(&key, None), DepStep::Ask);
}

#[test]
fn unknown_transaction() {
    let mut provider = DefaultTransactionDependencyProvider::new(2);
    assert_eq!(
        provider.get_transaction::<u8>(&[1; 32], Some(Ok(None))),
        DepStep::Done(Err(TransactionDependencyError::NotFound(
            "transaction".to_string()
        )))
    );
    assert_eq!(provider.get_transaction::<u8>(&[1; 32], None), DepStep::Ask);
}

#[test]
fn request_for_a_transaction_that_fails() {
    let mut provider = DefaultTransactionDependencyProvider::new(2);
    assert_eq!(
        provider.get_transaction(&[1; 32], Some(Err(7u8))),
        DepStep::Done(Err(TransactionDependencyError::Other(Cause::Request(7))))
    );
    assert_eq!(provider.get_transaction::<u8>(&[1; 32], None), DepStep::Ask);
}

#[test]
fn transaction_that_is_not_committed() {
    let mut provider = DefaultTransactionDependencyProvider::new(2);
    let with = |tx_status: TxStatus| {
        Some(Ok(Some(TransactionWithStatus {
            transaction: Some(transaction(1)),
            tx_status,
        })))
    };
    assert_eq!(
        provider.get_transaction(&[1; 32], with(status(Status::Pending))),
        message(
            "invalid transaction status: \
             TxStatus { status: Pending, block_hash: None, reason: None }"
        )
    );
    assert_eq!(
        provider.get_transaction(&[1; 32], with(status(Status::Proposed))),
        message(
            "invalid transaction status: \
             TxStatus { status: Proposed, block_hash: None, reason: None }"
        )
    );
    assert_eq!(
        provider.get_transaction(&[1; 32], with(status(Status::Unknown))),
        message(
            "invalid transaction status: \
             TxStatus { status: Unknown, block_hash: None, reason: None }"
        )
    );
    let rejected = TxStatus {
        status: Status::Rejected,
        block_hash: Some([9; 32]),
        reason: Some("too \"low\"".to_string()),
    };
    let expected = format!(
        "invalid transaction status: {:?}",
        ckb_jsonrpc_types::TxStatus {
            status: ckb_jsonrpc_types::Status::Rejected,
            block_hash: Some(H256([9; 32])),
            reason: Some("too \"low\"".to_string()),
        }
    );
    assert_eq!(
        provider.get_transaction(&[1; 32], with(rejected)),
        message(&expected)
    );
    assert_eq!(provider.get_transaction::<u8>(&[1; 32], None), DepStep::Ask);
}

#[test]
fn cell_is_not_asked_for_twice() {
    let mut provider = DefaultTransactionDependencyProvider::new(2);
    assert_eq!(
        provider.get_cell_with_data::<u8>(&place(0), None),
        DepStep::Ask
    );
    assert_eq!(
        provider.get_cell_with_data(&place(0), live(5, &[1, 2])),
        found((output(5), vec![1, 2]))
    );
    assert_eq!(
        provider.get_cell_with_data::<u8>(&place(0), None),
        found((output(5), vec![1, 2]))
    );
    assert_eq!(provider.get_cell::<u8>(&place(0), None), found(output(5)));
    assert_eq!(
        provider.get_cell_data::<u8>(&place(0), None),
        found(vec![1, 2])
    );
    assert_eq!(provider.get_cell::<u8>(&place(1), None), DepStep::Ask);
}

#[test]
fn output_and_data_share_one_answer() {
    let mut provider = DefaultTransactionDependencyProvider::new(2);
    assert_eq!(provider.get_cell::<u8>(&place(3), None), DepStep::Ask);
    assert_eq!(
        provider.get_cell(&place(3), live(6, &[7])),
        found(output(6))
    );
    assert_eq!(
        provider.get_cell_data::<u8>(&place(3), None),
        found(vec![7])
    );
    assert_eq!(
        provider.get_cell_data(&place(4), live(6, &[8])),
        found(vec![8])
    );
    assert_eq!(
        provider.get_cell::<u8>(&place(4), None),
        found(output(6))
    );
}

#[test]
fn cell_that_is_not_live() {
    let mut provider = DefaultTransactionDependencyProvider::new(2);
    for (status, text) in [
        ("dead", "invalid cell status: \"dead\""),
        ("unknown", "invalid cell status: \"unknown\""),
        ("Live", "invalid cell status: \"Live\""),
        ("", "invalid cell status: \"\""),
        ("a\"b\n", "invalid cell status: \"a\\\"b\\n\""),
    ] {
        let answer = || {
            Some(Ok(CellWithStatus {
                cell: None,
                status: status.to_string(),
            }))
        };
        assert_eq!(
            provider.get_cell_with_data(&place(0), answer()),
            message(text)
        );
        assert_eq!(provider.get_cell(&place(0), answer()), message(text));
        assert_eq!(provider.get_cell_data(&place(0), answer()), message(text));
    }
    assert_eq!(provider.get_cell::<u8>(&place(0), None), DepStep::Ask);
}

#[test]
fn request_for_a_cell_that_fails() {
    let mut provider = DefaultTransactionDependencyProvider::new(2);
    assert_eq!(
        provider.get_cell_with_data(&place(0), Some(Err(7u8))),
        DepStep::Done(Err(TransactionDependencyError::Other(Cause::Request(7))))
    );
    assert_eq!(
        provider.get_cell_data(&place(0), Some(Err(8u8))),
        DepStep::Done(Err(TransactionDependencyError::Other(Cause::Request(8))))
    );
}

#[test]
fn header_is_not_asked_for_twice() {
    let mut provider = DefaultTransactionDependencyProvider::new(1);
    let key = [4; 32];
    assert_eq!(provider.get_header::<u8>(&key, None), DepStep::Ask);
    assert_eq!(
        provider.get_header::<u8>(&key, Some(Ok(Some(header(3))))),
        found(header(3))
    );
    assert_eq!(provider.get_header::<u8>(&key, None), found(header(3)));
}

#[test]
fn header_that_cannot_be_had() {
    let mut provider = DefaultTransactionDependencyProvider::new(1);
    assert_eq!(
        provider.get_header::<u8>(&[4; 32], Some(Ok(None))),
        DepStep::Done(Err(TransactionDependencyError::NotFound(
            "header".to_string()
        )))
    );
    assert_eq!(
        provider.get_header(&[4; 32], Some(Err(5u8))),
        DepStep::Done(Err(TransactionDependencyError::Other(Cause::Request(5))))
    );
    assert_eq!(provider.get_header::<u8>(&[4; 32], None), DepStep::Ask);
}

#[test]
fn oldest_entry_makes_room() {
    let mut provider = DefaultTransactionDependencyProvider::new(2);
    for index in 0..2 {
        provider.get_cell(&place(index), live(u64::from(index), &[]));
    }
    assert_eq!(provider.get_cell::<u8>(&place(0), None), found(output(0)));
    provider.get_cell(&place(2), live(2, &[]));
    assert_eq!(provider.get_cell::<u8>(&place(1), None), DepStep::Ask);
    assert_eq!(provider.get_cell::<u8>(&place(0), None), found(output(0)));
    assert_eq!(provider.get_cell::<u8>(&place(2), None), found(output(2)));
}

#[test]
fn entry_stays_while_few_others_are_used() {
    let mut provider = DefaultTransactionDependencyProvider::new(3);
    provider.get_cell(&place(0), live(7, &[]));
    for _ in 0..5 {
        for index in [1, 2] {
            provider.get_cell(&place(index), live(1, &[]));
            provider.get_cell::<u8>(&place(index), None);
        }
    }
    assert_eq!(provider.get_cell::<u8>(&place(0), None), found(output(7)));
    for index in [1, 2, 3] {
        provider.get_cell(&place(index), live(1, &[]));
    }
    assert_eq!(provider.get_cell::<u8>(&place(0), None), DepStep::Ask);
}

#[test]
fn newer_answer_replaces_an_entry() {
    let mut provider = DefaultTransactionDependencyProvider::new(2);
    provider.get_cell(&place(0), live(1, &[]));
    provider.get_cell(&place(1), live(2, &[]));
    provider.get_cell(&place(0), live(3, &[]));
    assert_eq!(provider.get_cell::<u8>(&place(1), None), found(output(2)));
    assert_eq!(provider.get_cell::<u8>(&place(0), None), found(output(3)));
}

#[test]
fn no_capacity_always_asks() {
    let mut provider = DefaultTransactionDependencyProvider::new(0);
    assert_eq!(
        provider.get_transaction(&[1; 32], committed(1)),
        found(transaction(1))
    );
    assert_eq!(provider.get_transaction::<u8>(&[1; 32], None), DepStep::Ask);
    assert_eq!(provider.get_cell(&place(0), live(1, &[])), found(output(1)));
    assert_eq!(provider.get_cell::<u8>(&place(0), None), DepStep::Ask);
    assert_eq!(
        provider.get_header::<u8>(&[1; 32], Some(Ok(Some(header(3))))),
        found(header(3))
    );
    assert_eq!(provider.get_header::<u8>(&[1; 32], None), DepStep::Ask);
}

fn in_block(block_hash: Option<[u8; 32]>) -> HeaderEvent<u8> {
    HeaderEvent::Transaction(Ok(Some(TransactionWithStatus {
        transaction: None,
        tx_status: TxStatus {
            status: Status::Committed,
            block_hash,
            reason: None,
        },
    })))
}

#[test]
fn header_of_the_block_of_a_transaction() {
    let resolver = DefaultHeaderDepResolver::new();
    let tx_hash = [1; 32];
    assert_eq!(
        resolver.resolve_by_tx::<u8>(&tx_hash, HeaderEvent::Start),
        HeaderStep::AskTransaction(tx_hash)
    );
    assert_eq!(
        resolver.resolve_by_tx(&tx_hash, in_block(Some([2; 32]))),
        HeaderStep::AskHeader([2; 32])
    );
    assert_eq!(
        resolver.resolve_by_tx::<u8>(&tx_hash, HeaderEvent::Header(Ok(Some(header(4))))),
        HeaderStep::Done(Ok(Some(header(4))))
    );
    assert_eq!(
        resolver.resolve_by_tx::<u8>(&tx_hash, HeaderEvent::Header(Ok(None))),
        HeaderStep::Done(Ok(None))
    );
}

#[test]
fn transaction_without_a_block() {
    let resolver = DefaultHeaderDepResolver::new();
    assert_eq!(
        resolver.resolve_by_tx(&[1; 32], in_block(None)),
        HeaderStep::Done(Ok(None))
    );
    assert_eq!(
        resolver.resolve_by_tx::<u8>(&[1; 32], HeaderEvent::Transaction(Ok(None))),
        HeaderStep::Done(Ok(None))
    );
}

#[test]
fn requests_for_a_header_that_fail() {
    let resolver = DefaultHeaderDepResolver::new();
    assert_eq!(
        resolver.resolve_by_tx(&[1; 32], HeaderEvent::Transaction(Err(5u8))),
        HeaderStep::Done(Err(5))
    );
    assert_eq!(
        resolver.resolve_by_tx(&[1; 32], HeaderEvent::Header(Err(6u8))),
        HeaderStep::Done(Err(6))
    );
    assert_eq!(
        resolver.resolve_by_number(3, Some(Err(7u8))),
        HeaderStep::Done(Err(7))
    );
}

#[test]
fn header_by_number() {
    let resolver = DefaultHeaderDepResolver::new();
    assert_eq!(
        resolver.resolve_by_number::<u8>(3, None),
        HeaderStep::AskHeaderByNumber(3)
    );
    assert_eq!(
        resolver.resolve_by_number::<u8>(3, Some(Ok(Some(header(3))))),
        HeaderStep::Done(Ok(Some(header(3))))
    );
    assert_eq!(
        resolver.resolve_by_number::<u8>(3, Some(Ok(None))),
        HeaderStep::Done(Ok(None))
    );
}
