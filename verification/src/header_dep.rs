//! Finds the header of a block, by a transaction in it or by its number.
use vstd::prelude::*;

use crate::tx_dep::TransactionWithStatus;
use crate::views::HeaderView;

verus! {

/// What has happened so far in a search by transaction.
#[derive(Debug, PartialEq, Eq)]
pub enum HeaderEvent<E> {
    /// The search begins.
    Start,
    /// The node's answer for the transaction.
    Transaction(Result<Option<TransactionWithStatus>, E>),
    /// The node's answer for the header.
    Header(Result<Option<HeaderView>, E>),
}

/// What to do next.
#[derive(Debug, PartialEq, Eq)]
pub enum HeaderStep<E> {
    /// Ask the node for the transaction with this hash.
    AskTransaction([u8; 32]),
    /// Ask the node for the header with this hash.
    AskHeader([u8; 32]),
    /// Ask the node for the header of the block with this number.
    AskHeaderByNumber(u64),
    /// The search has ended, with or without a header, or with the error of a request.
    Done(Result<Option<HeaderView>, E>),
}

/// The hash of the block that a transaction is in, as far as the node says it.
pub open spec fn block_of(found: Option<TransactionWithStatus>) -> Option<[u8; 32]> {
    match found {
        Some(found) => found.tx_status.block_hash,
        None => None,
    }
}

/// Finds headers with the help of a node.
#[derive(Clone, Copy, Debug, PartialEq, Eq)]
pub struct DefaultHeaderDepResolver {}

impl DefaultHeaderDepResolver {
    /// A resolver.
    pub fn new() -> (resolver: DefaultHeaderDepResolver)
        ensures
            resolver == (DefaultHeaderDepResolver {  }),
    {
        DefaultHeaderDepResolver {  }
    }

    /// Finds the header of the block that a transaction is in. There is none where the node does
    /// not know the transaction, where the transaction is in no block, or where the node does not
    /// know the header.
    pub fn resolve_by_tx<E>(&self, tx_hash: &[u8; 32], event: HeaderEvent<E>) -> (step: HeaderStep<
        E,
    >)
        ensures
            step == search_by_tx(*tx_hash, event),
    {
        match event {
            HeaderEvent::Start => HeaderStep::AskTransaction(*tx_hash),
            HeaderEvent::Transaction(Err(error)) => HeaderStep::Done(Err(error)),
            HeaderEvent::Transaction(Ok(None)) => HeaderStep::Done(Ok(None)),
            HeaderEvent::Transaction(Ok(Some(found))) => match found.tx_status.block_hash {
                Some(block_hash) => HeaderStep::AskHeader(block_hash),
                None => HeaderStep::Done(Ok(None)),
            },
            HeaderEvent::Header(answer) => HeaderStep::Done(answer),
        }
    }

    /// Finds the header of the block with a number. Called first without and then with the node's
    /// answer.
    pub fn resolve_by_number<E>(&self, number: u64, answer: Option<Result<Option<HeaderView>, E>>) -> (step:
        HeaderStep<E>)
        ensures
            step == (match answer {
                None => HeaderStep::AskHeaderByNumber(number),
                Some(answer) => HeaderStep::Done(answer),
            }),
    {
        match answer {
            None => HeaderStep::AskHeaderByNumber(number),
            Some(answer) => HeaderStep::Done(answer),
        }
    }
}

/// What to do next in a search by transaction.
pub open spec fn search_by_tx<E>(tx_hash: [u8; 32], event: HeaderEvent<E>) -> HeaderStep<E> {
    match event {
        HeaderEvent::Start => HeaderStep::AskTransaction(tx_hash),
        HeaderEvent::Transaction(Err(error)) => HeaderStep::Done(Err(error)),
        HeaderEvent::Transaction(Ok(found)) => match block_of(found) {
            Some(block_hash) => HeaderStep::AskHeader(block_hash),
            None => HeaderStep::Done(Ok(None)),
        },
        HeaderEvent::Header(answer) => HeaderStep::Done(answer),
    }
}

/// A whole search by transaction: what it ends with, where the node answers so for the transaction
/// and, for each hash of a block, so for its header.
pub open spec fn whole_search<E>(
    tx_hash: [u8; 32],
    transactions: spec_fn([u8; 32]) -> Result<Option<TransactionWithStatus>, E>,
    headers: spec_fn([u8; 32]) -> Result<Option<HeaderView>, E>,
) -> HeaderStep<E> {
    match search_by_tx::<E>(tx_hash, HeaderEvent::Start) {
        HeaderStep::AskTransaction(asked) => match search_by_tx(
            tx_hash,
            HeaderEvent::Transaction(transactions(asked)),
        ) {
            HeaderStep::AskHeader(block_hash) => search_by_tx(
                tx_hash,
                HeaderEvent::Header(headers(block_hash)),
            ),
            step => step,
        },
        step => step,
    }
}

/// A search by transaction asks for that transaction and for the header of its block, and gives
/// that header. It gives none exactly where the node knows no transaction, no block of it, or no
/// header of the block; and it fails exactly where one of its requests does.
pub proof fn law_search_gives_the_header_of_the_block<E>(
    tx_hash: [u8; 32],
    transactions: spec_fn([u8; 32]) -> Result<Option<TransactionWithStatus>, E>,
    headers: spec_fn([u8; 32]) -> Result<Option<HeaderView>, E>,
)
    ensures
        whole_search(tx_hash, transactions, headers) == (match transactions(tx_hash) {
            Err(error) => HeaderStep::Done(Err(error)),
            Ok(found) => match block_of(found) {
                None => HeaderStep::Done(Ok(None)),
                Some(block_hash) => HeaderStep::Done(headers(block_hash)),
            },
        }),
{
}

/// A search begins with the transaction that it is for, ends with the error of a request that
/// fails, ends without a header where the transaction or its block is not known, asks for exactly
/// the block that the node named, and gives exactly the header that the node sent.
pub proof fn law_each_answer_leads_on<E>(
    tx_hash: [u8; 32],
    error: E,
    found: TransactionWithStatus,
    header: Result<Option<HeaderView>, E>,
)
    ensures
        search_by_tx::<E>(tx_hash, HeaderEvent::Start) == HeaderStep::<E>::AskTransaction(tx_hash),
        search_by_tx(tx_hash, HeaderEvent::Transaction(Err(error))) == HeaderStep::Done(Err(error)),
        search_by_tx::<E>(tx_hash, HeaderEvent::Transaction(Ok(None))) == HeaderStep::<E>::Done(
            Ok(None),
        ),
        search_by_tx::<E>(tx_hash, HeaderEvent::Transaction(Ok(Some(found)))) == (
        match found.tx_status.block_hash {
            Some(block_hash) => HeaderStep::<E>::AskHeader(block_hash),
            None => HeaderStep::<E>::Done(Ok(None)),
        }),
        search_by_tx(tx_hash, HeaderEvent::Header(header)) == HeaderStep::Done(header),
{
}

} // verus!
