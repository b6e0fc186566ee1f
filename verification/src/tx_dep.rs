//! Finds what a transaction depends on: other transactions, cells and headers. What a node answered
//! once is kept in caches.
use ckb_jsonrpc_types as json_types;
use ckb_types::H256;
use vstd::prelude::*;

use crate::bytes::{concat_text, copy_bytes, debug_text};
use crate::cache::{CacheKey, CacheModel, CacheUse, DepCache, Entry, EntryModel};
use crate::types::{CellOutput, CellOutputModel, OutPoint};
use crate::views::{HeaderModel, HeaderView, TransactionModel, TransactionView};

verus! {

/// Why something could not be found, where no kind of its own says it.
#[derive(Debug, PartialEq, Eq)]
pub enum Cause<E> {
    /// A request to the node failed; its error.
    Request(E),
    /// In words.
    Message(String),
}

/// Why a transaction, a cell or a header could not be found.
#[derive(Debug, PartialEq, Eq)]
pub enum TransactionDependencyError<E> {
    /// The node does not know it; what was looked for.
    NotFound(String),
    Other(Cause<E>),
}

/// How far a transaction has come.
#[derive(Clone, Copy, PartialEq, Eq, Structural, Debug)]
pub enum Status {
    Pending,
    Proposed,
    Committed,
    Unknown,
    Rejected,
}

/// How far a transaction has come, the block that it is in, and why it was rejected.
#[derive(Debug, PartialEq, Eq)]
pub struct TxStatus {
    pub status: Status,
    pub block_hash: Option<[u8; 32]>,
    pub reason: Option<String>,
}

/// What the node says of a transaction.
#[derive(Debug, PartialEq, Eq)]
pub struct TransactionWithStatus {
    pub transaction: Option<TransactionView>,
    pub tx_status: TxStatus,
}

/// What the node says of a cell.
#[derive(Debug, PartialEq, Eq)]
pub struct CellWithStatus {
    /// The cell's output, and its data.
    pub cell: Option<(CellOutput, Option<Vec<u8>>)>,
    pub status: String,
}

/// What to do next.
#[derive(Debug, PartialEq, Eq)]
pub enum DepStep<T, E> {
    /// Ask the node, and come back with its answer.
    Ask,
    Done(Result<T, TransactionDependencyError<E>>),
}

/// What comes of a request.
pub enum DepOutcome<T, E> {
    /// The node has to be asked.
    Ask,
    Found(T),
    /// The node does not know it; what was looked for.
    NotFound(Seq<char>),
    /// The request to the node failed.
    Failed(E),
    /// The node's answer cannot be used; why.
    Unusable(Seq<char>),
}

impl<T, E> DepOutcome<T, E> {
    /// The step that an outcome stands for.
    pub open spec fn is_step<U: View<V = T>>(self, step: DepStep<U, E>) -> bool {
        match self {
            DepOutcome::Ask => step is Ask,
            DepOutcome::Found(found) => step matches DepStep::Done(Ok(value)) && value@ == found,
            DepOutcome::NotFound(what) => step matches DepStep::Done(
                Err(TransactionDependencyError::NotFound(text)),
            ) && text@ == what,
            DepOutcome::Failed(error) => step == DepStep::<U, E>::Done(
                Err(TransactionDependencyError::Other(Cause::Request(error))),
            ),
            DepOutcome::Unusable(why) => step matches DepStep::Done(
                Err(TransactionDependencyError::Other(Cause::Message(text))),
            ) && text@ == why,
        }
    }
}

/// What a possibly absent text holds.
pub open spec fn text_option_model(text: Option<String>) -> Option<Seq<char>> {
    match text {
        Some(text) => Some(text@),
        None => None,
    }
}

/// How a status is written for a person to read.
pub uninterp spec fn tx_status_text_of(
    status: Status,
    block_hash: Option<[u8; 32]>,
    reason: Option<Seq<char>>,
) -> Seq<char>;

/// Writes a status for a person to read.
///
/// Builds a `ckb_jsonrpc_types::TxStatus` of the three fields and writes it with the `Debug` that
/// the type has. The contract claims that the text is a function of the three fields.
#[verifier::external_body]
fn tx_status_text(tx_status: &TxStatus) -> (text: String)
    ensures
        text@ == tx_status_text_of(
            tx_status.status,
            tx_status.block_hash,
            text_option_model(tx_status.reason),
        ),
{
    let status = match tx_status.status {
        Status::Pending => json_types::Status::Pending,
        Status::Proposed => json_types::Status::Proposed,
        Status::Committed => json_types::Status::Committed,
        Status::Unknown => json_types::Status::Unknown,
        Status::Rejected => json_types::Status::Rejected,
    };
    let block_hash = tx_status.block_hash.map(H256);
    let reason = tx_status.reason.clone();
    format!("{:?}", json_types::TxStatus { status, block_hash, reason })
}

/// What a [`DefaultTransactionDependencyProvider`] holds: its three caches.
pub struct ProviderModel {
    pub transactions: CacheModel,
    pub cells: CacheModel,
    pub headers: CacheModel,
}

/// The key of a transaction or a header: its hash.
pub open spec fn hash_key(hash: [u8; 32]) -> CacheKey {
    (hash, 0)
}

/// The key of a cell: its place.
pub open spec fn cell_key(out_point: OutPoint) -> CacheKey {
    (out_point.tx_hash, out_point.index)
}

impl ProviderModel {
    /// Each cache is within its size and holds nothing but its kind.
    pub open spec fn wf(self) -> bool {
        &&& self.transactions.wf()
        &&& self.cells.wf()
        &&& self.headers.wf()
        &&& forall|key: CacheKey| #[trigger]
            self.transactions.holds(key) ==> self.transactions.entry(key) is Transaction
        &&& forall|key: CacheKey| #[trigger]
            self.cells.holds(key) ==> self.cells.entry(key) is Cell
        &&& forall|key: CacheKey| #[trigger]
            self.headers.holds(key) ==> self.headers.entry(key) is Header
    }

    /// What comes of a request for a transaction, first without and then with the node's answer.
    pub open spec fn transaction_outcome<E>(
        self,
        tx_hash: [u8; 32],
        answer: Option<Result<Option<TransactionWithStatus>, E>>,
    ) -> DepOutcome<TransactionModel, E> {
        match answer {
            None => if self.transactions.holds(hash_key(tx_hash)) {
                DepOutcome::Found(self.transactions.entry(hash_key(tx_hash))->Transaction_0)
            } else {
                DepOutcome::Ask
            },
            Some(Err(error)) => DepOutcome::Failed(error),
            Some(Ok(None)) => DepOutcome::NotFound("transaction"@),
            Some(Ok(Some(found))) => if found.tx_status.status == Status::Committed {
                DepOutcome::Found(found.transaction->0@)
            } else {
                DepOutcome::Unusable(
                    "invalid transaction status: "@ + tx_status_text_of(
                        found.tx_status.status,
                        found.tx_status.block_hash,
                        text_option_model(found.tx_status.reason),
                    ),
                )
            },
        }
    }

    /// The caches after a request for a transaction.
    pub open spec fn after_transaction<E>(
        self,
        tx_hash: [u8; 32],
        answer: Option<Result<Option<TransactionWithStatus>, E>>,
    ) -> ProviderModel {
        match (answer, self.transaction_outcome(tx_hash, answer)) {
            (None, _) => ProviderModel {
                transactions: self.transactions.touch(hash_key(tx_hash)),
                ..self
            },
            (Some(_), DepOutcome::Found(tx)) => ProviderModel {
                transactions: self.transactions.put(
                    hash_key(tx_hash),
                    EntryModel::Transaction(tx),
                ),
                ..self
            },
            _ => self,
        }
    }

    /// What comes of a request for a cell, first without and then with the node's answer.
    pub open spec fn cell_outcome<E>(
        self,
        out_point: OutPoint,
        answer: Option<Result<CellWithStatus, E>>,
    ) -> DepOutcome<(CellOutputModel, Seq<u8>), E> {
        match answer {
            None => if self.cells.holds(cell_key(out_point)) {
                let entry = self.cells.entry(cell_key(out_point));
                DepOutcome::Found((entry->Cell_0, entry->Cell_1))
            } else {
                DepOutcome::Ask
            },
            Some(Err(error)) => DepOutcome::Failed(error),
            Some(Ok(found)) => if found.status@ == "live"@ {
                DepOutcome::Found(((found.cell->0).0@, ((found.cell->0).1->0)@))
            } else {
                DepOutcome::Unusable(
                    "invalid cell status: "@ + crate::bytes::debug_text_of(found.status@),
                )
            },
        }
    }

    /// The caches after a request for a cell.
    pub open spec fn after_cell<E>(
        self,
        out_point: OutPoint,
        answer: Option<Result<CellWithStatus, E>>,
    ) -> ProviderModel {
        match (answer, self.cell_outcome(out_point, answer)) {
            (None, _) => ProviderModel { cells: self.cells.touch(cell_key(out_point)), ..self },
            (Some(_), DepOutcome::Found(cell)) => ProviderModel {
                cells: self.cells.put(cell_key(out_point), EntryModel::Cell(cell.0, cell.1)),
                ..self
            },
            _ => self,
        }
    }

    /// What comes of a request for a header, first without and then with the node's answer.
    pub open spec fn header_outcome<E>(
        self,
        block_hash: [u8; 32],
        answer: Option<Result<Option<HeaderView>, E>>,
    ) -> DepOutcome<HeaderModel, E> {
        match answer {
            None => if self.headers.holds(hash_key(block_hash)) {
                DepOutcome::Found(self.headers.entry(hash_key(block_hash))->Header_0)
            } else {
                DepOutcome::Ask
            },
            Some(Err(error)) => DepOutcome::Failed(error),
            Some(Ok(None)) => DepOutcome::NotFound("header"@),
            Some(Ok(Some(header))) => DepOutcome::Found(header@),
        }
    }

    /// The caches after a request for a header.
    pub open spec fn after_header<E>(
        self,
        block_hash: [u8; 32],
        answer: Option<Result<Option<HeaderView>, E>>,
    ) -> ProviderModel {
        match (answer, self.header_outcome(block_hash, answer)) {
            (None, _) => ProviderModel {
                headers: self.headers.touch(hash_key(block_hash)),
                ..self
            },
            (Some(_), DepOutcome::Found(header)) => ProviderModel {
                headers: self.headers.put(hash_key(block_hash), EntryModel::Header(header)),
                ..self
            },
            _ => self,
        }
    }
}

/// The cell of an answer that says it is live comes with its output and its data.
pub open spec fn live_cell_is_complete<E>(answer: Option<Result<CellWithStatus, E>>) -> bool {
    answer matches Some(Ok(found)) ==> found.status@ == "live"@ ==> found.cell is Some && (
    found.cell->0).1 is Some
}

/// An answer that says a transaction is committed comes with the transaction.
pub open spec fn committed_transaction_is_there<E>(
    answer: Option<Result<Option<TransactionWithStatus>, E>>,
) -> bool {
    answer matches Some(Ok(Some(found))) ==> found.tx_status.status == Status::Committed
        ==> found.transaction is Some
}

proof fn lemma_touch_keeps(cache: CacheModel, key: CacheKey)
    requires
        cache.wf(),
    ensures
        cache.touch(key).wf(),
        forall|other: CacheKey| #[trigger]
            cache.touch(key).holds(other) ==> cache.holds(other) && cache.touch(key).entry(other)
                == cache.entry(other),
{
    crate::cache::law_looking_up_keeps_the_entries(cache, key, key);
    assert forall|other: CacheKey| #[trigger] cache.touch(key).holds(other) implies cache.holds(
        other,
    ) && cache.touch(key).entry(other) == cache.entry(other) by {
        crate::cache::law_looking_up_keeps_the_entries(cache, key, other);
    }
}

proof fn lemma_put_keeps(cache: CacheModel, key: CacheKey, entry: EntryModel)
    requires
        cache.wf(),
    ensures
        cache.put(key, entry).wf(),
        forall|other: CacheKey| #[trigger]
            cache.put(key, entry).holds(other) ==> if other == key {
                cache.put(key, entry).entry(other) == entry
            } else {
                cache.holds(other) && cache.put(key, entry).entry(other) == cache.entry(other)
            },
{
    crate::cache::law_what_is_put_is_found(cache, key, entry);
    assert forall|other: CacheKey| #[trigger] cache.put(key, entry).holds(other) implies if other
        == key {
        cache.put(key, entry).entry(other) == entry
    } else {
        cache.holds(other) && cache.put(key, entry).entry(other) == cache.entry(other)
    } by {
        if other != key {
            crate::cache::law_putting_drops_only_the_oldest(cache, key, entry, other);
        } else if cache.capacity == 0 {
            crate::cache::law_no_capacity_holds_nothing(cache, key);
        }
    }
}

/// Finds what a transaction depends on, with the help of a node and of caches.
pub struct DefaultTransactionDependencyProvider {
    tx_cache: DepCache,
    cell_cache: DepCache,
    header_cache: DepCache,
}

impl View for DefaultTransactionDependencyProvider {
    type V = ProviderModel;

    closed spec fn view(&self) -> ProviderModel {
        ProviderModel {
            transactions: self.tx_cache@,
            cells: self.cell_cache@,
            headers: self.header_cache@,
        }
    }
}

impl DefaultTransactionDependencyProvider {
    /// A provider whose caches are empty and hold this many entries each; with 0 nothing is
    /// cached.
    pub fn new(cache_capacity: usize) -> (provider: DefaultTransactionDependencyProvider)
        requires
            cache_capacity <= usize::MAX / 128,
        ensures
            provider@.wf(),
            ({
                let empty = CacheModel { entries: Seq::empty(), capacity: cache_capacity as nat };
                provider@ == ProviderModel { transactions: empty, cells: empty, headers: empty }
            }),
    {
        DefaultTransactionDependencyProvider {
            tx_cache: DepCache::new(cache_capacity),
            cell_cache: DepCache::new(cache_capacity),
            header_cache: DepCache::new(cache_capacity),
        }
    }

    /// Finds a cell's output and its data. Called first without an answer of the node, and, where
    /// the node has to be asked, once more with it.
    pub fn get_cell_with_data<E>(
        &mut self,
        out_point: &OutPoint,
        answer: Option<Result<CellWithStatus, E>>,
    ) -> (step: DepStep<(CellOutput, Vec<u8>), E>)
        requires
            old(self)@.wf(),
            live_cell_is_complete(answer),
        ensures
            final(self)@.wf(),
            old(self)@.cell_outcome(*out_point, answer).is_step(step),
            final(self)@ == old(self)@.after_cell(*out_point, answer),
    {
        let key: CacheKey = (out_point.tx_hash, out_point.index);
        let ghost before = self@;
        let answer = match answer {
            Some(answer) => answer,
            None => {
                proof {
                    lemma_touch_keeps(before.cells, key);
                }
                return match self.cell_cache.get(&key) {
                    Some(Entry::Cell(output, data)) => DepStep::Done(Ok((output, data))),
                    _ => DepStep::Ask,
                };
            },
        };
        let found = match answer {
            Ok(found) => found,
            Err(error) => {
                return DepStep::Done(
                    Err(TransactionDependencyError::Other(Cause::Request(error))),
                );
            },
        };
        if found.status != "live".to_owned() {
            let quoted = debug_text(found.status.as_str());
            return DepStep::Done(
                Err(
                    TransactionDependencyError::Other(
                        Cause::Message(concat_text("invalid cell status: ", quoted.as_str())),
                    ),
                ),
            );
        }
        match found.cell {
            Some((output, Some(data))) => {
                proof {
                    lemma_put_keeps(before.cells, key, EntryModel::Cell(output@, data@));
                }
                self.cell_cache.put(key, Entry::Cell(output.copy(), copy_bytes(&data)));
                DepStep::Done(Ok((output, data)))
            },
            _ => DepStep::Ask,
        }
    }

    /// Finds a transaction that is committed. Called first without an answer of the node, and,
    /// where the node has to be asked, once more with it.
    pub fn get_transaction<E>(
        &mut self,
        tx_hash: &[u8; 32],
        answer: Option<Result<Option<TransactionWithStatus>, E>>,
    ) -> (step: DepStep<TransactionView, E>)
        requires
            old(self)@.wf(),
            committed_transaction_is_there(answer),
        ensures
            final(self)@.wf(),
            old(self)@.transaction_outcome(*tx_hash, answer).is_step(step),
            final(self)@ == old(self)@.after_transaction(*tx_hash, answer),
    {
        let key: CacheKey = (*tx_hash, 0);
        let ghost before = self@;
        let answer = match answer {
            Some(answer) => answer,
            None => {
                proof {
                    lemma_touch_keeps(before.transactions, key);
                }
                return match self.tx_cache.get(&key) {
                    Some(Entry::Transaction(tx)) => DepStep::Done(Ok(tx)),
                    _ => DepStep::Ask,
                };
            },
        };
        let found = match answer {
            Ok(Some(found)) => found,
            Ok(None) => {
                return DepStep::Done(
                    Err(TransactionDependencyError::NotFound("transaction".to_owned())),
                );
            },
            Err(error) => {
                return DepStep::Done(
                    Err(TransactionDependencyError::Other(Cause::Request(error))),
                );
            },
        };
        if found.tx_status.status != Status::Committed {
            let text = tx_status_text(&found.tx_status);
            return DepStep::Done(
                Err(
                    TransactionDependencyError::Other(
                        Cause::Message(concat_text("invalid transaction status: ", text.as_str())),
                    ),
                ),
            );
        }
        match found.transaction {
            Some(tx) => {
                proof {
                    lemma_put_keeps(before.transactions, key, EntryModel::Transaction(tx@));
                }
                self.tx_cache.put(key, Entry::Transaction(tx.copy()));
                DepStep::Done(Ok(tx))
            },
            None => DepStep::Ask,
        }
    }

    /// Finds a header. Called first without an answer of the node, and, where the node has to be
    /// asked, once more with it.
    pub fn get_header<E>(
        &mut self,
        block_hash: &[u8; 32],
        answer: Option<Result<Option<HeaderView>, E>>,
    ) -> (step: DepStep<HeaderView, E>)
        requires
            old(self)@.wf(),
        ensures
            final(self)@.wf(),
            old(self)@.header_outcome(*block_hash, answer).is_step(step),
            final(self)@ == old(self)@.after_header(*block_hash, answer),
    {
        let key: CacheKey = (*block_hash, 0);
        let ghost before = self@;
        match answer {
            None => {
                proof {
                    lemma_touch_keeps(before.headers, key);
                }
                match self.header_cache.get(&key) {
                    Some(Entry::Header(header)) => DepStep::Done(Ok(header)),
                    _ => DepStep::Ask,
                }
            },
            Some(Err(error)) => DepStep::Done(
                Err(TransactionDependencyError::Other(Cause::Request(error))),
            ),
            Some(Ok(None)) => DepStep::Done(
                Err(TransactionDependencyError::NotFound("header".to_owned())),
            ),
            Some(Ok(Some(header))) => {
                proof {
                    lemma_put_keeps(before.headers, key, EntryModel::Header(header@));
                }
                self.header_cache.put(key, Entry::Header(header.copy()));
                DepStep::Done(Ok(header))
            },
        }
    }

    /// Finds a cell's output, as [`get_cell_with_data`](Self::get_cell_with_data) does.
    pub fn get_cell<E>(&mut self, out_point: &OutPoint, answer: Option<Result<CellWithStatus, E>>) -> (step:
        DepStep<CellOutput, E>)
        requires
            old(self)@.wf(),
            live_cell_is_complete(answer),
        ensures
            final(self)@.wf(),
            output_outcome(old(self)@.cell_outcome(*out_point, answer)).is_step(step),
            final(self)@ == old(self)@.after_cell(*out_point, answer),
    {
        match self.get_cell_with_data(out_point, answer) {
            DepStep::Ask => DepStep::Ask,
            DepStep::Done(Ok((output, _))) => DepStep::Done(Ok(output)),
            DepStep::Done(Err(error)) => DepStep::Done(Err(error)),
        }
    }

    /// Finds a cell's data, as [`get_cell_with_data`](Self::get_cell_with_data) does.
    pub fn get_cell_data<E>(
        &mut self,
        out_point: &OutPoint,
        answer: Option<Result<CellWithStatus, E>>,
    ) -> (step: DepStep<Vec<u8>, E>)
        requires
            old(self)@.wf(),
            live_cell_is_complete(answer),
        ensures
            final(self)@.wf(),
            data_outcome(old(self)@.cell_outcome(*out_point, answer)).is_step(step),
            final(self)@ == old(self)@.after_cell(*out_point, answer),
    {
        match self.get_cell_with_data(out_point, answer) {
            DepStep::Ask => DepStep::Ask,
            DepStep::Done(Ok((_, data))) => DepStep::Done(Ok(data)),
            DepStep::Done(Err(error)) => DepStep::Done(Err(error)),
        }
    }
}

/// The outcome with the output of the cell alone.
pub open spec fn output_outcome<E>(
    outcome: DepOutcome<(CellOutputModel, Seq<u8>), E>,
) -> DepOutcome<CellOutputModel, E> {
    match outcome {
        DepOutcome::Ask => DepOutcome::Ask,
        DepOutcome::Found(cell) => DepOutcome::Found(cell.0),
        DepOutcome::NotFound(what) => DepOutcome::NotFound(what),
        DepOutcome::Failed(error) => DepOutcome::Failed(error),
        DepOutcome::Unusable(why) => DepOutcome::Unusable(why),
    }
}

/// The outcome with the data of the cell alone.
pub open spec fn data_outcome<E>(
    outcome: DepOutcome<(CellOutputModel, Seq<u8>), E>,
) -> DepOutcome<Seq<u8>, E> {
    match outcome {
        DepOutcome::Ask => DepOutcome::Ask,
        DepOutcome::Found(cell) => DepOutcome::Found(cell.1),
        DepOutcome::NotFound(what) => DepOutcome::NotFound(what),
        DepOutcome::Failed(error) => DepOutcome::Failed(error),
        DepOutcome::Unusable(why) => DepOutcome::Unusable(why),
    }
}

/// Where the caches hold anything, a transaction that the node gave is found without asking again.
pub proof fn law_transaction_is_not_asked_for_twice<E>(
    provider: ProviderModel,
    tx_hash: [u8; 32],
    found: TransactionWithStatus,
)
    requires
        provider.wf(),
        provider.transactions.capacity > 0,
        found.tx_status.status == Status::Committed,
        found.transaction is Some,
    ensures
        provider.after_transaction(
            tx_hash,
            Some(Ok::<Option<TransactionWithStatus>, E>(Some(found))),
        ).transaction_outcome::<E>(tx_hash, None) == DepOutcome::<TransactionModel, E>::Found(
            found.transaction->0@,
        ),
{
    crate::cache::law_what_is_put_is_found(
        provider.transactions,
        hash_key(tx_hash),
        EntryModel::Transaction(found.transaction->0@),
    );
}

/// Where the caches hold anything, a cell that the node gave is found without asking again.
pub proof fn law_cell_is_not_asked_for_twice<E>(
    provider: ProviderModel,
    out_point: OutPoint,
    found: CellWithStatus,
)
    requires
        provider.wf(),
        provider.cells.capacity > 0,
        found.status@ == "live"@,
        live_cell_is_complete(Some(Ok::<CellWithStatus, E>(found))),
    ensures
        provider.after_cell(out_point, Some(Ok::<CellWithStatus, E>(found))).cell_outcome::<E>(
            out_point,
            None,
        ) == provider.cell_outcome(out_point, Some(Ok::<CellWithStatus, E>(found))),
        provider.cell_outcome(out_point, Some(Ok::<CellWithStatus, E>(found))) is Found,
        ({
            let later = provider.after_cell(
                out_point,
                Some(Ok::<CellWithStatus, E>(found)),
            ).cell_outcome::<E>(out_point, None);
            found.cell matches Some((output, Some(data))) && later == DepOutcome::<
                (CellOutputModel, Seq<u8>),
                E,
            >::Found((output@, data@))
        }),
{
    crate::cache::law_what_is_put_is_found(
        provider.cells,
        cell_key(out_point),
        EntryModel::Cell((found.cell->0).0@, ((found.cell->0).1->0)@),
    );
}

/// Where the caches hold anything, a header that the node gave is found without asking again.
pub proof fn law_header_is_not_asked_for_twice<E>(
    provider: ProviderModel,
    block_hash: [u8; 32],
    header: HeaderView,
)
    requires
        provider.wf(),
        provider.headers.capacity > 0,
    ensures
        provider.after_header(
            block_hash,
            Some(Ok::<Option<HeaderView>, E>(Some(header))),
        ).header_outcome::<E>(block_hash, None) == DepOutcome::<HeaderModel, E>::Found(header@),
{
    crate::cache::law_what_is_put_is_found(
        provider.headers,
        hash_key(block_hash),
        EntryModel::Header(header@),
    );
}

/// A provider whose caches hold nothing has to ask the node every time.
pub proof fn law_no_capacity_always_asks<E>(
    provider: ProviderModel,
    hash: [u8; 32],
    out_point: OutPoint,
)
    requires
        provider.wf(),
        provider.transactions.capacity == 0,
        provider.cells.capacity == 0,
        provider.headers.capacity == 0,
    ensures
        provider.transaction_outcome::<E>(hash, None) is Ask,
        provider.cell_outcome::<E>(out_point, None) is Ask,
        provider.header_outcome::<E>(hash, None) is Ask,
{
    crate::cache::law_no_capacity_holds_nothing(provider.transactions, hash_key(hash));
    crate::cache::law_no_capacity_holds_nothing(provider.cells, cell_key(out_point));
    crate::cache::law_no_capacity_holds_nothing(provider.headers, hash_key(hash));
}

/// No request changes how much the caches may hold, and none touches the caches of another kind.
pub proof fn law_requests_keep_apart<E>(
    provider: ProviderModel,
    hash: [u8; 32],
    out_point: OutPoint,
    tx_answer: Option<Result<Option<TransactionWithStatus>, E>>,
    cell_answer: Option<Result<CellWithStatus, E>>,
    header_answer: Option<Result<Option<HeaderView>, E>>,
)
    ensures
        ({
            let after = provider.after_transaction(hash, tx_answer);
            &&& after.transactions.capacity == provider.transactions.capacity
            &&& after.cells == provider.cells
            &&& after.headers == provider.headers
        }),
        ({
            let after = provider.after_cell(out_point, cell_answer);
            &&& after.cells.capacity == provider.cells.capacity
            &&& after.transactions == provider.transactions
            &&& after.headers == provider.headers
        }),
        ({
            let after = provider.after_header(hash, header_answer);
            &&& after.headers.capacity == provider.headers.capacity
            &&& after.transactions == provider.transactions
            &&& after.cells == provider.cells
        }),
{
}

/// An answer that gives nothing is not kept: the caches stay as they are, and what was found
/// before is still found.
pub proof fn law_failures_are_not_cached<E>(
    provider: ProviderModel,
    hash: [u8; 32],
    out_point: OutPoint,
    tx_answer: Result<Option<TransactionWithStatus>, E>,
    cell_answer: Result<CellWithStatus, E>,
    header_answer: Result<Option<HeaderView>, E>,
)
    ensures
        provider.transaction_outcome(hash, Some(tx_answer)) !is Found
            ==> provider.after_transaction(hash, Some(tx_answer)) == provider,
        provider.cell_outcome(out_point, Some(cell_answer)) !is Found ==> provider.after_cell(
            out_point,
            Some(cell_answer),
        ) == provider,
        provider.header_outcome(hash, Some(header_answer)) !is Found ==> provider.after_header(
            hash,
            Some(header_answer),
        ) == provider,
{
}

/// What is found without asking is found again, and looking for it hides nothing else.
pub proof fn law_looking_changes_no_outcome<E>(
    provider: ProviderModel,
    hash: [u8; 32],
    other_hash: [u8; 32],
    out_point: OutPoint,
    other_out_point: OutPoint,
)
    requires
        provider.wf(),
    ensures
        provider.after_transaction::<E>(hash, None).transaction_outcome::<E>(other_hash, None)
            == provider.transaction_outcome::<E>(other_hash, None),
        provider.after_cell::<E>(out_point, None).cell_outcome::<E>(other_out_point, None)
            == provider.cell_outcome::<E>(other_out_point, None),
        provider.after_header::<E>(hash, None).header_outcome::<E>(other_hash, None)
            == provider.header_outcome::<E>(other_hash, None),
{
    crate::cache::law_looking_up_keeps_the_entries(
        provider.transactions,
        hash_key(hash),
        hash_key(other_hash),
    );
    crate::cache::law_looking_up_keeps_the_entries(
        provider.cells,
        cell_key(out_point),
        cell_key(other_out_point),
    );
    crate::cache::law_looking_up_keeps_the_entries(
        provider.headers,
        hash_key(hash),
        hash_key(other_hash),
    );
}

/// What a request comes to is handed out as it is: a value, the error of the request to the node,
/// or the words that say what is wrong.
pub proof fn law_an_outcome_is_handed_out<T, E, U: View<V = T>>(
    outcome: DepOutcome<T, E>,
    step: DepStep<U, E>,
)
    requires
        outcome.is_step(step),
    ensures
        step is Ask <==> outcome is Ask,
        outcome matches DepOutcome::Found(found) ==> (step matches DepStep::Done(Ok(value))
            && value@
            == found),
        step matches DepStep::Done(Ok(value)) ==> outcome == DepOutcome::<T, E>::Found(value@),
        outcome matches DepOutcome::NotFound(what) ==> (step matches DepStep::Done(
            Err(TransactionDependencyError::NotFound(text)),
        ) && text@ == what),
        outcome matches DepOutcome::Failed(error) ==> step == DepStep::<U, E>::Done(
            Err(TransactionDependencyError::Other(Cause::Request(error))),
        ),
        outcome matches DepOutcome::Unusable(why) ==> (step matches DepStep::Done(
            Err(TransactionDependencyError::Other(Cause::Message(text))),
        ) && text@ == why),
{
}

/// A text that may be missing is the text itself where it is there.
pub proof fn law_a_text_is_the_text_itself(text: String)
    ensures
        text_option_model(Some(text)) == Some(text@),
        text_option_model(None) is None,
{
}

/// The output of a cell that was found is its output, and the data its data; what else a request
/// comes to is the same for the cell, its output and its data.
pub proof fn law_output_and_data_are_those_of_the_cell<E>(
    outcome: DepOutcome<(CellOutputModel, Seq<u8>), E>,
)
    ensures
        match outcome {
            DepOutcome::Ask => output_outcome(outcome) is Ask && data_outcome(outcome) is Ask,
            DepOutcome::Found((output, data)) => {
                &&& output_outcome(outcome) == DepOutcome::<CellOutputModel, E>::Found(output)
                &&& data_outcome(outcome) == DepOutcome::<Seq<u8>, E>::Found(data)
            },
            DepOutcome::NotFound(what) => {
                &&& output_outcome(outcome) == DepOutcome::<CellOutputModel, E>::NotFound(what)
                &&& data_outcome(outcome) == DepOutcome::<Seq<u8>, E>::NotFound(what)
            },
            DepOutcome::Failed(error) => {
                &&& output_outcome(outcome) == DepOutcome::<CellOutputModel, E>::Failed(error)
                &&& data_outcome(outcome) == DepOutcome::<Seq<u8>, E>::Failed(error)
            },
            DepOutcome::Unusable(why) => {
                &&& output_outcome(outcome) == DepOutcome::<CellOutputModel, E>::Unusable(why)
                &&& data_outcome(outcome) == DepOutcome::<Seq<u8>, E>::Unusable(why)
            },
        },
{
}

/// A cell that the node says is live is given with exactly the output and the data that the node
/// sent; with any other status the request fails and names the status, and a request to the node
/// that fails is handed on.
pub proof fn law_a_live_cell_is_given_as_the_node_sent_it<E>(
    provider: ProviderModel,
    out_point: OutPoint,
    answer: Result<CellWithStatus, E>,
    step: DepStep<(CellOutput, Vec<u8>), E>,
)
    requires
        provider.cell_outcome(out_point, Some(answer)).is_step(step),
    ensures
        match answer {
            Err(error) => step == DepStep::<(CellOutput, Vec<u8>), E>::Done(
                Err(TransactionDependencyError::Other(Cause::Request(error))),
            ),
            Ok(found) => if found.status@ == "live"@ {
                found.cell matches Some((output, Some(data))) ==> {
                    &&& provider.cell_outcome(out_point, Some(answer)) == DepOutcome::<
                        (CellOutputModel, Seq<u8>),
                        E,
                    >::Found((output@, data@))
                    &&& step matches DepStep::Done(Ok((given, given_data))) && given@ == output@
                        && given_data@ == data@
                }
            } else {
                step matches DepStep::Done(
                    Err(TransactionDependencyError::Other(Cause::Message(text))),
                ) && text@ == "invalid cell status: "@ + crate::bytes::debug_text_of(found.status@)
            },
        },
{
}

/// A committed transaction is given exactly as the node sent it. One that the node does not know is
/// not found, with any other status the request fails and names the whole status, and a request to
/// the node that fails is handed on.
pub proof fn law_a_committed_transaction_is_given_as_the_node_sent_it<E>(
    provider: ProviderModel,
    tx_hash: [u8; 32],
    answer: Result<Option<TransactionWithStatus>, E>,
    step: DepStep<TransactionView, E>,
)
    requires
        provider.transaction_outcome(tx_hash, Some(answer)).is_step(step),
    ensures
        match answer {
            Err(error) => step == DepStep::<TransactionView, E>::Done(
                Err(TransactionDependencyError::Other(Cause::Request(error))),
            ),
            Ok(None) => step matches DepStep::Done(Err(TransactionDependencyError::NotFound(text)))
                && text@ == "transaction"@,
            Ok(Some(found)) => if found.tx_status.status is Committed {
                found.transaction matches Some(tx) ==> {
                    &&& provider.transaction_outcome(tx_hash, Some(answer)) == DepOutcome::<
                        TransactionModel,
                        E,
                    >::Found(tx@)
                    &&& step matches DepStep::Done(Ok(given)) && given@ == tx@
                }
            } else {
                step matches DepStep::Done(
                    Err(TransactionDependencyError::Other(Cause::Message(text))),
                ) && text@ == "invalid transaction status: "@ + tx_status_text_of(
                    found.tx_status.status,
                    found.tx_status.block_hash,
                    match found.tx_status.reason {
                        Some(reason) => Some(reason@),
                        None => None,
                    },
                )
            },
        },
{
}

/// A header is given exactly as the node sent it. One that the node does not know is not found, and
/// a request to the node that fails is handed on.
pub proof fn law_a_header_is_given_as_the_node_sent_it<E>(
    provider: ProviderModel,
    block_hash: [u8; 32],
    answer: Result<Option<HeaderView>, E>,
    step: DepStep<HeaderView, E>,
)
    requires
        provider.header_outcome(block_hash, Some(answer)).is_step(step),
    ensures
        match answer {
            Err(error) => step == DepStep::<HeaderView, E>::Done(
                Err(TransactionDependencyError::Other(Cause::Request(error))),
            ),
            Ok(None) => step matches DepStep::Done(Err(TransactionDependencyError::NotFound(text)))
                && text@ == "header"@,
            Ok(Some(header)) => {
                &&& provider.header_outcome(block_hash, Some(answer)) == DepOutcome::<
                    HeaderModel,
                    E,
                >::Found(header@)
                &&& step matches DepStep::Done(Ok(given)) && given@ == header@
            },
        },
{
}

/// Answers may be handed in exactly where a live cell has its output and data, and where a
/// committed transaction is there.
pub proof fn law_which_answers_are_complete<E>(
    cell_answer: Result<CellWithStatus, E>,
    tx_answer: Result<Option<TransactionWithStatus>, E>,
)
    ensures
        live_cell_is_complete::<E>(None),
        committed_transaction_is_there::<E>(None),
        live_cell_is_complete(Some(cell_answer)) <==> (cell_answer matches Ok(found)
            ==> found.status@
            == "live"@ ==> (found.cell matches Some((_, Some(_))))),
        committed_transaction_is_there(Some(tx_answer)) <==> (tx_answer matches Ok(Some(found))
            ==> found.tx_status.status is Committed ==> found.transaction is Some),
{
}

/// A request for a header, without or with the node's answer.
pub type HeaderRequest<E> = ([u8; 32], Option<Result<Option<HeaderView>, E>>);

impl ProviderModel {
    /// The caches after requests for headers, one after the other.
    pub open spec fn after_headers<E>(self, requests: Seq<HeaderRequest<E>>) -> ProviderModel
        decreases requests.len(),
    {
        if requests.len() == 0 {
            self
        } else {
            let before = self.after_headers(requests.drop_last());
            before.after_header(requests.last().0, requests.last().1)
        }
    }
}

proof fn lemma_after_header_wf<E>(
    provider: ProviderModel,
    hash: [u8; 32],
    answer: Option<Result<Option<HeaderView>, E>>,
)
    requires
        provider.wf(),
    ensures
        provider.after_header(hash, answer).wf(),
        provider.after_header(hash, answer).headers.capacity == provider.headers.capacity,
{
    let key = hash_key(hash);
    lemma_touch_keeps(provider.headers, key);
    if let Some(answer) = answer {
        if let DepOutcome::Found(found) = provider.header_outcome(hash, Some(answer)) {
            lemma_put_keeps(provider.headers, key, EntryModel::Header(found));
        }
    }
}

/// A request for a header makes no other one be found: what is found without asking for
/// another is what was found before, or the node has to be asked again.
pub proof fn law_headers_are_kept_for_their_own_key<E>(
    provider: ProviderModel,
    hash: [u8; 32],
    answer: Option<Result<Option<HeaderView>, E>>,
    other: [u8; 32],
)
    requires
        provider.wf(),
        hash != other,
    ensures
        ({
            let after = provider.after_header(hash, answer).header_outcome::<E>(other, None);
            after is Ask || after == provider.header_outcome::<E>(other, None)
        }),
{
    let key = hash_key(hash);
    assert(key != hash_key(other));
    match answer {
        None => {
            crate::cache::law_looking_up_keeps_the_entries(provider.headers, key, hash_key(other));
        },
        Some(answer) => {
            if let DepOutcome::Found(found) = provider.header_outcome(hash, Some(answer)) {
                crate::cache::law_putting_drops_only_the_oldest(
                    provider.headers,
                    key,
                    EntryModel::Header(found),
                    hash_key(other),
                );
            }
        },
    }
}

/// What is found without asking, after any requests to a provider that began without entries, is
/// what the node gave last for that very hash.
pub proof fn law_a_found_header_is_the_last_that_the_node_gave<E>(
    provider: ProviderModel,
    requests: Seq<HeaderRequest<E>>,
    hash: [u8; 32],
    found: HeaderModel,
)
    requires
        provider.headers.entries.len() == 0,
        provider.wf(),
        provider.after_headers(requests).header_outcome::<E>(hash, None)
            == DepOutcome::<HeaderModel, E>::Found(found),
    ensures
        provider.after_headers(requests).wf(),
        exists|i: int|
            {
                &&& 0 <= i < requests.len()
                &&& (#[trigger] requests[i]).0 == hash
                &&& requests[i].1 matches Some(Ok(Some(given))) && given@ == found
                &&& forall|j: int|
                    i < j < requests.len() ==> !((#[trigger] requests[j]).0 == hash
                        && (requests[j].1 matches Some(Ok(Some(_)))))
            },
    decreases requests.len(),
{
    lemma_header_requests(provider, requests);
    if requests.len() == 0 {
        assert(provider.headers.entries =~= Seq::empty());
        assert(!provider.headers.holds(hash_key(hash)));
    } else {
        let earlier = requests.drop_last();
        let last = requests.last();
        let before = provider.after_headers(earlier);
        let at = requests.len() - 1;
        assert(requests[at] == last);
        assert(forall|i: int| 0 <= i < earlier.len() ==> #[trigger] earlier[i] == requests[i]);
        lemma_header_requests(provider, earlier);
        if last.0 == hash && (last.1 matches Some(Ok(Some(_)))) {
            if before.headers.capacity == 0 {
                lemma_after_header_wf(before, last.0, last.1);
                crate::cache::law_no_capacity_holds_nothing(
                    before.after_header(last.0, last.1).headers,
                    hash_key(hash),
                );
            }
            if let DepOutcome::Found(value) = before.header_outcome(hash, last.1) {
                crate::cache::law_what_is_put_is_found(
                    before.headers,
                    hash_key(hash),
                    EntryModel::Header(value),
                );
            }
            assert(requests[at].0 == hash);
        } else {
            if last.0 != hash {
                law_headers_are_kept_for_their_own_key(before, last.0, last.1, hash);
            } else if last.1 is None {
                crate::cache::law_looking_up_keeps_the_entries(
                    before.headers,
                    hash_key(hash),
                    hash_key(hash),
                );
            }
            law_a_found_header_is_the_last_that_the_node_gave(provider, earlier, hash, found);
            let i = choose|i: int|
                {
                    &&& 0 <= i < earlier.len()
                    &&& (#[trigger] earlier[i]).0 == hash
                    &&& earlier[i].1 matches Some(Ok(Some(given))) && given@ == found
                    &&& forall|j: int|
                        i < j < earlier.len() ==> !((#[trigger] earlier[j]).0 == hash
                            && (earlier[j].1 matches Some(Ok(Some(_)))))
                };
            assert forall|j: int| i < j < requests.len() implies !((#[trigger] requests[j]).0
                == hash && (requests[j].1 matches Some(Ok(Some(_))))) by {
                if j < earlier.len() {
                    assert(earlier[j] == requests[j]);
                }
            }
            assert(requests[i] == earlier[i]);
        }
    }
}

/// The uses of the cache that requests for headers come to.
spec fn header_uses<E>(requests: Seq<HeaderRequest<E>>) -> Seq<CacheUse>
    decreases requests.len(),
{
    if requests.len() == 0 {
        Seq::empty()
    } else {
        let uses = header_uses(requests.drop_last());
        let (hash, answer) = requests.last();
        match answer {
            None => uses.push(CacheUse::Look(hash_key(hash))),
            Some(Ok(Some(header))) => uses.push(
                CacheUse::Put(hash_key(hash), EntryModel::Header(header@)),
            ),
            _ => uses,
        }
    }
}

proof fn lemma_header_requests<E>(provider: ProviderModel, requests: Seq<HeaderRequest<E>>)
    requires
        provider.wf(),
    ensures
        provider.after_headers(requests).wf(),
        provider.after_headers(requests).headers.capacity == provider.headers.capacity,
        provider.after_headers(requests).headers == provider.headers.after(header_uses(requests)),
        forall|u: int|
            0 <= u < header_uses(requests).len() ==> exists|i: int|
                {
                    &&& 0 <= i < requests.len()
                    &&& (#[trigger] header_uses(requests)[u]).key()
                        == hash_key((#[trigger] requests[i]).0)
                    &&& header_uses(requests)[u] is Put
                        ==> (requests[i].1 matches Some(Ok(Some(_))))
                },
    decreases requests.len(),
{
    if requests.len() > 0 {
        let earlier = requests.drop_last();
        let last = requests.last();
        let before = provider.after_headers(earlier);
        let fewer = header_uses(earlier);
        let uses = header_uses(requests);
        lemma_header_requests(provider, earlier);
        lemma_after_header_wf(before, last.0, last.1);
        if uses.len() > fewer.len() {
            assert(uses.drop_last() =~= fewer);
        }
        assert forall|u: int| 0 <= u < uses.len() implies exists|i: int|
            {
                &&& 0 <= i < requests.len()
                &&& (#[trigger] uses[u]).key() == hash_key((#[trigger] requests[i]).0)
                &&& uses[u] is Put ==> (requests[i].1 matches Some(Ok(Some(_))))
            } by {
            if u < fewer.len() {
                assert(uses[u] == fewer[u]);
                let i = choose|i: int|
                    {
                        &&& 0 <= i < earlier.len()
                        &&& fewer[u].key() == hash_key((#[trigger] earlier[i]).0)
                        &&& fewer[u] is Put ==> (earlier[i].1 matches Some(Ok(Some(_))))
                    };
                assert(requests[i] == earlier[i]);
            } else {
                assert(requests[requests.len() - 1] == last);
            }
        }
    }
}

/// A header that the node gave is found without asking again, unchanged, as long as fewer
/// others were asked for since than the cache may hold.
pub proof fn law_a_header_stays_while_few_others_are_asked_for<E>(
    provider: ProviderModel,
    hash: [u8; 32],
    header: HeaderView,
    requests: Seq<HeaderRequest<E>>,
)
    requires
        provider.wf(),
        requests.map_values(|request: HeaderRequest<E>| request.0).to_set().remove(
            hash,
        ).len() < provider.headers.capacity,
        forall|i: int|
            0 <= i < requests.len() ==> !((#[trigger] requests[i]).0 == hash
                && (requests[i].1 matches Some(Ok(Some(_))))),
    ensures
        ({
            let given = provider.after_header(
                hash,
                Some(Ok::<Option<HeaderView>, E>(Some(header))),
            );
            let later = given.after_headers(requests).header_outcome::<E>(hash, None);
            later == DepOutcome::<HeaderModel, E>::Found(header@)
        }),
{
    let key = hash_key(hash);
    let given = provider.after_header(hash, Some(Ok::<Option<HeaderView>, E>(Some(header))));
    let uses = header_uses(requests);
    let asked = requests.map_values(|request: HeaderRequest<E>| request.0);
    let others = asked.to_set().remove(hash);
    lemma_after_header_wf(provider, hash, Some(Ok::<Option<HeaderView>, E>(Some(header))));
    lemma_header_requests(given, requests);
    crate::cache::law_what_is_put_is_found(provider.headers, key, EntryModel::Header(header@));
    crate::cache::law_a_used_key_is_the_last_used(
        provider.headers,
        key,
        EntryModel::Header(header@),
    );
    vstd::seq_lib::seq_to_set_is_finite(asked);
    let keys = others.map(|other: [u8; 32]| hash_key(other));
    assert(crate::cache::other_keys(uses, key).subset_of(keys)) by {
        let used = uses.map_values(|used: CacheUse| used.key());
        assert forall|other: CacheKey| crate::cache::other_keys(uses, key).contains(
            other,
        ) implies keys.contains(other) by {
            let u = used.index_of(other);
            assert(uses[u].key() == other);
            let i = choose|i: int|
                0 <= i < requests.len() && uses[u].key() == hash_key((#[trigger] requests[i]).0);
            assert(asked[i] == requests[i].0);
            assert(asked.contains(requests[i].0));
            assert(others.contains(requests[i].0));
        }
    }
    vstd::set_lib::lemma_map_size_bound(others, keys, |other: [u8; 32]| hash_key(other));
    vstd::set_lib::lemma_len_subset(crate::cache::other_keys(uses, key), keys);
    assert forall|u: int| 0 <= u < uses.len() implies !((#[trigger] uses[u]) is Put
        && uses[u].key() == key) by {
        let i = choose|i: int|
            {
                &&& 0 <= i < requests.len()
                &&& uses[u].key() == hash_key((#[trigger] requests[i]).0)
                &&& uses[u] is Put ==> (requests[i].1 matches Some(Ok(Some(_))))
            };
    }
    crate::cache::law_an_entry_stays_while_few_others_are_used(given.headers, key, uses);
}

/// A request for a transaction, without or with the node's answer.
pub type TransactionRequest<E> = ([u8; 32], Option<Result<Option<TransactionWithStatus>, E>>);

impl ProviderModel {
    /// The caches after requests for transactions, one after the other.
    pub open spec fn after_transactions<E>(
        self,
        requests: Seq<TransactionRequest<E>>,
    ) -> ProviderModel
        decreases requests.len(),
    {
        if requests.len() == 0 {
            self
        } else {
            let before = self.after_transactions(requests.drop_last());
            before.after_transaction(requests.last().0, requests.last().1)
        }
    }
}

proof fn lemma_after_transaction_wf<E>(
    provider: ProviderModel,
    hash: [u8; 32],
    answer: Option<Result<Option<TransactionWithStatus>, E>>,
)
    requires
        provider.wf(),
    ensures
        provider.after_transaction(hash, answer).wf(),
        provider.after_transaction(hash, answer).transactions.capacity
            == provider.transactions.capacity,
{
    let key = hash_key(hash);
    lemma_touch_keeps(provider.transactions, key);
    if let Some(answer) = answer {
        if let DepOutcome::Found(found) = provider.transaction_outcome(hash, Some(answer)) {
            lemma_put_keeps(provider.transactions, key, EntryModel::Transaction(found));
        }
    }
}

/// A request for a transaction makes no other one be found: what is found without asking for
/// another is what was found before, or the node has to be asked again.
pub proof fn law_transactions_are_kept_for_their_own_key<E>(
    provider: ProviderModel,
    hash: [u8; 32],
    answer: Option<Result<Option<TransactionWithStatus>, E>>,
    other: [u8; 32],
)
    requires
        provider.wf(),
        hash != other,
    ensures
        ({
            let after = provider.after_transaction(
                hash,
                answer).transaction_outcome::<E>(other,
                None,
            );
            after is Ask || after == provider.transaction_outcome::<E>(other, None)
        }),
{
    let key = hash_key(hash);
    assert(key != hash_key(other));
    match answer {
        None => {
            crate::cache::law_looking_up_keeps_the_entries(
                provider.transactions,
                key,
                hash_key(other),
            );
        },
        Some(answer) => {
            if let DepOutcome::Found(found) = provider.transaction_outcome(hash, Some(answer)) {
                crate::cache::law_putting_drops_only_the_oldest(
                    provider.transactions,
                    key,
                    EntryModel::Transaction(found),
                    hash_key(other),
                );
            }
        },
    }
}

/// What is found without asking, after any requests to a provider that began without entries, is
/// what the node gave last for that very hash.
pub proof fn law_a_found_transaction_is_the_last_that_the_node_gave<E>(
    provider: ProviderModel,
    requests: Seq<TransactionRequest<E>>,
    hash: [u8; 32],
    found: TransactionModel,
)
    requires
        provider.transactions.entries.len() == 0,
        provider.wf(),
        provider.after_transactions(requests).transaction_outcome::<E>(hash, None)
            == DepOutcome::<TransactionModel, E>::Found(found),
        forall|i: int| 0 <= i < requests.len() ==> {
            (#[trigger] requests[i]).1 is None
                || (requests[i].1 matches Some(Ok(Some(given)))
                    ==> given.tx_status.status is Committed ==> given.transaction is Some)
        },
    ensures
        provider.after_transactions(requests).wf(),
        exists|i: int|
            {
                &&& 0 <= i < requests.len()
                &&& (#[trigger] requests[i]).0 == hash
                &&& requests[i].1 matches Some(Ok(Some(given)))
                    && given.tx_status.status is Committed
                        && (given.transaction matches Some(tx) && tx@ == found)
                &&& forall|j: int|
                    i < j < requests.len() ==> !((#[trigger] requests[j]).0 == hash
                        && (requests[j].1 matches Some(Ok(Some(given)))
                            && given.tx_status.status is Committed))
            },
    decreases requests.len(),
{
    lemma_transaction_requests(provider, requests);
    if requests.len() == 0 {
        assert(provider.transactions.entries =~= Seq::empty());
        assert(!provider.transactions.holds(hash_key(hash)));
    } else {
        let earlier = requests.drop_last();
        let last = requests.last();
        let before = provider.after_transactions(earlier);
        let at = requests.len() - 1;
        assert(requests[at] == last);
        assert(forall|i: int| 0 <= i < earlier.len() ==> #[trigger] earlier[i] == requests[i]);
        lemma_transaction_requests(provider, earlier);
        if last.0 == hash && (last.1 matches Some(Ok(Some(given)))
            && given.tx_status.status is Committed) {
            if before.transactions.capacity == 0 {
                lemma_after_transaction_wf(before, last.0, last.1);
                crate::cache::law_no_capacity_holds_nothing(
                    before.after_transaction(last.0, last.1).transactions,
                    hash_key(hash),
                );
            }
            if let DepOutcome::Found(value) = before.transaction_outcome(hash, last.1) {
                crate::cache::law_what_is_put_is_found(
                    before.transactions,
                    hash_key(hash),
                    EntryModel::Transaction(value),
                );
            }
            assert(requests[at].0 == hash);
        } else {
            if last.0 != hash {
                law_transactions_are_kept_for_their_own_key(before, last.0, last.1, hash);
            } else if last.1 is None {
                crate::cache::law_looking_up_keeps_the_entries(
                    before.transactions,
                    hash_key(hash),
                    hash_key(hash),
                );
            }
            law_a_found_transaction_is_the_last_that_the_node_gave(provider, earlier, hash, found);
            let i = choose|i: int|
                {
                    &&& 0 <= i < earlier.len()
                    &&& (#[trigger] earlier[i]).0 == hash
                    &&& earlier[i].1 matches Some(Ok(Some(given)))
                        && given.tx_status.status is Committed
                            && (given.transaction matches Some(tx) && tx@ == found)
                    &&& forall|j: int|
                        i < j < earlier.len() ==> !((#[trigger] earlier[j]).0 == hash
                            && (earlier[j].1 matches Some(Ok(Some(given)))
                                && given.tx_status.status is Committed))
                };
            assert forall|j: int| i < j < requests.len() implies !((#[trigger] requests[j]).0
                == hash && (requests[j].1 matches Some(Ok(Some(given)))
                    && given.tx_status.status is Committed)) by {
                if j < earlier.len() {
                    assert(earlier[j] == requests[j]);
                }
            }
            assert(requests[i] == earlier[i]);
        }
    }
}

/// The uses of the cache that requests for transactions come to.
spec fn transaction_uses<E>(requests: Seq<TransactionRequest<E>>) -> Seq<CacheUse>
    decreases requests.len(),
{
    if requests.len() == 0 {
        Seq::empty()
    } else {
        let uses = transaction_uses(requests.drop_last());
        let (hash, answer) = requests.last();
        match answer {
            None => uses.push(CacheUse::Look(hash_key(hash))),
            Some(Ok(Some(found))) => if found.tx_status.status == Status::Committed {
                uses.push(
                    CacheUse::Put(
                        hash_key(hash),
                        EntryModel::Transaction(found.transaction->0@),
                    ),
                )
            } else {
                uses
            },
            _ => uses,
        }
    }
}

proof fn lemma_transaction_requests<E>(
    provider: ProviderModel,
    requests: Seq<TransactionRequest<E>>,
)
    requires
        provider.wf(),
    ensures
        provider.after_transactions(requests).wf(),
        provider.after_transactions(requests).transactions.capacity
            == provider.transactions.capacity,
        provider.after_transactions(requests).transactions
            == provider.transactions.after(transaction_uses(requests)),
        forall|u: int|
            0 <= u < transaction_uses(requests).len() ==> exists|i: int|
                {
                    &&& 0 <= i < requests.len()
                    &&& (#[trigger] transaction_uses(requests)[u]).key()
                        == hash_key((#[trigger] requests[i]).0)
                    &&& transaction_uses(requests)[u] is Put
                        ==> (requests[i].1 matches Some(Ok(Some(given)))
                            && given.tx_status.status is Committed)
                },
    decreases requests.len(),
{
    if requests.len() > 0 {
        let earlier = requests.drop_last();
        let last = requests.last();
        let before = provider.after_transactions(earlier);
        let fewer = transaction_uses(earlier);
        let uses = transaction_uses(requests);
        lemma_transaction_requests(provider, earlier);
        lemma_after_transaction_wf(before, last.0, last.1);
        if uses.len() > fewer.len() {
            assert(uses.drop_last() =~= fewer);
        }
        assert forall|u: int| 0 <= u < uses.len() implies exists|i: int|
            {
                &&& 0 <= i < requests.len()
                &&& (#[trigger] uses[u]).key() == hash_key((#[trigger] requests[i]).0)
                &&& uses[u] is Put ==> (requests[i].1 matches Some(Ok(Some(given)))
                    && given.tx_status.status is Committed)
            } by {
            if u < fewer.len() {
                assert(uses[u] == fewer[u]);
                let i = choose|i: int|
                    {
                        &&& 0 <= i < earlier.len()
                        &&& fewer[u].key() == hash_key((#[trigger] earlier[i]).0)
                        &&& fewer[u] is Put ==> (earlier[i].1 matches Some(Ok(Some(given)))
                            && given.tx_status.status is Committed)
                    };
                assert(requests[i] == earlier[i]);
            } else {
                assert(requests[requests.len() - 1] == last);
            }
        }
    }
}

/// A transaction that the node gave is found without asking again, unchanged, as long as fewer
/// others were asked for since than the cache may hold.
pub proof fn law_a_transaction_stays_while_few_others_are_asked_for<E>(
    provider: ProviderModel,
    hash: [u8; 32],
    tx: TransactionWithStatus,
    requests: Seq<TransactionRequest<E>>,
)
    requires
        provider.wf(),
        tx.tx_status.status is Committed,
        tx.transaction is Some,
        requests.map_values(|request: TransactionRequest<E>| request.0).to_set().remove(
            hash,
        ).len() < provider.transactions.capacity,
        forall|i: int|
            0 <= i < requests.len() ==> !((#[trigger] requests[i]).0 == hash
                && (requests[i].1 matches Some(Ok(Some(given)))
                    && given.tx_status.status is Committed)),
    ensures
        ({
            let given = provider.after_transaction(
                hash,
                Some(Ok::<Option<TransactionWithStatus>, E>(Some(tx))),
            );
            let later = given.after_transactions(requests).transaction_outcome::<E>(hash, None);
            later == DepOutcome::<TransactionModel, E>::Found(tx.transaction->0@)
        }),
{
    let key = hash_key(hash);
    let given = provider.after_transaction(
        hash,
        Some(Ok::<Option<TransactionWithStatus>, E>(Some(tx))),
    );
    let uses = transaction_uses(requests);
    let asked = requests.map_values(|request: TransactionRequest<E>| request.0);
    let others = asked.to_set().remove(hash);
    lemma_after_transaction_wf(
        provider,
        hash,
        Some(Ok::<Option<TransactionWithStatus>, E>(Some(tx))),
    );
    lemma_transaction_requests(given, requests);
    crate::cache::law_what_is_put_is_found(
        provider.transactions,
        key,
        EntryModel::Transaction(tx.transaction->0@),
    );
    crate::cache::law_a_used_key_is_the_last_used(
        provider.transactions,
        key,
        EntryModel::Transaction(tx.transaction->0@),
    );
    vstd::seq_lib::seq_to_set_is_finite(asked);
    let keys = others.map(|other: [u8; 32]| hash_key(other));
    assert(crate::cache::other_keys(uses, key).subset_of(keys)) by {
        let used = uses.map_values(|used: CacheUse| used.key());
        assert forall|other: CacheKey| crate::cache::other_keys(uses, key).contains(
            other,
        ) implies keys.contains(other) by {
            let u = used.index_of(other);
            assert(uses[u].key() == other);
            let i = choose|i: int|
                0 <= i < requests.len() && uses[u].key() == hash_key((#[trigger] requests[i]).0);
            assert(asked[i] == requests[i].0);
            assert(asked.contains(requests[i].0));
            assert(others.contains(requests[i].0));
        }
    }
    vstd::set_lib::lemma_map_size_bound(others, keys, |other: [u8; 32]| hash_key(other));
    vstd::set_lib::lemma_len_subset(crate::cache::other_keys(uses, key), keys);
    assert forall|u: int| 0 <= u < uses.len() implies !((#[trigger] uses[u]) is Put
        && uses[u].key() == key) by {
        let i = choose|i: int|
            {
                &&& 0 <= i < requests.len()
                &&& uses[u].key() == hash_key((#[trigger] requests[i]).0)
                &&& uses[u] is Put ==> (requests[i].1 matches Some(Ok(Some(given)))
                    && given.tx_status.status is Committed)
            };
    }
    crate::cache::law_an_entry_stays_while_few_others_are_used(given.transactions, key, uses);
}

/// A request for a cell, without or with the node's answer.
pub type CellRequest<E> = (OutPoint, Option<Result<CellWithStatus, E>>);

impl ProviderModel {
    /// The caches after requests for cells, one after the other.
    pub open spec fn after_cells<E>(self, requests: Seq<CellRequest<E>>) -> ProviderModel
        decreases requests.len(),
    {
        if requests.len() == 0 {
            self
        } else {
            let before = self.after_cells(requests.drop_last());
            before.after_cell(requests.last().0, requests.last().1)
        }
    }
}

proof fn lemma_after_cell_wf<E>(
    provider: ProviderModel,
    out_point: OutPoint,
    answer: Option<Result<CellWithStatus, E>>,
)
    requires
        provider.wf(),
    ensures
        provider.after_cell(out_point, answer).wf(),
        provider.after_cell(out_point, answer).cells.capacity == provider.cells.capacity,
{
    let key = cell_key(out_point);
    lemma_touch_keeps(provider.cells, key);
    if let Some(answer) = answer {
        if let DepOutcome::Found(found) = provider.cell_outcome(out_point, Some(answer)) {
            lemma_put_keeps(provider.cells, key, EntryModel::Cell(found.0, found.1));
        }
    }
}

/// A request for a cell makes no other one be found: what is found without asking for
/// another is what was found before, or the node has to be asked again.
pub proof fn law_cells_are_kept_for_their_own_key<E>(
    provider: ProviderModel,
    out_point: OutPoint,
    answer: Option<Result<CellWithStatus, E>>,
    other: OutPoint,
)
    requires
        provider.wf(),
        out_point != other,
    ensures
        ({
            let after = provider.after_cell(out_point, answer).cell_outcome::<E>(other, None);
            after is Ask || after == provider.cell_outcome::<E>(other, None)
        }),
{
    let key = cell_key(out_point);
    assert(key != cell_key(other));
    match answer {
        None => {
            crate::cache::law_looking_up_keeps_the_entries(provider.cells, key, cell_key(other));
        },
        Some(answer) => {
            if let DepOutcome::Found(found) = provider.cell_outcome(out_point, Some(answer)) {
                crate::cache::law_putting_drops_only_the_oldest(
                    provider.cells,
                    key,
                    EntryModel::Cell(found.0, found.1),
                    cell_key(other),
                );
            }
        },
    }
}

/// What is found without asking, after any requests to a provider that began without entries, is
/// what the node gave last for that very place.
pub proof fn law_a_found_cell_is_the_last_that_the_node_gave<E>(
    provider: ProviderModel,
    requests: Seq<CellRequest<E>>,
    out_point: OutPoint,
    found: (CellOutputModel, Seq<u8>),
)
    requires
        provider.cells.entries.len() == 0,
        provider.wf(),
        provider.after_cells(requests).cell_outcome::<E>(out_point, None)
            == DepOutcome::<(CellOutputModel, Seq<u8>), E>::Found(found),
        forall|i: int| 0 <= i < requests.len() ==> {
            (#[trigger] requests[i]).1 is None || (requests[i].1 matches Some(Ok(given))
                ==> given.status@ == "live"@ ==> (given.cell matches Some((_, Some(_)))))
        },
    ensures
        provider.after_cells(requests).wf(),
        exists|i: int|
            {
                &&& 0 <= i < requests.len()
                &&& (#[trigger] requests[i]).0 == out_point
                &&& requests[i].1 matches Some(Ok(given)) && given.status@ == "live"@
                    && (given.cell matches Some((output, Some(data))) && output@ == found.0
                        && data@ == found.1)
                &&& forall|j: int|
                    i < j < requests.len() ==> !((#[trigger] requests[j]).0 == out_point
                        && (requests[j].1 matches Some(Ok(given)) && given.status@ == "live"@))
            },
    decreases requests.len(),
{
    lemma_cell_requests(provider, requests);
    if requests.len() == 0 {
        assert(provider.cells.entries =~= Seq::empty());
        assert(!provider.cells.holds(cell_key(out_point)));
    } else {
        let earlier = requests.drop_last();
        let last = requests.last();
        let before = provider.after_cells(earlier);
        let at = requests.len() - 1;
        assert(requests[at] == last);
        assert(forall|i: int| 0 <= i < earlier.len() ==> #[trigger] earlier[i] == requests[i]);
        lemma_cell_requests(provider, earlier);
        if last.0 == out_point && (last.1 matches Some(Ok(given)) && given.status@ == "live"@) {
            if before.cells.capacity == 0 {
                lemma_after_cell_wf(before, last.0, last.1);
                crate::cache::law_no_capacity_holds_nothing(
                    before.after_cell(last.0, last.1).cells,
                    cell_key(out_point),
                );
            }
            if let DepOutcome::Found(value) = before.cell_outcome(out_point, last.1) {
                crate::cache::law_what_is_put_is_found(
                    before.cells,
                    cell_key(out_point),
                    EntryModel::Cell(value.0, value.1),
                );
            }
            assert(requests[at].0 == out_point);
        } else {
            if last.0 != out_point {
                law_cells_are_kept_for_their_own_key(before, last.0, last.1, out_point);
            } else if last.1 is None {
                crate::cache::law_looking_up_keeps_the_entries(
                    before.cells,
                    cell_key(out_point),
                    cell_key(out_point),
                );
            }
            law_a_found_cell_is_the_last_that_the_node_gave(provider, earlier, out_point, found);
            let i = choose|i: int|
                {
                    &&& 0 <= i < earlier.len()
                    &&& (#[trigger] earlier[i]).0 == out_point
                    &&& earlier[i].1 matches Some(Ok(given)) && given.status@ == "live"@
                        && (given.cell matches Some((output, Some(data))) && output@
                            == found.0 && data@ == found.1)
                    &&& forall|j: int|
                        i < j < earlier.len() ==> !((#[trigger] earlier[j]).0 == out_point
                            && (earlier[j].1 matches Some(Ok(given)) && given.status@ == "live"@))
                };
            assert forall|j: int| i < j < requests.len() implies !((#[trigger] requests[j]).0
                == out_point && (requests[j].1 matches Some(Ok(given)) && given.status@
                    == "live"@)) by {
                if j < earlier.len() {
                    assert(earlier[j] == requests[j]);
                }
            }
            assert(requests[i] == earlier[i]);
        }
    }
}

/// The uses of the cache that requests for cells come to.
spec fn cell_uses<E>(requests: Seq<CellRequest<E>>) -> Seq<CacheUse>
    decreases requests.len(),
{
    if requests.len() == 0 {
        Seq::empty()
    } else {
        let uses = cell_uses(requests.drop_last());
        let (out_point, answer) = requests.last();
        match answer {
            None => uses.push(CacheUse::Look(cell_key(out_point))),
            Some(Ok(found)) => if found.status@ == "live"@ {
                uses.push(
                    CacheUse::Put(
                        cell_key(out_point),
                        EntryModel::Cell((found.cell->0).0@, ((found.cell->0).1->0)@),
                    ),
                )
            } else {
                uses
            },
            _ => uses,
        }
    }
}

proof fn lemma_cell_requests<E>(provider: ProviderModel, requests: Seq<CellRequest<E>>)
    requires
        provider.wf(),
    ensures
        provider.after_cells(requests).wf(),
        provider.after_cells(requests).cells.capacity == provider.cells.capacity,
        provider.after_cells(requests).cells == provider.cells.after(cell_uses(requests)),
        forall|u: int|
            0 <= u < cell_uses(requests).len() ==> exists|i: int|
                {
                    &&& 0 <= i < requests.len()
                    &&& (#[trigger] cell_uses(requests)[u]).key()
                        == cell_key((#[trigger] requests[i]).0)
                    &&& cell_uses(requests)[u] is Put
                        ==> (requests[i].1 matches Some(Ok(given)) && given.status@ == "live"@)
                },
    decreases requests.len(),
{
    if requests.len() > 0 {
        let earlier = requests.drop_last();
        let last = requests.last();
        let before = provider.after_cells(earlier);
        let fewer = cell_uses(earlier);
        let uses = cell_uses(requests);
        lemma_cell_requests(provider, earlier);
        lemma_after_cell_wf(before, last.0, last.1);
        if uses.len() > fewer.len() {
            assert(uses.drop_last() =~= fewer);
        }
        assert forall|u: int| 0 <= u < uses.len() implies exists|i: int|
            {
                &&& 0 <= i < requests.len()
                &&& (#[trigger] uses[u]).key() == cell_key((#[trigger] requests[i]).0)
                &&& uses[u] is Put ==> (requests[i].1 matches Some(Ok(given)) && given.status@
                    == "live"@)
            } by {
            if u < fewer.len() {
                assert(uses[u] == fewer[u]);
                let i = choose|i: int|
                    {
                        &&& 0 <= i < earlier.len()
                        &&& fewer[u].key() == cell_key((#[trigger] earlier[i]).0)
                        &&& fewer[u] is Put ==> (earlier[i].1 matches Some(Ok(given))
                            && given.status@ == "live"@)
                    };
                assert(requests[i] == earlier[i]);
            } else {
                assert(requests[requests.len() - 1] == last);
            }
        }
    }
}

/// A cell that the node gave is found without asking again, unchanged, as long as fewer
/// others were asked for since than the cache may hold.
pub proof fn law_a_cell_stays_while_few_others_are_asked_for<E>(
    provider: ProviderModel,
    out_point: OutPoint,
    cell: CellWithStatus,
    requests: Seq<CellRequest<E>>,
)
    requires
        provider.wf(),
        cell.status@ == "live"@,
        cell.cell matches Some((_, Some(_))),
        requests.map_values(|request: CellRequest<E>| request.0).to_set().remove(
            out_point,
        ).len() < provider.cells.capacity,
        forall|i: int|
            0 <= i < requests.len() ==> !((#[trigger] requests[i]).0 == out_point
                && (requests[i].1 matches Some(Ok(given)) && given.status@ == "live"@)),
    ensures
        ({
            let given = provider.after_cell(out_point, Some(Ok::<CellWithStatus, E>(cell)));
            let later = given.after_cells(requests).cell_outcome::<E>(out_point, None);
            let output = (cell.cell->0).0@;
            let data = ((cell.cell->0).1->0)@;
            later == DepOutcome::<(CellOutputModel, Seq<u8>), E>::Found((output, data))
        }),
{
    let key = cell_key(out_point);
    let given = provider.after_cell(out_point, Some(Ok::<CellWithStatus, E>(cell)));
    let uses = cell_uses(requests);
    let asked = requests.map_values(|request: CellRequest<E>| request.0);
    let others = asked.to_set().remove(out_point);
    lemma_after_cell_wf(provider, out_point, Some(Ok::<CellWithStatus, E>(cell)));
    lemma_cell_requests(given, requests);
    crate::cache::law_what_is_put_is_found(
        provider.cells,
        key,
        EntryModel::Cell((cell.cell->0).0@,
        ((cell.cell->0).1->0)@),
    );
    crate::cache::law_a_used_key_is_the_last_used(
        provider.cells,
        key,
        EntryModel::Cell((cell.cell->0).0@,
        ((cell.cell->0).1->0)@),
    );
    vstd::seq_lib::seq_to_set_is_finite(asked);
    let keys = others.map(|other: OutPoint| cell_key(other));
    assert(crate::cache::other_keys(uses, key).subset_of(keys)) by {
        let used = uses.map_values(|used: CacheUse| used.key());
        assert forall|other: CacheKey| crate::cache::other_keys(uses, key).contains(
            other,
        ) implies keys.contains(other) by {
            let u = used.index_of(other);
            assert(uses[u].key() == other);
            let i = choose|i: int|
                0 <= i < requests.len() && uses[u].key() == cell_key((#[trigger] requests[i]).0);
            assert(asked[i] == requests[i].0);
            assert(asked.contains(requests[i].0));
            assert(others.contains(requests[i].0));
        }
    }
    vstd::set_lib::lemma_map_size_bound(others, keys, |other: OutPoint| cell_key(other));
    vstd::set_lib::lemma_len_subset(crate::cache::other_keys(uses, key), keys);
    assert forall|u: int| 0 <= u < uses.len() implies !((#[trigger] uses[u]) is Put
        && uses[u].key() == key) by {
        let i = choose|i: int|
            {
                &&& 0 <= i < requests.len()
                &&& uses[u].key() == cell_key((#[trigger] requests[i]).0)
                &&& uses[u] is Put ==> (requests[i].1 matches Some(Ok(given)) && given.status@
                    == "live"@)
            };
    }
    crate::cache::law_an_entry_stays_while_few_others_are_used(given.cells, key, uses);
}

} // verus!
