//! Collects live cells: first those known without asking, then pages of them from an indexer.
use vstd::prelude::*;

use crate::chain_check::{ChainCheck, ChainStep, Tip, MAX_POLLS};
use crate::offchain::{AppliedTransaction, CellCollectorError, OffchainCellCollector, OffchainModel};
use crate::types::{LiveCell, LiveCellModel, OutPoint};

verus! {

/// The page size of the first request where a query names none.
pub const DEFAULT_LIMIT: u32 = 128;

/// Page sizes below this one grow from request to request.
pub const MAX_LIMIT: u32 = 4096;

/// The order in which the indexer lists cells.
#[derive(Clone, Copy, PartialEq, Eq, Structural, Debug)]
pub enum QueryOrder {
    Asc,
    Desc,
}

/// What a query says of how far to collect.
#[derive(Clone, Copy, Debug, PartialEq, Eq)]
pub struct CellQueryOptions {
    pub order: QueryOrder,
    /// The page size of the first request.
    pub limit: Option<u32>,
    /// The capacity that is enough.
    pub min_total_capacity: u64,
}

impl CellQueryOptions {
    /// The page size of the first request.
    pub open spec fn first_limit(self) -> u32 {
        match self.limit {
            Some(limit) => limit,
            None => DEFAULT_LIMIT,
        }
    }
}

/// A cell that the indexer listed, and whether it matches the query.
#[derive(Debug, PartialEq, Eq)]
pub struct Candidate {
    pub cell: LiveCell,
    pub matched: bool,
}

/// A page of cells, and where the next one starts.
#[derive(Debug, PartialEq, Eq)]
pub struct Page {
    pub objects: Vec<Candidate>,
    pub last_cursor: Vec<u8>,
}

/// What a [`Page`] holds.
pub struct PageModel {
    pub objects: Seq<(LiveCellModel, bool)>,
    pub last_cursor: Seq<u8>,
}

impl View for Page {
    type V = PageModel;

    open spec fn view(&self) -> PageModel {
        PageModel {
            objects: self.objects@.map_values(
                |candidate: Candidate| (candidate.cell@, candidate.matched),
            ),
            last_cursor: self.last_cursor@,
        }
    }
}

impl PageModel {
    /// The cells of the page, each with whether it may be used: it matches and is not locked.
    pub open spec fn candidates(self, locked: Set<OutPoint>) -> Seq<(LiveCellModel, bool)> {
        self.objects.map_values(
            |object: (LiveCellModel, bool)|
                (object.0, object.1 && !locked.contains(object.0.out_point)),
        )
    }
}

/// A request for a page.
#[derive(Debug, PartialEq, Eq)]
pub struct PageRequest {
    pub order: QueryOrder,
    pub limit: u32,
    pub after_cursor: Option<Vec<u8>>,
}

/// A collection that goes on.
#[derive(Debug, PartialEq, Eq)]
pub struct Progress {
    /// The cells collected.
    pub cells: Vec<LiveCell>,
    /// The cells that remain of those known without asking.
    pub rest: Vec<LiveCell>,
    /// The capacity of the cells collected.
    pub total_capacity: u64,
    /// The page size of the next request.
    pub limit: u32,
    /// Where the next page starts.
    pub last_cursor: Option<Vec<u8>>,
}

/// What a [`Progress`] holds.
pub struct ProgressModel {
    pub cells: Seq<LiveCellModel>,
    pub rest: Seq<LiveCellModel>,
    pub total_capacity: int,
    pub limit: u32,
    pub last_cursor: Option<Seq<u8>>,
}

impl View for Progress {
    type V = ProgressModel;

    open spec fn view(&self) -> ProgressModel {
        ProgressModel {
            cells: crate::types::cells_model(self.cells@),
            rest: crate::types::cells_model(self.rest@),
            total_capacity: self.total_capacity as int,
            limit: self.limit,
            last_cursor: match self.last_cursor {
                Some(cursor) => Some(cursor@),
                None => None,
            },
        }
    }
}

impl ProgressModel {
    /// The collection that begins with the cells known without asking.
    pub open spec fn begin(
        query: CellQueryOptions,
        offchain: OffchainModel,
        matches: Seq<bool>,
    ) -> ProgressModel {
        let gathered = crate::gather::gather(
            offchain.candidates(matches),
            0,
            query.min_total_capacity as int,
        );
        ProgressModel {
            cells: gathered.taken,
            rest: gathered.left,
            total_capacity: gathered.total,
            limit: query.first_limit(),
            last_cursor: None,
        }
    }

    /// The collection after a page that is not empty.
    pub open spec fn with_page(
        self,
        query: CellQueryOptions,
        locked: Set<OutPoint>,
        page: PageModel,
    ) -> ProgressModel {
        let gathered = crate::gather::gather(
            page.candidates(locked),
            self.total_capacity,
            query.min_total_capacity as int,
        );
        ProgressModel {
            cells: self.cells + gathered.taken,
            rest: self.rest,
            total_capacity: gathered.total,
            limit: if self.limit < MAX_LIMIT {
                (self.limit * 2) as u32
            } else {
                self.limit
            },
            last_cursor: Some(page.last_cursor),
        }
    }

    /// The capacity collected is not enough.
    pub open spec fn is_short(self, query: CellQueryOptions) -> bool {
        self.total_capacity < query.min_total_capacity
    }

    /// What is known once the collection has ended: where the changes are to be kept, the cells
    /// collected are locked and the others remain.
    pub open spec fn kept_in(self, offchain: OffchainModel, apply_changes: bool) -> OffchainModel {
        if apply_changes {
            OffchainModel { live: self.rest, ..offchain }.lock(crate::offchain::places(self.cells))
        } else {
            offchain
        }
    }
}

impl Progress {
    /// The request for the next page.
    pub fn request(&self, query: &CellQueryOptions) -> (request: PageRequest)
        ensures
            request.order == query.order,
            request.limit == self@.limit,
            match request.after_cursor {
                Some(cursor) => self@.last_cursor == Some(cursor@),
                None => self@.last_cursor is None,
            },
    {
        let after_cursor = match &self.last_cursor {
            Some(cursor) => Some(crate::bytes::copy_bytes(cursor)),
            None => None,
        };
        PageRequest { order: query.order, limit: self.limit, after_cursor }
    }
}

/// What to do next.
#[derive(Debug, PartialEq, Eq)]
pub enum CollectStep<E> {
    /// Check that the indexer follows the node.
    CheckChain(Progress),
    /// Ask the indexer for a page.
    AskPage(Progress),
    /// The collection has ended, with the cells and their capacity or an error.
    Done(Result<(Vec<LiveCell>, u64), CellCollectorError<E>>),
}

impl<E> CollectStep<E> {
    /// The collection has ended with this error.
    pub open spec fn failed_with(self, error: CellCollectorError<E>) -> bool {
        self == CollectStep::<E>::Done(Err(error))
    }

    /// The collection has ended with the cells of this progress.
    pub open spec fn ended_with(self, progress: ProgressModel) -> bool {
        self matches CollectStep::Done(Ok((cells, total))) && crate::types::cells_model(cells@)
            == progress.cells && total == progress.total_capacity
    }

    /// The next page is asked for where the capacity is not enough; else the collection has ended.
    pub open spec fn goes_on_with(self, query: CellQueryOptions, progress: ProgressModel) -> bool {
        if progress.is_short(query) {
            self matches CollectStep::AskPage(next) && next@ == progress
        } else {
            self.ended_with(progress)
        }
    }
}

/// What is known after a step that went on with a progress.
pub open spec fn kept_after(
    offchain: OffchainModel,
    query: CellQueryOptions,
    progress: ProgressModel,
    apply_changes: bool,
) -> OffchainModel {
    if progress.is_short(query) {
        offchain
    } else {
        progress.kept_in(offchain, apply_changes)
    }
}

/// What a request for a page gave.
pub open spec fn page_reply<E>(page: Result<Page, E>) -> Result<PageModel, E> {
    match page {
        Ok(page) => Ok(page@),
        Err(error) => Err(error),
    }
}

/// A collection that begins so takes this step, and leaves this known.
pub open spec fn begins_with<E>(
    query: CellQueryOptions,
    before: OffchainModel,
    max_mature_number: Result<u64, E>,
    matches: Seq<bool>,
    apply_changes: bool,
    step: CollectStep<E>,
    after: OffchainModel,
) -> bool {
    match max_mature_number {
        Err(error) => {
            &&& step.failed_with(CellCollectorError::Internal(error))
            &&& after == before
        },
        Ok(number) => {
            let known = OffchainModel { max_mature_number: number, ..before };
            let progress = ProgressModel::begin(query, before, matches);
            if progress.is_short(query) {
                &&& step matches CollectStep::CheckChain(next) && next@ == progress
                &&& after == known
            } else {
                &&& step.ended_with(progress)
                &&& after == progress.kept_in(known, apply_changes)
            }
        },
    }
}

/// After the check that the indexer follows the node, a collection takes this step, and leaves
/// this known.
pub open spec fn check_leads_to<E>(
    query: CellQueryOptions,
    before: OffchainModel,
    progress: ProgressModel,
    checked: Result<(), CellCollectorError<E>>,
    apply_changes: bool,
    step: CollectStep<E>,
    after: OffchainModel,
) -> bool {
    match checked {
        Err(error) => {
            &&& step.failed_with(error)
            &&& after == before
        },
        Ok(()) => {
            &&& step.goes_on_with(query, progress)
            &&& after == kept_after(before, query, progress, apply_changes)
        },
    }
}

/// With this page a collection takes this step, and leaves this known.
pub open spec fn page_leads_to<E>(
    query: CellQueryOptions,
    before: OffchainModel,
    progress: ProgressModel,
    page: Result<PageModel, E>,
    apply_changes: bool,
    step: CollectStep<E>,
    after: OffchainModel,
) -> bool {
    match page {
        Err(error) => {
            &&& step.failed_with(CellCollectorError::Internal(error))
            &&& after == before
        },
        Ok(page) => if page.objects.len() == 0 {
            &&& step.ended_with(progress)
            &&& after == progress.kept_in(before, apply_changes)
        } else {
            let next = progress.with_page(query, before.locked, page);
            &&& step.goes_on_with(query, next)
            &&& after == kept_after(before, query, next, apply_changes)
        },
    }
}

/// The capacity that a collection begins with fits in 64 bits.
pub open spec fn begin_fits<E>(
    query: CellQueryOptions,
    before: OffchainModel,
    max_mature_number: Result<u64, E>,
    matches: Seq<bool>,
) -> bool {
    max_mature_number is Ok ==> ProgressModel::begin(query, before, matches).total_capacity
        <= u64::MAX
}

/// The capacity that a collection reaches with a page fits in 64 bits.
pub open spec fn page_fits<E>(
    query: CellQueryOptions,
    before: OffchainModel,
    progress: ProgressModel,
    page: Result<PageModel, E>,
) -> bool {
    page matches Ok(page) ==> progress.with_page(query, before.locked, page).total_capacity
        <= u64::MAX
}

/// Collects live cells with the help of an indexer.
#[derive(Debug)]
pub struct DefaultCellCollector {
    offchain: OffchainCellCollector,
}

impl View for DefaultCellCollector {
    type V = OffchainModel;

    closed spec fn view(&self) -> OffchainModel {
        self.offchain@
    }
}

impl DefaultCellCollector {
    /// No place is locked twice.
    pub closed spec fn wf(&self) -> bool {
        self.offchain.wf()
    }

    /// A collector that knows no cell.
    pub fn new() -> (collector: DefaultCellCollector)
        ensures
            collector.wf(),
            collector@ == OffchainModel::fresh(),
    {
        DefaultCellCollector { offchain: OffchainCellCollector::new() }
    }

    /// What is known without asking.
    pub fn offchain(&self) -> (offchain: &OffchainCellCollector)
        ensures
            offchain@ == self@,
            self.wf() ==> offchain.wf(),
    {
        &self.offchain
    }

    /// Begins the check that the indexer follows the node, with the node's tip.
    pub fn check_ckb_chain<E>(tip_header: Result<Tip, E>) -> (step: ChainStep<E>)
        ensures
            match tip_header {
                Ok(tip) => step == (ChainStep::<E>::Poll {
                    wait_millis: 0,
                    check: ChainCheck::fresh(tip),
                }),
                Err(error) => step == (ChainStep::<E>::Finish {
                    wait_millis: 0,
                    result: Err(CellCollectorError::Internal(error)),
                }),
            },
    {
        match tip_header {
            Ok(tip) => ChainStep::Poll {
                wait_millis: 0,
                check: ChainCheck { tip, retry: MAX_POLLS },
            },
            Err(error) => ChainStep::Finish {
                wait_millis: 0,
                result: Err(CellCollectorError::Internal(error)),
            },
        }
    }

    /// Begins a collection with the number of the last block whose cellbase is mature, and for
    /// each cell known without asking whether it matches.
    pub fn collect_live_cells<E>(
        &mut self,
        query: &CellQueryOptions,
        max_mature_number: Result<u64, E>,
        matches: &Vec<bool>,
        apply_changes: bool,
    ) -> (step: CollectStep<E>)
        requires
            old(self).wf(),
            max_mature_number is Ok ==> matches@.len() == old(self)@.live.len(),
            begin_fits(*query, old(self)@, max_mature_number, matches@),
        ensures
            final(self).wf(),
            begins_with(
                *query,
                old(self)@,
                max_mature_number,
                matches@,
                apply_changes,
                step,
                final(self)@,
            ),
    {
        let number: u64 = match max_mature_number {
            Ok(number) => number,
            Err(error) => {
                return CollectStep::Done(Err(CellCollectorError::Internal(error)));
            },
        };
        self.offchain.set_max_mature_number(number);
        assert(self@.candidates(matches@) == old(self)@.candidates(matches@));
        let split = self.offchain.collect(matches, query.min_total_capacity);
        let limit: u32 = match query.limit {
            Some(limit) => limit,
            None => DEFAULT_LIMIT,
        };
        let progress = Progress {
            cells: split.cells,
            rest: split.rest,
            total_capacity: split.total,
            limit,
            last_cursor: None,
        };
        if progress.total_capacity < query.min_total_capacity {
            CollectStep::CheckChain(progress)
        } else {
            self.end(progress, apply_changes)
        }
    }

    /// Begins a collection as [`collect_live_cells`](Self::collect_live_cells) does. `None`, and
    /// nothing changes, exactly where the capacity does not fit in 64 bits.
    pub fn try_collect_live_cells<E>(
        &mut self,
        query: &CellQueryOptions,
        max_mature_number: Result<u64, E>,
        matches: &Vec<bool>,
        apply_changes: bool,
    ) -> (step: Option<CollectStep<E>>)
        requires
            old(self).wf(),
            max_mature_number is Ok ==> matches@.len() == old(self)@.live.len(),
        ensures
            final(self).wf(),
            step is Some <==> begin_fits(*query, old(self)@, max_mature_number, matches@),
            match step {
                Some(step) => begins_with(
                    *query,
                    old(self)@,
                    max_mature_number,
                    matches@,
                    apply_changes,
                    step,
                    final(self)@,
                ),
                None => final(self)@ == old(self)@,
            },
    {
        if max_mature_number.is_ok() {
            match self.offchain.collected_capacity(matches, query.min_total_capacity) {
                Some(_) => {},
                None => {
                    return None;
                },
            }
        }
        Some(self.collect_live_cells(query, max_mature_number, matches, apply_changes))
    }

    /// Goes on after the check that the indexer follows the node.
    pub fn after_chain_check<E>(
        &mut self,
        query: &CellQueryOptions,
        progress: Progress,
        checked: Result<(), CellCollectorError<E>>,
        apply_changes: bool,
    ) -> (step: CollectStep<E>)
        requires
            old(self).wf(),
        ensures
            final(self).wf(),
            check_leads_to(
                *query,
                old(self)@,
                progress@,
                checked,
                apply_changes,
                step,
                final(self)@,
            ),
    {
        match checked {
            Err(error) => CollectStep::Done(Err(error)),
            Ok(()) => self.go_on(query, progress, apply_changes),
        }
    }

    /// Takes a page of the indexer. An empty page ends the collection.
    pub fn take_page<E>(
        &mut self,
        query: &CellQueryOptions,
        progress: Progress,
        page: Result<Page, E>,
        apply_changes: bool,
    ) -> (step: CollectStep<E>)
        requires
            old(self).wf(),
            page_fits(*query, old(self)@, progress@, page_reply(page)),
        ensures
            final(self).wf(),
            page_leads_to(
                *query,
                old(self)@,
                progress@,
                page_reply(page),
                apply_changes,
                step,
                final(self)@,
            ),
    {
        let page = match page {
            Ok(page) => page,
            Err(error) => {
                return CollectStep::Done(Err(CellCollectorError::Internal(error)));
            },
        };
        if page.objects.len() == 0 {
            return self.end(progress, apply_changes);
        }
        let ghost candidates = page@.candidates(self@.locked);
        let ghost start = progress.total_capacity as int;
        let ghost enough = query.min_total_capacity as int;
        let ghost known = progress@.cells;
        let mut cells = progress.cells;
        let mut total: u64 = progress.total_capacity;
        let n: usize = page.objects.len();
        let mut i: usize = 0;
        proof {
            assert(candidates.take(0) =~= Seq::empty());
            assert(known =~= known + Seq::empty());
        }
        while i < n
            invariant
                i <= n,
                n == page.objects@.len(),
                self.wf(),
                self@ == old(self)@,
                candidates == page@.candidates(self@.locked),
                candidates.len() == n,
                enough == query.min_total_capacity,
                crate::gather::gather(candidates, start, enough).total <= u64::MAX,
                total == crate::gather::gather(candidates.take(i as int), start, enough).total,
                crate::types::cells_model(cells@) == known + crate::gather::gather(
                    candidates.take(i as int),
                    start,
                    enough,
                ).taken,
            decreases n - i,
        {
            proof {
                crate::gather::lemma_gather_step(candidates, i as int, start, enough);
                crate::gather::lemma_gather_grows(candidates, i + 1, start, enough);
            }
            let candidate = &page.objects[i];
            assert(page@.objects[i as int] == (candidate.cell@, candidate.matched));
            if total < query.min_total_capacity && candidate.matched && !self.offchain.is_locked(
                &candidate.cell.out_point,
            ) {
                let ghost before = cells@;
                total += candidate.cell.output.capacity;
                let cell = candidate.cell.copy();
                cells.push(cell);
                assert(crate::types::cells_model(cells@) =~= crate::types::cells_model(before).push(
                    cell@,
                ));
                assert(crate::types::cells_model(cells@) =~= known + crate::gather::gather(
                    candidates.take(i + 1),
                    start,
                    enough,
                ).taken);
            }
            i += 1;
        }
        proof {
            assert(candidates.take(n as int) =~= candidates);
        }
        let limit: u32 = if progress.limit < MAX_LIMIT {
            progress.limit * 2
        } else {
            progress.limit
        };
        let next = Progress {
            cells,
            rest: progress.rest,
            total_capacity: total,
            limit,
            last_cursor: Some(page.last_cursor),
        };
        assert(next@ == progress@.with_page(*query, old(self)@.locked, page@));
        self.go_on(query, next, apply_changes)
    }

    /// Takes a page of the indexer as [`take_page`](Self::take_page) does. `None`, and nothing
    /// changes, exactly where the capacity does not fit in 64 bits.
    pub fn try_take_page<E>(
        &mut self,
        query: &CellQueryOptions,
        progress: Progress,
        page: Result<Page, E>,
        apply_changes: bool,
    ) -> (step: Option<CollectStep<E>>)
        requires
            old(self).wf(),
        ensures
            final(self).wf(),
            step is Some <==> page_fits(*query, old(self)@, progress@, page_reply(page)),
            match step {
                Some(step) => page_leads_to(
                    *query,
                    old(self)@,
                    progress@,
                    page_reply(page),
                    apply_changes,
                    step,
                    final(self)@,
                ),
                None => final(self)@ == old(self)@,
            },
    {
        if let Ok(listed) = &page {
            match self.page_capacity(query, &progress, listed) {
                Some(_) => {},
                None => {
                    return None;
                },
            }
        }
        Some(self.take_page(query, progress, page, apply_changes))
    }

    /// The capacity that [`take_page`](Self::take_page) reaches with a page, where it fits in 64
    /// bits.
    pub fn page_capacity(&self, query: &CellQueryOptions, progress: &Progress, page: &Page) -> (total:
        Option<u64>)
        requires
            self.wf(),
        ensures
            ({
                let reached = progress@.with_page(*query, self@.locked, page@).total_capacity;
                total == (if reached <= u64::MAX {
                    Some(reached as u64)
                } else {
                    None
                })
            }),
    {
        let ghost candidates = page@.candidates(self@.locked);
        let ghost start = progress.total_capacity as int;
        let ghost enough = query.min_total_capacity as int;
        let mut total: u64 = progress.total_capacity;
        let n: usize = page.objects.len();
        let mut i: usize = 0;
        proof {
            assert(candidates.take(0) =~= Seq::empty());
        }
        while i < n
            invariant
                i <= n,
                n == page.objects@.len(),
                self.wf(),
                candidates == page@.candidates(self@.locked),
                candidates.len() == n,
                enough == query.min_total_capacity,
                start == progress.total_capacity,
                total == crate::gather::gather(candidates.take(i as int), start, enough).total,
            decreases n - i,
        {
            proof {
                crate::gather::lemma_gather_step(candidates, i as int, start, enough);
                crate::gather::lemma_gather_grows(candidates, i + 1, start, enough);
            }
            let candidate = &page.objects[i];
            assert(page@.objects[i as int] == (candidate.cell@, candidate.matched));
            if total < query.min_total_capacity && candidate.matched && !self.offchain.is_locked(
                &candidate.cell.out_point,
            ) {
                match total.checked_add(candidate.cell.output.capacity) {
                    Some(sum) => {
                        total = sum;
                    },
                    None => {
                        return None;
                    },
                }
            }
            i += 1;
        }
        proof {
            assert(candidates.take(n as int) =~= candidates);
        }
        Some(total)
    }

    fn go_on<E>(&mut self, query: &CellQueryOptions, progress: Progress, apply_changes: bool) -> (step:
        CollectStep<E>)
        requires
            old(self).wf(),
        ensures
            final(self).wf(),
            step.goes_on_with(*query, progress@),
            final(self)@ == kept_after(old(self)@, *query, progress@, apply_changes),
    {
        if progress.total_capacity < query.min_total_capacity {
            CollectStep::AskPage(progress)
        } else {
            self.end(progress, apply_changes)
        }
    }

    fn end<E>(&mut self, progress: Progress, apply_changes: bool) -> (step: CollectStep<E>)
        requires
            old(self).wf(),
        ensures
            final(self).wf(),
            step.ended_with(progress@),
            final(self)@ == progress@.kept_in(old(self)@, apply_changes),
    {
        if apply_changes {
            self.offchain.set_live_cells(progress.rest);
            self.offchain.lock_cells(&progress.cells);
        }
        CollectStep::Done(Ok((progress.cells, progress.total_capacity)))
    }

    /// Marks a cell as one that must not be used.
    pub fn lock_cell<E>(&mut self, out_point: OutPoint) -> (result: Result<
        (),
        CellCollectorError<E>,
    >)
        requires
            old(self).wf(),
        ensures
            final(self).wf(),
            result is Ok,
            final(self)@ == old(self)@.lock(set![out_point]),
    {
        self.offchain.lock_cell(out_point)
    }

    /// Takes a transaction into account: its inputs must not be used any more, and the cells it
    /// makes are live.
    pub fn apply_tx<E>(&mut self, tx: AppliedTransaction) -> (result: Result<
        (),
        CellCollectorError<E>,
    >)
        requires
            old(self).wf(),
            tx@.outputs.len() <= u32::MAX,
        ensures
            final(self).wf(),
            result is Ok,
            final(self)@ == old(self)@.apply(tx@),
    {
        self.offchain.apply_tx(tx)
    }

    /// Forgets every cell, live or locked.
    pub fn reset(&mut self)
        requires
            old(self).wf(),
        ensures
            final(self).wf(),
            final(self)@ == (OffchainModel {
                max_mature_number: old(self)@.max_mature_number,
                ..OffchainModel::fresh()
            }),
    {
        self.offchain.reset();
    }
}

/// The first page has the size that the query names, or else 128.
pub proof fn law_the_first_page_size(query: CellQueryOptions)
    ensures
        query.limit matches Some(limit) ==> query.first_limit() == limit,
        query.limit is None ==> query.first_limit() == 128,
{
}

/// A page is told by its cells, each with whether it matches, in order, and by its cursor.
pub proof fn law_a_page_is_its_fields(page: Page, at: int)
    ensures
        page@.last_cursor == page.last_cursor@,
        page@.objects.len() == page.objects@.len(),
        0 <= at < page.objects@.len() ==> page@.objects[at] == (
            page.objects@[at].cell@,
            page.objects@[at].matched,
        ),
{
}

/// A progress is told by its cells, in order, and by its numbers and cursor.
pub proof fn law_a_progress_is_its_fields(progress: Progress, at: int)
    ensures
        progress@.cells.len() == progress.cells@.len(),
        progress@.rest.len() == progress.rest@.len(),
        0 <= at < progress.cells@.len() ==> progress@.cells[at] == progress.cells@[at]@,
        0 <= at < progress.rest@.len() ==> progress@.rest[at] == progress.rest@[at]@,
        progress@.total_capacity == progress.total_capacity,
        progress@.limit == progress.limit,
        progress@.last_cursor is Some <==> progress.last_cursor is Some,
        progress.last_cursor matches Some(cursor) ==> progress@.last_cursor == Some(cursor@),
{
}

/// A cell of a page may be used exactly where the query matches it and its place is not locked.
pub proof fn law_a_listed_cell_is_usable_where_it_matches_unlocked(
    page: PageModel,
    locked: Set<OutPoint>,
    at: int,
)
    ensures
        page.candidates(locked).len() == page.objects.len(),
        0 <= at < page.objects.len() ==> {
            &&& page.candidates(locked)[at].0 == page.objects[at].0
            &&& page.candidates(locked)[at].1 <==> page.objects[at].1 && !locked.contains(
                page.objects[at].0.out_point,
            )
        },
{
}

proof fn lemma_usable_objects(objects: Seq<(LiveCellModel, bool)>, locked: Set<OutPoint>)
    ensures
        objects.map_values(
            |object: (LiveCellModel, bool)|
                (object.0, object.1 && !locked.contains(object.0.out_point)),
        ).filter(|cell: (LiveCellModel, bool)| cell.1).map_values(
            |cell: (LiveCellModel, bool)| cell.0,
        ) == objects.filter(
            |object: (LiveCellModel, bool)| object.1 && !locked.contains(object.0.out_point),
        ).map_values(|object: (LiveCellModel, bool)| object.0),
    decreases objects.len(),
{
    reveal(Seq::filter);
    let mark = |object: (LiveCellModel, bool)|
        (object.0, object.1 && !locked.contains(object.0.out_point));
    let usable = |cell: (LiveCellModel, bool)| cell.1;
    let wanted = |object: (LiveCellModel, bool)|
        object.1 && !locked.contains(object.0.out_point);
    let name = |cell: (LiveCellModel, bool)| cell.0;
    let left = objects.map_values(mark).filter(usable).map_values(name);
    let right = objects.filter(wanted).map_values(name);
    if objects.len() > 0 {
        let before = objects.drop_last();
        lemma_usable_objects(before, locked);
        assert(objects.map_values(mark).drop_last() =~= before.map_values(mark));
        let shorter = before.map_values(mark).filter(usable).map_values(name);
        if wanted(objects.last()) {
            assert(left =~= shorter.push(objects.last().0));
            assert(right =~= before.filter(wanted).map_values(name).push(objects.last().0));
        } else {
            assert(left =~= shorter);
            assert(right =~= before.filter(wanted).map_values(name));
        }
    } else {
        assert(left =~= right);
    }
}

/// A page is read up to the cell with which the capacity is enough, or to its end. Every cell up to
/// there that matches and is not locked is collected, in order, behind those collected before, and
/// its capacity counts; no other is. The page size doubles while it is below 4096, and the next
/// page starts where this one says.
pub proof fn law_a_page_is_read_until_the_capacity_is_enough(
    query: CellQueryOptions,
    locked: Set<OutPoint>,
    progress: ProgressModel,
    page: PageModel,
) -> (cut: int)
    ensures
        ({
            let next = progress.with_page(query, locked, page);
            let added = page.objects.take(cut).filter(
                |object: (LiveCellModel, bool)| object.1 && !locked.contains(object.0.out_point),
            ).map_values(|object: (LiveCellModel, bool)| object.0);
            &&& 0 <= cut <= page.objects.len()
            &&& next.cells == progress.cells + added
            &&& next.total_capacity == progress.total_capacity + crate::gather::capacity_sum(added)
            &&& cut < page.objects.len() ==> next.total_capacity >= query.min_total_capacity
            &&& next.rest == progress.rest
            &&& next.last_cursor == Some(page.last_cursor)
            &&& next.limit == (if progress.limit < 4096 {
                progress.limit * 2
            } else {
                progress.limit as int
            })
        }),
        forall|k: int|
            0 <= k < cut ==> progress.total_capacity + crate::gather::capacity_sum(
                (#[trigger] page.objects.take(k)).filter(
                    |object: (LiveCellModel, bool)|
                        object.1 && !locked.contains(object.0.out_point),
                ).map_values(|object: (LiveCellModel, bool)| object.0),
            ) < query.min_total_capacity,
{
    let candidates = page.candidates(locked);
    let enough = query.min_total_capacity as int;
    let cut = crate::gather::law_gather_cuts_the_list(
        candidates,
        progress.total_capacity,
        enough,
    );
    let mark = |object: (LiveCellModel, bool)|
        (object.0, object.1 && !locked.contains(object.0.out_point));
    assert forall|k: int| 0 <= k <= page.objects.len() implies #[trigger] candidates.take(k)
        == page.objects.take(k).map_values(mark) by {
        assert(candidates.take(k) =~= page.objects.take(k).map_values(mark));
    }
    assert(candidates.take(cut) == page.objects.take(cut).map_values(mark));
    lemma_usable_objects(page.objects.take(cut), locked);
    assert forall|k: int| 0 <= k < cut implies progress.total_capacity
        + crate::gather::capacity_sum(
        (#[trigger] page.objects.take(k)).filter(
            |object: (LiveCellModel, bool)| object.1 && !locked.contains(object.0.out_point),
        ).map_values(|object: (LiveCellModel, bool)| object.0),
    ) < query.min_total_capacity by {
        lemma_usable_objects(page.objects.take(k), locked);
        assert(candidates.take(k) == page.objects.take(k).map_values(mark));
    }
    cut
}

/// A collection begins with the known cells, read up to the one with which the capacity is enough,
/// or to their end. Every one up to there that matches is collected, in order; all others remain,
/// in order. No page was read yet.
pub proof fn law_a_collection_begins_with_the_known_cells(
    query: CellQueryOptions,
    offchain: OffchainModel,
    matches: Seq<bool>,
    known: Seq<(LiveCellModel, bool)>,
) -> (cut: int)
    requires
        known.len() == offchain.live.len(),
        forall|i: int|
            0 <= i < known.len() ==> #[trigger] known[i] == (offchain.live[i], matches[i]),
    ensures
        ({
            let begin = ProgressModel::begin(query, offchain, matches);
            &&& 0 <= cut <= known.len()
            &&& begin.cells == known.take(cut).filter(
                |cell: (LiveCellModel, bool)| cell.1,
            ).map_values(|cell: (LiveCellModel, bool)| cell.0)
            &&& begin.rest == known.take(cut).filter(
                |cell: (LiveCellModel, bool)| !cell.1,
            ).map_values(|cell: (LiveCellModel, bool)| cell.0) + offchain.live.skip(cut)
            &&& begin.total_capacity == crate::gather::capacity_sum(begin.cells)
            &&& cut < known.len() ==> begin.total_capacity >= query.min_total_capacity
            &&& begin.limit == (match query.limit {
                Some(limit) => limit,
                None => 128u32,
            })
            &&& begin.last_cursor is None
        }),
        forall|k: int|
            0 <= k < cut ==> crate::gather::capacity_sum(
                (#[trigger] known.take(k)).filter(
                    |cell: (LiveCellModel, bool)| cell.1,
                ).map_values(|cell: (LiveCellModel, bool)| cell.0),
            ) < query.min_total_capacity,
{
    let candidates = offchain.candidates(matches);
    assert(candidates =~= known);
    let cut = crate::gather::law_gather_cuts_the_list(
        candidates,
        0,
        query.min_total_capacity as int,
    );
    assert(candidates.skip(cut).map_values(|cell: (LiveCellModel, bool)| cell.0)
        =~= offchain.live.skip(cut));
    cut
}

/// Once a collection has ended, its cells are locked and the rest of the known ones remain, where
/// the changes are kept; else everything is as it was.
pub proof fn law_what_an_ended_collection_leaves(
    progress: ProgressModel,
    offchain: OffchainModel,
    place: OutPoint,
)
    ensures
        progress.kept_in(offchain, false) == offchain,
        progress.kept_in(offchain, true).live == progress.rest,
        progress.kept_in(offchain, true).max_mature_number == offchain.max_mature_number,
        progress.kept_in(offchain, true).locked.contains(place) <==> offchain.locked.contains(place)
            || exists|i: int|
            0 <= i < progress.cells.len() && (#[trigger] progress.cells[i]).out_point == place,
{
    crate::offchain::law_places_are_those_of_the_cells(progress.cells, place);
}

/// A collection that begins fails with the error of the request for the mature block. Else it
/// takes note of the number; where the capacity of the known cells is not enough it has the chain
/// checked, and else it ends with those cells.
pub proof fn law_how_a_collection_begins<E>(
    query: CellQueryOptions,
    before: OffchainModel,
    max_mature_number: Result<u64, E>,
    matches: Seq<bool>,
    apply_changes: bool,
    step: CollectStep<E>,
    after: OffchainModel,
)
    requires
        begins_with(query, before, max_mature_number, matches, apply_changes, step, after),
    ensures
        ({
            let begin = ProgressModel::begin(query, before, matches);
            match max_mature_number {
                Err(error) => step == CollectStep::<E>::Done(
                    Err(CellCollectorError::Internal(error)),
                ) && after == before,
                Ok(number) => {
                    &&& after.max_mature_number == number
                    &&& if begin.total_capacity < query.min_total_capacity {
                        &&& step matches CollectStep::CheckChain(next) && next@ == begin
                        &&& after.live == before.live
                        &&& after.locked == before.locked
                    } else {
                        &&& step matches CollectStep::Done(Ok((cells, total))) && cells@.len()
                            == begin.cells.len() && total == begin.total_capacity && forall|i: int|
                            0 <= i < cells@.len() ==> (#[trigger] cells@[i])@ == begin.cells[i]
                        &&& after.live == (if apply_changes {
                            begin.rest
                        } else {
                            before.live
                        })
                        &&& after.locked == (if apply_changes {
                            before.locked.union(crate::offchain::places(begin.cells))
                        } else {
                            before.locked
                        })
                    }
                },
            }
        }),
{
    let begin = ProgressModel::begin(query, before, matches);
    if let CollectStep::Done(Ok((cells, _))) = step {
        assert forall|i: int| 0 <= i < cells@.len() implies (#[trigger] cells@[i])@
            == crate::types::cells_model(cells@)[i] by {}
    }
}

/// A collection fails with the error of the check. Else it asks for a page where the capacity is
/// not enough, and ends with its cells where it is.
pub proof fn law_how_a_collection_goes_on_after_the_check<E>(
    query: CellQueryOptions,
    before: OffchainModel,
    progress: ProgressModel,
    checked: Result<(), CellCollectorError<E>>,
    apply_changes: bool,
    step: CollectStep<E>,
    after: OffchainModel,
)
    requires
        check_leads_to(query, before, progress, checked, apply_changes, step, after),
    ensures
        match checked {
            Err(error) => step == CollectStep::<E>::Done(Err(error)) && after == before,
            Ok(()) => {
                if progress.total_capacity < query.min_total_capacity {
                    &&& step matches CollectStep::AskPage(asked) && asked@ == progress
                    &&& after == before
                } else {
                    &&& step matches CollectStep::Done(Ok((cells, total))) && cells@.len()
                        == progress.cells.len() && total == progress.total_capacity && forall|i: int|
                        0 <= i < cells@.len() ==> (#[trigger] cells@[i])@ == progress.cells[i]
                    &&& after.max_mature_number == before.max_mature_number
                    &&& after.live == (if apply_changes {
                        progress.rest
                    } else {
                        before.live
                    })
                    &&& forall|place: OutPoint| #[trigger]
                        after.locked.contains(place) <==> before.locked.contains(place) || apply_changes
                            && exists|i: int|
                            0 <= i < progress.cells.len() && (#[trigger] progress.cells[i]).out_point
                                == place
                }
            },
        },
{
    lemma_goes_on(query, before, progress, apply_changes, step, after);
}

/// A collection fails with the error of a request for a page. An empty page ends it with its cells;
/// any other is read, and then it asks for the next page where the capacity is not enough, and ends
/// with its cells where it is.
pub proof fn law_how_a_collection_goes_on_with_a_page<E>(
    query: CellQueryOptions,
    before: OffchainModel,
    progress: ProgressModel,
    page: Result<PageModel, E>,
    apply_changes: bool,
    step: CollectStep<E>,
    after: OffchainModel,
)
    requires
        page_leads_to(query, before, progress, page, apply_changes, step, after),
    ensures
        match page {
            Err(error) => step == CollectStep::<E>::Done(Err(CellCollectorError::Internal(error)))
                && after == before,
            Ok(page) => if page.objects.len() == 0 {
                &&& step matches CollectStep::Done(Ok((cells, total))) && cells@.len()
                    == progress.cells.len() && total == progress.total_capacity && forall|i: int|
                    0 <= i < cells@.len() ==> (#[trigger] cells@[i])@ == progress.cells[i]
                &&& after.max_mature_number == before.max_mature_number
                &&& after.live == (if apply_changes {
                    progress.rest
                } else {
                    before.live
                })
                &&& forall|place: OutPoint| #[trigger]
                    after.locked.contains(place) <==> before.locked.contains(place) || apply_changes
                        && exists|i: int|
                        0 <= i < progress.cells.len() && (#[trigger] progress.cells[i]).out_point
                            == place
            } else {
                let next = progress.with_page(query, before.locked, page);
                if next.total_capacity < query.min_total_capacity {
                    &&& step matches CollectStep::AskPage(asked) && asked@ == next
                    &&& after == before
                } else {
                    &&& step matches CollectStep::Done(Ok((cells, total))) && cells@.len()
                        == next.cells.len() && total == next.total_capacity && forall|i: int|
                        0 <= i < cells@.len() ==> (#[trigger] cells@[i])@ == next.cells[i]
                    &&& after.max_mature_number == before.max_mature_number
                    &&& after.live == (if apply_changes {
                        next.rest
                    } else {
                        before.live
                    })
                    &&& forall|place: OutPoint| #[trigger]
                        after.locked.contains(place) <==> before.locked.contains(place) || apply_changes
                            && exists|i: int|
                            0 <= i < next.cells.len() && (#[trigger] next.cells[i]).out_point
                                == place
                }
            },
        },
{
    if let Ok(page) = page {
        lemma_ends(before, progress, apply_changes, step, after);
        lemma_goes_on(
            query,
            before,
            progress.with_page(query, before.locked, page),
            apply_changes,
            step,
            after,
        );
    }
}

/// The step ends a collection with these cells, in order, and their capacity.
spec fn ends_from<E>(
    before: OffchainModel,
    progress: ProgressModel,
    apply_changes: bool,
    step: CollectStep<E>,
    after: OffchainModel,
) -> bool {
    &&& step matches CollectStep::Done(Ok((cells, total))) && cells@.len() == progress.cells.len()
        && total == progress.total_capacity && forall|i: int|
        0 <= i < cells@.len() ==> (#[trigger] cells@[i])@ == progress.cells[i]
    &&& after.max_mature_number == before.max_mature_number
    &&& after.live == (if apply_changes {
        progress.rest
    } else {
        before.live
    })
    &&& forall|place: OutPoint| #[trigger]
        after.locked.contains(place) <==> before.locked.contains(place) || apply_changes && exists|
            i: int,
        |
            0 <= i < progress.cells.len() && (#[trigger] progress.cells[i]).out_point == place
}

/// The step asks for a page with this progress, or ends the collection, as the capacity is.
spec fn goes_on_from<E>(
    query: CellQueryOptions,
    before: OffchainModel,
    progress: ProgressModel,
    apply_changes: bool,
    step: CollectStep<E>,
    after: OffchainModel,
) -> bool {
    if progress.total_capacity < query.min_total_capacity {
        &&& step matches CollectStep::AskPage(next) && next@ == progress
        &&& after == before
    } else {
        ends_from(before, progress, apply_changes, step, after)
    }
}

proof fn lemma_ends<E>(
    before: OffchainModel,
    progress: ProgressModel,
    apply_changes: bool,
    step: CollectStep<E>,
    after: OffchainModel,
)
    ensures
        step.ended_with(progress) && after == progress.kept_in(before, apply_changes) ==> ends_from(
            before,
            progress,
            apply_changes,
            step,
            after,
        ),
{
    if step.ended_with(progress) && after == progress.kept_in(before, apply_changes) {
        if let CollectStep::Done(Ok((cells, _))) = step {
            assert forall|i: int| 0 <= i < cells@.len() implies (#[trigger] cells@[i])@
                == progress.cells[i] by {
                assert(crate::types::cells_model(cells@)[i] == cells@[i]@);
            }
        }
        assert forall|place: OutPoint| #[trigger]
            after.locked.contains(place) <==> before.locked.contains(place) || apply_changes
                && exists|i: int|
                0 <= i < progress.cells.len() && (#[trigger] progress.cells[i]).out_point
                    == place by {
            law_what_an_ended_collection_leaves(progress, before, place);
        }
    }
}

proof fn lemma_goes_on<E>(
    query: CellQueryOptions,
    before: OffchainModel,
    progress: ProgressModel,
    apply_changes: bool,
    step: CollectStep<E>,
    after: OffchainModel,
)
    ensures
        step.goes_on_with(query, progress) && after == kept_after(
            before,
            query,
            progress,
            apply_changes,
        ) ==> goes_on_from(query, before, progress, apply_changes, step, after),
{
    lemma_ends(before, progress, apply_changes, step, after);
}

/// The capacity of a collection fits exactly where it is at most the largest number of 64 bits; a
/// request that failed has none.
pub proof fn law_which_capacities_fit<E>(
    query: CellQueryOptions,
    before: OffchainModel,
    matches: Seq<bool>,
    progress: ProgressModel,
    page: PageModel,
    number: u64,
    error: E,
)
    ensures
        begin_fits(query, before, Ok::<u64, E>(number), matches) <==> ProgressModel::begin(
            query,
            before,
            matches,
        ).total_capacity <= 0xffff_ffff_ffff_ffff,
        begin_fits(query, before, Err::<u64, E>(error), matches),
        page_fits(query, before, progress, Ok::<PageModel, E>(page)) <==> progress.with_page(
            query,
            before.locked,
            page,
        ).total_capacity <= 0xffff_ffff_ffff_ffff,
        page_fits(query, before, progress, Err::<PageModel, E>(error)),
{
}

/// The reply to a request for a page is the page itself, or the error itself.
pub proof fn law_a_reply_is_the_page<E>(page: Page, error: E)
    ensures
        page_reply(Ok::<Page, E>(page)) == Ok::<PageModel, E>(page@),
        page_reply(Err::<Page, E>(error)) == Err::<PageModel, E>(error),
{
}

} // verus!
