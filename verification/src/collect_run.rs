//! What holds of a collection from its first page to its end.
use vstd::prelude::*;

use crate::collector::{CellQueryOptions, PageModel, ProgressModel, MAX_LIMIT};
use crate::offchain::{AppliedTransactionModel, CellCollectorError, OffchainModel};
use crate::types::{LiveCellModel, OutPoint};

verus! {

/// How far a collection has come, and whether it has ended.
pub struct CollectRun {
    pub progress: ProgressModel,
    pub ended: bool,
}

/// A collection that gets these pages, one after the other.
pub open spec fn collect_run(
    query: CellQueryOptions,
    locked: Set<OutPoint>,
    progress: ProgressModel,
    pages: Seq<PageModel>,
) -> CollectRun
    decreases pages.len(),
{
    if !progress.is_short(query) {
        CollectRun { progress, ended: true }
    } else if pages.len() == 0 {
        CollectRun { progress, ended: false }
    } else if pages[0].objects.len() == 0 {
        CollectRun { progress, ended: true }
    } else {
        collect_run(
            query,
            locked,
            progress.with_page(query, locked, pages[0]),
            pages.drop_first(),
        )
    }
}

/// The cells of a page that may be used.
pub open spec fn usable_cells(page: PageModel, locked: Set<OutPoint>) -> Seq<LiveCellModel> {
    crate::gather::usable_of(page.candidates(locked))
}

/// The cells of pages that may be used.
pub open spec fn all_usable_cells(pages: Seq<PageModel>, locked: Set<OutPoint>) -> Seq<
    LiveCellModel,
>
    decreases pages.len(),
{
    if pages.len() == 0 {
        Seq::empty()
    } else {
        usable_cells(pages[0], locked) + all_usable_cells(pages.drop_first(), locked)
    }
}

/// The cells of pages that may be used, up to the first empty page.
pub open spec fn listed_cells(pages: Seq<PageModel>, locked: Set<OutPoint>) -> Seq<LiveCellModel>
    decreases pages.len(),
{
    if pages.len() == 0 || pages[0].objects.len() == 0 {
        Seq::empty()
    } else {
        usable_cells(pages[0], locked) + listed_cells(pages.drop_first(), locked)
    }
}

/// The capacity that a collection begins with is that of its cells.
pub proof fn law_begin_counts_its_cells(
    query: CellQueryOptions,
    offchain: OffchainModel,
    matches: Seq<bool>,
)
    ensures
        ({
            let progress = ProgressModel::begin(query, offchain, matches);
            progress.total_capacity == crate::gather::capacity_sum(progress.cells)
        }),
{
    crate::gather::law_gather_counts_what_it_takes(
        offchain.candidates(matches),
        0,
        query.min_total_capacity as int,
    );
}

/// The cells known without asking are split between those collected and those that remain: none
/// is lost and none is made.
pub proof fn law_begin_splits_the_known_cells(
    query: CellQueryOptions,
    offchain: OffchainModel,
    matches: Seq<bool>,
)
    requires
        matches.len() == offchain.live.len(),
    ensures
        ({
            let progress = ProgressModel::begin(query, offchain, matches);
            progress.cells.to_multiset().add(progress.rest.to_multiset())
                =~= offchain.live.to_multiset()
        }),
{
    let candidates = offchain.candidates(matches);
    crate::gather::law_gather_loses_no_cell(candidates, 0, query.min_total_capacity as int);
    assert(candidates.map_values(|cell: (LiveCellModel, bool)| cell.0) =~= offchain.live);
}

/// From page to page the capacity collected stays that of the cells collected.
pub proof fn law_run_counts_its_cells(
    query: CellQueryOptions,
    locked: Set<OutPoint>,
    progress: ProgressModel,
    pages: Seq<PageModel>,
)
    requires
        progress.total_capacity == crate::gather::capacity_sum(progress.cells),
    ensures
        ({
            let end = collect_run(query, locked, progress, pages).progress;
            end.total_capacity == crate::gather::capacity_sum(end.cells)
        }),
    decreases pages.len(),
{
    if progress.is_short(query) && pages.len() > 0 && pages[0].objects.len() > 0 {
        let candidates = pages[0].candidates(locked);
        let enough = query.min_total_capacity as int;
        crate::gather::law_gather_counts_what_it_takes(
            candidates,
            progress.total_capacity,
            enough,
        );
        crate::gather::lemma_capacity_sum_append(
            progress.cells,
            crate::gather::gather(candidates, progress.total_capacity, enough).taken,
        );
        law_run_counts_its_cells(
            query,
            locked,
            progress.with_page(query, locked, pages[0]),
            pages.drop_first(),
        );
    }
}

/// A collection that has ended has enough capacity, or it met an empty page after it had
/// collected every cell of the pages before that may be used.
pub proof fn law_run_collects_enough_or_all(
    query: CellQueryOptions,
    locked: Set<OutPoint>,
    progress: ProgressModel,
    pages: Seq<PageModel>,
)
    requires
        collect_run(query, locked, progress, pages).ended,
        collect_run(query, locked, progress, pages).progress.is_short(query),
    ensures
        exists|at: int|
            {
                &&& 0 <= at < pages.len()
                &&& (#[trigger] pages[at]).objects.len() == 0
                &&& collect_run(query, locked, progress, pages).progress.cells == progress.cells
                    + all_usable_cells(pages.take(at), locked)
            },
    decreases pages.len(),
{
    if pages[0].objects.len() == 0 {
        assert(pages.take(0) =~= Seq::empty());
        assert(progress.cells =~= progress.cells + all_usable_cells(pages.take(0), locked));
        assert(pages[0].objects.len() == 0);
    } else {
        let next = progress.with_page(query, locked, pages[0]);
        let rest = pages.drop_first();
        law_run_collects_enough_or_all(query, locked, next, rest);
        let end = collect_run(query, locked, next, rest).progress;
        let at = choose|at: int|
            {
                &&& 0 <= at < rest.len()
                &&& (#[trigger] rest[at]).objects.len() == 0
                &&& end.cells == next.cells + all_usable_cells(rest.take(at), locked)
            };
        law_run_only_grows(query, locked, next, rest);
        crate::gather::law_gather_short_takes_every_usable_cell(
            pages[0].candidates(locked),
            progress.total_capacity,
            query.min_total_capacity as int,
        );
        assert(pages.take(at + 1).drop_first() =~= rest.take(at));
        assert(end.cells =~= progress.cells + all_usable_cells(pages.take(at + 1), locked));
        assert(pages[at + 1].objects.len() == 0);
    }
}

/// The pages add the shortest prefix of their usable cells, up to the first empty page, with which
/// the capacity is enough, or all of those cells where they are not enough.
pub proof fn law_run_adds_the_shortest_prefix(
    query: CellQueryOptions,
    locked: Set<OutPoint>,
    progress: ProgressModel,
    pages: Seq<PageModel>,
)
    ensures
        ({
            let end = collect_run(query, locked, progress, pages).progress;
            let listed = listed_cells(pages, locked);
            let n = end.cells.len() - progress.cells.len();
            &&& end.cells == progress.cells + listed.take(n)
            &&& crate::gather::is_shortest_prefix(
                listed,
                n,
                progress.total_capacity,
                query.min_total_capacity as int,
            )
        }),
    decreases pages.len(),
{
    let end = collect_run(query, locked, progress, pages).progress;
    let listed = listed_cells(pages, locked);
    let enough = query.min_total_capacity as int;
    let start = progress.total_capacity;
    if progress.is_short(query) && pages.len() > 0 && pages[0].objects.len() > 0 {
        let candidates = pages[0].candidates(locked);
        let next = progress.with_page(query, locked, pages[0]);
        let rest = pages.drop_first();
        let taken = crate::gather::gather(candidates, start, enough).taken;
        let here = usable_cells(pages[0], locked);
        let later = listed_cells(rest, locked);
        crate::gather::law_gather_takes_the_shortest_prefix(candidates, start, enough);
        crate::gather::law_gather_counts_what_it_takes(candidates, start, enough);
        law_run_adds_the_shortest_prefix(query, locked, next, rest);
        let n = taken.len() as int;
        let m = end.cells.len() - next.cells.len();
        crate::gather::lemma_shortest_prefixes(here, n, later, m, start, enough);
        assert(end.cells =~= progress.cells + listed.take(n + m));
    } else {
        assert(listed.take(0) =~= Seq::empty());
        assert(end.cells =~= progress.cells + listed.take(0));
    }
}

/// From page to page no cell collected is dropped, the capacity does not shrink, and the cells
/// that remain of those known do not change.
pub proof fn law_run_only_grows(
    query: CellQueryOptions,
    locked: Set<OutPoint>,
    progress: ProgressModel,
    pages: Seq<PageModel>,
)
    ensures
        ({
            let end = collect_run(query, locked, progress, pages).progress;
            &&& progress.cells.is_prefix_of(end.cells)
            &&& progress.total_capacity <= end.total_capacity
            &&& progress.rest == end.rest
        }),
    decreases pages.len(),
{
    if progress.is_short(query) && pages.len() > 0 && pages[0].objects.len() > 0 {
        let candidates = pages[0].candidates(locked);
        crate::gather::lemma_gather_grows(
            candidates,
            candidates.len() as int,
            progress.total_capacity,
            query.min_total_capacity as int,
        );
        law_run_only_grows(
            query,
            locked,
            progress.with_page(query, locked, pages[0]),
            pages.drop_first(),
        );
    }
}

/// Every cell that the pages add matches the query, stands in one of the pages, and is not locked.
pub proof fn law_run_adds_only_usable_cells(
    query: CellQueryOptions,
    locked: Set<OutPoint>,
    progress: ProgressModel,
    pages: Seq<PageModel>,
    at: int,
)
    requires
        progress.cells.len() <= at < collect_run(query, locked, progress, pages).progress.cells.len(),
    ensures
        ({
            let cell = collect_run(query, locked, progress, pages).progress.cells[at];
            &&& !locked.contains(cell.out_point)
            &&& exists|page: int|
                0 <= page < pages.len() && (#[trigger] pages[page]).objects.contains((cell, true))
        }),
    decreases pages.len(),
{
    let cell = collect_run(query, locked, progress, pages).progress.cells[at];
    if progress.is_short(query) && pages.len() > 0 && pages[0].objects.len() > 0 {
        let next = progress.with_page(query, locked, pages[0]);
        let rest = pages.drop_first();
        law_run_only_grows(query, locked, next, rest);
        if at < next.cells.len() {
            let candidates = pages[0].candidates(locked);
            crate::gather::law_gather_takes_usable_cells(
                candidates,
                progress.total_capacity,
                query.min_total_capacity as int,
                at - progress.cells.len(),
            );
            assert(cell == next.cells[at]);
            let i = candidates.index_of((cell, true));
            assert(candidates[i] == (cell, true));
            assert(pages[0].objects[i] == (cell, true));
            assert(pages[0].objects.contains((cell, true)));
        } else {
            law_run_adds_only_usable_cells(query, locked, next, rest, at);
            let page = choose|page: int|
                0 <= page < rest.len() && (#[trigger] rest[page]).objects.contains((cell, true));
            assert(pages[page + 1].objects.contains((cell, true)));
        }
    }
}

/// No cell is collected in excess: without the last one the capacity would not be enough.
pub proof fn law_run_collects_no_cell_in_excess(
    query: CellQueryOptions,
    locked: Set<OutPoint>,
    progress: ProgressModel,
    pages: Seq<PageModel>,
)
    requires
        progress.cells.len() > 0 ==> progress.total_capacity
            - progress.cells.last().output.capacity < query.min_total_capacity,
    ensures
        ({
            let end = collect_run(query, locked, progress, pages).progress;
            end.cells.len() > 0 ==> end.total_capacity - end.cells.last().output.capacity
                < query.min_total_capacity
        }),
    decreases pages.len(),
{
    if progress.is_short(query) && pages.len() > 0 && pages[0].objects.len() > 0 {
        let candidates = pages[0].candidates(locked);
        let enough = query.min_total_capacity as int;
        let gathered = crate::gather::gather(candidates, progress.total_capacity, enough);
        let next = progress.with_page(query, locked, pages[0]);
        if gathered.taken.len() > 0 {
            crate::gather::law_gather_takes_no_cell_in_excess(
                candidates,
                progress.total_capacity,
                enough,
            );
            assert(next.cells.last() == gathered.taken.last());
        } else {
            crate::gather::law_gather_counts_what_it_takes(
                candidates,
                progress.total_capacity,
                enough,
            );
            assert(next.cells =~= progress.cells);
        }
        law_run_collects_no_cell_in_excess(query, locked, next, pages.drop_first());
    }
}

/// The collection that begins with the known cells collects none of them in excess.
pub proof fn law_begin_collects_no_cell_in_excess(
    query: CellQueryOptions,
    offchain: OffchainModel,
    matches: Seq<bool>,
)
    ensures
        ({
            let progress = ProgressModel::begin(query, offchain, matches);
            progress.cells.len() > 0 ==> progress.total_capacity
                - progress.cells.last().output.capacity < query.min_total_capacity
        }),
{
    let candidates = offchain.candidates(matches);
    if ProgressModel::begin(query, offchain, matches).cells.len() > 0 {
        crate::gather::law_gather_takes_no_cell_in_excess(
            candidates,
            0,
            query.min_total_capacity as int,
        );
    }
}

/// Page sizes do not shrink, and where they grow they stay below twice the largest that grows.
pub proof fn law_run_page_sizes(
    query: CellQueryOptions,
    locked: Set<OutPoint>,
    progress: ProgressModel,
    pages: Seq<PageModel>,
)
    ensures
        ({
            let end = collect_run(query, locked, progress, pages).progress;
            &&& progress.limit <= end.limit
            &&& end.limit == progress.limit || end.limit < 2 * MAX_LIMIT
        }),
    decreases pages.len(),
{
    if progress.is_short(query) && pages.len() > 0 && pages[0].objects.len() > 0 {
        law_run_page_sizes(
            query,
            locked,
            progress.with_page(query, locked, pages[0]),
            pages.drop_first(),
        );
    }
}

/// Where the changes of a collection are kept, no page gives any of its cells again.
pub proof fn law_kept_cells_are_not_collected_again(
    offchain: OffchainModel,
    collected: ProgressModel,
    query: CellQueryOptions,
    later: ProgressModel,
    pages: Seq<PageModel>,
    at: int,
)
    requires
        later.cells.len() <= at < collect_run(
            query,
            collected.kept_in(offchain, true).locked,
            later,
            pages,
        ).progress.cells.len(),
    ensures
        ({
            let locked = collected.kept_in(offchain, true).locked;
            let cell = collect_run(query, locked, later, pages).progress.cells[at];
            forall|i: int|
                0 <= i < collected.cells.len() ==> (#[trigger] collected.cells[i]).out_point
                    != cell.out_point
        }),
{
    let locked = collected.kept_in(offchain, true).locked;
    law_run_adds_only_usable_cells(query, locked, later, pages, at);
    let cell = collect_run(query, locked, later, pages).progress.cells[at];
    let place = |cell: LiveCellModel| cell.out_point;
    assert forall|i: int| 0 <= i < collected.cells.len() implies (#[trigger] collected.cells[i]).out_point
        != cell.out_point by {
        assert(collected.cells.map_values(place)[i] == collected.cells[i].out_point);
        assert(crate::offchain::places(collected.cells).contains(collected.cells[i].out_point));
    }
}

/// Once a transaction is taken into account, no page gives any of its inputs.
pub proof fn law_spent_cells_are_not_collected(
    offchain: OffchainModel,
    tx: AppliedTransactionModel,
    query: CellQueryOptions,
    progress: ProgressModel,
    pages: Seq<PageModel>,
    at: int,
)
    requires
        progress.cells.len() <= at < collect_run(
            query,
            offchain.apply(tx).locked,
            progress,
            pages,
        ).progress.cells.len(),
    ensures
        !tx.inputs.contains(
            collect_run(query, offchain.apply(tx).locked, progress, pages).progress.cells[at].out_point,
        ),
{
    law_run_adds_only_usable_cells(query, offchain.apply(tx).locked, progress, pages, at);
}

/// What the servers answer during a collection, and which known cells match.
pub struct Replies<E> {
    pub max_mature_number: Result<u64, E>,
    /// For each cell known without asking, whether it matches.
    pub matches: Seq<bool>,
    /// How the check ends that the indexer follows the node.
    pub checked: Result<(), CellCollectorError<E>>,
    /// The pages that the indexer gives.
    pub pages: Seq<PageModel>,
    /// The error of the request after those pages, where it fails.
    pub failure: Option<E>,
}

/// How a collection ends.
pub enum CollectEnd<E> {
    Collected(ProgressModel),
    Failed(CellCollectorError<E>),
    /// The replies run out before it ends.
    Open,
}

/// A collection from its beginning: how it ends, and what is known afterwards.
pub struct Collection<E> {
    pub end: CollectEnd<E>,
    pub offchain: OffchainModel,
}

/// A collection that gets these replies.
pub open spec fn collection<E>(
    query: CellQueryOptions,
    offchain: OffchainModel,
    replies: Replies<E>,
    apply_changes: bool,
) -> Collection<E> {
    match replies.max_mature_number {
        Err(error) => Collection {
            end: CollectEnd::Failed(CellCollectorError::Internal(error)),
            offchain,
        },
        Ok(number) => {
            let known = OffchainModel { max_mature_number: number, ..offchain };
            let begin = ProgressModel::begin(query, offchain, replies.matches);
            match (begin.is_short(query), replies.checked) {
                (true, Err(error)) => Collection {
                    end: CollectEnd::Failed(error),
                    offchain: known,
                },
                _ => {
                    let run = collect_run(query, known.locked, begin, replies.pages);
                    if run.ended {
                        Collection {
                            end: CollectEnd::Collected(run.progress),
                            offchain: run.progress.kept_in(known, apply_changes),
                        }
                    } else {
                        Collection {
                            end: match replies.failure {
                                Some(error) => CollectEnd::Failed(
                                    CellCollectorError::Internal(error),
                                ),
                                None => CollectEnd::Open,
                            },
                            offchain: known,
                        }
                    }
                },
            }
        },
    }
}

/// A collection gives the shortest prefix that is enough of the known cells that match, followed by
/// the usable cells that the indexer lists up to its first empty page; or all of them, where they
/// are not enough. The capacity it gives is that of its cells.
pub proof fn law_collection_gives_the_shortest_prefix<E>(
    query: CellQueryOptions,
    offchain: OffchainModel,
    replies: Replies<E>,
    apply_changes: bool,
)
    ensures
        ({
            let all = crate::gather::usable_of(offchain.candidates(replies.matches)) + listed_cells(
                replies.pages,
                offchain.locked,
            );
            collection(query, offchain, replies, apply_changes).end matches CollectEnd::Collected(
                collected,
            ) ==> {
                &&& collected.cells == all.take(collected.cells.len() as int)
                &&& crate::gather::is_shortest_prefix(
                    all,
                    collected.cells.len() as int,
                    0,
                    query.min_total_capacity as int,
                )
                &&& collected.total_capacity == crate::gather::capacity_sum(collected.cells)
            }
        }),
{
    let candidates = offchain.candidates(replies.matches);
    let enough = query.min_total_capacity as int;
    let begin = ProgressModel::begin(query, offchain, replies.matches);
    let end = collect_run(query, offchain.locked, begin, replies.pages).progress;
    crate::gather::law_gather_takes_the_shortest_prefix(candidates, 0, enough);
    crate::gather::law_gather_counts_what_it_takes(candidates, 0, enough);
    law_run_counts_its_cells(query, offchain.locked, begin, replies.pages);
    law_run_adds_the_shortest_prefix(query, offchain.locked, begin, replies.pages);
    crate::gather::lemma_shortest_prefixes(
        crate::gather::usable_of(candidates),
        begin.cells.len() as int,
        listed_cells(replies.pages, offchain.locked),
        end.cells.len() - begin.cells.len(),
        0,
        enough,
    );
}

/// A collection whose changes are not kept, or that fails, leaves the live and the locked cells as
/// they were.
pub proof fn law_discarded_collection_changes_no_cell<E>(
    query: CellQueryOptions,
    offchain: OffchainModel,
    replies: Replies<E>,
    apply_changes: bool,
)
    ensures
        ({
            let done = collection(query, offchain, replies, apply_changes);
            !apply_changes || !(done.end is Collected) ==> done.offchain.live == offchain.live
                && done.offchain.locked == offchain.locked
        }),
{
}

/// A collection whose changes are not kept, or that fails, can be made again: with the same query
/// and the same replies it ends in the same way, whether or not the changes are kept then.
pub proof fn law_discarded_collection_can_be_repeated<E>(
    query: CellQueryOptions,
    offchain: OffchainModel,
    replies: Replies<E>,
    apply_changes: bool,
    apply_later: bool,
)
    ensures
        ({
            let done = collection(query, offchain, replies, apply_changes);
            !apply_changes || !(done.end is Collected) ==> collection(
                query,
                done.offchain,
                replies,
                apply_later,
            ).end == done.end
        }),
{
    let done = collection(query, offchain, replies, apply_changes);
    assert(done.offchain.live == offchain.live ==> done.offchain.candidates(replies.matches)
        =~= offchain.candidates(replies.matches));
}

/// Where no cell is known without asking, a collection gives no cell that is locked, and all of its
/// cells match.
pub proof fn law_locked_cells_are_not_collected<E>(
    query: CellQueryOptions,
    offchain: OffchainModel,
    replies: Replies<E>,
    apply_changes: bool,
    at: int,
)
    requires
        offchain.live.len() == 0,
    ensures
        collection(query, offchain, replies, apply_changes).end matches CollectEnd::Collected(
            collected,
        ) ==> 0 <= at < collected.cells.len() ==> {
            &&& !offchain.locked.contains(collected.cells[at].out_point)
            &&& exists|page: int|
                0 <= page < replies.pages.len() && (#[trigger] replies.pages[page]).objects.contains(
                    (collected.cells[at], true),
                )
        },
{
    let begin = ProgressModel::begin(query, offchain, replies.matches);
    assert(begin.cells.len() == 0);
    if let CollectEnd::Collected(collected) = collection(
        query,
        offchain,
        replies,
        apply_changes,
    ).end {
        if 0 <= at < collected.cells.len() {
            law_run_adds_only_usable_cells(query, offchain.locked, begin, replies.pages, at);
        }
    }
}

/// Where no cell is known without asking, what one collection keeps and what is locked after it is
/// not collected again, whatever the next query is and whatever the indexer lists.
pub proof fn law_next_collection_gives_other_cells<E>(
    offchain: OffchainModel,
    query: CellQueryOptions,
    replies: Replies<E>,
    locked: Set<OutPoint>,
    next_query: CellQueryOptions,
    next_replies: Replies<E>,
    next_apply: bool,
)
    requires
        offchain.live.len() == 0,
    ensures
        ({
            let first = collection(query, offchain, replies, true);
            let next = collection(
                next_query,
                first.offchain.lock(locked),
                next_replies,
                next_apply,
            );
            first.end matches CollectEnd::Collected(a) ==> next.end matches CollectEnd::Collected(
                b,
            ) ==> forall|i: int|
                0 <= i < b.cells.len() ==> {
                    &&& !locked.contains((#[trigger] b.cells[i]).out_point)
                    &&& !crate::offchain::places(a.cells).contains(b.cells[i].out_point)
                }
        }),
{
    let first = collection(query, offchain, replies, true);
    let known = first.offchain.lock(locked);
    let next = collection(next_query, known, next_replies, next_apply);
    if let CollectEnd::Collected(a) = first.end {
        if let CollectEnd::Collected(b) = next.end {
            let begin = ProgressModel::begin(query, offchain, replies.matches);
            assert(begin.rest.len() == 0);
            law_run_only_grows(query, offchain.locked, begin, replies.pages);
            assert forall|i: int| 0 <= i < b.cells.len() implies {
                &&& !locked.contains((#[trigger] b.cells[i]).out_point)
                &&& !crate::offchain::places(a.cells).contains(b.cells[i].out_point)
            } by {
                law_locked_cells_are_not_collected(next_query, known, next_replies, next_apply, i);
            }
        }
    }
}

/// Where the capacity is not enough in the end, every cell that matches, is not locked and stands
/// in a page before the first empty one was collected.
pub proof fn law_a_short_run_collects_every_matching_cell(
    query: CellQueryOptions,
    locked: Set<OutPoint>,
    progress: ProgressModel,
    pages: Seq<PageModel>,
    at: int,
    object: int,
)
    requires
        collect_run(query, locked, progress, pages).progress.total_capacity
            < query.min_total_capacity,
        0 <= at < pages.len(),
        forall|i: int| 0 <= i <= at ==> (#[trigger] pages[i]).objects.len() > 0,
        0 <= object < pages[at].objects.len(),
        pages[at].objects[object].1,
        !locked.contains(pages[at].objects[object].0.out_point),
    ensures
        collect_run(query, locked, progress, pages).progress.cells.contains(
            pages[at].objects[object].0,
        ),
    decreases pages.len(),
{
    law_run_only_grows(query, locked, progress, pages);
    assert(pages[0].objects.len() > 0);
    let next = progress.with_page(query, locked, pages[0]);
    let rest = pages.drop_first();
    law_run_only_grows(query, locked, next, rest);
    let end = collect_run(query, locked, progress, pages).progress;
    if at == 0 {
        let objects = pages[0].objects;
        let wanted = |object: (LiveCellModel, bool)|
            object.1 && !locked.contains(object.0.out_point);
        let name = |object: (LiveCellModel, bool)| object.0;
        let cut = crate::collector::law_a_page_is_read_until_the_capacity_is_enough(
            query,
            locked,
            progress,
            pages[0],
        );
        assert(objects.take(cut) =~= objects);
        objects.lemma_filter_contains(wanted, object);
        let i = objects.filter(wanted).index_of(objects[object]);
        let added = objects.filter(wanted).map_values(name);
        assert(added[i] == objects[object].0);
        assert(next.cells[progress.cells.len() + i] == objects[object].0);
        assert(end.cells[progress.cells.len() + i] == objects[object].0);
    } else {
        assert(rest[at - 1] == pages[at]);
        assert forall|i: int| 0 <= i <= at - 1 implies (#[trigger] rest[i]).objects.len() > 0 by {
            assert(rest[i] == pages[i + 1]);
        }
        law_a_short_run_collects_every_matching_cell(query, locked, next, rest, at - 1, object);
    }
}

/// Cells can be locked in any order, and as often as one likes.
pub proof fn law_locking_commutes(offchain: OffchainModel, a: Set<OutPoint>, b: Set<OutPoint>)
    ensures
        offchain.lock(a).lock(b) == offchain.lock(b).lock(a),
        offchain.lock(a).lock(a) == offchain.lock(a),
{
    assert(offchain.lock(a).lock(b).locked =~= offchain.lock(b).lock(a).locked);
    assert(offchain.lock(a).lock(a).locked =~= offchain.lock(a).locked);
}

} // verus!
