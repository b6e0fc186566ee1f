//! What holds of the steps of a collection, as its functions give them one after the other.
use vstd::prelude::*;

use crate::collect_run::{CollectEnd, Replies};
use crate::collector::{CellQueryOptions, CollectStep, PageModel, ProgressModel};
use crate::offchain::OffchainModel;
use crate::types::{LiveCell, OutPoint};

verus! {

/// A step, and what is known after it.
pub type Record<E> = (CollectStep<E>, OffchainModel);

/// The reply to a request for a page: one of the pages, or the error after the last of them.
pub open spec fn reply_at<E>(replies: Replies<E>, at: int) -> Option<Result<PageModel, E>> {
    if 0 <= at < replies.pages.len() {
        Some(Ok(replies.pages[at]))
    } else if at == replies.pages.len() {
        match replies.failure {
            Some(error) => Some(Err(error)),
            None => None,
        }
    } else {
        None
    }
}

/// This step comes of the one before it, with the reply to what that one asks for. The first page
/// is asked for after the check.
pub open spec fn follows<E>(
    query: CellQueryOptions,
    replies: Replies<E>,
    apply_changes: bool,
    steps: Seq<Record<E>>,
    at: int,
) -> bool {
    let (before, known) = steps[at - 1];
    let (step, after) = steps[at];
    match before {
        CollectStep::CheckChain(progress) => crate::collector::check_leads_to(
            query,
            known,
            progress@,
            replies.checked,
            apply_changes,
            step,
            after,
        ),
        CollectStep::AskPage(progress) => reply_at(replies, at - 2) matches Some(page)
            && crate::collector::page_leads_to(
            query,
            known,
            progress@,
            page,
            apply_changes,
            step,
            after,
        ),
        CollectStep::Done(_) => false,
    }
}

/// These are steps of a collection, from its beginning on.
pub open spec fn are_steps<E>(
    query: CellQueryOptions,
    offchain: OffchainModel,
    replies: Replies<E>,
    apply_changes: bool,
    steps: Seq<Record<E>>,
) -> bool {
    &&& steps.len() > 0
    &&& crate::collector::begins_with(
        query,
        offchain,
        replies.max_mature_number,
        replies.matches,
        apply_changes,
        steps[0].0,
        steps[0].1,
    )
    &&& forall|at: int|
        1 <= at < steps.len() ==> #[trigger] follows(query, replies, apply_changes, steps, at)
}

/// The step is the end of this collection.
pub open spec fn is_end<E>(step: CollectStep<E>, end: CollectEnd<E>) -> bool {
    match end {
        CollectEnd::Collected(progress) => step.ended_with(progress),
        CollectEnd::Failed(error) => step.failed_with(error),
        CollectEnd::Open => false,
    }
}

/// Two collections have ended with the same cells and capacity, or with the same error.
pub open spec fn same_end<E>(a: CollectStep<E>, b: CollectStep<E>) -> bool {
    match (a, b) {
        (
            CollectStep::Done(Ok((cells, total))),
            CollectStep::Done(Ok((other_cells, other_total))),
        ) => crate::types::cells_model(cells@) == crate::types::cells_model(other_cells@) && total
            == other_total,
        (CollectStep::Done(Err(error)), CollectStep::Done(Err(other))) => error == other,
        _ => false,
    }
}

/// What is known while a page is asked for, and which pages are still to come.
proof fn lemma_asking<E>(
    query: CellQueryOptions,
    offchain: OffchainModel,
    replies: Replies<E>,
    apply_changes: bool,
    steps: Seq<Record<E>>,
    at: int,
)
    requires
        are_steps(query, offchain, replies, apply_changes, steps),
        1 <= at < steps.len(),
    ensures
        steps[at].0 !is CheckChain,
        steps[at].0 matches CollectStep::AskPage(progress) ==> {
            let begin = ProgressModel::begin(query, offchain, replies.matches);
            &&& replies.max_mature_number is Ok
            &&& replies.checked is Ok
            &&& begin.is_short(query)
            &&& progress@.is_short(query)
            &&& steps[at].1 == OffchainModel {
                max_mature_number: replies.max_mature_number->Ok_0,
                ..offchain
            }
            &&& at - 1 <= replies.pages.len()
            &&& crate::collect_run::collect_run(query, offchain.locked, begin, replies.pages)
                == crate::collect_run::collect_run(
                query,
                offchain.locked,
                progress@,
                replies.pages.skip(at - 1),
            )
        },
    decreases at,
{
    assert(follows(query, replies, apply_changes, steps, at));
    if at == 1 {
        assert(replies.pages.skip(0) =~= replies.pages);
    } else {
        lemma_asking(query, offchain, replies, apply_changes, steps, at - 1);
        assert(follows(query, replies, apply_changes, steps, at - 1));
        let pages = replies.pages.skip(at - 2);
        if at - 2 < replies.pages.len() {
            assert(pages[0] == replies.pages[at - 2]);
            assert(pages.drop_first() =~= replies.pages.skip(at - 1));
        }
    }
}

/// The steps of a collection, taken one after the other with these replies, end as the whole
/// collection does, and leave known what it leaves.
pub proof fn law_steps_make_the_collection<E>(
    query: CellQueryOptions,
    offchain: OffchainModel,
    replies: Replies<E>,
    apply_changes: bool,
    steps: Seq<Record<E>>,
)
    requires
        are_steps(query, offchain, replies, apply_changes, steps),
        steps.last().0 is Done,
    ensures
        ({
            let whole = crate::collect_run::collection(query, offchain, replies, apply_changes);
            &&& is_end(steps.last().0, whole.end)
            &&& steps.last().1 == whole.offchain
        }),
{
    let last = steps.len() - 1;
    if last >= 1 {
        assert(follows(query, replies, apply_changes, steps, last));
        if last >= 2 {
            lemma_asking(query, offchain, replies, apply_changes, steps, last - 1);
            reveal_with_fuel(crate::collect_run::collect_run, 2);
            let pages = replies.pages.skip(last - 2);
            if last - 2 < replies.pages.len() {
                assert(pages[0] == replies.pages[last - 2]);
            }
        }
    }
}

/// No step of a collection whose changes are not kept changes the live or the locked cells.
pub proof fn law_discarded_steps_change_no_cell<E>(
    query: CellQueryOptions,
    offchain: OffchainModel,
    replies: Replies<E>,
    steps: Seq<Record<E>>,
    at: int,
)
    requires
        are_steps(query, offchain, replies, false, steps),
        0 <= at < steps.len(),
    ensures
        steps[at].1.live == offchain.live,
        steps[at].1.locked == offchain.locked,
    decreases at,
{
    if at > 0 {
        law_discarded_steps_change_no_cell(query, offchain, replies, steps, at - 1);
        assert(follows(query, replies, false, steps, at));
    }
}

/// After a collection whose changes were not kept, the same query with the same replies ends with
/// the same cells and capacity, or with the same error.
pub proof fn law_discarded_steps_can_be_repeated<E>(
    query: CellQueryOptions,
    offchain: OffchainModel,
    replies: Replies<E>,
    steps: Seq<Record<E>>,
    apply_later: bool,
    later: Seq<Record<E>>,
)
    requires
        are_steps(query, offchain, replies, false, steps),
        steps.last().0 is Done,
        are_steps(query, steps.last().1, replies, apply_later, later),
        later.last().0 is Done,
    ensures
        same_end(steps.last().0, later.last().0),
{
    law_steps_make_the_collection(query, offchain, replies, false, steps);
    law_steps_make_the_collection(query, steps.last().1, replies, apply_later, later);
    crate::collect_run::law_discarded_collection_can_be_repeated(
        query,
        offchain,
        replies,
        false,
        apply_later,
    );
}

/// Where no cell is known without asking and a collection's changes are kept, the next one gives
/// neither its cells nor one locked in between, whatever the next query is and whatever the indexer
/// lists.
pub proof fn law_next_steps_give_other_cells<E>(
    offchain: OffchainModel,
    query: CellQueryOptions,
    replies: Replies<E>,
    steps: Seq<Record<E>>,
    a: (Vec<LiveCell>, u64),
    out_point: OutPoint,
    next_query: CellQueryOptions,
    next_replies: Replies<E>,
    next_apply: bool,
    next_steps: Seq<Record<E>>,
    b: (Vec<LiveCell>, u64),
)
    requires
        offchain.live.len() == 0,
        are_steps(query, offchain, replies, true, steps),
        steps.last().0 == CollectStep::<E>::Done(Ok(a)),
        are_steps(
            next_query,
            steps.last().1.lock(set![out_point]),
            next_replies,
            next_apply,
            next_steps,
        ),
        next_steps.last().0 == CollectStep::<E>::Done(Ok(b)),
    ensures
        forall|i: int|
            0 <= i < b.0@.len() ==> {
                &&& (#[trigger] b.0@[i]).out_point != out_point
                &&& forall|j: int|
                    0 <= j < a.0@.len() ==> (#[trigger] a.0@[j]).out_point != b.0@[i].out_point
            },
{
    let known = steps.last().1.lock(set![out_point]);
    law_steps_make_the_collection(query, offchain, replies, true, steps);
    law_steps_make_the_collection(next_query, known, next_replies, next_apply, next_steps);
    crate::collect_run::law_next_collection_gives_other_cells(
        offchain,
        query,
        replies,
        set![out_point],
        next_query,
        next_replies,
        next_apply,
    );
    let first = crate::collect_run::collection(query, offchain, replies, true);
    let next = crate::collect_run::collection(next_query, known, next_replies, next_apply);
    let first_cells = first.end->Collected_0.cells;
    let next_cells = next.end->Collected_0.cells;
    let place = |cell: crate::types::LiveCellModel| cell.out_point;
    assert forall|i: int| 0 <= i < b.0@.len() implies {
        &&& (#[trigger] b.0@[i]).out_point != out_point
        &&& forall|j: int|
            0 <= j < a.0@.len() ==> (#[trigger] a.0@[j]).out_point != b.0@[i].out_point
    } by {
        assert(next_cells[i] == b.0@[i]@);
        assert(!set![out_point].contains(next_cells[i].out_point));
        assert forall|j: int| 0 <= j < a.0@.len() implies (#[trigger] a.0@[j]).out_point
            != b.0@[i].out_point by {
            assert(first_cells[j] == a.0@[j]@);
            assert(first_cells.map_values(place)[j] == a.0@[j].out_point);
            assert(crate::offchain::places(first_cells).contains(a.0@[j].out_point));
        }
    }
}

} // verus!
