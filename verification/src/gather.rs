//! Picks cells off a list until their capacity is enough.
use vstd::prelude::*;

use crate::types::LiveCellModel;

verus! {

/// Cells picked off a list, cells passed over, and the capacity reached.
pub struct Gathered {
    pub taken: Seq<LiveCellModel>,
    pub left: Seq<LiveCellModel>,
    pub total: int,
}

/// Goes through a list of cells, each with whether it may be used. As long as the capacity is
/// below `enough`, a cell that may be used is taken and its capacity counts; every other cell is
/// left.
pub open spec fn gather(cells: Seq<(LiveCellModel, bool)>, start: int, enough: int) -> Gathered
    decreases cells.len(),
{
    if cells.len() == 0 {
        Gathered { taken: Seq::empty(), left: Seq::empty(), total: start }
    } else {
        let before = gather(cells.drop_last(), start, enough);
        let (cell, usable) = cells.last();
        if before.total < enough && usable {
            Gathered {
                taken: before.taken.push(cell),
                left: before.left,
                total: before.total + cell.output.capacity,
            }
        } else {
            Gathered { taken: before.taken, left: before.left.push(cell), total: before.total }
        }
    }
}

/// The cells of a list that may be used.
pub open spec fn usable_of(cells: Seq<(LiveCellModel, bool)>) -> Seq<LiveCellModel> {
    cells.filter(|cell: (LiveCellModel, bool)| cell.1).map_values(
        |cell: (LiveCellModel, bool)| cell.0,
    )
}

/// So many of the cells, from the first on, are the fewest whose capacity is enough, counted from
/// what there is at the start; or all of them, where they are not enough together.
pub open spec fn is_shortest_prefix(
    cells: Seq<LiveCellModel>,
    n: int,
    start: int,
    enough: int,
) -> bool {
    &&& 0 <= n <= cells.len()
    &&& forall|k: int| 0 <= k < n ==> start + capacity_sum(#[trigger] cells.take(k)) < enough
    &&& n < cells.len() ==> start + capacity_sum(cells.take(n)) >= enough
}

/// The capacity of cells together.
pub open spec fn capacity_sum(cells: Seq<LiveCellModel>) -> int
    decreases cells.len(),
{
    if cells.len() == 0 {
        0
    } else {
        capacity_sum(cells.drop_last()) + cells.last().output.capacity
    }
}

/// One more cell in the list.
pub proof fn lemma_gather_step(
    cells: Seq<(LiveCellModel, bool)>,
    at: int,
    start: int,
    enough: int,
)
    requires
        0 <= at < cells.len(),
    ensures
        ({
            let before = gather(cells.take(at), start, enough);
            let after = gather(cells.take(at + 1), start, enough);
            let (cell, usable) = cells[at];
            if before.total < enough && usable {
                &&& after.taken == before.taken.push(cell)
                &&& after.left == before.left
                &&& after.total == before.total + cell.output.capacity
            } else {
                &&& after.taken == before.taken
                &&& after.left == before.left.push(cell)
                &&& after.total == before.total
            }
        }),
{
    assert(cells.take(at + 1).drop_last() =~= cells.take(at));
}

/// The capacity never shrinks along a list.
pub proof fn lemma_gather_grows(
    cells: Seq<(LiveCellModel, bool)>,
    at: int,
    start: int,
    enough: int,
)
    requires
        0 <= at <= cells.len(),
    ensures
        start <= gather(cells.take(at), start, enough).total <= gather(cells, start, enough).total,
    decreases cells.len(),
{
    if at == cells.len() {
        assert(cells.take(at) =~= cells);
        if cells.len() > 0 {
            lemma_gather_grows(cells.drop_last(), at - 1, start, enough);
        }
    } else {
        assert(cells.drop_last().take(at) =~= cells.take(at));
        lemma_gather_grows(cells.drop_last(), at, start, enough);
    }
}

/// The capacities of two lists together.
pub proof fn lemma_capacity_sum_append(a: Seq<LiveCellModel>, b: Seq<LiveCellModel>)
    ensures
        capacity_sum(a + b) == capacity_sum(a) + capacity_sum(b),
    decreases b.len(),
{
    if b.len() == 0 {
        assert(a + b =~= a);
    } else {
        assert((a + b).drop_last() =~= a + b.drop_last());
        lemma_capacity_sum_append(a, b.drop_last());
    }
}

/// The capacity reached is what there was at the start and the capacity of the cells taken.
pub proof fn law_gather_counts_what_it_takes(
    cells: Seq<(LiveCellModel, bool)>,
    start: int,
    enough: int,
)
    ensures
        gather(cells, start, enough).total == start + capacity_sum(
            gather(cells, start, enough).taken,
        ),
    decreases cells.len(),
{
    if cells.len() > 0 {
        law_gather_counts_what_it_takes(cells.drop_last(), start, enough);
        let before = gather(cells.drop_last(), start, enough);
        let after = gather(cells, start, enough);
        if after.taken.len() > before.taken.len() {
            assert(after.taken.drop_last() =~= before.taken);
        }
    }
}

/// Every cell of the list is either taken or left, exactly as often as it stands in the list.
pub proof fn law_gather_loses_no_cell(
    cells: Seq<(LiveCellModel, bool)>,
    start: int,
    enough: int,
)
    ensures
        gather(cells, start, enough).taken.to_multiset().add(
            gather(cells, start, enough).left.to_multiset(),
        ) =~= cells.map_values(|cell: (LiveCellModel, bool)| cell.0).to_multiset(),
    decreases cells.len(),
{
    broadcast use vstd::seq_lib::group_to_multiset_ensures;

    let name = |cell: (LiveCellModel, bool)| cell.0;
    if cells.len() > 0 {
        law_gather_loses_no_cell(cells.drop_last(), start, enough);
        assert(cells.map_values(name) =~= cells.drop_last().map_values(name).push(
            cells.last().0,
        ));
    } else {
        assert(cells.map_values(name) =~= Seq::empty());
        assert(Seq::<LiveCellModel>::empty().to_multiset() =~= vstd::multiset::Multiset::empty());
    }
}

/// Every cell taken is one of the list that may be used.
pub proof fn law_gather_takes_usable_cells(
    cells: Seq<(LiveCellModel, bool)>,
    start: int,
    enough: int,
    at: int,
)
    requires
        0 <= at < gather(cells, start, enough).taken.len(),
    ensures
        cells.contains((gather(cells, start, enough).taken[at], true)),
    decreases cells.len(),
{
    if cells.len() > 0 {
        let before = gather(cells.drop_last(), start, enough);
        if at < before.taken.len() {
            law_gather_takes_usable_cells(cells.drop_last(), start, enough, at);
            let i = cells.drop_last().index_of((before.taken[at], true));
            assert(cells[i] == (before.taken[at], true));
        } else {
            assert(cells[cells.len() - 1] == (cells.last().0, true));
        }
    }
}

/// No cell is taken in excess: without the last cell taken the capacity would not be enough.
pub proof fn law_gather_takes_no_cell_in_excess(
    cells: Seq<(LiveCellModel, bool)>,
    start: int,
    enough: int,
)
    requires
        gather(cells, start, enough).taken.len() > 0,
    ensures
        gather(cells, start, enough).total - gather(
            cells,
            start,
            enough,
        ).taken.last().output.capacity < enough,
    decreases cells.len(),
{
    let before = gather(cells.drop_last(), start, enough);
    if before.taken.len() == gather(cells, start, enough).taken.len() {
        law_gather_takes_no_cell_in_excess(cells.drop_last(), start, enough);
    }
}

/// Where the capacity is not enough, no cell that may be used is left out.
pub proof fn law_gather_short_takes_every_usable_cell(
    cells: Seq<(LiveCellModel, bool)>,
    start: int,
    enough: int,
)
    requires
        gather(cells, start, enough).total < enough,
    ensures
        gather(cells, start, enough).taken =~= usable_of(cells),
    decreases cells.len(),
{
    let usable = |cell: (LiveCellModel, bool)| cell.1;
    let name = |cell: (LiveCellModel, bool)| cell.0;
    reveal(Seq::filter);
    if cells.len() > 0 {
        lemma_gather_grows(cells, cells.len() - 1, start, enough);
        assert(cells.take(cells.len() - 1) =~= cells.drop_last());
        law_gather_short_takes_every_usable_cell(cells.drop_last(), start, enough);
        if cells.last().1 {
            assert(cells.filter(usable) =~= cells.drop_last().filter(usable).push(cells.last()));
        }
    }
}

/// What is taken is the shortest prefix of the cells that may be used whose capacity is enough, or
/// all of them where they are not enough.
pub proof fn law_gather_takes_the_shortest_prefix(
    cells: Seq<(LiveCellModel, bool)>,
    start: int,
    enough: int,
)
    ensures
        ({
            let taken = gather(cells, start, enough).taken;
            &&& taken == usable_of(cells).take(taken.len() as int)
            &&& is_shortest_prefix(usable_of(cells), taken.len() as int, start, enough)
        }),
    decreases cells.len(),
{
    reveal(Seq::filter);
    let usable = usable_of(cells);
    let taken = gather(cells, start, enough).taken;
    let n = taken.len() as int;
    if cells.len() > 0 {
        let before = cells.drop_last();
        let fewer = usable_of(before);
        let gathered = gather(before, start, enough);
        let m = gathered.taken.len() as int;
        law_gather_takes_the_shortest_prefix(before, start, enough);
        law_gather_counts_what_it_takes(before, start, enough);
        if cells.last().1 {
            assert(usable =~= fewer.push(cells.last().0));
        } else {
            assert(usable =~= fewer);
        }
        assert forall|k: int| 0 <= k <= fewer.len() implies #[trigger] usable.take(k)
            == fewer.take(k) by {
            assert(usable.take(k) =~= fewer.take(k));
        }
        if cells.last().1 && gathered.total < enough {
            assert(m == fewer.len());
            assert(fewer.take(m) =~= fewer);
            assert(taken =~= usable.take(n));
        }
        assert(forall|k: int| 0 <= k < m ==> fewer.take(k) == #[trigger] usable.take(k));
        assert(usable.take(m) == fewer.take(m));
    } else {
        assert(usable =~= Seq::empty());
        assert(taken =~= usable.take(0));
    }
}

/// Two lists one after the other: what is the shortest prefix of each is so together.
pub proof fn lemma_shortest_prefixes(
    a: Seq<LiveCellModel>,
    n: int,
    b: Seq<LiveCellModel>,
    m: int,
    start: int,
    enough: int,
)
    requires
        is_shortest_prefix(a, n, start, enough),
        is_shortest_prefix(b, m, start + capacity_sum(a.take(n)), enough),
    ensures
        is_shortest_prefix(a + b, n + m, start, enough),
        (a + b).take(n + m) == a.take(n) + b.take(m),
{
    let all = a + b;
    let reached = start + capacity_sum(a.take(n));
    if reached >= enough {
        if m > 0 {
            assert(b.take(0) =~= Seq::empty());
            assert(reached + capacity_sum(b.take(0)) < enough);
        }
        assert(b.take(0) =~= Seq::empty());
        assert(all.take(n) =~= a.take(n));
        assert(a.take(n) =~= a.take(n) + b.take(0));
    } else {
        assert(n == a.len());
        assert(a.take(n) =~= a);
        assert(all.take(n + m) =~= a + b.take(m));
        lemma_capacity_sum_append(a, b.take(m));
    }
    assert forall|k: int| 0 <= k < n + m implies start + capacity_sum(#[trigger] all.take(k))
        < enough by {
        if k < n {
            assert(all.take(k) =~= a.take(k));
        } else {
            assert(n == a.len());
            assert(all.take(k) =~= a + b.take(k - n));
            lemma_capacity_sum_append(a, b.take(k - n));
            assert(a.take(n) =~= a);
        }
    }
}

/// The capacity of cells together is the sum of their capacities.
pub proof fn law_capacities_add_up(cells: Seq<LiveCellModel>, cell: LiveCellModel)
    ensures
        capacity_sum(Seq::empty()) == 0,
        capacity_sum(cells.push(cell)) == capacity_sum(cells) + cell.output.capacity,
{
    assert(cells.push(cell).drop_last() =~= cells);
}

/// A list is cut at the first place where the capacity is enough, or at its end. Before the cut
/// every cell that may be used is taken, in order, and nothing else; the others before it and all
/// behind it are left, in order.
pub proof fn law_gather_cuts_the_list(
    cells: Seq<(LiveCellModel, bool)>,
    start: int,
    enough: int,
) -> (cut: int)
    ensures
        0 <= cut <= cells.len(),
        gather(cells, start, enough).taken == cells.take(cut).filter(
            |cell: (LiveCellModel, bool)| cell.1,
        ).map_values(|cell: (LiveCellModel, bool)| cell.0),
        gather(cells, start, enough).left == cells.take(cut).filter(
            |cell: (LiveCellModel, bool)| !cell.1,
        ).map_values(|cell: (LiveCellModel, bool)| cell.0) + cells.skip(cut).map_values(
            |cell: (LiveCellModel, bool)| cell.0,
        ),
        gather(cells, start, enough).total == start + capacity_sum(
            gather(cells, start, enough).taken,
        ),
        cut < cells.len() ==> gather(cells, start, enough).total >= enough,
        forall|k: int|
            0 <= k < cut ==> start + capacity_sum(
                (#[trigger] cells.take(k)).filter(
                    |cell: (LiveCellModel, bool)| cell.1,
                ).map_values(|cell: (LiveCellModel, bool)| cell.0),
            ) < enough,
    decreases cells.len(),
{
    reveal(Seq::filter);
    let usable = |cell: (LiveCellModel, bool)| cell.1;
    let other = |cell: (LiveCellModel, bool)| !cell.1;
    let name = |cell: (LiveCellModel, bool)| cell.0;
    law_gather_counts_what_it_takes(cells, start, enough);
    if cells.len() == 0 {
        assert(cells.take(0).filter(usable).map_values(name) =~= Seq::empty());
        assert(cells.take(0).filter(other).map_values(name) + cells.skip(0).map_values(name)
            =~= Seq::empty());
        0
    } else {
        let before = cells.drop_last();
        let gathered = gather(before, start, enough);
        let m = before.len() as int;
        let cut = law_gather_cuts_the_list(before, start, enough);
        law_gather_counts_what_it_takes(before, start, enough);
        assert forall|k: int| 0 <= k <= m implies #[trigger] cells.take(k) == before.take(k) by {
            assert(cells.take(k) =~= before.take(k));
        }
        if gathered.total < enough {
            assert(cut == m);
            assert(before.take(m) =~= before);
            assert(cells.take(m + 1) =~= cells);
            assert(cells.filter(usable) =~= if cells.last().1 {
                before.filter(usable).push(cells.last())
            } else {
                before.filter(usable)
            });
            assert(cells.filter(other) =~= if cells.last().1 {
                before.filter(other)
            } else {
                before.filter(other).push(cells.last())
            });
            assert(gather(cells, start, enough).taken =~= cells.filter(usable).map_values(name));
            assert(before.skip(m).map_values(name) =~= Seq::empty());
            assert(gather(cells, start, enough).left =~= cells.filter(other).map_values(name)
                + cells.skip(m + 1).map_values(name));
            assert forall|k: int| 0 <= k < m + 1 implies start + capacity_sum(
                (#[trigger] cells.take(k)).filter(usable).map_values(name),
            ) < enough by {
                assert(cells.take(k) == before.take(k));
            }
            m + 1
        } else {
            assert(cells.skip(cut).map_values(name) =~= before.skip(cut).map_values(name).push(
                cells.last().0,
            ));
            assert(cells.take(cut) == before.take(cut));
            assert(gather(cells, start, enough).left =~= cells.take(cut).filter(other).map_values(
                name,
            ) + cells.skip(cut).map_values(name));
            assert forall|k: int| 0 <= k < cut implies start + capacity_sum(
                (#[trigger] cells.take(k)).filter(usable).map_values(name),
            ) < enough by {
                assert(cells.take(k) == before.take(k));
            }
            cut
        }
    }
}

} // verus!
