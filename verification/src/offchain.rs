//! The cells that are known without asking a server: made by transactions not yet on the chain,
//! and consumed by them.
use vstd::prelude::*;

use crate::table::Table;
use crate::types::{CellOutput, CellOutputModel, LiveCell, LiveCellModel, OutPoint};

verus! {

/// Why live cells could not be collected.
#[derive(Debug, PartialEq, Eq)]
pub enum CellCollectorError<E> {
    /// A request to a server failed; its error.
    Internal(E),
    /// Anything else, in words.
    Other(String),
}

/// A transaction as far as it changes which cells live.
#[derive(Debug, PartialEq, Eq)]
pub struct AppliedTransaction {
    pub hash: [u8; 32],
    pub inputs: Vec<OutPoint>,
    /// The outputs, each with its data.
    pub outputs: Vec<(CellOutput, Vec<u8>)>,
}

/// What an [`AppliedTransaction`] holds.
pub struct AppliedTransactionModel {
    pub hash: [u8; 32],
    pub inputs: Seq<OutPoint>,
    pub outputs: Seq<(CellOutputModel, Seq<u8>)>,
}

impl View for AppliedTransaction {
    type V = AppliedTransactionModel;

    open spec fn view(&self) -> AppliedTransactionModel {
        AppliedTransactionModel {
            hash: self.hash,
            inputs: self.inputs@,
            outputs: self.outputs@.map_values(|out: (CellOutput, Vec<u8>)| (out.0@, out.1@)),
        }
    }
}

impl AppliedTransactionModel {
    /// The cells that the transaction makes. They are not in a block yet.
    pub open spec fn new_cells(self) -> Seq<LiveCellModel> {
        Seq::new(
            self.outputs.len(),
            |i: int|
                LiveCellModel {
                    output: self.outputs[i].0,
                    output_data: self.outputs[i].1,
                    out_point: OutPoint { tx_hash: self.hash, index: i as u32 },
                    block_number: 0,
                    tx_index: 0,
                },
        )
    }
}

/// The cells known without asking a server.
#[derive(Debug)]
pub struct OffchainCellCollector {
    locked_cells: Table<OutPoint, ()>,
    live_cells: Vec<LiveCell>,
    max_mature_number: u64,
}

/// What an [`OffchainCellCollector`] holds: the places of the cells that must not be used, the
/// cells that may be, and the number of the last block whose cellbase is mature.
pub struct OffchainModel {
    pub locked: Set<OutPoint>,
    pub live: Seq<LiveCellModel>,
    pub max_mature_number: u64,
}

impl View for OffchainCellCollector {
    type V = OffchainModel;

    closed spec fn view(&self) -> OffchainModel {
        OffchainModel {
            locked: self.locked_cells@.dom(),
            live: crate::types::cells_model(self.live_cells@),
            max_mature_number: self.max_mature_number,
        }
    }
}

impl OffchainModel {
    /// Nothing is known.
    pub open spec fn fresh() -> OffchainModel {
        OffchainModel { locked: Set::empty(), live: Seq::empty(), max_mature_number: 0 }
    }

    /// More cells must not be used.
    pub open spec fn lock(self, out_points: Set<OutPoint>) -> OffchainModel {
        OffchainModel { locked: self.locked.union(out_points), ..self }
    }

    /// The live cells, each with whether it matches what is looked for.
    pub open spec fn candidates(self, matches: Seq<bool>) -> Seq<(LiveCellModel, bool)> {
        Seq::new(self.live.len(), |i: int| (self.live[i], matches[i]))
    }

    /// The transaction's inputs are locked and the cells it makes are live.
    pub open spec fn apply(self, tx: AppliedTransactionModel) -> OffchainModel {
        OffchainModel {
            locked: self.locked.union(tx.inputs.to_set()),
            live: self.live + tx.new_cells(),
            ..self
        }
    }
}

/// Cells split off a list, the cells that remain, and the capacity of those split off.
pub struct Split {
    pub cells: Vec<LiveCell>,
    pub rest: Vec<LiveCell>,
    pub total: u64,
}

/// The places of cells.
pub open spec fn places(cells: Seq<LiveCellModel>) -> Set<OutPoint> {
    cells.map_values(|cell: LiveCellModel| cell.out_point).to_set()
}

proof fn lemma_places_push(cells: Seq<LiveCellModel>, cell: LiveCellModel)
    ensures
        places(cells.push(cell)) == places(cells).insert(cell.out_point),
{
    let place = |cell: LiveCellModel| cell.out_point;
    assert(cells.push(cell).map_values(place) =~= cells.map_values(place).push(cell.out_point));
    lemma_set_push(cells.map_values(place), cell.out_point);
}

proof fn lemma_set_push<A>(list: Seq<A>, item: A)
    ensures
        list.push(item).to_set() == list.to_set().insert(item),
{
    assert forall|x: A|
        list.push(item).to_set().contains(x) == list.to_set().insert(item).contains(x) by {
        if list.contains(x) {
            let i = list.index_of(x);
            assert(list.push(item)[i] == x);
        }
        assert(list.push(item)[list.len() as int] == item);
        if list.push(item).contains(x) && x != item {
            let i = list.push(item).index_of(x);
            assert(list[i] == x);
        }
    }
    assert(list.push(item).to_set() =~= list.to_set().insert(item));
}

impl OffchainCellCollector {
    /// No place is locked twice.
    pub closed spec fn wf(&self) -> bool {
        self.locked_cells.wf()
    }

    /// Nothing is known.
    pub fn new() -> (offchain: OffchainCellCollector)
        ensures
            offchain.wf(),
            offchain@ == OffchainModel::fresh(),
    {
        let offchain = OffchainCellCollector {
            locked_cells: Table::new(),
            live_cells: Vec::new(),
            max_mature_number: 0,
        };
        assert(offchain@.locked =~= Set::empty());
        assert(offchain@.live =~= Seq::empty());
        offchain
    }

    /// The live cells, in the order in which they came.
    pub fn live_cells(&self) -> (cells: &Vec<LiveCell>)
        ensures
            crate::types::cells_model(cells@) == self@.live,
    {
        &self.live_cells
    }

    /// The number of the last block whose cellbase is mature.
    pub fn max_mature_number(&self) -> (number: u64)
        ensures
            number == self@.max_mature_number,
    {
        self.max_mature_number
    }

    /// Sets the number of the last block whose cellbase is mature.
    pub fn set_max_mature_number(&mut self, number: u64)
        requires
            old(self).wf(),
        ensures
            final(self).wf(),
            final(self)@ == (OffchainModel { max_mature_number: number, ..old(self)@ }),
    {
        self.max_mature_number = number;
    }

    /// Replaces the live cells.
    pub fn set_live_cells(&mut self, cells: Vec<LiveCell>)
        requires
            old(self).wf(),
        ensures
            final(self).wf(),
            final(self)@ == (OffchainModel {
                live: crate::types::cells_model(cells@),
                ..old(self)@
            }),
    {
        self.live_cells = cells;
    }

    /// Tells whether a cell must not be used.
    pub fn is_locked(&self, out_point: &OutPoint) -> (locked: bool)
        requires
            self.wf(),
        ensures
            locked == self@.locked.contains(*out_point),
    {
        self.locked_cells.contains_key(out_point)
    }

    /// The capacity that [`collect`](Self::collect) reaches, where it fits in 64 bits.
    pub fn collected_capacity(&self, matches: &Vec<bool>, min_total_capacity: u64) -> (total:
        Option<u64>)
        requires
            matches@.len() == self@.live.len(),
        ensures
            ({
                let reached = crate::gather::gather(
                    self@.candidates(matches@),
                    0,
                    min_total_capacity as int,
                ).total;
                total == (if reached <= u64::MAX {
                    Some(reached as u64)
                } else {
                    None
                })
            }),
    {
        let ghost candidates = self@.candidates(matches@);
        let ghost enough = min_total_capacity as int;
        let n: usize = self.live_cells.len();
        let mut total: u64 = 0;
        let mut i: usize = 0;
        proof {
            assert(candidates.take(0) =~= Seq::empty());
        }
        while i < n
            invariant
                i <= n,
                n == self.live_cells@.len(),
                n == matches@.len(),
                enough == min_total_capacity,
                candidates == self@.candidates(matches@),
                candidates.len() == n,
                total == crate::gather::gather(candidates.take(i as int), 0, enough).total,
            decreases n - i,
        {
            proof {
                crate::gather::lemma_gather_step(candidates, i as int, 0, enough);
                crate::gather::lemma_gather_grows(candidates, i + 1, 0, enough);
            }
            if total < min_total_capacity && matches[i] {
                match total.checked_add(self.live_cells[i].output.capacity) {
                    Some(sum) => {
                        total = sum;
                    },
                    None => {
                        return None;
                    },
                }
            }
            i += 1;
        }
        proof {
            assert(candidates.take(n as int) =~= candidates);
        }
        Some(total)
    }

    /// Splits the live cells: those that match, in order, until their capacity is enough, and the
    /// rest.
    pub fn collect(&self, matches: &Vec<bool>, min_total_capacity: u64) -> (split: Split)
        requires
            matches@.len() == self@.live.len(),
            crate::gather::gather(
                self@.candidates(matches@),
                0,
                min_total_capacity as int,
            ).total <= u64::MAX,
        ensures
            ({
                let gathered = crate::gather::gather(
                    self@.candidates(matches@),
                    0,
                    min_total_capacity as int,
                );
                &&& crate::types::cells_model(split.cells@) == gathered.taken
                &&& crate::types::cells_model(split.rest@) == gathered.left
                &&& split.total == gathered.total
            }),
    {
        let ghost candidates = self@.candidates(matches@);
        let ghost enough = min_total_capacity as int;
        let n: usize = self.live_cells.len();
        let mut cells: Vec<LiveCell> = Vec::new();
        let mut rest: Vec<LiveCell> = Vec::new();
        let mut total: u64 = 0;
        let mut i: usize = 0;
        proof {
            assert(candidates.take(0) =~= Seq::empty());
            assert(crate::types::cells_model(cells@) =~= Seq::empty());
        }
        while i < n
            invariant
                i <= n,
                n == self.live_cells@.len(),
                n == matches@.len(),
                enough == min_total_capacity,
                candidates == self@.candidates(matches@),
                candidates.len() == n,
                crate::gather::gather(candidates, 0, enough).total <= u64::MAX,
                crate::types::cells_model(cells@) == crate::gather::gather(
                    candidates.take(i as int),
                    0,
                    enough,
                ).taken,
                crate::types::cells_model(rest@) == crate::gather::gather(
                    candidates.take(i as int),
                    0,
                    enough,
                ).left,
                total == crate::gather::gather(candidates.take(i as int), 0, enough).total,
            decreases n - i,
        {
            proof {
                crate::gather::lemma_gather_step(candidates, i as int, 0, enough);
                crate::gather::lemma_gather_grows(candidates, i + 1, 0, enough);
            }
            let ghost cells_before = cells@;
            let ghost rest_before = rest@;
            let cell = self.live_cells[i].copy();
            assert(cell@ == candidates[i as int].0);
            if total < min_total_capacity && matches[i] {
                total += cell.output.capacity;
                cells.push(cell);
                assert(crate::types::cells_model(cells@) =~= crate::types::cells_model(
                    cells_before,
                ).push(cell@));
            } else {
                rest.push(cell);
                assert(crate::types::cells_model(rest@) =~= crate::types::cells_model(
                    rest_before,
                ).push(cell@));
            }
            i += 1;
        }
        proof {
            assert(candidates.take(n as int) =~= candidates);
        }
        Split { cells, rest, total }
    }

    /// Marks a cell as one that must not be used.
    pub fn lock_cell<E>(&mut self, out_point: OutPoint) -> (result: Result<
        (),
        CellCollectorError<E>,
    >)
        requires
            old(self).wf(),
        ensures
            final(self).wf(),
            result is Ok,
            final(self)@ == old(self)@.lock(set![out_point]),
    {
        self.locked_cells.insert(out_point, ());
        assert(self@.locked =~= old(self)@.locked.union(set![out_point]));
        Ok(())
    }

    /// Marks cells as ones that must not be used.
    pub fn lock_cells(&mut self, cells: &Vec<LiveCell>)
        requires
            old(self).wf(),
        ensures
            final(self).wf(),
            final(self)@ == old(self)@.lock(places(crate::types::cells_model(cells@))),
    {
        let n: usize = cells.len();
        let mut i: usize = 0;
        let ghost models = crate::types::cells_model(cells@);
        proof {
            assert(places(models.take(0)) =~= Set::empty());
            assert(self@.locked =~= self@.locked.union(Set::empty()));
        }
        while i < n
            invariant
                i <= n,
                n == cells@.len(),
                models == crate::types::cells_model(cells@),
                self.wf(),
                self@ == old(self)@.lock(places(models.take(i as int))),
            decreases n - i,
        {
            self.locked_cells.insert(cells[i].out_point, ());
            proof {
                assert(models.take(i + 1) =~= models.take(i as int).push(models[i as int]));
                lemma_places_push(models.take(i as int), models[i as int]);
                assert(self@.locked =~= old(self)@.locked.union(places(models.take(i + 1))));
            }
            i += 1;
        }
        proof {
            assert(models.take(n as int) =~= models);
        }
    }

    /// Takes a transaction into account: its inputs must not be used any more, and the cells it
    /// makes are live.
    pub fn apply_tx<E>(&mut self, tx: AppliedTransaction) -> (result: Result<
        (),
        CellCollectorError<E>,
    >)
        requires
            old(self).wf(),
            tx@.outputs.len() <= u32::MAX,
        ensures
            final(self).wf(),
            result is Ok,
            final(self)@ == old(self)@.apply(tx@),
    {
        let ghost inputs = tx.inputs@;
        let mut i: usize = 0;
        proof {
            assert(inputs.take(0).to_set() =~= Set::empty());
            assert(self@.locked =~= self@.locked.union(Set::empty()));
        }
        while i < tx.inputs.len()
            invariant
                i <= tx.inputs@.len(),
                inputs == tx.inputs@,
                self.wf(),
                self@ == old(self)@.lock(inputs.take(i as int).to_set()),
            decreases tx.inputs@.len() - i,
        {
            self.locked_cells.insert(tx.inputs[i], ());
            proof {
                assert(inputs.take(i + 1) =~= inputs.take(i as int).push(inputs[i as int]));
                lemma_set_push(inputs.take(i as int), inputs[i as int]);
                assert(self@.locked =~= old(self)@.locked.union(inputs.take(i + 1).to_set()));
            }
            i += 1;
        }
        proof {
            assert(inputs.take(i as int) =~= inputs);
        }
        let ghost made = tx@.new_cells();
        let mut j: usize = 0;
        proof {
            assert(self@.live =~= old(self)@.live + made.take(0));
        }
        while j < tx.outputs.len()
            invariant
                j <= tx.outputs@.len() <= u32::MAX,
                made == tx@.new_cells(),
                made.len() == tx.outputs@.len(),
                self.wf(),
                self@ == (OffchainModel {
                    live: old(self)@.live + made.take(j as int),
                    ..old(self)@.lock(inputs.to_set())
                }),
            decreases tx.outputs@.len() - j,
        {
            let cell = LiveCell {
                output: tx.outputs[j].0.copy(),
                output_data: crate::bytes::copy_bytes(&tx.outputs[j].1),
                out_point: OutPoint { tx_hash: tx.hash, index: j as u32 },
                block_number: 0,
                tx_index: 0,
            };
            let ghost before = self.live_cells@;
            assert(cell@ == made[j as int]);
            self.live_cells.push(cell);
            proof {
                assert(crate::types::cells_model(self.live_cells@) =~= crate::types::cells_model(
                    before,
                ).push(cell@));
                assert(made.take(j + 1) =~= made.take(j as int).push(made[j as int]));
                assert(self@.live =~= old(self)@.live + made.take(j + 1));
            }
            j += 1;
        }
        proof {
            assert(made.take(j as int) =~= made);
        }
        Ok(())
    }

    /// Forgets every cell, live or locked.
    pub fn reset(&mut self)
        requires
            old(self).wf(),
        ensures
            final(self).wf(),
            final(self)@ == (OffchainModel {
                max_mature_number: old(self)@.max_mature_number,
                ..OffchainModel::fresh()
            }),
    {
        self.locked_cells = Table::new();
        self.live_cells = Vec::new();
        assert(self@.locked =~= Set::empty());
        assert(self@.live =~= Seq::empty());
    }
}

/// A transaction is told by its hash, its inputs and its outputs with their data, in order.
pub proof fn law_an_applied_transaction_is_its_fields(tx: AppliedTransaction, at: int)
    ensures
        tx@.hash == tx.hash,
        tx@.inputs == tx.inputs@,
        tx@.outputs.len() == tx.outputs@.len(),
        0 <= at < tx.outputs@.len() ==> tx@.outputs[at].0 == tx.outputs@[at].0@ && tx@.outputs[at].1
            == tx.outputs@[at].1@,
{
}

/// A place is one of the places of cells exactly where one of the cells stands there.
pub proof fn law_places_are_those_of_the_cells(cells: Seq<LiveCellModel>, place: OutPoint)
    ensures
        places(cells).contains(place) <==> exists|i: int|
            0 <= i < cells.len() && (#[trigger] cells[i]).out_point == place,
{
    let mapped = cells.map_values(|cell: LiveCellModel| cell.out_point);
    if places(cells).contains(place) {
        let i = mapped.index_of(place);
        assert(cells[i].out_point == place);
    }
    if exists|i: int| 0 <= i < cells.len() && (#[trigger] cells[i]).out_point == place {
        let i = choose|i: int| 0 <= i < cells.len() && (#[trigger] cells[i]).out_point == place;
        assert(mapped[i] == place);
    }
}

/// Locking adds the places to those locked, and changes nothing else.
pub proof fn law_locking_adds_the_places(
    offchain: OffchainModel,
    out_points: Set<OutPoint>,
    place: OutPoint,
)
    ensures
        offchain.lock(out_points).locked.contains(place) <==> offchain.locked.contains(place)
            || out_points.contains(place),
        offchain.lock(out_points).live == offchain.live,
        offchain.lock(out_points).max_mature_number == offchain.max_mature_number,
{
}

/// At the beginning no cell is known and none is locked.
pub proof fn law_at_first_nothing_is_known(place: OutPoint)
    ensures
        OffchainModel::fresh().live.len() == 0,
        !OffchainModel::fresh().locked.contains(place),
        OffchainModel::fresh().max_mature_number == 0,
{
}

/// A known cell is looked at together with whether it matches.
pub proof fn law_a_known_cell_is_usable_where_it_matches(
    offchain: OffchainModel,
    matches: Seq<bool>,
    at: int,
)
    ensures
        offchain.candidates(matches).len() == offchain.live.len(),
        0 <= at < offchain.live.len() ==> offchain.candidates(matches)[at] == (
            offchain.live[at],
            matches[at],
        ),
{
}

/// Taking a transaction into account locks exactly its inputs besides what was locked.
pub proof fn law_applying_locks_the_inputs(
    offchain: OffchainModel,
    tx: AppliedTransactionModel,
    place: OutPoint,
)
    ensures
        offchain.apply(tx).locked.contains(place) <==> offchain.locked.contains(place)
            || tx.inputs.contains(place),
        offchain.apply(tx).max_mature_number == offchain.max_mature_number,
{
}

/// Taking a transaction into account keeps the cells known before, in order, and adds one cell for
/// each output, with that output, its data and its place.
pub proof fn law_applying_adds_the_outputs(
    offchain: OffchainModel,
    tx: AppliedTransactionModel,
    at: int,
)
    requires
        tx.outputs.len() <= u32::MAX,
    ensures
        ({
            let live = offchain.apply(tx).live;
            let known = offchain.live.len() as int;
            &&& live.len() == known + tx.outputs.len()
            &&& 0 <= at < known ==> live[at] == offchain.live[at]
            &&& 0 <= at < tx.outputs.len() ==> {
                &&& live[known + at].output == tx.outputs[at].0
                &&& live[known + at].output_data == tx.outputs[at].1
                &&& live[known + at].out_point.tx_hash == tx.hash
                &&& live[known + at].out_point.index == at
                &&& live[known + at].block_number == 0
                &&& live[known + at].tx_index == 0
            }
        }),
{
}

} // verus!
