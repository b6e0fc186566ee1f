use ckb_default_impls::chain_check::{ChainCheck, ChainStep, Tip};
use ckb_default_impls::collector::{
    Candidate, CellQueryOptions, CollectStep, DefaultCellCollector, Page, PageRequest, Progress,
    QueryOrder,
};
use ckb_default_impls::offchain::{AppliedTransaction, CellCollectorError, OffchainCellCollector};
use ckb_default_impls::types::{CellOutput, LiveCell, OutPoint, Script};

type Error = CellCollectorError<u8>;

const INCONSISTENT: &str =
    "ckb-indexer server inconsistent with currently connected ckb node or not synced!";

fn place(hash: u8, index: u32) -> OutPoint {
    OutPoint {
        tx_hash: [hash; 32],
        index,
    }
}

fn output(capacity: u64) -> CellOutput {
    CellOutput {
        capacity,
        lock: Script {
            code_hash: [1; 32],
            hash_type: 1,
            args: vec![1],
        },
        type_: None,
    }
}

fn cell(hash: u8, index: u32, capacity: u64) -> LiveCell {
    LiveCell {
        output: output(capacity),
        output_data: vec![hash],
        out_point: place(hash, index),
        block_number: 0,
        tx_index: 0,
    }
}

fn listed(hash: u8, index: u32, capacity: u64) -> LiveCell {
    LiveCell {
        block_number: 100,
        tx_index: 3,
        ..cell(hash, index, capacity)
    }
}

fn candidate(hash: u8, capacity: u64, matched: bool) -> Candidate {
    Candidate {
        cell: listed(hash, 0, capacity),
        matched,
    }
}

fn page(objects: Vec<Candidate>, cursor: u8) -> Result<Page, u8> {
    Ok(Page {
        objects,
        last_cursor: vec![cursor],
    })
}

fn query(min_total_capacity: u64) -> CellQueryOptions {
    CellQueryOptions {
        order: QueryOrder::Asc,
        limit: None,
        min_total_capacity,
    }
}

/// A transaction that consumes one cell and makes cells of these capacities.
fn applied(hash: u8, input: OutPoint, capacities: &[u64]) -> AppliedTransaction {
    AppliedTransaction {
        hash: [hash; 32],
        inputs: vec![input],
        outputs: capacities
            .iter()
            .map(|capacity| (output(*capacity), vec![hash]))
            .collect(),
    }
}

fn collector_with(capacities: &[u64]) -> DefaultCellCollector {
    let mut collector = DefaultCellCollector::new();
    let result: Result<(), Error> = collector.apply_tx(applied(1, place(0xee, 0), capacities));
    assert_eq!(result, Ok(()));
    collector
}

fn begin(
    collector: &mut DefaultCellCollector,
    query: &CellQueryOptions,
    matches: &[bool],
    apply: bool,
) -> CollectStep<u8> {
    collector.collect_live_cells(query, Ok(9), &matches.to_vec(), apply)
}

fn check_chain(step: CollectStep<u8>) -> Progress {
    match step {
        CollectStep::CheckChain(progress) => progress,
        other => panic!("{:?}", other),
    }
}

fn ask_page(step: CollectStep<u8>) -> Progress {
    match step {
        CollectStep::AskPage(progress) => progress,
        other => panic!("{:?}", other),
    }
}

fn done(step: CollectStep<u8>) -> Result<(Vec<LiveCell>, u64), Error> {
    match step {
        CollectStep::Done(result) => result,
        other => panic!("{:?}", other),
    }
}

fn first_page(
    collector: &mut DefaultCellCollector,
    query: &CellQueryOptions,
    matches: &[bool],
    apply: bool,
) -> Progress {
    let progress = check_chain(begin(collector, query, matches, apply));
    ask_page(collector.after_chain_check(query, progress, Ok(()), apply))
}

#[test]
fn applied_transaction_makes_live_cells_and_locks_inputs() {
    let collector = collector_with(&[10, 20]);
    let offchain = collector.offchain();
    assert_eq!(*offchain.live_cells(), vec![cell(1, 0, 10), cell(1, 1, 20)]);
    assert!(offchain.is_locked(&place(0xee, 0)));
    assert!(!offchain.is_locked(&place(0xee, 1)));
    assert!(!offchain.is_locked(&place(1, 0)));
}

#[test]
fn known_cells_are_enough() {
    let mut collector = collector_with(&[10, 20, 30, 40]);
    let step = begin(&mut collector, &query(45), &[true, false, true, true], true);
    assert_eq!(
        done(step),
        Ok((vec![cell(1, 0, 10), cell(1, 2, 30), cell(1, 3, 40)], 80))
    );
    let offchain = collector.offchain();
    assert_eq!(*offchain.live_cells(), vec![cell(1, 1, 20)]);
    assert_eq!(offchain.max_mature_number(), 9);
    assert!(offchain.is_locked(&place(1, 0)));
    assert!(!offchain.is_locked(&place(1, 1)));
    assert!(offchain.is_locked(&place(1, 2)));
    assert!(offchain.is_locked(&place(1, 3)));
}

#[test]
fn no_cell_in_excess_of_known_ones() {
    let mut collector = collector_with(&[10, 20, 30]);
    assert_eq!(
        done(begin(&mut collector, &query(10), &[true, true, true], true)),
        Ok((vec![cell(1, 0, 10)], 10))
    );
    assert_eq!(
        *collector.offchain().live_cells(),
        vec![cell(1, 1, 20), cell(1, 2, 30)]
    );
}

#[test]
fn nothing_is_enough_for_no_capacity() {
    let mut collector = collector_with(&[10]);
    assert_eq!(
        done(begin(&mut collector, &query(0), &[true], true)),
        Ok((vec![], 0))
    );
    assert_eq!(collector.offchain().live_cells().len(), 1);
}

#[test]
fn changes_are_not_kept_unless_asked() {
    let mut collector = collector_with(&[10, 20]);
    for _ in 0..2 {
        assert_eq!(
            done(begin(&mut collector, &query(5), &[true, true], false)),
            Ok((vec![cell(1, 0, 10)], 10))
        );
    }
    assert_eq!(collector.offchain().live_cells().len(), 2);
    assert!(!collector.offchain().is_locked(&place(1, 0)));
    assert_eq!(collector.offchain().max_mature_number(), 9);
}

#[test]
fn discarded_collection_can_be_repeated() {
    let mut collector = collector_with(&[10]);
    let query = query(100);
    let objects = || vec![candidate(2, 20, true), candidate(3, 90, true)];
    let mut collected = Vec::new();
    for apply in [false, false, true] {
        let progress = first_page(&mut collector, &query, &[true], apply);
        collected.push(done(collector.take_page(&query, progress, page(objects(), 7), apply)));
    }
    assert_eq!(collected[0], collected[1]);
    assert_eq!(collected[0], collected[2]);
    assert_eq!(collected[0].as_ref().unwrap().1, 120);

    let locked: Result<(), Error> = collector.lock_cell(place(4, 0));
    assert_eq!(locked, Ok(()));
    let progress = first_page(&mut collector, &query, &[], false);
    let mut again = objects();
    again.push(candidate(4, 100, true));
    again.push(candidate(5, 100, true));
    assert_eq!(
        done(collector.take_page(&query, progress, page(again, 7), false)),
        Ok((vec![listed(5, 0, 100)], 100))
    );
}

#[test]
fn kept_cells_are_not_collected_again() {
    let mut collector = collector_with(&[10, 20]);
    assert_eq!(
        done(begin(&mut collector, &query(5), &[true, true], true)),
        Ok((vec![cell(1, 0, 10)], 10))
    );
    assert_eq!(
        done(begin(&mut collector, &query(5), &[true], true)),
        Ok((vec![cell(1, 1, 20)], 20))
    );
    let progress = first_page(&mut collector, &query(5), &[], true);
    let again = Ok(Page {
        objects: vec![
            Candidate {
                cell: listed(1, 0, 10),
                matched: true,
            },
            Candidate {
                cell: listed(1, 1, 20),
                matched: true,
            },
        ],
        last_cursor: vec![],
    });
    let step = collector.take_page(&query(5), progress, again, true);
    assert_eq!(ask_page(step).cells, vec![]);
}

#[test]
fn mature_number_cannot_be_had() {
    let mut collector = collector_with(&[10]);
    let step = collector.collect_live_cells(&query(5), Err(4), &vec![], true);
    assert_eq!(done(step), Err(CellCollectorError::Internal(4)));
    assert_eq!(collector.offchain().live_cells().len(), 1);
    assert_eq!(collector.offchain().max_mature_number(), 0);
}

#[test]
fn failed_chain_check_ends_the_collection() {
    let mut collector = collector_with(&[10]);
    let progress = check_chain(begin(&mut collector, &query(50), &[true], true));
    assert_eq!(progress.cells, vec![cell(1, 0, 10)]);
    assert_eq!(progress.total_capacity, 10);
    let failure: Result<(), Error> = Err(CellCollectorError::Other("behind".to_string()));
    let step = collector.after_chain_check(&query(50), progress, failure, true);
    assert_eq!(
        done(step),
        Err(CellCollectorError::Other("behind".to_string()))
    );
    assert_eq!(collector.offchain().live_cells().len(), 1);
    assert!(!collector.offchain().is_locked(&place(1, 0)));
}

#[test]
fn pages_until_the_capacity_is_enough() {
    let mut collector = collector_with(&[10]);
    let result: Result<(), Error> = collector.lock_cell(place(4, 0));
    assert_eq!(result, Ok(()));
    let query = query(100);
    let progress = first_page(&mut collector, &query, &[true], true);
    assert_eq!(
        progress.request(&query),
        PageRequest {
            order: QueryOrder::Asc,
            limit: 128,
            after_cursor: None
        }
    );
    let objects = vec![
        candidate(2, 20, true),
        candidate(3, 1000, false),
        candidate(4, 1000, true),
    ];
    let progress = ask_page(collector.take_page(&query, progress, page(objects, 7), true));
    assert_eq!(progress.total_capacity, 30);
    assert_eq!(
        progress.request(&query),
        PageRequest {
            order: QueryOrder::Asc,
            limit: 256,
            after_cursor: Some(vec![7])
        }
    );
    let objects = vec![
        candidate(5, 70, true),
        candidate(6, 1, true),
    ];
    let step = collector.take_page(&query, progress, page(objects, 8), true);
    assert_eq!(
        done(step),
        Ok((vec![cell(1, 0, 10), listed(2, 0, 20), listed(5, 0, 70)], 100))
    );
    let offchain = collector.offchain();
    assert!(offchain.live_cells().is_empty());
    for hash in [1, 2, 5] {
        assert!(offchain.is_locked(&place(hash, 0)));
    }
    assert!(!offchain.is_locked(&place(3, 0)));
    assert!(!offchain.is_locked(&place(6, 0)));
}

#[test]
fn empty_page_ends_the_collection() {
    let mut collector = collector_with(&[10]);
    let progress = first_page(&mut collector, &query(100), &[true], true);
    let step = collector.take_page(&query(100), progress, page(vec![], 1), true);
    assert_eq!(done(step), Ok((vec![cell(1, 0, 10)], 10)));
    assert!(collector.offchain().is_locked(&place(1, 0)));
    assert!(collector.offchain().live_cells().is_empty());
}

#[test]
fn failed_page_ends_the_collection() {
    let mut collector = collector_with(&[10]);
    let progress = first_page(&mut collector, &query(100), &[true], true);
    let step = collector.take_page(&query(100), progress, Err(8), true);
    assert_eq!(done(step), Err(CellCollectorError::Internal(8)));
    assert!(!collector.offchain().is_locked(&place(1, 0)));
    assert_eq!(collector.offchain().live_cells().len(), 1);
}

#[test]
fn page_sizes_double_up_to_a_bound() {
    for (limit, sizes) in [
        (None, vec![128, 256, 512, 1024, 2048, 4096, 4096]),
        (Some(3000), vec![3000, 6000, 6000]),
        (Some(4095), vec![4095, 8190, 8190]),
        (Some(5000), vec![5000, 5000]),
        (Some(0), vec![0, 0]),
        (Some(u32::MAX), vec![u32::MAX, u32::MAX]),
    ] {
        let query = CellQueryOptions {
            order: QueryOrder::Desc,
            limit,
            min_total_capacity: 1000,
        };
        let mut collector = DefaultCellCollector::new();
        let mut progress = first_page(&mut collector, &query, &[], false);
        for size in sizes {
            let request = progress.request(&query);
            assert_eq!(request.limit, size);
            assert_eq!(request.order, QueryOrder::Desc);
            let objects = vec![candidate(2, 1, false)];
            progress = ask_page(collector.take_page(&query, progress, page(objects, 1), false));
        }
    }
}

#[test]
fn capacity_beyond_sixty_four_bits_is_noticed() {
    let mut collector = collector_with(&[u64::MAX - 1, 1, 1]);
    let matches = vec![true, true, true];
    let offchain = collector.offchain();
    assert_eq!(
        offchain.collected_capacity(&matches, u64::MAX),
        Some(u64::MAX)
    );
    assert_eq!(offchain.collected_capacity(&vec![false, true, true], 9), Some(2));
    let progress = check_chain(begin(&mut collector, &query(u64::MAX), &[true, false, false], false));
    let over = page(vec![candidate(2, 2, true)], 1).unwrap();
    assert_eq!(
        collector.page_capacity(&query(u64::MAX), &progress, &over),
        None
    );
    let locked: Result<(), Error> = collector.lock_cell(place(2, 0));
    assert_eq!(locked, Ok(()));
    assert_eq!(
        collector.page_capacity(&query(u64::MAX), &progress, &over),
        Some(u64::MAX - 1)
    );
}

#[test]
fn known_capacity_beyond_sixty_four_bits_is_noticed() {
    let collector = collector_with(&[u64::MAX - 1, 2]);
    assert_eq!(
        collector
            .offchain()
            .collected_capacity(&vec![true, true], u64::MAX),
        None
    );
}

#[test]
fn nothing_changes_where_the_capacity_does_not_fit() {
    let mut collector = collector_with(&[u64::MAX - 1, 2]);
    let all = query(u64::MAX);
    let matches = vec![true, true];
    let refused = collector.try_collect_live_cells::<u8>(&all, Ok(9), &matches, true);
    assert_eq!(refused, None);
    assert_eq!(collector.offchain().live_cells().len(), 2);
    assert_eq!(collector.offchain().max_mature_number(), 0);
    assert!(!collector.offchain().is_locked(&place(1, 0)));

    let failed = collector.try_collect_live_cells(&all, Err(3u8), &vec![], true);
    assert_eq!(
        failed.map(done),
        Some(Err(CellCollectorError::Internal(3)))
    );

    let step = collector.try_collect_live_cells::<u8>(&all, Ok(9), &vec![true, false], true);
    let progress = check_chain(step.unwrap());
    let progress = ask_page(collector.after_chain_check::<u8>(&all, progress, Ok(()), true));
    let over = page(vec![candidate(2, 2, true)], 1);
    assert_eq!(collector.try_take_page(&all, progress, over, true), None);
    assert_eq!(collector.offchain().live_cells().len(), 2);
    assert!(!collector.offchain().is_locked(&place(1, 0)));
}

#[test]
fn steps_where_the_capacity_fits() {
    let mut collector = collector_with(&[10]);
    let query = query(30);
    let step = collector.try_collect_live_cells::<u8>(&query, Ok(9), &vec![true], true);
    let progress = check_chain(step.unwrap());
    let progress = ask_page(collector.after_chain_check::<u8>(&query, progress, Ok(()), true));
    let listed_page = page(vec![candidate(2, 20, true), candidate(3, 5, true)], 1);
    let step = collector.try_take_page(&query, progress, listed_page, true);
    assert_eq!(
        done(step.unwrap()),
        Ok((vec![cell(1, 0, 10), listed(2, 0, 20)], 30))
    );
    assert!(collector.offchain().is_locked(&place(2, 0)));
}

#[test]
fn cells_without_capacity_count_as_collected() {
    let mut collector = collector_with(&[0, 10, 0]);
    assert_eq!(
        done(begin(&mut collector, &query(10), &[true, true, true], false)),
        Ok((vec![cell(1, 0, 0), cell(1, 1, 10)], 10))
    );
}

#[test]
fn reset_forgets_all_cells() {
    let mut collector = collector_with(&[10]);
    begin(&mut collector, &query(5), &[true], true);
    collector.reset();
    assert!(collector.offchain().live_cells().is_empty());
    assert!(!collector.offchain().is_locked(&place(1, 0)));
    assert!(!collector.offchain().is_locked(&place(0xee, 0)));
    assert_eq!(collector.offchain().max_mature_number(), 9);
}

#[test]
fn locking_commutes() {
    let mut one = OffchainCellCollector::new();
    let mut other = OffchainCellCollector::new();
    let results: Vec<Result<(), Error>> = vec![
        one.lock_cell(place(1, 0)),
        one.lock_cell(place(2, 0)),
        one.lock_cell(place(2, 0)),
        other.lock_cell(place(2, 0)),
        other.lock_cell(place(1, 0)),
    ];
    assert!(results.into_iter().all(|result| result == Ok(())));
    for hash in [1, 2, 3] {
        assert_eq!(
            one.is_locked(&place(hash, 0)),
            other.is_locked(&place(hash, 0))
        );
    }
}

fn tip(hash: u8, block_number: u64) -> Tip {
    Tip {
        block_hash: [hash; 32],
        block_number,
    }
}

fn begin_check(tip_header: Tip) -> ChainCheck {
    match DefaultCellCollector::check_ckb_chain::<u8>(Ok(tip_header)) {
        ChainStep::Poll {
            wait_millis: 0,
            check,
        } => check,
        other => panic!("{:?}", other),
    }
}

fn finish(step: ChainStep<u8>) -> (u64, Result<(), Error>) {
    match step {
        ChainStep::Finish {
            wait_millis,
            result,
        } => (wait_millis, result),
        other => panic!("{:?}", other),
    }
}

#[test]
fn node_without_a_tip() {
    assert_eq!(
        finish(DefaultCellCollector::check_ckb_chain(Err(3))),
        (0, Err(CellCollectorError::Internal(3)))
    );
}

#[test]
fn indexer_on_the_tip() {
    assert_eq!(
        finish(begin_check(tip(1, 5)).poll(Ok(Some(tip(1, 5))))),
        (0, Ok(()))
    );
}

#[test]
fn indexer_on_another_chain() {
    for answer in [tip(2, 5), tip(1, 6), tip(2, 6)] {
        assert_eq!(
            finish(begin_check(tip(1, 5)).poll(Ok(Some(answer)))),
            (0, Err(CellCollectorError::Other(INCONSISTENT.to_string())))
        );
    }
}

#[test]
fn indexer_without_a_tip() {
    assert_eq!(
        finish(begin_check(tip(1, 5)).poll(Ok(None))),
        (
            0,
            Err(CellCollectorError::Other(
                "ckb-indexer server not synced".to_string()
            ))
        )
    );
}

#[test]
fn indexer_that_fails() {
    assert_eq!(
        finish(begin_check(tip(1, 5)).poll(Err(6))),
        (0, Err(CellCollectorError::Internal(6)))
    );
}

#[test]
fn indexer_that_never_catches_up() {
    let mut check = begin_check(tip(1, 5));
    let mut waited = 0;
    let mut answers = 0;
    loop {
        answers += 1;
        match check.poll::<u8>(Ok(Some(tip(1, 4)))) {
            ChainStep::Poll {
                wait_millis,
                check: next,
            } => {
                waited += wait_millis;
                check = next;
            }
            ChainStep::Finish {
                wait_millis,
                result,
            } => {
                waited += wait_millis;
                assert_eq!(
                    result,
                    Err(CellCollectorError::Other(INCONSISTENT.to_string()))
                );
                break;
            }
        }
    }
    assert_eq!(answers, 10);
    assert_eq!(waited, 500);
}

#[test]
fn indexer_that_catches_up_late() {
    let mut check = begin_check(tip(1, 5));
    for number in 0..9 {
        match check.poll::<u8>(Ok(Some(tip(9, number / 2)))) {
            ChainStep::Poll {
                wait_millis: 50,
                check: next,
            } => check = next,
            other => panic!("{:?}", other),
        }
    }
    assert_eq!(finish(check.poll(Ok(Some(tip(1, 5))))), (0, Ok(())));
}
