//! Decides whether the indexer follows the node: it is asked for its tip a few times, with a pause
//! after each answer that lags behind.
use vstd::prelude::*;

use crate::bytes::same_array;
use crate::offchain::CellCollectorError;

verus! {

/// How many answers of the indexer may lag behind.
pub const MAX_POLLS: u32 = 10;

/// The pause after an answer that lags behind, in milliseconds.
pub const POLL_INTERVAL_MILLIS: u64 = 50;

/// The last block that a server knows.
#[derive(Clone, Copy, Debug, PartialEq, Eq)]
pub struct Tip {
    pub block_hash: [u8; 32],
    pub block_number: u64,
}

/// A check that goes on: the node's tip, and how many more answers may come.
#[derive(Clone, Copy, Debug, PartialEq, Eq)]
pub struct ChainCheck {
    pub tip: Tip,
    pub retry: u32,
}

/// How a check ends.
pub enum ChainVerdict<E> {
    /// The indexer's tip is the node's.
    Synced,
    /// The indexer is on another chain, or never caught up.
    Inconsistent,
    /// The indexer knows no block.
    NotSynced,
    /// A request failed.
    Failed(E),
}

/// What one answer leads to: after a pause, another request or the end.
pub enum ChainMove<E> {
    Poll { wait_millis: nat, check: ChainCheck },
    Finish { wait_millis: nat, verdict: ChainVerdict<E> },
}

/// What to do next: after a pause, ask the indexer for its tip, or end with a result.
#[derive(Debug, PartialEq, Eq)]
pub enum ChainStep<E> {
    Poll { wait_millis: u64, check: ChainCheck },
    Finish { wait_millis: u64, result: Result<(), CellCollectorError<E>> },
}

impl<E> ChainVerdict<E> {
    /// The result that a verdict stands for.
    pub open spec fn is_result(self, result: Result<(), CellCollectorError<E>>) -> bool {
        match self {
            ChainVerdict::Synced => result is Ok,
            ChainVerdict::Inconsistent => result matches Err(CellCollectorError::Other(text))
                && text@
                == "ckb-indexer server inconsistent with currently connected ckb node or not synced!"@,
            ChainVerdict::NotSynced => result matches Err(CellCollectorError::Other(text)) && text@
                == "ckb-indexer server not synced"@,
            ChainVerdict::Failed(error) => result == Err::<(), CellCollectorError<E>>(
                CellCollectorError::Internal(error),
            ),
        }
    }
}

impl<E> ChainMove<E> {
    /// The step that a move stands for.
    pub open spec fn is_step(self, step: ChainStep<E>) -> bool {
        match self {
            ChainMove::Poll { wait_millis, check } => step matches ChainStep::Poll {
                wait_millis: millis,
                check: next,
            } && millis == wait_millis && next == check,
            ChainMove::Finish { wait_millis, verdict } => step matches ChainStep::Finish {
                wait_millis: millis,
                result,
            } && millis == wait_millis && verdict.is_result(result),
        }
    }
}

impl ChainCheck {
    /// The check that begins with the node's tip.
    pub open spec fn fresh(tip: Tip) -> ChainCheck {
        ChainCheck { tip, retry: MAX_POLLS }
    }

    /// More answers may come.
    pub open spec fn wf(self) -> bool {
        0 < self.retry <= MAX_POLLS
    }

    /// The indexer is behind the node.
    pub open spec fn lags(self, answer: Tip) -> bool {
        answer.block_number < self.tip.block_number
    }

    /// What an answer of the indexer leads to.
    pub open spec fn after<E>(self, answer: Result<Option<Tip>, E>) -> ChainMove<E> {
        match answer {
            Err(error) => ChainMove::Finish {
                wait_millis: 0,
                verdict: ChainVerdict::Failed(error),
            },
            Ok(None) => ChainMove::Finish { wait_millis: 0, verdict: ChainVerdict::NotSynced },
            Ok(Some(answer)) => if self.lags(answer) {
                if self.retry > 1 {
                    ChainMove::Poll {
                        wait_millis: POLL_INTERVAL_MILLIS as nat,
                        check: ChainCheck { tip: self.tip, retry: (self.retry - 1) as u32 },
                    }
                } else {
                    ChainMove::Finish {
                        wait_millis: POLL_INTERVAL_MILLIS as nat,
                        verdict: ChainVerdict::Inconsistent,
                    }
                }
            } else if answer == self.tip {
                ChainMove::Finish { wait_millis: 0, verdict: ChainVerdict::Synced }
            } else {
                ChainMove::Finish { wait_millis: 0, verdict: ChainVerdict::Inconsistent }
            },
        }
    }

    /// Takes an answer of the indexer and says what to do next.
    pub fn poll<E>(self, answer: Result<Option<Tip>, E>) -> (step: ChainStep<E>)
        requires
            self.wf(),
        ensures
            self.after(answer).is_step(step),
            step matches ChainStep::Poll { wait_millis: _, check } ==> check.wf(),
    {
        match answer {
            Err(error) => ChainStep::Finish {
                wait_millis: 0,
                result: Err(CellCollectorError::Internal(error)),
            },
            Ok(None) => ChainStep::Finish {
                wait_millis: 0,
                result: Err(
                    CellCollectorError::Other("ckb-indexer server not synced".to_owned()),
                ),
            },
            Ok(Some(answer)) => {
                if self.tip.block_number > answer.block_number {
                    if self.retry > 1 {
                        ChainStep::Poll {
                            wait_millis: POLL_INTERVAL_MILLIS,
                            check: ChainCheck { tip: self.tip, retry: self.retry - 1 },
                        }
                    } else {
                        ChainStep::Finish {
                            wait_millis: POLL_INTERVAL_MILLIS,
                            result: Err(Self::inconsistent()),
                        }
                    }
                } else if same_array(&self.tip.block_hash, &answer.block_hash)
                    && self.tip.block_number == answer.block_number {
                    ChainStep::Finish { wait_millis: 0, result: Ok(()) }
                } else {
                    ChainStep::Finish { wait_millis: 0, result: Err(Self::inconsistent()) }
                }
            },
        }
    }

    fn inconsistent<E>() -> (error: CellCollectorError<E>)
        ensures
            ChainVerdict::<E>::Inconsistent.is_result(Err(error)),
    {
        CellCollectorError::Other(
            "ckb-indexer server inconsistent with currently connected ckb node or not synced!".to_owned(),
        )
    }
}

/// A check from some point on: the requests made, the pauses together, and how it ended.
pub struct ChainRun<E> {
    pub polls: nat,
    pub waited_millis: nat,
    /// `None` where the answers run out before the check ends.
    pub verdict: Option<ChainVerdict<E>>,
}

/// A check that gets these answers, one after the other.
pub open spec fn chain_run<E>(check: ChainCheck, answers: Seq<Result<Option<Tip>, E>>) -> ChainRun<
    E,
>
    decreases answers.len(),
{
    if answers.len() == 0 {
        ChainRun { polls: 0, waited_millis: 0, verdict: None }
    } else {
        match check.after(answers[0]) {
            ChainMove::Finish { wait_millis, verdict } => ChainRun {
                polls: 1,
                waited_millis: wait_millis,
                verdict: Some(verdict),
            },
            ChainMove::Poll { wait_millis, check } => {
                let rest = chain_run(check, answers.drop_first());
                ChainRun {
                    polls: rest.polls + 1,
                    waited_millis: rest.waited_millis + wait_millis,
                    verdict: rest.verdict,
                }
            },
        }
    }
}

/// The answer lags behind the node's tip.
pub open spec fn lagging<E>(check: ChainCheck, answer: Result<Option<Tip>, E>) -> bool {
    answer matches Ok(Some(tip)) && check.lags(tip)
}

/// A check asks no more often than it may, pauses no longer than that many pauses, and ends once
/// as many answers came.
pub proof fn law_chain_check_ends<E>(check: ChainCheck, answers: Seq<Result<Option<Tip>, E>>)
    requires
        check.wf(),
    ensures
        chain_run(check, answers).polls <= check.retry,
        chain_run(check, answers).waited_millis <= check.retry * POLL_INTERVAL_MILLIS,
        answers.len() >= check.retry ==> chain_run(check, answers).verdict is Some,
    decreases answers.len(),
{
    if answers.len() > 0 {
        if let ChainMove::Poll { wait_millis: _, check: next } = check.after(answers[0]) {
            law_chain_check_ends(next, answers.drop_first());
        }
    }
}

/// A check that begins afresh asks ten times at most, with half a second of pauses at most.
pub proof fn law_chain_check_takes_half_a_second<E>(
    tip: Tip,
    answers: Seq<Result<Option<Tip>, E>>,
)
    ensures
        chain_run(ChainCheck::fresh(tip), answers).polls <= 10,
        chain_run(ChainCheck::fresh(tip), answers).waited_millis <= 500,
        answers.len() >= 10 ==> chain_run(ChainCheck::fresh(tip), answers).verdict is Some,
{
    law_chain_check_ends(ChainCheck::fresh(tip), answers);
}

/// Where every answer lags behind, the check pauses after each of them and then fails.
pub proof fn law_chain_check_fails_when_all_answers_lag<E>(
    check: ChainCheck,
    answers: Seq<Result<Option<Tip>, E>>,
)
    requires
        check.wf(),
        answers.len() >= check.retry,
        forall|i: int| 0 <= i < check.retry ==> lagging(check, #[trigger] answers[i]),
    ensures
        chain_run(check, answers) == (ChainRun::<E> {
            polls: check.retry as nat,
            waited_millis: (check.retry * POLL_INTERVAL_MILLIS) as nat,
            verdict: Some(ChainVerdict::Inconsistent),
        }),
    decreases answers.len(),
{
    assert(lagging(check, answers[0]));
    if check.retry > 1 {
        let next = ChainCheck { tip: check.tip, retry: (check.retry - 1) as u32 };
        let rest = answers.drop_first();
        assert forall|i: int| 0 <= i < next.retry implies lagging(next, #[trigger] rest[i]) by {
            assert(rest[i] == answers[i + 1]);
        }
        law_chain_check_fails_when_all_answers_lag(next, rest);
    }
}

/// Answers that lag behind only delay the check: it ends with what the first other answer means.
pub proof fn law_chain_check_waits_for_the_indexer<E>(
    check: ChainCheck,
    answers: Seq<Result<Option<Tip>, E>>,
    at: int,
)
    requires
        check.wf(),
        0 <= at < check.retry,
        at < answers.len(),
        forall|i: int| 0 <= i < at ==> lagging(check, #[trigger] answers[i]),
        !lagging(check, answers[at]),
    ensures
        chain_run(check, answers).polls == at + 1,
        chain_run(check, answers).waited_millis == at * POLL_INTERVAL_MILLIS,
        chain_run(check, answers).verdict == Some(
            match answers[at] {
                Err(error) => ChainVerdict::Failed(error),
                Ok(None) => ChainVerdict::NotSynced,
                Ok(Some(answer)) => if answer == check.tip {
                    ChainVerdict::Synced
                } else {
                    ChainVerdict::Inconsistent
                },
            },
        ),
    decreases at,
{
    if at > 0 {
        assert(lagging(check, answers[0]));
        let next = ChainCheck { tip: check.tip, retry: (check.retry - 1) as u32 };
        let rest = answers.drop_first();
        assert forall|i: int| 0 <= i < at - 1 implies lagging(next, #[trigger] rest[i]) by {
            assert(rest[i] == answers[i + 1]);
        }
        law_chain_check_waits_for_the_indexer(next, rest, at - 1);
        assert((at - 1) * POLL_INTERVAL_MILLIS + POLL_INTERVAL_MILLIS == at * POLL_INTERVAL_MILLIS)
            by (nonlinear_arith);
    }
}

/// The check succeeds exactly where an answer that it takes is the node's tip and all answers
/// before that one lag behind.
pub proof fn law_chain_check_succeeds_exactly_on_the_tip<E>(
    check: ChainCheck,
    answers: Seq<Result<Option<Tip>, E>>,
)
    requires
        check.wf(),
    ensures
        chain_run(check, answers).verdict == Some(ChainVerdict::<E>::Synced) <==> exists|at: int|
            reaches_the_tip(check, answers, at),
    decreases answers.len(),
{
    if answers.len() > 0 {
        match check.after(answers[0]) {
            ChainMove::Finish { .. } => {
                if exists|at: int| reaches_the_tip(check, answers, at) {
                    let at = choose|at: int| reaches_the_tip(check, answers, at);
                    law_chain_check_waits_for_the_indexer(check, answers, at);
                }
                if answers[0] == Ok::<Option<Tip>, E>(Some(check.tip)) {
                    assert(reaches_the_tip(check, answers, 0));
                }
            },
            ChainMove::Poll { wait_millis: _, check: next } => {
                let rest = answers.drop_first();
                law_chain_check_succeeds_exactly_on_the_tip(next, rest);
                if exists|at: int| reaches_the_tip(next, rest, at) {
                    let at = choose|at: int| reaches_the_tip(next, rest, at);
                    assert forall|i: int| 0 <= i < at + 1 implies lagging(
                        check,
                        #[trigger] answers[i],
                    ) by {
                        if i > 0 {
                            assert(lagging(next, rest[i - 1]));
                        }
                    }
                    assert(reaches_the_tip(check, answers, at + 1));
                }
                if exists|at: int| reaches_the_tip(check, answers, at) {
                    let at = choose|at: int| reaches_the_tip(check, answers, at);
                    assert forall|i: int| 0 <= i < at - 1 implies lagging(
                        next,
                        #[trigger] rest[i],
                    ) by {
                        assert(lagging(check, answers[i + 1]));
                    }
                    assert(reaches_the_tip(next, rest, at - 1));
                }
            },
        }
    }
}

/// This answer is one that the check takes and is the node's tip, and all answers before it lag
/// behind.
pub open spec fn reaches_the_tip<E>(
    check: ChainCheck,
    answers: Seq<Result<Option<Tip>, E>>,
    at: int,
) -> bool {
    &&& 0 <= at < answers.len()
    &&& at < check.retry
    &&& answers[at] == Ok::<Option<Tip>, E>(Some(check.tip))
    &&& forall|i: int| 0 <= i < at ==> lagging(check, #[trigger] answers[i])
}

/// Every answer of the indexer leads to one step: a failed request and an unknown tip end the check
/// at once; a lower block number means a pause of 50 ms and, as long as answers are left, one more
/// request about the same tip; the node's own tip ends the check well, and any other tip badly.
pub proof fn law_each_answer_is_judged_by_the_tip<E>(
    check: ChainCheck,
    answer: Result<Option<Tip>, E>,
    step: ChainStep<E>,
)
    requires
        check.after(answer).is_step(step),
    ensures
        match answer {
            Err(error) => step == (ChainStep::<E>::Finish {
                wait_millis: 0,
                result: Err(CellCollectorError::Internal(error)),
            }),
            Ok(None) => step matches ChainStep::Finish {
                wait_millis,
                result: Err(CellCollectorError::Other(text)),
            } && wait_millis == 0 && text@ == "ckb-indexer server not synced"@,
            Ok(Some(tip)) => {
                let lags = tip.block_number < check.tip.block_number;
                let same = tip.block_number == check.tip.block_number && tip.block_hash
                    == check.tip.block_hash;
                if lags && check.retry > 1 {
                    step matches ChainStep::Poll { wait_millis, check: next } && wait_millis == 50
                        && next.tip == check.tip && next.retry == check.retry - 1
                } else if same {
                    step matches ChainStep::Finish { wait_millis, result } && wait_millis == 0
                        && result is Ok
                } else {
                    step matches ChainStep::Finish {
                        wait_millis,
                        result: Err(CellCollectorError::Other(text)),
                    } && wait_millis == (if lags {
                        50u64
                    } else {
                        0u64
                    }) && text@
                        == "ckb-indexer server inconsistent with currently connected ckb node or not synced!"@
                }
            },
        },
{
}

/// A check begins with the tip that it was given, and ten answers may come.
pub proof fn law_a_check_begins_with_the_tip(tip: Tip)
    ensures
        ChainCheck::fresh(tip).tip == tip,
        ChainCheck::fresh(tip).retry == 10,
        ChainCheck::fresh(tip).wf(),
{
}

} // verus!
