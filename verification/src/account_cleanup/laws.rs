//! What holds of a cleanup whatever the venue answers.
use vstd::prelude::*;

use super::model::{
    lines_of, next_stage, open_ones, request_of, summary_of, End, Reply, Request, Stage,
    POLLS_PER_ATTEMPT, REPRICE_ATTEMPTS,
};
use crate::decimal::decimal_text;
use crate::domain::Position;
use crate::text::law_joined;

verus! {

/// Whether some positions are all open, and there is one.
pub open spec fn all_open(positions: Seq<Position>) -> bool {
    positions.len() > 0 && forall|i: int|
        0 <= i < positions.len() ==> (#[trigger] positions[i]).quantity@ != 0
}

/// Whether a cleanup can stand at a stage: its counts are in bounds, and the
/// positions that it deals with are open.
pub open spec fn reachable(stage: Stage) -> bool {
    match stage {
        Stage::Fetching { attempt } => 1 <= attempt <= REPRICE_ATTEMPTS,
        Stage::Submitting { attempt, positions } => 1 <= attempt <= REPRICE_ATTEMPTS && all_open(
            positions,
        ),
        Stage::Waiting { attempt, poll } => 1 <= attempt <= REPRICE_ATTEMPTS && 1 <= poll
            <= POLLS_PER_ATTEMPT,
        Stage::Polling { attempt, poll } => 1 <= attempt <= REPRICE_ATTEMPTS && 1 <= poll
            <= POLLS_PER_ATTEMPT,
        Stage::Withdrawing { attempt } => 1 <= attempt <= REPRICE_ATTEMPTS,
        Stage::Resting { attempt } => 1 <= attempt <= REPRICE_ATTEMPTS,
        Stage::Warning { positions } => all_open(positions),
        Stage::CancelingForMarket { positions } => all_open(positions),
        Stage::SubmittingMarket { positions } => all_open(positions),
        Stage::Reporting { positions } => all_open(positions),
        Stage::Finished(End::StillOpen(positions)) => all_open(positions),
        _ => true,
    }
}

/// The most steps that a cleanup can still take.
pub open spec fn steps_left(stage: Stage) -> int {
    match stage {
        Stage::Canceling => 209,
        Stage::Asking => 208,
        Stage::Fetching { attempt } => 7 + 20 * (11 - attempt),
        Stage::Submitting { attempt, .. } => 6 + 20 * (11 - attempt),
        Stage::Waiting { attempt, poll } => 9 + 20 * (10 - attempt) + 2 * (9 - poll),
        Stage::Polling { attempt, poll } => 8 + 20 * (10 - attempt) + 2 * (9 - poll),
        Stage::Withdrawing { attempt } => 9 + 20 * (10 - attempt),
        Stage::Resting { attempt } => 8 + 20 * (10 - attempt),
        Stage::FetchingResidual => 7,
        Stage::Warning { .. } => 6,
        Stage::CancelingForMarket { .. } => 5,
        Stage::SubmittingMarket { .. } => 4,
        Stage::Settling => 3,
        Stage::FetchingFinal => 2,
        Stage::Reporting { .. } => 1,
        Stage::Finished(_) => 0,
    }
}

proof fn lemma_open_ones(positions: Seq<Position>)
    ensures
        forall|i: int|
            0 <= i < open_ones(positions).len() ==> (
            #[trigger] open_ones(positions)[i]).quantity@ != 0,
    decreases positions.len(),
{
    reveal(Seq::filter);
    if positions.len() > 0 {
        lemma_open_ones(positions.drop_last());
    }
}

/// Every step keeps the counts in bounds, and close orders are placed for open
/// positions alone.
pub proof fn law_stages_are_reachable(stage: Stage, reply: Reply)
    requires
        reachable(stage),
    ensures
        reachable(next_stage(stage, reply)),
        reachable(Stage::Canceling),
{
    if let Reply::Positions(positions) = reply {
        lemma_open_ones(positions);
    }
}

/// Every cleanup ends: each step leaves fewer to be taken.
pub proof fn law_cleanup_ends(stage: Stage, reply: Reply)
    requires
        reachable(stage),
        !(stage is Finished),
    ensures
        0 <= steps_left(next_stage(stage, reply)) < steps_left(stage),
        steps_left(stage) <= steps_left(Stage::Canceling),
{
}

/// The first thing that a cleanup does is to cancel all orders, and it does no
/// more where the venue does not take limit orders to close positions.
pub proof fn law_orders_are_canceled_first(phase: Seq<char>)
    ensures
        request_of(Stage::Canceling, phase) is CancelOrders,
        next_stage(Stage::Canceling, Reply::Done) == Stage::Asking,
        request_of(next_stage(Stage::Asking, Reply::LimitSupport(false)), phase) is Succeed,
{
}

/// Market orders are placed only after the last attempt with limit orders has
/// been given up and its orders are canceled, and after a notice of the very
/// positions that they close.
pub proof fn law_market_orders_come_last(stage: Stage, reply: Reply)
    requires
        !(stage is Finished),
    ensures
        match next_stage(stage, reply) {
            Stage::SubmittingMarket { positions } => stage == (Stage::CancelingForMarket {
                positions,
            }),
            Stage::CancelingForMarket { positions } => stage == (Stage::Warning { positions }),
            Stage::Warning { positions } => stage is FetchingResidual && (
            reply matches Reply::Positions(fetched) && positions == open_ones(fetched)),
            Stage::FetchingResidual => stage matches Stage::Resting { attempt } && attempt
                >= REPRICE_ATTEMPTS,
            Stage::Resting { attempt } => stage == (Stage::Withdrawing { attempt }),
            Stage::Withdrawing { attempt } => stage matches Stage::Polling { attempt: last, poll }
                && last == attempt && poll >= POLLS_PER_ATTEMPT,
            _ => true,
        },
{
}

/// A cleanup that closes positions reports success only on positions of which
/// none is open, and failure for lack of a fill only after market orders.
pub proof fn law_reports_are_true(stage: Stage, reply: Reply)
    requires
        !(stage is Finished),
    ensures
        match next_stage(stage, reply) {
            Stage::Finished(End::Flat) => reply matches Reply::Positions(fetched) && open_ones(
                fetched,
            ).len() == 0,
            Stage::Finished(End::Unsupported) => stage is Asking && reply
                == Reply::LimitSupport(false),
            Stage::Finished(End::StillOpen(positions)) => stage == (Stage::Reporting {
                positions,
            }),
            Stage::Reporting { positions } => stage is FetchingFinal && (
            reply matches Reply::Positions(fetched) && positions == open_ones(fetched)),
            Stage::FetchingFinal => stage is Settling,
            Stage::Settling => stage is SubmittingMarket,
            _ => true,
        },
{
}

/// The open positions of two lists, one after the other, are those of the first and
/// then those of the second. A single position is left out exactly where its quantity
/// is zero.
pub proof fn law_open_positions_add_up(
    first: Seq<Position>,
    second: Seq<Position>,
    position: Position,
)
    ensures
        open_ones(first + second) == open_ones(first) + open_ones(second),
        position.quantity@ != 0 ==> open_ones(seq![position]) == seq![position],
        position.quantity@ == 0 ==> open_ones(seq![position]) == Seq::<Position>::empty(),
        open_ones(Seq::empty()) == Seq::<Position>::empty(),
    decreases second.len(),
{
    reveal(Seq::filter);
    reveal_with_fuel(Seq::filter, 3);
    assert(seq![position].drop_last() =~= Seq::<Position>::empty());
    assert(open_ones(Seq::empty()) =~= Seq::<Position>::empty());
    assert(position.quantity@ != 0 ==> open_ones(seq![position]) =~= seq![position]);
    if second.len() == 0 {
        assert(first + second =~= first);
        assert(open_ones(first) + open_ones(second) =~= open_ones(first));
    } else {
        law_open_positions_add_up(first, second.drop_last(), position);
        assert((first + second).drop_last() =~= first + second.drop_last());
        assert((first + second).last() == second.last());
        assert(open_ones(first + second) =~= open_ones(first) + open_ones(second));
    }
}

/// Every position whose quantity is not zero is among the open ones, and each of
/// those has been fetched and has a quantity that is not zero.
pub proof fn law_no_open_position_is_left_out(positions: Seq<Position>, i: int)
    ensures
        0 <= i < positions.len() && positions[i].quantity@ != 0 ==> open_ones(positions).contains(
            positions[i],
        ),
        0 <= i < open_ones(positions).len() ==> open_ones(positions)[i].quantity@ != 0
            && positions.contains(open_ones(positions)[i]),
        open_ones(positions).len() == 0 <==> forall|j: int|
            0 <= j < positions.len() ==> (#[trigger] positions[j]).quantity@ == 0,
    decreases positions.len(),
{
    reveal(Seq::filter);
    if positions.len() > 0 {
        let rest = positions.drop_last();
        let last = positions.last();
        let kept = open_ones(rest);
        law_no_open_position_is_left_out(rest, i);
        assert(positions[positions.len() - 1] == last);
        assert(forall|j: int| 0 <= j < rest.len() ==> #[trigger] rest[j] == positions[j]);
        if last.quantity@ != 0 {
            assert(open_ones(positions) == kept.push(last));
            assert(kept.push(last)[kept.len() as int] == last);
        }
        if 0 <= i < rest.len() && rest[i].quantity@ != 0 {
            let k = choose|k: int| 0 <= k < kept.len() && kept[k] == rest[i];
            assert(open_ones(positions)[k] == rest[i]);
        }
        if 0 <= i < kept.len() {
            let k = choose|k: int| 0 <= k < rest.len() && rest[k] == kept[i];
            assert(positions[k] == kept[i]);
        }
        if open_ones(positions).len() == 0 {
            assert forall|j: int| 0 <= j < positions.len() implies (
            #[trigger] positions[j]).quantity@ == 0 by {
                if j < rest.len() {
                    assert(rest[j].quantity@ == 0);
                }
            }
        } else if forall|j: int|
            0 <= j < positions.len() ==> (#[trigger] positions[j]).quantity@ == 0 {
            assert forall|j: int| 0 <= j < rest.len() implies (#[trigger] rest[j]).quantity@
                == 0 by {
                assert(positions[j].quantity@ == 0);
            }
            assert(positions[positions.len() - 1].quantity@ == 0);
        }
    }
}

/// A cleanup has closed the positions exactly where a reply to a question for them
/// comes in which every quantity is zero.
pub proof fn law_flat_means_every_quantity_is_zero(stage: Stage, reply: Reply, phase: Seq<char>)
    requires
        !(stage is Finished),
    ensures
        next_stage(stage, reply) == Stage::Finished(End::Flat) <==> request_of(
            stage,
            phase,
        ) is FetchPositions && (reply matches Reply::Positions(fetched) && forall|j: int|
            0 <= j < fetched.len() ==> (#[trigger] fetched[j]).quantity@ == 0),
        request_of(next_stage(stage, reply), phase) is Succeed <==> next_stage(stage, reply)
            == Stage::Finished(End::Flat) || (stage is Asking && reply == Reply::LimitSupport(
            false,
        )),
{
    if let Reply::Positions(fetched) = reply {
        law_no_open_position_is_left_out(fetched, 0);
    }
}

/// The steps of a cleanup while a position stays open: close orders are placed for
/// all positions whose quantity is not zero and for no others, each attempt is given
/// eight looks at the positions, and after ten attempts market orders follow, for all
/// positions that are open at that time. What is open after them is reported.
pub proof fn law_steps_of_a_cleanup(
    attempt: nat,
    poll: nat,
    fetched: Seq<Position>,
    i: int,
    positions: Seq<Position>,
)
    requires
        0 <= i < fetched.len(),
        fetched[i].quantity@ != 0,
    ensures
        next_stage(Stage::Canceling, Reply::Done) == Stage::Asking,
        next_stage(Stage::Asking, Reply::LimitSupport(true)) == (Stage::Fetching { attempt: 1 }),
        next_stage(Stage::Asking, Reply::LimitSupport(false)) == Stage::Finished(
            End::Unsupported,
        ),
        next_stage(Stage::Fetching { attempt }, Reply::Positions(fetched)) == (
        Stage::Submitting { attempt, positions: fetched.filter(|p: Position| p.quantity@ != 0) }),
        next_stage(Stage::Submitting { attempt, positions }, Reply::Done) == (Stage::Waiting {
            attempt,
            poll: 1,
        }),
        next_stage(Stage::Waiting { attempt, poll }, Reply::Done) == (Stage::Polling {
            attempt,
            poll,
        }),
        next_stage(Stage::Polling { attempt, poll }, Reply::Positions(fetched)) == (if poll < 8 {
            Stage::Waiting { attempt, poll: poll + 1 }
        } else {
            Stage::Withdrawing { attempt }
        }),
        next_stage(Stage::Withdrawing { attempt }, Reply::Done) == (Stage::Resting { attempt }),
        next_stage(Stage::Resting { attempt }, Reply::Done) == (if attempt < 10 {
            Stage::Fetching { attempt: attempt + 1 }
        } else {
            Stage::FetchingResidual
        }),
        next_stage(Stage::FetchingResidual, Reply::Positions(fetched)) == (Stage::Warning {
            positions: fetched.filter(|p: Position| p.quantity@ != 0),
        }),
        next_stage(Stage::Warning { positions }, Reply::Done) == (Stage::CancelingForMarket {
            positions,
        }),
        next_stage(Stage::CancelingForMarket { positions }, Reply::Done) == (
        Stage::SubmittingMarket { positions }),
        next_stage(Stage::SubmittingMarket { positions }, Reply::Done) == Stage::Settling,
        next_stage(Stage::Settling, Reply::Done) == Stage::FetchingFinal,
        next_stage(Stage::FetchingFinal, Reply::Positions(fetched)) == (Stage::Reporting {
            positions: fetched.filter(|p: Position| p.quantity@ != 0),
        }),
        next_stage(Stage::Reporting { positions }, Reply::Done) == Stage::Finished(
            End::StillOpen(positions),
        ),
{
    law_no_open_position_is_left_out(fetched, i);
    assert(super::model::is_open() =~= (|p: Position| p.quantity@ != 0));
}

/// A cleanup that has ended stays so. A step that fails, or is answered with what
/// was not asked for, ends it, and nothing else does so without a report.
pub proof fn law_failures_abort(stage: Stage, reply: Reply, phase: Seq<char>)
    ensures
        stage is Finished ==> next_stage(stage, reply) == stage,
        !(stage is Finished) ==> (next_stage(stage, reply) == Stage::Finished(End::Aborted)
            <==> (match request_of(stage, phase) {
            Request::FetchPositions => !(reply is Positions),
            Request::AskLimitSupport => !(reply is LimitSupport),
            _ => !(reply is Done),
        })),
{
}

/// What is asked for at each stage: the orders are canceled before anything else,
/// after each attempt and before market orders, close orders and notices are about
/// the positions of the stage, and the pauses last two seconds, or 300 milliseconds
/// after stale orders have been canceled.
pub proof fn law_requests(
    attempt: nat,
    poll: nat,
    positions: Seq<Position>,
    phase: Seq<char>,
)
    ensures
        request_of(Stage::Canceling, phase) == Request::CancelOrders,
        request_of(Stage::Asking, phase) == Request::AskLimitSupport,
        request_of(Stage::Fetching { attempt }, phase) == Request::FetchPositions,
        request_of(Stage::Submitting { attempt, positions }, phase) == Request::SubmitLimit(
            positions,
        ),
        request_of(Stage::Waiting { attempt, poll }, phase) == Request::Sleep(2_000),
        request_of(Stage::Polling { attempt, poll }, phase) == Request::FetchPositions,
        request_of(Stage::Withdrawing { attempt }, phase) == Request::CancelOrders,
        request_of(Stage::Resting { attempt }, phase) == Request::Sleep(300),
        request_of(Stage::FetchingResidual, phase) == Request::FetchPositions,
        request_of(Stage::Warning { positions }, phase) == Request::Notify(
            "cleanup: limit orders failed after 10 attempts; closing by market ("@ + phase
                + "): "@ + summary_of(positions),
        ),
        request_of(Stage::CancelingForMarket { positions }, phase) == Request::CancelOrders,
        request_of(Stage::SubmittingMarket { positions }, phase) == Request::SubmitMarket(
            positions,
        ),
        request_of(Stage::Settling, phase) == Request::Sleep(2_000),
        request_of(Stage::FetchingFinal, phase) == Request::FetchPositions,
        request_of(Stage::Reporting { positions }, phase) == Request::Notify(
            "cleanup: market close also failed ("@ + phase + "): "@ + summary_of(positions),
        ),
        request_of(Stage::Finished(End::Flat), phase) == Request::Succeed,
        request_of(Stage::Finished(End::Unsupported), phase) == Request::Succeed,
        request_of(Stage::Finished(End::StillOpen(positions)), phase) == Request::Fail(
            "cleanup could not close positions even with market orders: "@ + summary_of(
                positions,
            ),
        ),
        request_of(Stage::Finished(End::Aborted), phase) == Request::Abort,
{
}

/// The summary of positions is a list of all of them with commas between, each as
/// its symbol and its quantity.
pub proof fn law_summary_names_every_position(positions: Seq<Position>, position: Position)
    ensures
        summary_of(seq![position]) == position.symbol@ + " "@ + decimal_text(
            position.quantity.digits(),
            position.quantity.places() as int,
        ),
        positions.len() > 0 ==> summary_of(positions.push(position)) == summary_of(positions)
            + ", "@ + summary_of(seq![position]),
{
    let one = lines_of(seq![position]);
    assert(one =~= seq![one[0]]);
    law_joined(seq![one[0]], seq![one[0]], ", "@, one[0]);
    if positions.len() > 0 {
        assert(lines_of(positions.push(position)) =~= lines_of(positions) + one);
        law_joined(lines_of(positions), one, ", "@, one[0]);
    }
}

} // verus!
