//! How an account is flattened, step by step.
use vstd::prelude::*;

use crate::decimal::decimal_text;
use crate::domain::Position;
use crate::text::joined;

verus! {

/// How often a close order is priced anew.
pub const REPRICE_ATTEMPTS: usize = 10;

/// How often the positions are looked at before a close order is priced anew.
pub const POLLS_PER_ATTEMPT: usize = 8;

/// The pause before the positions are looked at again, in milliseconds.
pub const POLL_INTERVAL_MS: u64 = 2_000;

/// The pause after stale orders have been canceled, in milliseconds.
pub const REPRICE_PAUSE_MS: u64 = 300;

/// The pause after market orders, in milliseconds.
pub const MARKET_PAUSE_MS: u64 = 2_000;

/// Whether a position is open.
pub open spec fn is_open() -> spec_fn(Position) -> bool {
    |position: Position| position.quantity@ != 0
}

/// The open ones of some positions.
pub open spec fn open_ones(positions: Seq<Position>) -> Seq<Position> {
    positions.filter(is_open())
}

/// A symbol with the quantity that is written behind it.
pub open spec fn line_of(symbol: Seq<char>, quantity: Seq<char>) -> Seq<char> {
    symbol + " "@ + quantity
}

/// Each position as a symbol with its quantity.
pub open spec fn lines_of(positions: Seq<Position>) -> Seq<Seq<char>> {
    Seq::new(
        positions.len(),
        |i: int|
            line_of(
                positions[i].symbol@,
                decimal_text(
                    positions[i].quantity.digits(),
                    positions[i].quantity.places() as int,
                ),
            ),
    )
}

/// Some positions on one line.
pub open spec fn summary_of(positions: Seq<Position>) -> Seq<char> {
    joined(lines_of(positions), ", "@)
}

/// The notice that limit orders have not closed the positions.
pub open spec fn limit_notice_of(phase: Seq<char>, summary: Seq<char>) -> Seq<char> {
    "cleanup: limit orders failed after 10 attempts; closing by market ("@ + phase + "): "@
        + summary
}

/// The notice that market orders have not closed the positions either.
pub open spec fn market_notice_of(phase: Seq<char>, summary: Seq<char>) -> Seq<char> {
    "cleanup: market close also failed ("@ + phase + "): "@ + summary
}

/// The error where positions stay open.
pub open spec fn failure_of(summary: Seq<char>) -> Seq<char> {
    "cleanup could not close positions even with market orders: "@ + summary
}

/// How a cleanup ended.
pub enum End {
    /// All orders are canceled and no position is open.
    Flat,
    /// All orders are canceled. The positions are left, as the venue does not
    /// take limit orders to close them.
    Unsupported,
    /// These positions could not be closed.
    StillOpen(Seq<Position>),
    /// A step failed.
    Aborted,
}

/// Where a cleanup stands. Attempts and polls count from one.
pub enum Stage {
    /// All orders are being canceled.
    Canceling,
    /// The venue is being asked whether it takes limit orders to close positions.
    Asking,
    /// The positions are being fetched for an attempt.
    Fetching { attempt: nat },
    /// Limit orders that close the positions are being placed.
    Submitting { attempt: nat, positions: Seq<Position> },
    /// The orders get time to be filled.
    Waiting { attempt: nat, poll: nat },
    /// The positions are being fetched to see whether they were.
    Polling { attempt: nat, poll: nat },
    /// The orders of an attempt are being canceled.
    Withdrawing { attempt: nat },
    /// The venue gets time after that.
    Resting { attempt: nat },
    /// The positions are being fetched after all attempts.
    FetchingResidual,
    /// The notice that limit orders failed is being sent.
    Warning { positions: Seq<Position> },
    /// All orders are being canceled before market orders are placed.
    CancelingForMarket { positions: Seq<Position> },
    /// Market orders that close the positions are being placed.
    SubmittingMarket { positions: Seq<Position> },
    /// The market orders get time to be filled.
    Settling,
    /// The positions are being fetched after the market orders.
    FetchingFinal,
    /// The notice that market orders failed too is being sent.
    Reporting { positions: Seq<Position> },
    /// The cleanup has ended.
    Finished(End),
}

/// What has become of a step.
pub enum Reply {
    Done,
    /// Whether the venue takes limit orders to close positions.
    LimitSupport(bool),
    Positions(Seq<Position>),
    Failed,
}

/// Where a cleanup stands after a step. One that fails, or is answered with
/// what it did not ask for, ends the cleanup.
pub open spec fn next_stage(stage: Stage, reply: Reply) -> Stage {
    match (stage, reply) {
        (Stage::Finished(_), _) => stage,
        (_, Reply::Failed) => Stage::Finished(End::Aborted),
        (Stage::Canceling, Reply::Done) => Stage::Asking,
        (Stage::Asking, Reply::LimitSupport(supports)) => if supports {
            Stage::Fetching { attempt: 1 }
        } else {
            Stage::Finished(End::Unsupported)
        },
        (Stage::Fetching { attempt }, Reply::Positions(positions)) => if open_ones(
            positions,
        ).len() == 0 {
            Stage::Finished(End::Flat)
        } else {
            Stage::Submitting { attempt, positions: open_ones(positions) }
        },
        (Stage::Submitting { attempt, .. }, Reply::Done) => Stage::Waiting { attempt, poll: 1 },
        (Stage::Waiting { attempt, poll }, Reply::Done) => Stage::Polling { attempt, poll },
        (Stage::Polling { attempt, poll }, Reply::Positions(positions)) => if open_ones(
            positions,
        ).len() == 0 {
            Stage::Finished(End::Flat)
        } else if poll < POLLS_PER_ATTEMPT {
            Stage::Waiting { attempt, poll: poll + 1 }
        } else {
            Stage::Withdrawing { attempt }
        },
        (Stage::Withdrawing { attempt }, Reply::Done) => Stage::Resting { attempt },
        (Stage::Resting { attempt }, Reply::Done) => if attempt < REPRICE_ATTEMPTS {
            Stage::Fetching { attempt: attempt + 1 }
        } else {
            Stage::FetchingResidual
        },
        (Stage::FetchingResidual, Reply::Positions(positions)) => if open_ones(positions).len()
            == 0 {
            Stage::Finished(End::Flat)
        } else {
            Stage::Warning { positions: open_ones(positions) }
        },
        (Stage::Warning { positions }, Reply::Done) => Stage::CancelingForMarket { positions },
        (Stage::CancelingForMarket { positions }, Reply::Done) => Stage::SubmittingMarket {
            positions,
        },
        (Stage::SubmittingMarket { .. }, Reply::Done) => Stage::Settling,
        (Stage::Settling, Reply::Done) => Stage::FetchingFinal,
        (Stage::FetchingFinal, Reply::Positions(positions)) => if open_ones(positions).len()
            == 0 {
            Stage::Finished(End::Flat)
        } else {
            Stage::Reporting { positions: open_ones(positions) }
        },
        (Stage::Reporting { positions }, Reply::Done) => Stage::Finished(
            End::StillOpen(positions),
        ),
        _ => Stage::Finished(End::Aborted),
    }
}

/// What a cleanup asks for.
pub enum Request {
    CancelOrders,
    AskLimitSupport,
    FetchPositions,
    SubmitLimit(Seq<Position>),
    SubmitMarket(Seq<Position>),
    Notify(Seq<char>),
    /// A pause, in milliseconds.
    Sleep(u64),
    /// Nothing more: it has succeeded.
    Succeed,
    /// Nothing more: it has failed for this reason.
    Fail(Seq<char>),
    /// Nothing more: a step has failed.
    Abort,
}

/// What a cleanup asks for at a stage.
pub open spec fn request_of(stage: Stage, phase: Seq<char>) -> Request {
    match stage {
        Stage::Canceling => Request::CancelOrders,
        Stage::Asking => Request::AskLimitSupport,
        Stage::Fetching { .. } => Request::FetchPositions,
        Stage::Submitting { positions, .. } => Request::SubmitLimit(positions),
        Stage::Waiting { .. } => Request::Sleep(POLL_INTERVAL_MS),
        Stage::Polling { .. } => Request::FetchPositions,
        Stage::Withdrawing { .. } => Request::CancelOrders,
        Stage::Resting { .. } => Request::Sleep(REPRICE_PAUSE_MS),
        Stage::FetchingResidual => Request::FetchPositions,
        Stage::Warning { positions } => Request::Notify(
            limit_notice_of(phase, summary_of(positions)),
        ),
        Stage::CancelingForMarket { .. } => Request::CancelOrders,
        Stage::SubmittingMarket { positions } => Request::SubmitMarket(positions),
        Stage::Settling => Request::Sleep(MARKET_PAUSE_MS),
        Stage::FetchingFinal => Request::FetchPositions,
        Stage::Reporting { positions } => Request::Notify(
            market_notice_of(phase, summary_of(positions)),
        ),
        Stage::Finished(End::Flat) => Request::Succeed,
        Stage::Finished(End::Unsupported) => Request::Succeed,
        Stage::Finished(End::StillOpen(positions)) => Request::Fail(
            failure_of(summary_of(positions)),
        ),
        Stage::Finished(End::Aborted) => Request::Abort,
    }
}

} // verus!
