//! Flattening an account: canceling its orders and closing its positions.
//!
//! The cleanup decides; what it asks for, requests to the venue, notices and
//! pauses, is done by its owner, who tells it what became of that.
use vstd::prelude::*;

use crate::decimal::format_decimal;
use crate::domain::Position;
use crate::text::{followed_by, join, texts};

use self::model::{
    failure_of, is_open, limit_notice_of, line_of, lines_of, market_notice_of, next_stage,
    open_ones, request_of, summary_of, End, Reply, Request, Stage, MARKET_PAUSE_MS,
    POLLS_PER_ATTEMPT, POLL_INTERVAL_MS, REPRICE_ATTEMPTS, REPRICE_PAUSE_MS,
};

pub mod laws;
pub mod model;

verus! {

/// A venue that the bot trades at.
#[derive(Clone, Copy, Debug, PartialEq, Eq, Structural)]
pub enum Venue {
    Grvt,
    Hibachi,
    Extended,
}

impl Venue {
    /// Whether positions at the venue can be closed with limit orders.
    pub fn supports_limit_cleanup(self) -> (r: bool)
        ensures
            r == (self == Venue::Grvt),
    {
        match self {
            Venue::Grvt => true,
            Venue::Hibachi => false,
            Venue::Extended => false,
        }
    }
}

/// The open ones of some positions.
pub fn active_positions(positions: &Vec<Position>) -> (r: Vec<Position>)
    ensures
        r@ == open_ones(positions@),
        r@ == positions@.filter(|position: Position| position.quantity@ != 0),
{
    let mut active: Vec<Position> = Vec::new();
    let mut i: usize = 0;
    proof {
        reveal(Seq::filter);
        assert(positions@.take(0).filter(is_open()) =~= Seq::<Position>::empty());
    }
    while i < positions.len()
        invariant
            i <= positions@.len(),
            active@ == open_ones(positions@.take(i as int)),
        decreases positions.len() - i,
    {
        proof {
            reveal(Seq::filter);
            assert(positions@.take(i + 1).drop_last() =~= positions@.take(i as int));
        }
        if !positions[i].quantity.is_zero() {
            active.push(positions[i].clone());
        }
        i = i + 1;
    }
    assert(positions@.take(i as int) =~= positions@);
    assert(is_open() =~= (|position: Position| position.quantity@ != 0));
    active
}

/// A symbol with the quantity that is written behind it.
pub fn position_line(symbol: &str, quantity: &str) -> (r: String)
    ensures
        r@ == line_of(symbol@, quantity@),
{
    let start: String = followed_by(symbol, " ");
    followed_by(start.as_str(), quantity)
}

/// Some positions on one line.
pub fn summary(positions: &Vec<Position>) -> (r: String)
    ensures
        r@ == summary_of(positions@),
{
    let mut lines: Vec<String> = Vec::new();
    let mut i: usize = 0;
    while i < positions.len()
        invariant
            i <= positions@.len(),
            lines@.len() == i,
            forall|j: int| 0 <= j < i ==> (#[trigger] lines@[j])@ == lines_of(positions@)[j],
        decreases positions.len() - i,
    {
        let quantity: String = format_decimal(positions[i].quantity);
        lines.push(position_line(positions[i].symbol.as_str(), quantity.as_str()));
        i = i + 1;
    }
    assert(texts(lines@) =~= lines_of(positions@));
    join(&lines, ", ")
}

/// The notice that limit orders have not closed the positions.
pub fn limit_notice(phase: &str, summary: &str) -> (r: String)
    ensures
        r@ == limit_notice_of(phase@, summary@),
{
    let start: String = followed_by(
        "cleanup: limit orders failed after 10 attempts; closing by market (",
        phase,
    );
    let middle: String = followed_by(start.as_str(), "): ");
    followed_by(middle.as_str(), summary)
}

/// The notice that market orders have not closed the positions either.
pub fn market_notice(phase: &str, summary: &str) -> (r: String)
    ensures
        r@ == market_notice_of(phase@, summary@),
{
    let start: String = followed_by("cleanup: market close also failed (", phase);
    let middle: String = followed_by(start.as_str(), "): ");
    followed_by(middle.as_str(), summary)
}

/// The error where positions stay open.
pub fn failure(summary: &str) -> (r: String)
    ensures
        r@ == failure_of(summary@),
{
    followed_by("cleanup could not close positions even with market orders: ", summary)
}

/// How a cleanup ended.
pub enum CleanupEnd {
    /// All orders are canceled and no position is open.
    Flat,
    /// All orders are canceled. The positions are left, as the venue does not
    /// take limit orders to close them.
    Unsupported,
    /// These positions could not be closed.
    StillOpen(Vec<Position>),
    /// A step failed.
    Aborted,
}

impl View for CleanupEnd {
    type V = End;

    open spec fn view(&self) -> End {
        match self {
            CleanupEnd::Flat => End::Flat,
            CleanupEnd::Unsupported => End::Unsupported,
            CleanupEnd::StillOpen(positions) => End::StillOpen(positions@),
            CleanupEnd::Aborted => End::Aborted,
        }
    }
}

/// Where a cleanup stands. Attempts and polls count from one.
pub enum CleanupStage {
    /// All orders are being canceled.
    Canceling,
    /// The venue is being asked whether it takes limit orders to close positions.
    Asking,
    /// The positions are being fetched for an attempt.
    Fetching { attempt: usize },
    /// Limit orders that close the positions are being placed.
    Submitting { attempt: usize, positions: Vec<Position> },
    /// The orders get time to be filled.
    Waiting { attempt: usize, poll: usize },
    /// The positions are being fetched to see whether they were.
    Polling { attempt: usize, poll: usize },
    /// The orders of an attempt are being canceled.
    Withdrawing { attempt: usize },
    /// The venue gets time after that.
    Resting { attempt: usize },
    /// The positions are being fetched after all attempts.
    FetchingResidual,
    /// The notice that limit orders failed is being sent.
    Warning { positions: Vec<Position> },
    /// All orders are being canceled before market orders are placed.
    CancelingForMarket { positions: Vec<Position> },
    /// Market orders that close the positions are being placed.
    SubmittingMarket { positions: Vec<Position> },
    /// The market orders get time to be filled.
    Settling,
    /// The positions are being fetched after the market orders.
    FetchingFinal,
    /// The notice that market orders failed too is being sent.
    Reporting { positions: Vec<Position> },
    /// The cleanup has ended.
    Finished(CleanupEnd),
}

impl View for CleanupStage {
    type V = Stage;

    open spec fn view(&self) -> Stage {
        match self {
            CleanupStage::Canceling => Stage::Canceling,
            CleanupStage::Asking => Stage::Asking,
            CleanupStage::Fetching { attempt } => Stage::Fetching { attempt: *attempt as nat },
            CleanupStage::Submitting { attempt, positions } => Stage::Submitting {
                attempt: *attempt as nat,
                positions: positions@,
            },
            CleanupStage::Waiting { attempt, poll } => Stage::Waiting {
                attempt: *attempt as nat,
                poll: *poll as nat,
            },
            CleanupStage::Polling { attempt, poll } => Stage::Polling {
                attempt: *attempt as nat,
                poll: *poll as nat,
            },
            CleanupStage::Withdrawing { attempt } => Stage::Withdrawing {
                attempt: *attempt as nat,
            },
            CleanupStage::Resting { attempt } => Stage::Resting { attempt: *attempt as nat },
            CleanupStage::FetchingResidual => Stage::FetchingResidual,
            CleanupStage::Warning { positions } => Stage::Warning { positions: positions@ },
            CleanupStage::CancelingForMarket { positions } => Stage::CancelingForMarket {
                positions: positions@,
            },
            CleanupStage::SubmittingMarket { positions } => Stage::SubmittingMarket {
                positions: positions@,
            },
            CleanupStage::Settling => Stage::Settling,
            CleanupStage::FetchingFinal => Stage::FetchingFinal,
            CleanupStage::Reporting { positions } => Stage::Reporting { positions: positions@ },
            CleanupStage::Finished(end) => Stage::Finished(end@),
        }
    }
}

/// What has become of a step.
pub enum CleanupEvent {
    Done,
    /// Whether the venue takes limit orders to close positions.
    LimitSupport(bool),
    Positions(Vec<Position>),
    Failed,
}

impl View for CleanupEvent {
    type V = Reply;

    open spec fn view(&self) -> Reply {
        match self {
            CleanupEvent::Done => Reply::Done,
            CleanupEvent::LimitSupport(supports) => Reply::LimitSupport(*supports),
            CleanupEvent::Positions(positions) => Reply::Positions(positions@),
            CleanupEvent::Failed => Reply::Failed,
        }
    }
}

impl CleanupStage {
    /// Where a cleanup stands after a step.
    pub fn next(self, event: CleanupEvent) -> (r: Self)
        ensures
            r@ == next_stage(self@, event@),
    {
        match (self, event) {
            (CleanupStage::Finished(end), _) => CleanupStage::Finished(end),
            (_, CleanupEvent::Failed) => CleanupStage::Finished(CleanupEnd::Aborted),
            (CleanupStage::Canceling, CleanupEvent::Done) => CleanupStage::Asking,
            (CleanupStage::Asking, CleanupEvent::LimitSupport(supports)) => if supports {
                CleanupStage::Fetching { attempt: 1 }
            } else {
                CleanupStage::Finished(CleanupEnd::Unsupported)
            },
            (CleanupStage::Fetching { attempt }, CleanupEvent::Positions(fetched)) => {
                let positions = active_positions(&fetched);
                if positions.len() == 0 {
                    CleanupStage::Finished(CleanupEnd::Flat)
                } else {
                    CleanupStage::Submitting { attempt, positions }
                }
            },
            (
                CleanupStage::Submitting { attempt, .. },
                CleanupEvent::Done,
            ) => CleanupStage::Waiting { attempt, poll: 1 },
            (
                CleanupStage::Waiting { attempt, poll },
                CleanupEvent::Done,
            ) => CleanupStage::Polling { attempt, poll },
            (CleanupStage::Polling { attempt, poll }, CleanupEvent::Positions(fetched)) => {
                if active_positions(&fetched).len() == 0 {
                    CleanupStage::Finished(CleanupEnd::Flat)
                } else if poll < POLLS_PER_ATTEMPT {
                    CleanupStage::Waiting { attempt, poll: poll + 1 }
                } else {
                    CleanupStage::Withdrawing { attempt }
                }
            },
            (
                CleanupStage::Withdrawing { attempt },
                CleanupEvent::Done,
            ) => CleanupStage::Resting { attempt },
            (CleanupStage::Resting { attempt }, CleanupEvent::Done) => if attempt
                < REPRICE_ATTEMPTS {
                CleanupStage::Fetching { attempt: attempt + 1 }
            } else {
                CleanupStage::FetchingResidual
            },
            (CleanupStage::FetchingResidual, CleanupEvent::Positions(fetched)) => {
                let positions = active_positions(&fetched);
                if positions.len() == 0 {
                    CleanupStage::Finished(CleanupEnd::Flat)
                } else {
                    CleanupStage::Warning { positions }
                }
            },
            (
                CleanupStage::Warning { positions },
                CleanupEvent::Done,
            ) => CleanupStage::CancelingForMarket { positions },
            (
                CleanupStage::CancelingForMarket { positions },
                CleanupEvent::Done,
            ) => CleanupStage::SubmittingMarket { positions },
            (
                CleanupStage::SubmittingMarket { .. },
                CleanupEvent::Done,
            ) => CleanupStage::Settling,
            (CleanupStage::Settling, CleanupEvent::Done) => CleanupStage::FetchingFinal,
            (CleanupStage::FetchingFinal, CleanupEvent::Positions(fetched)) => {
                let positions = active_positions(&fetched);
                if positions.len() == 0 {
                    CleanupStage::Finished(CleanupEnd::Flat)
                } else {
                    CleanupStage::Reporting { positions }
                }
            },
            (
                CleanupStage::Reporting { positions },
                CleanupEvent::Done,
            ) => CleanupStage::Finished(CleanupEnd::StillOpen(positions)),
            _ => CleanupStage::Finished(CleanupEnd::Aborted),
        }
    }
}

/// What a cleanup asks its owner for.
pub enum CleanupAction {
    CancelOrders,
    /// To ask whether the venue takes limit orders to close positions.
    AskLimitSupport,
    FetchPositions,
    SubmitLimit(Vec<Position>),
    SubmitMarket(Vec<Position>),
    Notify(String),
    /// A pause, in milliseconds.
    Sleep(u64),
    /// Nothing more: it has succeeded.
    Succeed,
    /// Nothing more: it has failed for this reason.
    Fail(String),
    /// Nothing more: a step has failed.
    Abort,
}

impl View for CleanupAction {
    type V = Request;

    open spec fn view(&self) -> Request {
        match self {
            CleanupAction::CancelOrders => Request::CancelOrders,
            CleanupAction::AskLimitSupport => Request::AskLimitSupport,
            CleanupAction::FetchPositions => Request::FetchPositions,
            CleanupAction::SubmitLimit(positions) => Request::SubmitLimit(positions@),
            CleanupAction::SubmitMarket(positions) => Request::SubmitMarket(positions@),
            CleanupAction::Notify(text) => Request::Notify(text@),
            CleanupAction::Sleep(millis) => Request::Sleep(*millis),
            CleanupAction::Succeed => Request::Succeed,
            CleanupAction::Fail(reason) => Request::Fail(reason@),
            CleanupAction::Abort => Request::Abort,
        }
    }
}

fn copied(positions: &Vec<Position>) -> (r: Vec<Position>)
    ensures
        r@ == positions@,
{
    let copy: Vec<Position> = positions.clone();
    assert(copy@ =~= positions@);
    copy
}

/// A cleanup of an account at a venue. The phase of the bot that it happens in
/// is told in its notices.
pub struct Cleanup {
    phase: String,
    stage: CleanupStage,
}

impl Cleanup {
    /// Where the cleanup stands.
    pub closed spec fn stage(self) -> Stage {
        self.stage@
    }

    /// The phase of the bot.
    pub closed spec fn phase(self) -> Seq<char> {
        self.phase@
    }

    /// What the cleanup asks its owner for.
    pub fn action(&self) -> (r: CleanupAction)
        ensures
            r@ == request_of(self.stage(), self.phase()),
    {
        match &self.stage {
            CleanupStage::Canceling => CleanupAction::CancelOrders,
            CleanupStage::Asking => CleanupAction::AskLimitSupport,
            CleanupStage::Fetching { .. } => CleanupAction::FetchPositions,
            CleanupStage::Submitting { positions, .. } => CleanupAction::SubmitLimit(
                copied(positions),
            ),
            CleanupStage::Waiting { .. } => CleanupAction::Sleep(POLL_INTERVAL_MS),
            CleanupStage::Polling { .. } => CleanupAction::FetchPositions,
            CleanupStage::Withdrawing { .. } => CleanupAction::CancelOrders,
            CleanupStage::Resting { .. } => CleanupAction::Sleep(REPRICE_PAUSE_MS),
            CleanupStage::FetchingResidual => CleanupAction::FetchPositions,
            CleanupStage::Warning { positions } => CleanupAction::Notify(
                limit_notice(self.phase.as_str(), summary(positions).as_str()),
            ),
            CleanupStage::CancelingForMarket { .. } => CleanupAction::CancelOrders,
            CleanupStage::SubmittingMarket { positions } => CleanupAction::SubmitMarket(
                copied(positions),
            ),
            CleanupStage::Settling => CleanupAction::Sleep(MARKET_PAUSE_MS),
            CleanupStage::FetchingFinal => CleanupAction::FetchPositions,
            CleanupStage::Reporting { positions } => CleanupAction::Notify(
                market_notice(self.phase.as_str(), summary(positions).as_str()),
            ),
            CleanupStage::Finished(CleanupEnd::Flat) => CleanupAction::Succeed,
            CleanupStage::Finished(CleanupEnd::Unsupported) => CleanupAction::Succeed,
            CleanupStage::Finished(CleanupEnd::StillOpen(positions)) => CleanupAction::Fail(
                failure(summary(positions).as_str()),
            ),
            CleanupStage::Finished(CleanupEnd::Aborted) => CleanupAction::Abort,
        }
    }

    /// The cleanup after a step.
    pub fn next(self, event: CleanupEvent) -> (r: Self)
        ensures
            r.stage() == next_stage(self.stage(), event@),
            r.phase() == self.phase(),
    {
        Cleanup { phase: self.phase, stage: self.stage.next(event) }
    }
}

/// Starts to flatten an account: all orders are canceled, and where the venue
/// takes limit orders to close positions, the positions are closed.
pub fn flatten_account_state(phase: String) -> (r: Cleanup)
    ensures
        r.stage() == Stage::Canceling,
        r.phase() == phase@,
{
    Cleanup { phase, stage: CleanupStage::Canceling }
}

} // verus!
