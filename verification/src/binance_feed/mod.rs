//! Mark prices of the perpetual futures of a second venue, once a second,
//! passed on as spot prices.
//!
//! The feed decides; what it asks for, connecting, reading, answering, resting,
//! is done by its owner, who tells it what became of that.
use vstd::prelude::*;

use crate::decimal::{lemma_dec_sign, parse_decimal, Decimal};
use crate::domain::MarketEvent;
use crate::table::{lemma_find_mapped, lemma_put_mapped, mapped, SymbolMap};
use crate::text::{followed_by, join, text_before, texts, to_lowercase};
use crate::time::Timestamp;

use self::model::{
    address_of, after_frame, after_round, by_name, next_phase, quote_of, quoted, streams_of,
    Envelope, Gathered, Happened, Phase, Price, Received,
};

pub mod laws;
pub mod model;

verus! {

/// The seconds between two connections.
pub const RECONNECT_DELAY_SECS: u64 = 2;

/// The price of an envelope.
pub struct BinanceMarkPriceData {
    /// The mark price, written as a decimal number.
    pub mark_price: String,
}

/// What a text frame carries.
pub struct BinanceEnvelope {
    pub stream: String,
    pub data: BinanceMarkPriceData,
}

impl View for BinanceEnvelope {
    type V = Envelope;

    open spec fn view(&self) -> Envelope {
        Envelope { stream: self.stream@, mark_price: self.data.mark_price@ }
    }
}

/// A frame of the stream.
pub enum Frame {
    /// A text, with what it carries where it is an envelope.
    Text(Option<BinanceEnvelope>),
    Ping(Vec<u8>),
    Close,
    Other,
}

impl View for Frame {
    type V = Received;

    open spec fn view(&self) -> Received {
        match self {
            Frame::Text(Some(envelope)) => Received::Text(Some(envelope@)),
            Frame::Text(None) => Received::Text(None),
            Frame::Ping(payload) => Received::Ping(payload@),
            Frame::Close => Received::Close,
            Frame::Other => Received::Other,
        }
    }
}

/// How a decimal is written.
pub open spec fn as_written() -> spec_fn(Decimal) -> Price {
    |d: Decimal| Price { mantissa: d.digits(), scale: d.places() as int }
}

/// The characters of a text.
pub open spec fn as_text() -> spec_fn(String) -> Seq<char> {
    |text: String| text@
}

/// The view of a symbol with its price.
pub open spec fn quote_view(quote: Option<(String, Decimal)>) -> Option<(Seq<char>, Price)> {
    match quote {
        Some((symbol, price)) => Some((symbol@, as_written()(price))),
        None => None,
    }
}

/// A symbol with its price, where both are known and the price is positive.
pub fn quote(symbol: Option<&String>, price: Option<Decimal>) -> (r: Option<(String, Decimal)>)
    ensures
        quote_view(r) == quoted(
            match symbol {
                Some(symbol) => Some(symbol@),
                None => None,
            },
            match price {
                Some(price) => Some(as_written()(price)),
                None => None,
            },
        ),
        r matches Some((_, price)) ==> price@ > 0,
        match (symbol, price) {
            (Some(symbol), Some(price)) => if price@ > 0 {
                r matches Some((quoted, written)) && quoted@ == symbol@ && written == price
            } else {
                r is None
            },
            _ => r is None,
        },
{
    match (symbol, price) {
        (Some(symbol), Some(price)) => {
            let scale: u32 = price.scale();
            proof {
                lemma_dec_sign(price.digits(), price.places());
            }
            if price.is_positive() {
                Some((symbol.clone(), price))
            } else {
                None
            }
        },
        _ => None,
    }
}

/// The symbol and the price of an envelope.
pub fn parse_mark_price(envelope: &BinanceEnvelope, reverse_map: &SymbolMap<String>) -> (r: Option<
    (String, Decimal),
>)
    ensures
        quote_view(r) == quote_of(envelope@, mapped(reverse_map@, as_text())),
        r matches Some((_, price)) ==> price@ > 0,
{
    let name: String = text_before(envelope.stream.as_str(), '@');
    proof {
        lemma_find_mapped(reverse_map@, as_text(), name@);
    }
    quote(reverse_map.get(&name), parse_decimal(envelope.data.mark_price.as_str()))
}

/// What the frames of one round amount to.
pub struct Batch {
    latest: SymbolMap<Decimal>,
    needs_reconnect: bool,
    pong_payload: Option<Vec<u8>>,
}

impl View for Batch {
    type V = Gathered;

    closed spec fn view(&self) -> Gathered {
        Gathered {
            latest: mapped(self.latest@, as_written()),
            needs_reconnect: self.needs_reconnect,
            pong: match self.pong_payload {
                Some(payload) => Some(payload@),
                None => None,
            },
        }
    }
}

impl Batch {
    /// A round without frames.
    pub fn new() -> (r: Self)
        ensures
            r@ == Gathered::nothing(),
    {
        let r = Batch { latest: SymbolMap::new(), needs_reconnect: false, pong_payload: None };
        assert(r@.latest =~= Seq::<(Seq<char>, Price)>::empty());
        r
    }

    /// Takes one more frame in.
    pub fn process_frame(&mut self, frame: Frame, reverse_map: &SymbolMap<String>)
        ensures
            final(self)@ == after_frame(old(self)@, frame@, mapped(reverse_map@, as_text())),
    {
        match frame {
            Frame::Text(Some(envelope)) => {
                if let Some((symbol, price)) = parse_mark_price(&envelope, reverse_map) {
                    proof {
                        lemma_put_mapped(self.latest@, as_written(), symbol@, price);
                    }
                    self.latest.insert(symbol, price);
                }
            },
            Frame::Text(None) => {},
            Frame::Ping(payload) => {
                self.pong_payload = Some(payload);
            },
            Frame::Close => {
                self.needs_reconnect = true;
            },
            Frame::Other => {},
        }
    }

    /// The latest prices as events.
    pub fn events(&self, now: Timestamp) -> (r: Vec<MarketEvent>)
        ensures
            r@.len() == self@.latest.len(),
            forall|i: int|
                0 <= i < r@.len() ==> ((#[trigger] r@[i]) matches MarketEvent::SpotPrice {
                    symbol,
                    price,
                    timestamp,
                } && symbol@ == self@.latest[i].0 && as_written()(price) == self@.latest[i].1
                    && timestamp == now),
    {
        let mut events: Vec<MarketEvent> = Vec::new();
        let mut i: usize = 0;
        while i < self.latest.len()
            invariant
                i <= self.latest@.len(),
                self.latest@.len() == self@.latest.len(),
                events@.len() == i,
                forall|j: int|
                    0 <= j < i ==> ((#[trigger] events@[j]) matches MarketEvent::SpotPrice {
                        symbol,
                        price,
                        timestamp,
                    } && symbol@ == self@.latest[j].0 && as_written()(price)
                        == self@.latest[j].1 && timestamp == now),
            decreases self.latest@.len() - i,
        {
            events.push(
                MarketEvent::SpotPrice {
                    symbol: self.latest.key_at(i).clone(),
                    price: *self.latest.value_at(i),
                    timestamp: now,
                },
            );
            i = i + 1;
        }
        events
    }
}

/// The address of all the streams of the symbols.
pub fn stream_url(symbol_map: &SymbolMap<String>) -> (r: String)
    ensures
        r@ == address_of(mapped(symbol_map@, as_text())),
{
    let ghost symbols = mapped(symbol_map@, as_text());
    let mut streams: Vec<String> = Vec::new();
    let mut i: usize = 0;
    while i < symbol_map.len()
        invariant
            symbols == mapped(symbol_map@, as_text()),
            i <= symbol_map@.len(),
            streams@.len() == i,
            forall|j: int| 0 <= j < i ==> (#[trigger] streams@[j])@ == streams_of(symbols)[j],
        decreases symbol_map@.len() - i,
    {
        let name: String = to_lowercase(symbol_map.value_at(i).as_str());
        streams.push(followed_by(name.as_str(), "@markPrice@1s"));
        i = i + 1;
    }
    proof {
        assert(texts(streams@) =~= streams_of(symbols));
    }
    let base: String = followed_by("wss://fstream.binance.com/stream", "?streams=");
    followed_by(base.as_str(), join(&streams, "/").as_str())
}

/// The symbols under the names that the venue gives them, in lower case.
pub fn reverse_map(symbol_map: &SymbolMap<String>) -> (r: SymbolMap<String>)
    ensures
        mapped(r@, as_text()) == by_name(mapped(symbol_map@, as_text())),
{
    let ghost symbols = mapped(symbol_map@, as_text());
    let mut names: SymbolMap<String> = SymbolMap::new();
    let mut i: usize = 0;
    assert(mapped(names@, as_text()) =~= by_name(symbols.take(0)));
    while i < symbol_map.len()
        invariant
            symbols == mapped(symbol_map@, as_text()),
            i <= symbol_map@.len(),
            mapped(names@, as_text()) == by_name(symbols.take(i as int)),
        decreases symbol_map@.len() - i,
    {
        let name: String = to_lowercase(symbol_map.value_at(i).as_str());
        let symbol: String = symbol_map.key_at(i).clone();
        proof {
            lemma_put_mapped(names@, as_text(), name@, symbol);
            assert(symbols.take(i + 1).drop_last() =~= symbols.take(i as int));
            assert(symbols.take(i + 1).last() == symbols[i as int]);
        }
        names.insert(name, symbol);
        i = i + 1;
    }
    assert(symbols.take(i as int) =~= symbols);
    names
}

/// Where the feed stands.
pub enum FeedPhase {
    /// There is no symbol to follow.
    Idle,
    /// A connection is being made.
    Connecting,
    /// The feed waits for the first frame of a round.
    Awaiting,
    /// The feed takes the frames that have already come.
    Draining(Batch),
    /// A ping is being answered.
    Answering(Batch),
    /// The prices of a round are being passed on.
    Publishing(Batch),
    /// The feed rests before it connects again.
    Pausing,
}

impl View for FeedPhase {
    type V = Phase;

    open spec fn view(&self) -> Phase {
        match self {
            FeedPhase::Idle => Phase::Idle,
            FeedPhase::Connecting => Phase::Connecting,
            FeedPhase::Awaiting => Phase::Awaiting,
            FeedPhase::Draining(batch) => Phase::Draining(batch@),
            FeedPhase::Answering(batch) => Phase::Answering(batch@),
            FeedPhase::Publishing(batch) => Phase::Publishing(batch@),
            FeedPhase::Pausing => Phase::Pausing,
        }
    }
}

/// What has become of what the feed asked for.
pub enum FeedEvent {
    /// A frame has come.
    Frame(Frame),
    /// It was done.
    Done,
    /// It failed, or no frame is left.
    Failed,
}

impl View for FeedEvent {
    type V = Happened;

    open spec fn view(&self) -> Happened {
        match self {
            FeedEvent::Frame(frame) => Happened::Frame(frame@),
            FeedEvent::Done => Happened::Done,
            FeedEvent::Failed => Happened::Failed,
        }
    }
}

/// What the feed asks its owner for.
pub enum FeedAction {
    /// Nothing, ever.
    Idle,
    /// To connect.
    Connect,
    /// To wait for a frame.
    AwaitFrame,
    /// To take a frame that has already come, without waiting.
    PollFrame,
    /// To answer a ping with its payload.
    SendPong(Vec<u8>),
    /// To pass events on.
    Publish(Vec<MarketEvent>),
    /// To rest for some seconds.
    Pause(u64),
}

fn phase_after_round(batch: Batch) -> (r: FeedPhase)
    ensures
        r@ == after_round(batch@),
{
    if batch.needs_reconnect {
        FeedPhase::Pausing
    } else {
        FeedPhase::Publishing(batch)
    }
}

impl FeedPhase {
    /// Where the feed stands after something has happened.
    pub fn next(self, event: FeedEvent, reverse_map: &SymbolMap<String>) -> (r: FeedPhase)
        ensures
            r@ == next_phase(self@, event@, mapped(reverse_map@, as_text())),
    {
        match self {
            FeedPhase::Idle => FeedPhase::Idle,
            FeedPhase::Connecting => match event {
                FeedEvent::Done => FeedPhase::Awaiting,
                FeedEvent::Failed => FeedPhase::Pausing,
                FeedEvent::Frame(_) => FeedPhase::Connecting,
            },
            FeedPhase::Awaiting => match event {
                FeedEvent::Frame(frame) => {
                    let mut batch = Batch::new();
                    batch.process_frame(frame, reverse_map);
                    FeedPhase::Draining(batch)
                },
                FeedEvent::Done => FeedPhase::Awaiting,
                FeedEvent::Failed => FeedPhase::Pausing,
            },
            FeedPhase::Draining(batch) => match event {
                FeedEvent::Frame(frame) => {
                    let mut batch = batch;
                    batch.process_frame(frame, reverse_map);
                    FeedPhase::Draining(batch)
                },
                _ => if batch.pong_payload.is_some() {
                    FeedPhase::Answering(batch)
                } else {
                    phase_after_round(batch)
                },
            },
            FeedPhase::Answering(batch) => match event {
                FeedEvent::Done => phase_after_round(batch),
                FeedEvent::Failed => FeedPhase::Pausing,
                FeedEvent::Frame(_) => FeedPhase::Answering(batch),
            },
            FeedPhase::Publishing(batch) => match event {
                FeedEvent::Frame(_) => FeedPhase::Publishing(batch),
                _ => FeedPhase::Awaiting,
            },
            FeedPhase::Pausing => match event {
                FeedEvent::Frame(_) => FeedPhase::Pausing,
                _ => FeedPhase::Connecting,
            },
        }
    }

    /// Where a feed of some symbols starts: with none it never does anything.
    pub fn first(symbol_map: &SymbolMap<String>) -> (r: FeedPhase)
        ensures
            r@ == (if symbol_map@.len() == 0 {
                Phase::Idle
            } else {
                Phase::Connecting
            }),
    {
        if symbol_map.len() == 0 {
            FeedPhase::Idle
        } else {
            FeedPhase::Connecting
        }
    }

    /// What the feed asks its owner for. Events carry the time `now`.
    pub fn action(&self, now: Timestamp) -> (r: FeedAction)
        ensures
            match self@ {
                Phase::Idle => r is Idle,
                Phase::Connecting => r is Connect,
                Phase::Awaiting => r is AwaitFrame,
                Phase::Draining(_) => r is PollFrame,
                Phase::Answering(gathered) => match gathered.pong {
                    Some(payload) => r matches FeedAction::SendPong(sent) && sent@ == payload,
                    None => r matches FeedAction::SendPong(sent) && sent@ == Seq::<u8>::empty(),
                },
                Phase::Publishing(gathered) => r matches FeedAction::Publish(events)
                    && events@.len() == gathered.latest.len() && forall|i: int|
                    0 <= i < events@.len() ==> ((
                    #[trigger] events@[i]) matches MarketEvent::SpotPrice {
                        symbol,
                        price,
                        timestamp,
                    } && symbol@ == gathered.latest[i].0 && as_written()(price)
                        == gathered.latest[i].1 && timestamp == now),
                Phase::Pausing => r == FeedAction::Pause(2),
            },
    {
        match self {
            FeedPhase::Idle => FeedAction::Idle,
            FeedPhase::Connecting => FeedAction::Connect,
            FeedPhase::Awaiting => FeedAction::AwaitFrame,
            FeedPhase::Draining(_) => FeedAction::PollFrame,
            FeedPhase::Answering(batch) => match &batch.pong_payload {
                Some(payload) => {
                    let sent: Vec<u8> = payload.clone();
                    assert(sent@ =~= payload@);
                    FeedAction::SendPong(sent)
                },
                None => FeedAction::SendPong(Vec::new()),
            },
            FeedPhase::Publishing(batch) => FeedAction::Publish(batch.events(now)),
            FeedPhase::Pausing => FeedAction::Pause(RECONNECT_DELAY_SECS),
        }
    }
}

} // verus!
