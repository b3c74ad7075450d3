//! What the price feed does, as functions on plain values.
use vstd::prelude::*;

use crate::decimal::parsed_decimal;
use crate::table::{find, put};
use crate::text::{before, joined, lowercase};

verus! {

/// A price as it was written: mantissa and scale.
pub struct Price {
    pub mantissa: int,
    pub scale: int,
}

/// What a text frame carries: the name of a stream, and a price.
pub struct Envelope {
    pub stream: Seq<char>,
    pub mark_price: Seq<char>,
}

/// A frame of the stream. A text that is no envelope carries nothing.
pub enum Received {
    Text(Option<Envelope>),
    Ping(Seq<u8>),
    Close,
    Other,
}

/// What the frames of one round amount to: the latest price of each symbol,
/// whether the peer has closed the stream, and the ping to answer.
pub struct Gathered {
    pub latest: Seq<(Seq<char>, Price)>,
    pub needs_reconnect: bool,
    pub pong: Option<Seq<u8>>,
}

impl Gathered {
    pub open spec fn nothing() -> Gathered {
        Gathered { latest: Seq::empty(), needs_reconnect: false, pong: None }
    }
}

/// A symbol with its price, where both are known and the price is positive.
pub open spec fn quoted(symbol: Option<Seq<char>>, price: Option<Price>) -> Option<
    (Seq<char>, Price),
> {
    match (symbol, price) {
        (Some(symbol), Some(price)) => if price.mantissa > 0 {
            Some((symbol, price))
        } else {
            None
        },
        _ => None,
    }
}

/// The price that a text writes.
pub open spec fn price_in(text: Seq<char>) -> Option<Price> {
    match parsed_decimal(text) {
        Some((mantissa, scale)) => Some(Price { mantissa, scale }),
        None => None,
    }
}

/// The symbol and the price of an envelope: the symbol is the one that stands
/// under the name of the stream up to its first `@`.
pub open spec fn quote_of(envelope: Envelope, names: Seq<(Seq<char>, Seq<char>)>) -> Option<
    (Seq<char>, Price),
> {
    quoted(find(names, before(envelope.stream, '@')), price_in(envelope.mark_price))
}

/// A round after one more frame.
pub open spec fn after_frame(
    gathered: Gathered,
    frame: Received,
    names: Seq<(Seq<char>, Seq<char>)>,
) -> Gathered {
    match frame {
        Received::Text(Some(envelope)) => match quote_of(envelope, names) {
            Some((symbol, price)) => Gathered {
                latest: put(gathered.latest, symbol, price),
                ..gathered
            },
            None => gathered,
        },
        Received::Text(None) => gathered,
        Received::Ping(payload) => Gathered { pong: Some(payload), ..gathered },
        Received::Close => Gathered { needs_reconnect: true, ..gathered },
        Received::Other => gathered,
    }
}

/// Where the feed stands.
pub enum Phase {
    /// There is no symbol to follow.
    Idle,
    /// A connection is being made.
    Connecting,
    /// The feed waits for the first frame of a round.
    Awaiting,
    /// The feed takes the frames that have already come.
    Draining(Gathered),
    /// A ping is being answered.
    Answering(Gathered),
    /// The prices of a round are being passed on.
    Publishing(Gathered),
    /// The feed rests before it connects again.
    Pausing,
}

/// What has become of what the feed asked for.
pub enum Happened {
    /// A frame has come.
    Frame(Received),
    /// It was done: the feed is connected, the answer is sent, the prices are
    /// passed on, the pause is over.
    Done,
    /// It failed, or no frame is left.
    Failed,
}

/// Where the feed stands once the frames of a round are taken and a ping is
/// answered.
pub open spec fn after_round(gathered: Gathered) -> Phase {
    if gathered.needs_reconnect {
        Phase::Pausing
    } else {
        Phase::Publishing(gathered)
    }
}

/// Where the feed stands after something has happened.
pub open spec fn next_phase(
    phase: Phase,
    event: Happened,
    names: Seq<(Seq<char>, Seq<char>)>,
) -> Phase {
    match phase {
        Phase::Idle => Phase::Idle,
        Phase::Connecting => match event {
            Happened::Done => Phase::Awaiting,
            Happened::Failed => Phase::Pausing,
            Happened::Frame(_) => phase,
        },
        Phase::Awaiting => match event {
            Happened::Frame(frame) => Phase::Draining(
                after_frame(Gathered::nothing(), frame, names),
            ),
            Happened::Done => phase,
            Happened::Failed => Phase::Pausing,
        },
        Phase::Draining(gathered) => match event {
            Happened::Frame(frame) => Phase::Draining(after_frame(gathered, frame, names)),
            _ => if gathered.pong is Some {
                Phase::Answering(gathered)
            } else {
                after_round(gathered)
            },
        },
        Phase::Answering(gathered) => match event {
            Happened::Done => after_round(gathered),
            Happened::Failed => Phase::Pausing,
            Happened::Frame(_) => phase,
        },
        Phase::Publishing(_) => match event {
            Happened::Frame(_) => phase,
            _ => Phase::Awaiting,
        },
        Phase::Pausing => match event {
            Happened::Frame(_) => phase,
            _ => Phase::Connecting,
        },
    }
}

/// The symbols under the names that the venue gives them, in lower case. Of two
/// symbols with one name the later one stands.
pub open spec fn by_name(symbols: Seq<(Seq<char>, Seq<char>)>) -> Seq<(Seq<char>, Seq<char>)>
    decreases symbols.len(),
{
    if symbols.len() == 0 {
        Seq::empty()
    } else {
        let (symbol, name) = symbols.last();
        put(by_name(symbols.drop_last()), lowercase(name), symbol)
    }
}

/// The streams of the symbols.
pub open spec fn streams_of(symbols: Seq<(Seq<char>, Seq<char>)>) -> Seq<Seq<char>> {
    Seq::new(symbols.len(), |i: int| lowercase(symbols[i].1) + "@markPrice@1s"@)
}

/// The address of all the streams of the symbols.
pub open spec fn address_of(symbols: Seq<(Seq<char>, Seq<char>)>) -> Seq<char> {
    "wss://fstream.binance.com/stream"@ + "?streams="@ + joined(streams_of(symbols), "/"@)
}

} // verus!
