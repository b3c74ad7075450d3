//! What holds of the price feed whatever frames come.
use vstd::prelude::*;

use super::model::{
    address_of, after_frame, by_name, next_phase, quote_of, streams_of, Envelope, Gathered,
    Happened, Phase, Price, Received,
};
use crate::decimal::parsed_decimal;
use crate::table::{find, lemma_find_after_put, lemma_put_members};
use crate::text::{before, law_before_mark, law_joined, lowercase};

verus! {

/// Whether a symbol is one of some symbols, under a name that is this one in
/// lower case.
pub open spec fn is_followed_as(
    symbols: Seq<(Seq<char>, Seq<char>)>,
    symbol: Seq<char>,
    name: Seq<char>,
) -> bool {
    exists|i: int|
        0 <= i < symbols.len() && (#[trigger] symbols[i]).0 == symbol && lowercase(symbols[i].1)
            == name
}

/// Whether a symbol is one of some symbols.
pub open spec fn is_followed(symbols: Seq<(Seq<char>, Seq<char>)>, symbol: Seq<char>) -> bool {
    exists|i: int| 0 <= i < symbols.len() && (#[trigger] symbols[i]).0 == symbol
}

/// Whether all prices of a round are positive prices of symbols that are
/// followed.
pub open spec fn sound(gathered: Gathered, symbols: Seq<(Seq<char>, Seq<char>)>) -> bool {
    forall|i: int|
        0 <= i < gathered.latest.len() ==> (#[trigger] gathered.latest[i]).1.mantissa > 0
            && is_followed(symbols, gathered.latest[i].0)
}

proof fn lemma_found_is_followed(symbols: Seq<(Seq<char>, Seq<char>)>, name: Seq<char>)
    ensures
        find(by_name(symbols), name) matches Some(symbol) ==> is_followed_as(
            symbols,
            symbol,
            name,
        ),
    decreases symbols.len(),
{
    if symbols.len() > 0 {
        let rest = symbols.drop_last();
        let (last, last_name) = symbols.last();
        lemma_found_is_followed(rest, name);
        lemma_find_after_put(by_name(rest), lowercase(last_name), last, name);
        if lowercase(last_name) == name {
            assert(symbols[symbols.len() - 1] == (last, last_name));
        } else if find(by_name(rest), name) is Some {
            let symbol = find(by_name(rest), name)->0;
            let i = choose|i: int|
                0 <= i < rest.len() && (#[trigger] rest[i]).0 == symbol && lowercase(rest[i].1)
                    == name;
            assert(symbols[i] == rest[i]);
        }
    }
}

/// The quote of an envelope has a positive price, and its symbol is one of those
/// that are followed, under the very name, in lower case, that the stream has up
/// to its first `@`.
pub proof fn law_quotes_are_followed(
    envelope: Envelope,
    symbols: Seq<(Seq<char>, Seq<char>)>,
)
    ensures
        quote_of(envelope, by_name(symbols)) matches Some((symbol, price)) ==> price.mantissa > 0
            && is_followed_as(symbols, symbol, before(envelope.stream, '@')),
{
    lemma_found_is_followed(symbols, before(envelope.stream, '@'));
}

/// The prices of a round are positive, and are those of symbols that are
/// followed: it holds of a round without frames, and every frame keeps it.
pub proof fn law_rounds_are_sound(
    gathered: Gathered,
    frame: Received,
    symbols: Seq<(Seq<char>, Seq<char>)>,
)
    requires
        sound(gathered, symbols),
    ensures
        sound(after_frame(gathered, frame, by_name(symbols)), symbols),
        sound(Gathered::nothing(), symbols),
{
    let after = after_frame(gathered, frame, by_name(symbols));
    if let Received::Text(Some(envelope)) = frame {
        if let Some((symbol, price)) = quote_of(envelope, by_name(symbols)) {
            law_quotes_are_followed(envelope, symbols);
            let k = choose|k: int|
                0 <= k < symbols.len() && (#[trigger] symbols[k]).0 == symbol && lowercase(
                    symbols[k].1,
                ) == before(envelope.stream, '@');
            assert(symbols[k].0 == symbol);
            assert forall|i: int| 0 <= i < after.latest.len() implies (
            #[trigger] after.latest[i]).1.mantissa > 0 && is_followed(
                symbols,
                after.latest[i].0,
            ) by {
                lemma_put_members(gathered.latest, symbol, price, i);
                if after.latest[i] != (symbol, price) {
                    let j = choose|j: int|
                        0 <= j < gathered.latest.len() && gathered.latest[j] == after.latest[i];
                    assert(gathered.latest[j] == after.latest[i]);
                }
            }
        }
    }
}

/// The latest price of a symbol stands, and a frame changes the price of no
/// other symbol.
pub proof fn law_latest_price_stands(
    gathered: Gathered,
    frame: Received,
    names: Seq<(Seq<char>, Seq<char>)>,
    symbol: Seq<char>,
)
    ensures
        find(after_frame(gathered, frame, names).latest, symbol) == (match frame {
            Received::Text(Some(envelope)) => match quote_of(envelope, names) {
                Some((quoted, price)) => if quoted == symbol {
                    Some(price)
                } else {
                    find(gathered.latest, symbol)
                },
                None => find(gathered.latest, symbol),
            },
            _ => find(gathered.latest, symbol),
        }),
{
    if let Received::Text(Some(envelope)) = frame {
        if let Some((quoted, price)) = quote_of(envelope, names) {
            lemma_find_after_put(gathered.latest, quoted, price, symbol);
        }
    }
}

/// The last ping of a round is answered with its own payload before any price
/// of the round is passed on.
pub proof fn law_ping_is_answered(
    gathered: Gathered,
    payload: Seq<u8>,
    frame: Received,
    event: Happened,
    names: Seq<(Seq<char>, Seq<char>)>,
)
    ensures
        after_frame(gathered, Received::Ping(payload), names).pong == Some(payload),
        !(frame is Ping) ==> after_frame(gathered, frame, names).pong == gathered.pong,
        gathered.pong is Some && !(event is Frame) ==> next_phase(
            Phase::Draining(gathered),
            event,
            names,
        ) == Phase::Answering(gathered),
{
}

/// Once the peer has closed the stream no frame of the round changes that, and
/// the prices of the round are not passed on: the feed rests and connects
/// again.
pub proof fn law_closed_round_is_dropped(
    gathered: Gathered,
    frame: Received,
    event: Happened,
    names: Seq<(Seq<char>, Seq<char>)>,
)
    requires
        gathered.needs_reconnect || frame is Close,
    ensures
        after_frame(gathered, frame, names).needs_reconnect,
        gathered.needs_reconnect ==> !(next_phase(
            Phase::Draining(gathered),
            event,
            names,
        ) is Publishing),
        gathered.needs_reconnect && event is Done ==> next_phase(
            Phase::Answering(gathered),
            event,
            names,
        ) is Pausing,
        next_phase(Phase::Pausing, Happened::Done, names) is Connecting,
{
}

/// After a connection, a wait for a frame or an answer that has failed, the
/// feed rests before it connects again.
pub proof fn law_failure_leads_to_rest(phase: Phase, names: Seq<(Seq<char>, Seq<char>)>)
    requires
        phase is Connecting || phase is Awaiting || phase is Answering,
    ensures
        next_phase(phase, Happened::Failed, names) is Pausing,
{
}

/// Every symbol stands under the name that the venue gives it, in lower case,
/// unless a later symbol has that name too.
pub proof fn law_symbols_are_found_by_name(symbols: Seq<(Seq<char>, Seq<char>)>, i: int)
    requires
        0 <= i < symbols.len(),
        forall|j: int|
            i < j < symbols.len() ==> lowercase((#[trigger] symbols[j]).1) != lowercase(
                symbols[i].1,
            ),
    ensures
        find(by_name(symbols), lowercase(symbols[i].1)) == Some(symbols[i].0),
    decreases symbols.len(),
{
    let rest = symbols.drop_last();
    let (symbol, name) = symbols.last();
    lemma_find_after_put(by_name(rest), lowercase(name), symbol, lowercase(symbols[i].1));
    if i < symbols.len() - 1 {
        assert(rest[i] == symbols[i]);
        assert forall|j: int| i < j < rest.len() implies lowercase((#[trigger] rest[j]).1)
            != lowercase(rest[i].1) by {
            assert(rest[j] == symbols[j]);
        }
        law_symbols_are_found_by_name(rest, i);
        assert(symbols[symbols.len() - 1] == symbols.last());
    }
}

/// An envelope gives a quote exactly where the name of its stream up to the first
/// `@` is known, its text writes a number, and that number is positive, however many
/// digits it has. The quote is the symbol of that name with that very number.
pub proof fn law_positive_prices_are_quoted(
    name: Seq<char>,
    rest: Seq<char>,
    text: Seq<char>,
    names: Seq<(Seq<char>, Seq<char>)>,
)
    requires
        !name.contains('@'),
    ensures
        quote_of(Envelope { stream: name + seq!['@'] + rest, mark_price: text }, names) == (
        match (find(names, name), parsed_decimal(text)) {
            (Some(symbol), Some((mantissa, scale))) => if mantissa > 0 {
                Some((symbol, Price { mantissa, scale }))
            } else {
                None
            },
            _ => None,
        }),
        quote_of(Envelope { stream: name, mark_price: text }, names) == quote_of(
            Envelope { stream: name + seq!['@'] + rest, mark_price: text },
            names,
        ),
{
    law_before_mark(name, '@', rest);
}

/// A price that is quoted stands as the latest one of its symbol, and no other price
/// changes. An envelope without a quote changes nothing, nor does a frame that is no
/// envelope but to ask for an answer or for a new connection.
pub proof fn law_frames_do_one_thing(
    gathered: Gathered,
    frame: Received,
    names: Seq<(Seq<char>, Seq<char>)>,
    symbol: Seq<char>,
)
    ensures
        frame matches Received::Text(Some(envelope)) ==> (quote_of(envelope, names) matches Some(
            (quoted, price),
        ) ==> find(after_frame(gathered, frame, names).latest, symbol) == (if symbol == quoted {
            Some(price)
        } else {
            find(gathered.latest, symbol)
        })),
        !(frame matches Received::Text(Some(envelope)) && quote_of(envelope, names) is Some)
            ==> after_frame(gathered, frame, names).latest == gathered.latest,
        after_frame(gathered, frame, names).needs_reconnect <==> gathered.needs_reconnect
            || frame is Close,
        after_frame(gathered, frame, names).pong == (match frame {
            Received::Ping(payload) => Some(payload),
            _ => gathered.pong,
        }),
{
    law_latest_price_stands(gathered, frame, names, symbol);
}

/// A positive price of a followed symbol that comes in the last envelope of a round
/// is passed on at the end of the round, under the symbol that the venue's name
/// belongs to, unless the peer has closed the stream.
pub proof fn law_last_price_is_passed_on(
    gathered: Gathered,
    symbols: Seq<(Seq<char>, Seq<char>)>,
    i: int,
    rest: Seq<char>,
    text: Seq<char>,
    mantissa: int,
    scale: int,
)
    requires
        0 <= i < symbols.len(),
        !lowercase(symbols[i].1).contains('@'),
        forall|j: int|
            i < j < symbols.len() ==> lowercase((#[trigger] symbols[j]).1) != lowercase(
                symbols[i].1,
            ),
        parsed_decimal(text) == Some((mantissa, scale)),
        mantissa > 0,
        !gathered.needs_reconnect,
        gathered.pong is None,
    ensures
        ({
            let frame = Received::Text(
                Some(
                    Envelope {
                        stream: lowercase(symbols[i].1) + seq!['@'] + rest,
                        mark_price: text,
                    },
                ),
            );
            let names = by_name(symbols);
            let taken = next_phase(
                Phase::Draining(gathered),
                Happened::Frame(frame),
                names,
            );
            next_phase(taken, Happened::Failed, names) matches Phase::Publishing(round) && find(
                round.latest,
                symbols[i].0,
            ) == Some(Price { mantissa, scale })
        }),
{
    let name = lowercase(symbols[i].1);
    let names = by_name(symbols);
    let frame = Received::Text(
        Some(Envelope { stream: name + seq!['@'] + rest, mark_price: text }),
    );
    law_symbols_are_found_by_name(symbols, i);
    law_positive_prices_are_quoted(name, rest, text, names);
    law_frames_do_one_thing(gathered, frame, names, symbols[i].0);
}

/// The steps of a feed that connects, and of a round of frames: frames are taken
/// until none is left, a ping is answered, and what the round amounts to is passed on
/// unless the peer has closed the stream. Then the next round begins. A feed that
/// rests connects again, and one without symbols never does anything.
pub proof fn law_steps_of_the_feed(
    gathered: Gathered,
    frame: Received,
    event: Happened,
    names: Seq<(Seq<char>, Seq<char>)>,
)
    requires
        !(event is Frame),
    ensures
        next_phase(Phase::Idle, event, names) == Phase::Idle,
        next_phase(Phase::Connecting, Happened::Done, names) == Phase::Awaiting,
        next_phase(Phase::Awaiting, Happened::Frame(frame), names) == Phase::Draining(
            after_frame(
                Gathered { latest: Seq::empty(), needs_reconnect: false, pong: None },
                frame,
                names,
            ),
        ),
        next_phase(Phase::Draining(gathered), Happened::Frame(frame), names) == Phase::Draining(
            after_frame(gathered, frame, names),
        ),
        next_phase(Phase::Draining(gathered), event, names) == (if gathered.pong is Some {
            Phase::Answering(gathered)
        } else if gathered.needs_reconnect {
            Phase::Pausing
        } else {
            Phase::Publishing(gathered)
        }),
        next_phase(Phase::Answering(gathered), Happened::Done, names) == (
        if gathered.needs_reconnect {
            Phase::Pausing
        } else {
            Phase::Publishing(gathered)
        }),
        next_phase(Phase::Publishing(gathered), event, names) == Phase::Awaiting,
        next_phase(Phase::Pausing, event, names) == Phase::Connecting,
        next_phase(Phase::Idle, Happened::Frame(frame), names) == Phase::Idle,
        next_phase(Phase::Awaiting, Happened::Done, names) == Phase::Awaiting,
        next_phase(Phase::Connecting, Happened::Frame(frame), names) == Phase::Connecting,
        next_phase(Phase::Answering(gathered), Happened::Frame(frame), names)
            == Phase::Answering(gathered),
        next_phase(Phase::Publishing(gathered), Happened::Frame(frame), names)
            == Phase::Publishing(gathered),
        next_phase(Phase::Pausing, Happened::Frame(frame), names) == Phase::Pausing,
{
}

/// A name that no symbol has is not found.
pub proof fn law_other_names_are_unknown(symbols: Seq<(Seq<char>, Seq<char>)>, name: Seq<char>)
    requires
        forall|i: int| 0 <= i < symbols.len() ==> lowercase((#[trigger] symbols[i]).1) != name,
    ensures
        find(by_name(symbols), name) is None,
{
    lemma_found_is_followed(symbols, name);
}

/// The address names the mark price stream of every symbol, in lower case and in
/// their order, with slashes between.
pub proof fn law_address_names_every_stream(
    symbols: Seq<(Seq<char>, Seq<char>)>,
    symbol: Seq<char>,
    name: Seq<char>,
)
    ensures
        address_of(seq![(symbol, name)]) == "wss://fstream.binance.com/stream"@ + "?streams="@ + (
        lowercase(name) + "@markPrice@1s"@),
        symbols.len() > 0 ==> address_of(symbols.push((symbol, name))) == address_of(symbols)
            + "/"@ + (lowercase(name) + "@markPrice@1s"@),
{
    let one = streams_of(seq![(symbol, name)]);
    assert(one =~= seq![one[0]]);
    law_joined(seq![one[0]], seq![one[0]], "/"@, one[0]);
    if symbols.len() > 0 {
        assert(streams_of(symbols.push((symbol, name))) =~= streams_of(symbols) + one);
        law_joined(streams_of(symbols), one, "/"@, one[0]);
        assert(address_of(symbols.push((symbol, name))) =~= address_of(symbols) + "/"@ + (
        lowercase(name) + "@markPrice@1s"@));
    }
}

} // verus!
