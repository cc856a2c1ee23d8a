//! The exchange feeds: where they are, and the life of one session with a feed.
use vstd::prelude::*;

use crate::input_update::InputUpdate;
use crate::level::Exchange;

verus! {

/// The address of Binance's depth stream for `pair`.
pub fn binance_url(pair: &str) -> (r: String)
    ensures
        r@ == "wss://stream.binance.com:9443/ws/"@ + pair@ + "@depth10@100ms"@,
{
    let mut r = String::from_str("wss://stream.binance.com:9443/ws/");
    r.append(pair);
    r.append("@depth10@100ms");
    r
}

/// The address of Bitstamp's websocket API.
pub fn bitstamp_url() -> (r: String)
    ensures
        r@ == "wss://ws.bitstamp.net"@,
{
    String::from_str("wss://ws.bitstamp.net")
}

/// The frame that subscribes to Bitstamp's order book channel for `pair`.
pub fn bitstamp_subscribe_message(pair: &str) -> (r: String)
    ensures
        r@ == "{\"event\":\"bts:subscribe\",\"data\":{\"channel\":\"order_book_"@ + pair@
            + "\"}}"@,
{
    let mut r = String::from_str("{\"event\":\"bts:subscribe\",\"data\":{\"channel\":\"order_book_");
    r.append(pair);
    r.append("\"}}");
    r
}

/// Where a session with a feed stands.
#[derive(Clone, Copy, Debug, PartialEq, Eq, Structural)]
pub enum Phase {
    /// Opening the connection.
    Connecting,
    /// Connected to Bitstamp, waiting for it to acknowledge the subscription.
    Subscribing,
    /// Receiving snapshots.
    Streaming,
}

/// A text frame of a feed that decoded.
#[derive(Debug)]
pub enum Message {
    /// A snapshot of the book.
    Update(InputUpdate),
    /// Bitstamp asks its clients to reconnect.
    ReconnectRequest,
    /// Bitstamp acknowledges the subscription.
    SubscriptionSucceeded,
}

/// What the connection brought.
#[derive(Debug)]
pub enum Event {
    /// The connection is open (for Bitstamp, the subscription frame is sent).
    Connected,
    /// A text frame that decoded.
    Message(Message),
    /// A text frame that did not decode.
    Undecodable,
    /// A close frame.
    Close,
    /// A ping, a pong or a binary frame.
    Control,
    /// The transport failed.
    TransportError,
    /// The transport has no more frames.
    EndOfStream,
}

/// What to do next.
#[derive(Debug)]
pub enum Action {
    /// Open a new connection, waiting as the backoff policy says between failed tries.
    Connect,
    /// Wait for the next frame.
    Receive,
    /// Hand the snapshot on, then wait for the next frame.
    Emit(InputUpdate),
}

/// The phase that follows a successful connection to `exchange`.
pub open spec fn connected_phase(exchange: Exchange) -> Phase {
    match exchange {
        Exchange::Binance => Phase::Streaming,
        Exchange::Bitstamp => Phase::Subscribing,
    }
}

/// The next phase and the action of a session with `exchange` in `phase` on `event`.
pub open spec fn transition(exchange: Exchange, phase: Phase, event: Event) -> (Phase, Action) {
    match phase {
        Phase::Connecting => match event {
            Event::Connected => (connected_phase(exchange), Action::Receive),
            _ => (Phase::Connecting, Action::Connect),
        },
        _ => match event {
            Event::Message(Message::Update(u)) => if phase == Phase::Streaming {
                (Phase::Streaming, Action::Emit(u))
            } else {
                (phase, Action::Receive)
            },
            Event::Message(Message::SubscriptionSucceeded) => (Phase::Streaming, Action::Receive),
            Event::Control => (phase, Action::Receive),
            _ => (Phase::Connecting, Action::Connect),
        },
    }
}

/// A session with one exchange's feed, which reconnects on every failure and never ends.
#[derive(Debug)]
pub struct Session {
    exchange: Exchange,
    phase: Phase,
}

impl Session {
    /// The exchange of the feed.
    pub closed spec fn spec_exchange(self) -> Exchange {
        self.exchange
    }

    /// Where the session stands.
    pub closed spec fn spec_phase(self) -> Phase {
        self.phase
    }

    /// A session with `exchange` that is about to connect.
    pub fn new(exchange: Exchange) -> (r: Session)
        ensures
            r.spec_exchange() == exchange,
            r.spec_phase() == Phase::Connecting,
    {
        Session { exchange, phase: Phase::Connecting }
    }

    /// Where the session stands.
    pub fn phase(&self) -> (r: Phase)
        ensures
            r == self.spec_phase(),
    {
        self.phase
    }

    /// Takes in what the connection brought and says what to do next.
    pub fn on_event(&mut self, event: Event) -> (r: Action)
        ensures
            final(self).spec_exchange() == old(self).spec_exchange(),
            (final(self).spec_phase(), r) == transition(
                old(self).spec_exchange(),
                old(self).spec_phase(),
                event,
            ),
    {
        let (phase, action) = match self.phase {
            Phase::Connecting => match event {
                Event::Connected => {
                    let p = match self.exchange {
                        Exchange::Binance => Phase::Streaming,
                        Exchange::Bitstamp => Phase::Subscribing,
                    };
                    (p, Action::Receive)
                },
                _ => (Phase::Connecting, Action::Connect),
            },
            Phase::Subscribing => match event {
                Event::Message(Message::Update(_)) => (Phase::Subscribing, Action::Receive),
                Event::Message(Message::SubscriptionSucceeded) => (Phase::Streaming, Action::Receive),
                Event::Control => (Phase::Subscribing, Action::Receive),
                _ => (Phase::Connecting, Action::Connect),
            },
            Phase::Streaming => match event {
                Event::Message(Message::Update(u)) => (Phase::Streaming, Action::Emit(u)),
                Event::Message(Message::SubscriptionSucceeded) => (Phase::Streaming, Action::Receive),
                Event::Control => (Phase::Streaming, Action::Receive),
                _ => (Phase::Connecting, Action::Connect),
            },
        };
        self.phase = phase;
        action
    }
}

} // verus!
