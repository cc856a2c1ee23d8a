use arrayvec::ArrayVec;
use orderbook_challenge::input_update::InputUpdate;
use orderbook_challenge::level::{Exchange, Level};
use orderbook_challenge::merge::MergeState;
use orderbook_challenge::number::FinitePositiveF64;
use orderbook_challenge::sources::{
    binance_url, bitstamp_subscribe_message, bitstamp_url, Action, Event, Message, Phase, Session,
};
use orderbook_challenge::TOP_LEVELS;

fn num(x: f64) -> FinitePositiveF64 {
    FinitePositiveF64::try_from_bits(x.to_bits()).unwrap()
}

fn lvl(price: f64, amount: f64) -> Level {
    Level { price: num(price), amount: num(amount) }
}

fn levels(v: Vec<Level>) -> ArrayVec<Level, TOP_LEVELS> {
    v.into_iter().collect()
}

fn update(exchange: Exchange, ask: f64) -> InputUpdate {
    InputUpdate::new(exchange, levels(vec![lvl(ask, 1.)]), levels(vec![lvl(ask / 2., 1.)]))
}

#[test]
fn addresses_and_subscription() {
    assert_eq!(binance_url("ethbtc"), "wss://stream.binance.com:9443/ws/ethbtc@depth10@100ms");
    assert_eq!(bitstamp_url(), "wss://ws.bitstamp.net");
    assert_eq!(
        bitstamp_subscribe_message("ethbtc"),
        r#"{"event":"bts:subscribe","data":{"channel":"order_book_ethbtc"}}"#
    );
}

#[test]
fn binance_session_reconnects_after_close() {
    let mut session = Session::new(Exchange::Binance);
    let mut state = MergeState::new();
    let mut summaries = Vec::new();
    let events = vec![
        Event::Connected,
        Event::Message(Message::Update(update(Exchange::Binance, 1.0))),
        Event::Close,
        Event::Connected,
        Event::Message(Message::Update(update(Exchange::Binance, 2.0))),
    ];
    let mut connects = 0;
    for event in events {
        match session.on_event(event) {
            Action::Emit(u) => {
                state.update(u);
                summaries.push(state.summary());
            }
            Action::Connect => connects += 1,
            Action::Receive => {}
        }
    }
    assert_eq!(summaries.len(), 2);
    assert_eq!(connects, 1);
    assert_eq!(session.phase(), Phase::Streaming);
}

#[test]
fn every_failure_leads_back_to_connecting() {
    for failure in [Event::Undecodable, Event::Close, Event::TransportError, Event::EndOfStream] {
        let mut session = Session::new(Exchange::Binance);
        assert!(matches!(session.on_event(Event::Connected), Action::Receive));
        assert!(matches!(session.on_event(failure), Action::Connect));
        assert_eq!(session.phase(), Phase::Connecting);
    }
    let mut session = Session::new(Exchange::Binance);
    assert!(matches!(session.on_event(Event::TransportError), Action::Connect));
    assert_eq!(session.phase(), Phase::Connecting);
}

#[test]
fn control_frames_are_ignored() {
    let mut session = Session::new(Exchange::Binance);
    session.on_event(Event::Connected);
    assert!(matches!(session.on_event(Event::Control), Action::Receive));
    assert_eq!(session.phase(), Phase::Streaming);
}

#[test]
fn bitstamp_waits_for_the_subscription() {
    let mut session = Session::new(Exchange::Bitstamp);
    assert!(matches!(session.on_event(Event::Connected), Action::Receive));
    assert_eq!(session.phase(), Phase::Subscribing);
    let early = Event::Message(Message::Update(update(Exchange::Bitstamp, 1.0)));
    assert!(matches!(session.on_event(early), Action::Receive));
    assert!(matches!(
        session.on_event(Event::Message(Message::SubscriptionSucceeded)),
        Action::Receive
    ));
    assert_eq!(session.phase(), Phase::Streaming);
    let data = Event::Message(Message::Update(update(Exchange::Bitstamp, 1.0)));
    assert!(matches!(session.on_event(data), Action::Emit(_)));
    assert!(matches!(
        session.on_event(Event::Message(Message::ReconnectRequest)),
        Action::Connect
    ));
    assert_eq!(session.phase(), Phase::Connecting);
}
