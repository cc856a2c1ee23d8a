use orderbook_challenge::is_sorted;
use orderbook_challenge::level::{Exchange, Level, OutLevel};
use orderbook_challenge::number::{FinitePositiveF64, NumberError};
use std::cmp::Ordering;

fn num(x: f64) -> FinitePositiveF64 {
    FinitePositiveF64::try_from_bits(x.to_bits()).unwrap()
}

fn lvl(price: f64, amount: f64) -> Level {
    Level { price: num(price), amount: num(amount) }
}

fn lvl0(price: f64, amount: f64) -> OutLevel {
    OutLevel { exchange: Exchange::Binance, price: num(price), amount: num(amount) }
}

fn lvl1(price: f64, amount: f64) -> OutLevel {
    OutLevel { exchange: Exchange::Bitstamp, price: num(price), amount: num(amount) }
}

#[test]
fn test_into_orderbook_level() {
    assert_eq!(lvl(1., 3.).into_orderbook_level(Exchange::Binance), lvl0(1., 3.));
    assert_eq!(lvl(0., 5.).into_orderbook_level(Exchange::Bitstamp), lvl1(0., 5.));
}

#[test]
fn test_cmp_bid() {
    assert_eq!(lvl(1., 3.).cmp_bid(&lvl(0.5, 5.)), Ordering::Less);

    assert_eq!(lvl(1., 3.).cmp_bid(&lvl(1., 3.)), Ordering::Equal);

    assert_eq!(lvl(1., 3.).cmp_bid(&lvl(1., 5.)), Ordering::Greater);
}

#[test]
fn test_cmp_ask() {
    assert_eq!(lvl(1., 3.).cmp_ask(&lvl(0.5, 5.)), Ordering::Greater);

    assert_eq!(lvl(1., 3.).cmp_ask(&lvl(1., 3.)), Ordering::Equal);

    assert_eq!(lvl(1., 3.).cmp_ask(&lvl(1., 5.)), Ordering::Greater);
}

#[test]
fn level_test_try_from() {
    assert_eq!(Level::try_from_bits(1f64.to_bits(), 4f64.to_bits()), Ok(lvl(1., 4.)));

    assert!(Level::try_from_bits((-1f64).to_bits(), 4f64.to_bits()).is_err());
    assert!(Level::try_from_bits(1f64.to_bits(), (-4f64).to_bits()).is_err());
    assert!(Level::try_from_bits(1f64.to_bits(), f64::NAN.to_bits()).is_err());
}

#[test]
fn level_price_is_checked_before_amount() {
    assert_eq!(
        Level::try_from_bits(f64::INFINITY.to_bits(), (-1f64).to_bits()),
        Err(NumberError::NonFinite)
    );
    assert_eq!(
        Level::try_from_bits((-1f64).to_bits(), f64::NAN.to_bits()),
        Err(NumberError::Negative)
    );
}

#[test]
fn exchange_ordinals_and_names() {
    assert_eq!(Exchange::Binance.ordinal(), 0);
    assert_eq!(Exchange::Bitstamp.ordinal(), 1);
    assert_eq!(Exchange::from_ordinal(0), Some(Exchange::Binance));
    assert_eq!(Exchange::from_ordinal(1), Some(Exchange::Bitstamp));
    assert_eq!(Exchange::from_ordinal(2), None);
    assert_eq!(Exchange::Binance.to_string(), "binance");
    assert_eq!(Exchange::Bitstamp.to_string(), "bitstamp");
}

#[test]
fn test_is_sorted() {
    assert!(is_sorted(&[], Level::cmp_ask));
    assert!(is_sorted(&[], Level::cmp_bid));

    assert!(is_sorted(&[lvl(1., 1.)], Level::cmp_ask));
    assert!(is_sorted(&[lvl(1., 1.)], Level::cmp_bid));

    assert!(is_sorted(&[lvl(1., 1.), lvl(1., 1.)], Level::cmp_ask));
    assert!(is_sorted(&[lvl(1., 1.), lvl(1., 1.)], Level::cmp_bid));

    assert!(is_sorted(&[lvl(1., 1.), lvl(2., 1.)], Level::cmp_ask));
    assert!(is_sorted(&[lvl(2., 1.), lvl(1., 1.)], Level::cmp_bid));

    assert!(!is_sorted(&[lvl(2., 1.), lvl(1., 1.)], Level::cmp_ask));
    assert!(!is_sorted(&[lvl(1., 1.), lvl(2., 1.)], Level::cmp_bid));

    assert!(is_sorted(&[lvl(1., 2.), lvl(1., 1.)], Level::cmp_ask));
    assert!(is_sorted(&[lvl(1., 2.), lvl(1., 1.)], Level::cmp_bid));

    assert!(!is_sorted(&[lvl(1., 1.), lvl(1., 2.)], Level::cmp_ask));
    assert!(!is_sorted(&[lvl(1., 1.), lvl(1., 2.)], Level::cmp_bid));
}
