//! Exchanges, price levels and the two orders on levels.
use vstd::prelude::*;

use core::cmp::Ordering;

use crate::number::{compare_int, is_finite_bits, is_sign_negative_bits, FinitePositiveF64, NumberError};

verus! {

/// Number of variants of [`Exchange`].
pub const EXCHANGE_COUNT: usize = 2;

/// The source exchange of a price level.
#[derive(Clone, Copy, Debug, PartialEq, Eq, Structural)]
pub enum Exchange {
    Binance,
    Bitstamp,
}

impl Exchange {
    /// The stable ordinal of the exchange.
    pub open spec fn spec_ordinal(self) -> nat {
        match self {
            Exchange::Binance => 0,
            Exchange::Bitstamp => 1,
        }
    }

    /// The lowercase name of the exchange.
    pub open spec fn spec_name(self) -> Seq<char> {
        match self {
            Exchange::Binance => "binance"@,
            Exchange::Bitstamp => "bitstamp"@,
        }
    }

    /// The stable ordinal of the exchange.
    pub fn ordinal(&self) -> (r: u8)
        ensures
            r as nat == self.spec_ordinal(),
    {
        match self {
            Exchange::Binance => 0,
            Exchange::Bitstamp => 1,
        }
    }

    /// The exchange whose ordinal is `n`, if there is one.
    pub fn from_ordinal(n: u8) -> (r: Option<Exchange>)
        ensures
            r matches Some(e) ==> e.spec_ordinal() == n as nat,
            r is Some <==> (n as nat) < EXCHANGE_COUNT,
    {
        if n == 0 {
            Some(Exchange::Binance)
        } else if n == 1 {
            Some(Exchange::Bitstamp)
        } else {
            None
        }
    }

    /// The lowercase name of the exchange.
    pub fn to_string(&self) -> (r: String)
        ensures
            r@ == self.spec_name(),
    {
        match self {
            Exchange::Binance => String::from_str("binance"),
            Exchange::Bitstamp => String::from_str("bitstamp"),
        }
    }
}

/// A price level of an exchange's book.
#[derive(Clone, Copy, Debug, PartialEq, Eq, Structural)]
pub struct Level {
    pub price: FinitePositiveF64,
    pub amount: FinitePositiveF64,
}

/// One side of a book: asks rank lower prices first, bids higher prices first.
#[derive(Clone, Copy, Debug, PartialEq, Eq, Structural)]
pub enum Side {
    Ask,
    Bid,
}

/// The ask order: ascending by price, then descending by amount.
pub open spec fn ask_order(a: Level, b: Level) -> Ordering {
    if a.price.bits() != b.price.bits() {
        compare_int(a.price.bits() as int, b.price.bits() as int)
    } else {
        compare_int(b.amount.bits() as int, a.amount.bits() as int)
    }
}

/// The bid order: descending by price, then descending by amount.
pub open spec fn bid_order(a: Level, b: Level) -> Ordering {
    if a.price.bits() != b.price.bits() {
        compare_int(b.price.bits() as int, a.price.bits() as int)
    } else {
        compare_int(b.amount.bits() as int, a.amount.bits() as int)
    }
}

/// The order of `side`; `Less` means that `a` ranks better than `b`.
#[verifier::opaque]
pub open spec fn side_order(side: Side, a: Level, b: Level) -> Ordering {
    match side {
        Side::Ask => ask_order(a, b),
        Side::Bid => bid_order(a, b),
    }
}

/// `a` ranks strictly better than `b` on `side`.
pub open spec fn ranks_before(side: Side, a: Level, b: Level) -> bool {
    side_order(side, a, b) == Ordering::Less
}

/// Every level of `s` ranks no worse than every later one.
pub open spec fn sorted_levels(side: Side, s: Seq<Level>) -> bool {
    forall|i: int, j: int| 0 <= i < j < s.len() ==> !ranks_before(side, #[trigger] s[j], #[trigger] s[i])
}

/// No level of `s` ranks strictly better than the one before it.
pub open spec fn adjacent_sorted_levels(side: Side, s: Seq<Level>) -> bool {
    forall|i: int| 0 <= i < s.len() - 1 ==> #[trigger] side_order(side, s[i], s[i + 1]) != Ordering::Greater
}

/// Ranking no worse is transitive.
pub proof fn lemma_not_before_transitive(side: Side, a: Level, b: Level, c: Level)
    requires
        !ranks_before(side, b, a),
        !ranks_before(side, c, b),
    ensures
        !ranks_before(side, c, a),
{
    reveal(side_order);
}

/// `a` is no worse than `b` exactly when `b` does not rank strictly better than `a`.
pub proof fn lemma_not_greater(side: Side, a: Level, b: Level)
    ensures
        (side_order(side, a, b) != Ordering::Greater) == !ranks_before(side, b, a),
{
    reveal(side_order);
}

/// An order that holds of neighbours holds of every pair.
pub proof fn lemma_adjacent_sorted(side: Side, s: Seq<Level>)
    requires
        adjacent_sorted_levels(side, s),
    ensures
        sorted_levels(side, s),
    decreases s.len(),
{
    if s.len() > 1 {
        let t = s.drop_last();
        assert forall|i: int| 0 <= i < t.len() - 1 implies #[trigger] side_order(side, t[i], t[i + 1])
            != Ordering::Greater by {
            assert(side_order(side, s[i], s[i + 1]) != Ordering::Greater);
            assert(t[i] == s[i] && t[i + 1] == s[i + 1]);
        }
        lemma_adjacent_sorted(side, t);
        let n = s.len() - 1;
        let k = n - 1;
        assert(side_order(side, s[k], s[k + 1]) != Ordering::Greater);
        lemma_not_greater(side, s[n - 1], s[n]);
        assert forall|i: int, j: int| 0 <= i < j < s.len() implies !ranks_before(
            side,
            #[trigger] s[j],
            #[trigger] s[i],
        ) by {
            assert(t[i] == s[i]);
            if j < n {
                assert(t[j] == s[j]);
            } else if i < n - 1 {
                assert(t[n - 1] == s[n - 1]);
                lemma_not_before_transitive(side, s[i], s[n - 1], s[n]);
            }
        }
    }
}

/// The error, if any, of taking the double with bit pattern `bits` as a price or an amount.
pub open spec fn bits_error(bits: u64) -> Option<NumberError> {
    if !is_finite_bits(bits) {
        Some(NumberError::NonFinite)
    } else if is_sign_negative_bits(bits) {
        Some(NumberError::Negative)
    } else {
        None
    }
}

impl Level {
    /// The level with the price and amount whose bit patterns are given; the price is
    /// checked first.
    pub fn try_from_bits(price: u64, amount: u64) -> (r: Result<Level, NumberError>)
        ensures
            bits_error(price) matches Some(e) ==> r == Err::<Level, NumberError>(e),
            bits_error(price) is None ==> (bits_error(amount) matches Some(e) ==> r == Err::<
                Level,
                NumberError,
            >(e)),
            r is Ok <==> bits_error(price) is None && bits_error(amount) is None,
            r matches Ok(l) ==> l.price.bits() == price && l.amount.bits() == amount,
    {
        let price = FinitePositiveF64::try_from_bits(price)?;
        let amount = FinitePositiveF64::try_from_bits(amount)?;
        Ok(Level { price, amount })
    }

    /// The level as a level of `exchange`'s book in a summary.
    pub fn into_orderbook_level(self, exchange: Exchange) -> (r: OutLevel)
        ensures
            r == (OutLevel { exchange, price: self.price, amount: self.amount }),
    {
        OutLevel { exchange, price: self.price, amount: self.amount }
    }

    /// The bid order: `{ price: 2, amount: 1 }` before `{ price: 1, amount: 1 }`, and
    /// `{ price: 1, amount: 2 }` before `{ price: 1, amount: 1 }`.
    pub fn cmp_bid(&self, other: &Self) -> (r: Ordering)
        ensures
            r == bid_order(*self, *other),
    {
        let c = self.price.cmp(&other.price);
        match c {
            Ordering::Equal => other.amount.cmp(&self.amount),
            Ordering::Less => Ordering::Greater,
            Ordering::Greater => Ordering::Less,
        }
    }

    /// The ask order: `{ price: 1, amount: 1 }` before `{ price: 2, amount: 1 }`, and
    /// `{ price: 1, amount: 2 }` before `{ price: 1, amount: 1 }`.
    pub fn cmp_ask(&self, other: &Self) -> (r: Ordering)
        ensures
            r == ask_order(*self, *other),
    {
        let c = self.price.cmp(&other.price);
        match c {
            Ordering::Equal => other.amount.cmp(&self.amount),
            _ => c,
        }
    }
}

/// A level of a summary, with the exchange it came from.
#[derive(Clone, Copy, Debug, PartialEq, Eq, Structural)]
pub struct OutLevel {
    pub exchange: Exchange,
    pub price: FinitePositiveF64,
    pub amount: FinitePositiveF64,
}

impl OutLevel {
    /// The price and amount of the level.
    pub open spec fn spec_level(self) -> Level {
        Level { price: self.price, amount: self.amount }
    }

    /// The price and amount of the level.
    pub fn level(&self) -> (r: Level)
        ensures
            r == self.spec_level(),
    {
        Level { price: self.price, amount: self.amount }
    }
}

} // verus!
