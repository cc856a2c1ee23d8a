//! One exchange's snapshot of the top levels of both sides of its book.
use vstd::prelude::*;

use arrayvec::ArrayVec;

use crate::is_sorted;
use crate::level::{lemma_adjacent_sorted, side_order, sorted_levels, Exchange, Level, OutLevel, Side};
use crate::levels::{clone_levels, levels_of, levels_slice, new_levels, push_level};
use crate::merge::tagged;
use crate::summary::{Spread, Summary};
use crate::number::{is_finite_bits, is_sign_negative_bits, FinitePositiveF64, NumberError};
use crate::TOP_LEVELS;

verus! {

/// Whether `levels` is sorted best first on `side`.
pub fn levels_sorted(side: Side, levels: &[Level]) -> (r: bool)
    ensures
        r == sorted_levels(side, levels@),
{
    let r = match side {
        Side::Ask => is_sorted(levels, Level::cmp_ask),
        Side::Bid => is_sorted(levels, Level::cmp_bid),
    };
    proof {
        reveal(side_order);
        if r {
            assert forall|i: int| 0 <= i < levels@.len() - 1 implies #[trigger] side_order(
                side,
                levels@[i],
                levels@[i + 1],
            ) != core::cmp::Ordering::Greater by {
                match side {
                    Side::Ask => assert(crate::in_order(Level::cmp_ask, &levels@[i], &levels@[i + 1])),
                    Side::Bid => assert(crate::in_order(Level::cmp_bid, &levels@[i], &levels@[i + 1])),
                }
            }
            lemma_adjacent_sorted(side, levels@);
        }
    }
    r
}

/// The top asks and bids that one exchange reported, each side sorted best first.
#[derive(Debug)]
pub struct InputUpdate {
    exchange: Exchange,
    asks: ArrayVec<Level, TOP_LEVELS>,
    bids: ArrayVec<Level, TOP_LEVELS>,
}

/// Why a reported snapshot was refused.
#[derive(Clone, Copy, Debug, PartialEq, Eq, Structural)]
pub enum UpdateError {
    /// A price or an amount that is not a decimal number.
    NotANumber,
    /// A price or an amount that is not a finite double of positive sign.
    InvalidNumber(NumberError),
    /// Asks that are not sorted by the ask order.
    UnsortedAsks,
    /// Bids that are not sorted by the bid order.
    UnsortedBids,
}

impl InputUpdate {
    #[verifier::type_invariant]
    spec fn well_formed(self) -> bool {
        &&& sorted_levels(Side::Ask, levels_of(self.asks))
        &&& sorted_levels(Side::Bid, levels_of(self.bids))
    }

    /// The exchange that reported the snapshot.
    pub closed spec fn spec_exchange(self) -> Exchange {
        self.exchange
    }

    /// The reported asks, best first.
    pub closed spec fn spec_asks(self) -> Seq<Level> {
        levels_of(self.asks)
    }

    /// The reported bids, best first.
    pub closed spec fn spec_bids(self) -> Seq<Level> {
        levels_of(self.bids)
    }

    /// A snapshot of `exchange`'s book; `asks` and `bids` must be sorted.
    pub fn new(
        exchange: Exchange,
        asks: ArrayVec<Level, TOP_LEVELS>,
        bids: ArrayVec<Level, TOP_LEVELS>,
    ) -> (r: InputUpdate)
        requires
            sorted_levels(Side::Ask, levels_of(asks)),
            sorted_levels(Side::Bid, levels_of(bids)),
        ensures
            r.spec_exchange() == exchange,
            r.spec_asks() == levels_of(asks),
            r.spec_bids() == levels_of(bids),
    {
        InputUpdate { exchange, asks, bids }
    }

    /// A snapshot of `exchange`'s book, or the side that is not sorted (asks first).
    pub fn try_new(
        exchange: Exchange,
        asks: ArrayVec<Level, TOP_LEVELS>,
        bids: ArrayVec<Level, TOP_LEVELS>,
    ) -> (r: Result<InputUpdate, UpdateError>)
        ensures
            !sorted_levels(Side::Ask, levels_of(asks)) <==> r == Err::<InputUpdate, UpdateError>(
                UpdateError::UnsortedAsks,
            ),
            sorted_levels(Side::Ask, levels_of(asks)) && !sorted_levels(Side::Bid, levels_of(bids))
                <==> r == Err::<InputUpdate, UpdateError>(UpdateError::UnsortedBids),
            r is Ok <==> sorted_levels(Side::Ask, levels_of(asks)) && sorted_levels(
                Side::Bid,
                levels_of(bids),
            ),
            r matches Ok(u) ==> u.spec_exchange() == exchange && u.spec_asks() == levels_of(asks)
                && u.spec_bids() == levels_of(bids),
    {
        if !levels_sorted(Side::Ask, levels_slice(&asks)) {
            return Err(UpdateError::UnsortedAsks);
        }
        if !levels_sorted(Side::Bid, levels_slice(&bids)) {
            return Err(UpdateError::UnsortedBids);
        }
        Ok(InputUpdate::new(exchange, asks, bids))
    }

    /// The exchange, the asks and the bids; each side is sorted best first.
    pub fn take(self) -> (r: (Exchange, ArrayVec<Level, TOP_LEVELS>, ArrayVec<Level, TOP_LEVELS>))
        ensures
            r.0 == self.spec_exchange(),
            levels_of(r.1) == self.spec_asks(),
            levels_of(r.2) == self.spec_bids(),
            sorted_levels(Side::Ask, levels_of(r.1)),
            sorted_levels(Side::Bid, levels_of(r.2)),
    {
        proof {
            use_type_invariant(&self);
        }
        (self.exchange, self.asks, self.bids)
    }

    /// The summary of this snapshot alone; both of its sides must hold a level.
    pub fn into_summary(self) -> (r: Summary)
        requires
            self.spec_asks().len() > 0,
            self.spec_bids().len() > 0,
        ensures
            r.asks@ == tagged(self.spec_exchange(), self.spec_asks()),
            r.bids@ == tagged(self.spec_exchange(), self.spec_bids()),
            r.spread == (Spread::Difference {
                ask: self.spec_asks()[0].price,
                bid: self.spec_bids()[0].price,
            }),
    {
        let asks = tag_levels(self.exchange, levels_slice(&self.asks));
        let bids = tag_levels(self.exchange, levels_slice(&self.bids));
        let spread = Spread::Difference { ask: asks[0].price, bid: bids[0].price };
        Summary { spread, asks, bids }
    }
}

/// The levels of `levels`, each marked as coming from `exchange`.
pub fn tag_levels(exchange: Exchange, levels: &[Level]) -> (r: Vec<OutLevel>)
    ensures
        r@ == tagged(exchange, levels@),
{
    let mut out: Vec<OutLevel> = Vec::new();
    let mut i: usize = 0;
    while i < levels.len()
        invariant
            i <= levels@.len(),
            out@ == tagged(exchange, levels@.take(i as int)),
        decreases levels@.len() - i,
    {
        out.push(levels[i].into_orderbook_level(exchange));
        i += 1;
        assert(out@ =~= tagged(exchange, levels@.take(i as int)));
    }
    assert(levels@.take(i as int) =~= levels@);
    out
}

impl Clone for InputUpdate {
    fn clone(&self) -> (r: InputUpdate)
        ensures
            r.spec_exchange() == self.spec_exchange(),
            r.spec_asks() == self.spec_asks(),
            r.spec_bids() == self.spec_bids(),
    {
        proof {
            use_type_invariant(self);
        }
        InputUpdate {
            exchange: self.exchange,
            asks: clone_levels(&self.asks),
            bids: clone_levels(&self.bids),
        }
    }
}

/// A price or an amount as read from the wire: the bit pattern of the double that
/// its decimal text denotes, or `None` when the text is not a decimal number.
pub type RawNumber = Option<u64>;

/// The error, if any, of reading `n` as a price or an amount.
pub open spec fn number_error(n: RawNumber) -> Option<UpdateError> {
    match n {
        None => Some(UpdateError::NotANumber),
        Some(bits) => if !is_finite_bits(bits) {
            Some(UpdateError::InvalidNumber(NumberError::NonFinite))
        } else if is_sign_negative_bits(bits) {
            Some(UpdateError::InvalidNumber(NumberError::Negative))
        } else {
            None
        },
    }
}

/// The error, if any, of reading `e` as a level: the price is read first.
pub open spec fn entry_error(e: (RawNumber, RawNumber)) -> Option<UpdateError> {
    if number_error(e.0) is Some {
        number_error(e.0)
    } else {
        number_error(e.1)
    }
}

/// The number of leading entries of a side that are read; the rest are skipped.
pub open spec fn read_count(n: nat) -> nat {
    if n < TOP_LEVELS {
        n
    } else {
        TOP_LEVELS as nat
    }
}

/// `l` is the level that the entry `e` reads as.
pub open spec fn reads_as(e: (RawNumber, RawNumber), l: Level) -> bool {
    e.0 == Some(l.price.bits()) && e.1 == Some(l.amount.bits())
}

fn read_number(n: RawNumber) -> (r: Result<FinitePositiveF64, UpdateError>)
    ensures
        r matches Err(e) ==> number_error(n) == Some(e),
        r matches Ok(v) ==> number_error(n) is None && n == Some(v.bits()),
        r is Ok <==> number_error(n) is None,
{
    match n {
        None => Err(UpdateError::NotANumber),
        Some(bits) => match FinitePositiveF64::try_from_bits(bits) {
            Ok(v) => Ok(v),
            Err(e) => Err(UpdateError::InvalidNumber(e)),
        },
    }
}

/// Every entry of a side that is read is a level.
pub open spec fn readable(entries: Seq<(RawNumber, RawNumber)>) -> bool {
    forall|i: int| 0 <= i < read_count(entries.len()) ==> (#[trigger] entry_error(entries[i])) is None
}

/// `e` is the error of the first entry of a side that is read and is not a level.
pub open spec fn first_error(entries: Seq<(RawNumber, RawNumber)>, e: UpdateError) -> bool {
    exists|i: int|
        0 <= i < read_count(entries.len()) && entry_error(#[trigger] entries[i]) == Some(e)
            && forall|k: int| 0 <= k < i ==> (#[trigger] entry_error(entries[k])) is None
}

/// `s` is what a side with these entries reads as.
pub open spec fn reads_all(entries: Seq<(RawNumber, RawNumber)>, s: Seq<Level>) -> bool {
    &&& s.len() == read_count(entries.len())
    &&& forall|i: int| 0 <= i < s.len() ==> reads_as(#[trigger] entries[i], s[i])
}

/// What a side with these entries reads as is sorted best first on `side`.
pub open spec fn reads_sorted(side: Side, entries: Seq<(RawNumber, RawNumber)>) -> bool {
    forall|s: Seq<Level>| reads_all(entries, s) ==> sorted_levels(side, s)
}

/// A side reads as one sequence of levels at most.
pub proof fn lemma_reads_all_unique(entries: Seq<(RawNumber, RawNumber)>, s: Seq<Level>, t: Seq<Level>)
    requires
        reads_all(entries, s),
        reads_all(entries, t),
    ensures
        s == t,
{
    assert forall|i: int| 0 <= i < s.len() implies s[i] == t[i] by {
        assert(reads_as(entries[i], s[i]) && reads_as(entries[i], t[i]));
        s[i].price.lemma_bits_injective(t[i].price);
        s[i].amount.lemma_bits_injective(t[i].amount);
    }
    assert(s =~= t);
}

/// Reads one side of a snapshot: the first [`TOP_LEVELS`] entries become levels, in
/// order, and the rest are skipped; the first entry that is not a level gives the error.
pub fn read_levels(entries: &[(RawNumber, RawNumber)]) -> (r: Result<
    ArrayVec<Level, TOP_LEVELS>,
    UpdateError,
>)
    ensures
        r matches Ok(v) ==> reads_all(entries@, levels_of(v)),
        r is Ok <==> readable(entries@),
        r matches Err(e) ==> first_error(entries@, e),
{
    let n: usize = if entries.len() < TOP_LEVELS {
        entries.len()
    } else {
        TOP_LEVELS
    };
    let mut out = new_levels();
    let mut i: usize = 0;
    while i < n
        invariant
            n == read_count(entries@.len()),
            n <= entries@.len(),
            i <= n,
            levels_of(out).len() == i,
            forall|k: int| 0 <= k < i ==> reads_as(#[trigger] entries@[k], levels_of(out)[k]),
            forall|k: int| 0 <= k < i ==> (#[trigger] entry_error(entries@[k])) is None,
        decreases n - i,
    {
        let (p, a) = entries[i];
        let price = match read_number(p) {
            Ok(v) => v,
            Err(e) => {
                assert(entry_error(entries@[i as int]) == Some(e));
                return Err(e);
            },
        };
        let amount = match read_number(a) {
            Ok(v) => v,
            Err(e) => {
                assert(entry_error(entries@[i as int]) == Some(e));
                return Err(e);
            },
        };
        let ghost before = levels_of(out);
        push_level(&mut out, Level { price, amount });
        proof {
            assert forall|k: int| 0 <= k < i + 1 implies reads_as(
                #[trigger] entries@[k],
                levels_of(out)[k],
            ) by {
                if k < i {
                    assert(levels_of(out)[k] == before[k]);
                }
            }
        }
        i += 1;
    }
    Ok(out)
}

/// Reads a snapshot of `exchange`'s book: asks are read, then bids, then the order of
/// each side is checked, asks first.
pub fn read_update(
    exchange: Exchange,
    asks: &[(RawNumber, RawNumber)],
    bids: &[(RawNumber, RawNumber)],
) -> (r: Result<InputUpdate, UpdateError>)
    ensures
        r matches Ok(u) ==> {
            &&& u.spec_exchange() == exchange
            &&& reads_all(asks@, u.spec_asks())
            &&& reads_all(bids@, u.spec_bids())
        },
        r is Ok <==> readable(asks@) && readable(bids@) && reads_sorted(Side::Ask, asks@)
            && reads_sorted(Side::Bid, bids@),
        r matches Err(e) ==> if !readable(asks@) {
            first_error(asks@, e)
        } else if !readable(bids@) {
            first_error(bids@, e)
        } else if !reads_sorted(Side::Ask, asks@) {
            e == UpdateError::UnsortedAsks
        } else {
            e == UpdateError::UnsortedBids
        },
{
    let read_asks = read_levels(asks)?;
    let read_bids = read_levels(bids)?;
    let ghost a = levels_of(read_asks);
    let ghost b = levels_of(read_bids);
    proof {
        assert forall|s: Seq<Level>| reads_all(asks@, s) implies s == a by {
            lemma_reads_all_unique(asks@, s, a);
        }
        assert forall|s: Seq<Level>| reads_all(bids@, s) implies s == b by {
            lemma_reads_all_unique(bids@, s, b);
        }
        if !sorted_levels(Side::Ask, a) {
            assert(!reads_sorted(Side::Ask, asks@));
        }
        if !sorted_levels(Side::Bid, b) {
            assert(!reads_sorted(Side::Bid, bids@));
        }
    }
    InputUpdate::try_new(exchange, read_asks, read_bids)
}

} // verus!
