//! The merger: the latest snapshot of each exchange, merged into one top view.
use vstd::prelude::*;

use arrayvec::ArrayVec;
use core::cmp::Ordering;

use crate::input_update::InputUpdate;
use crate::level::{
    lemma_not_before_transitive, ranks_before, side_order, Exchange, Level, OutLevel, Side,
    EXCHANGE_COUNT,
};
use crate::levels::{levels_of, levels_slice, new_levels};
use crate::summary::{spread, spread_of, Spread, Summary};
use crate::TOP_LEVELS;

verus! {

/// Number of levels that a summary keeps on each side.
pub const SUMMARY_LEVELS: usize = TOP_LEVELS * EXCHANGE_COUNT;

/// No level of `s` ranks strictly better than an earlier one.
pub open spec fn sorted_out(side: Side, s: Seq<OutLevel>) -> bool {
    forall|i: int, j: int|
        0 <= i < j < s.len() ==> !ranks_before(
            side,
            (#[trigger] s[j]).spec_level(),
            (#[trigger] s[i]).spec_level(),
        )
}

/// Where `x` goes in `s`: after the last level that `x` does not rank strictly before.
pub open spec fn insert_index(side: Side, s: Seq<OutLevel>, x: Level) -> nat
    decreases s.len(),
{
    if s.len() == 0 {
        0
    } else if ranks_before(side, x, s.last().spec_level()) {
        insert_index(side, s.drop_last(), x)
    } else {
        s.len()
    }
}

/// `s` with `x` put in its place, cut to its first `size` levels.
pub open spec fn insert_bounded(side: Side, s: Seq<OutLevel>, x: OutLevel, size: nat) -> Seq<
    OutLevel,
> {
    let t = s.insert(insert_index(side, s, x.spec_level()) as int, x);
    if t.len() > size {
        t.take(size as int)
    } else {
        t
    }
}

/// The best `size` levels of `all` on `side`; among levels that rank equal, the one
/// that comes first in `all` comes first.
pub open spec fn top_levels(side: Side, all: Seq<OutLevel>, size: nat) -> Seq<OutLevel>
    decreases all.len(),
{
    if all.len() == 0 {
        Seq::empty()
    } else {
        insert_bounded(side, top_levels(side, all.drop_last(), size), all.last(), size)
    }
}

/// The exchange whose levels stand at position `i` of a per-exchange array.
pub open spec fn exchange_at(i: int) -> Exchange {
    if i == 0 {
        Exchange::Binance
    } else {
        Exchange::Bitstamp
    }
}

/// The levels of `s`, each marked as coming from `exchange`.
pub open spec fn tagged(exchange: Exchange, s: Seq<Level>) -> Seq<OutLevel> {
    s.map_values(|l: Level| OutLevel { exchange, price: l.price, amount: l.amount })
}

/// The levels of every exchange's snapshot, by exchange ordinal, each in its order.
pub open spec fn book_levels(books: Seq<Seq<Level>>) -> Seq<OutLevel>
    decreases books.len(),
{
    if books.len() == 0 {
        Seq::empty()
    } else {
        book_levels(books.drop_last()) + tagged(exchange_at(books.len() - 1), books.last())
    }
}

/// The snapshots that a per-exchange array holds.
pub open spec fn books_of(exchanges: [ArrayVec<Level, TOP_LEVELS>; EXCHANGE_COUNT]) -> Seq<
    Seq<Level>,
> {
    exchanges@.map_values(|v: ArrayVec<Level, TOP_LEVELS>| levels_of(v))
}

proof fn lemma_before_asymmetric(side: Side, a: Level, b: Level)
    requires
        ranks_before(side, a, b),
    ensures
        !ranks_before(side, b, a),
{
    reveal(side_order);
}

proof fn lemma_insert_index(side: Side, s: Seq<OutLevel>, x: Level)
    ensures
        insert_index(side, s, x) <= s.len(),
        forall|k: int|
            insert_index(side, s, x) <= k < s.len() ==> ranks_before(
                side,
                x,
                (#[trigger] s[k]).spec_level(),
            ),
        insert_index(side, s, x) > 0 ==> !ranks_before(
            side,
            x,
            s[insert_index(side, s, x) - 1].spec_level(),
        ),
    decreases s.len(),
{
    if s.len() > 0 && ranks_before(side, x, s.last().spec_level()) {
        let t = s.drop_last();
        lemma_insert_index(side, t, x);
        assert forall|k: int|
            insert_index(side, s, x) <= k < s.len() implies ranks_before(
            side,
            x,
            (#[trigger] s[k]).spec_level(),
        ) by {
            if k < t.len() {
                assert(t[k] == s[k]);
            }
        }
        if insert_index(side, t, x) > 0 {
            assert(t[insert_index(side, t, x) - 1] == s[insert_index(side, t, x) - 1]);
        }
    }
}

/// Putting a level in its place keeps a sorted sequence sorted and within its bound.
proof fn lemma_insert_bounded(side: Side, s: Seq<OutLevel>, x: OutLevel, size: nat)
    requires
        sorted_out(side, s),
        s.len() <= size,
    ensures
        sorted_out(side, insert_bounded(side, s, x, size)),
        insert_bounded(side, s, x, size).len() <= size,
{
    let idx = insert_index(side, s, x.spec_level());
    lemma_insert_index(side, s, x.spec_level());
    let t = s.insert(idx as int, x);
    assert forall|i: int, j: int| 0 <= i < j < t.len() implies !ranks_before(
        side,
        (#[trigger] t[j]).spec_level(),
        (#[trigger] t[i]).spec_level(),
    ) by {
        if j < idx {
            assert(t[i] == s[i] && t[j] == s[j]);
        } else if j == idx {
            assert(t[i] == s[i]);
            if i < idx - 1 {
                assert(!ranks_before(side, s[idx - 1].spec_level(), s[i].spec_level()));
                lemma_not_before_transitive(
                    side,
                    s[i].spec_level(),
                    s[idx - 1].spec_level(),
                    x.spec_level(),
                );
            }
        } else if i == idx {
            assert(t[j] == s[j - 1]);
            lemma_before_asymmetric(side, x.spec_level(), s[j - 1].spec_level());
        } else if i < idx {
            assert(t[i] == s[i] && t[j] == s[j - 1]);
        } else {
            assert(t[i] == s[i - 1] && t[j] == s[j - 1]);
        }
    }
}

/// The top levels of any input are sorted and within their bound.
pub proof fn lemma_top_levels_sorted(side: Side, all: Seq<OutLevel>, size: nat)
    ensures
        sorted_out(side, top_levels(side, all, size)),
        top_levels(side, all, size).len() <= size,
    decreases all.len(),
{
    if all.len() > 0 {
        lemma_top_levels_sorted(side, all.drop_last(), size);
        lemma_insert_bounded(side, top_levels(side, all.drop_last(), size), all.last(), size);
    }
}

/// The order of `side` on two levels.
fn compare_on(side: Side, a: &Level, b: &Level) -> (r: Ordering)
    ensures
        r == side_order(side, *a, *b),
{
    proof {
        reveal(side_order);
    }
    match side {
        Side::Ask => a.cmp_ask(b),
        Side::Bid => a.cmp_bid(b),
    }
}

/// Puts `x` in its place in `output`, which keeps at most `size` levels.
fn insert_level(output: &mut Vec<OutLevel>, x: OutLevel, side: Side, size: usize)
    requires
        old(output)@.len() <= size,
    ensures
        final(output)@ == insert_bounded(side, old(output)@, x, size as nat),
{
    let ghost s = output@;
    let level = x.level();
    let mut i: usize = output.len();
    let mut found = false;
    assert(s.take(s.len() as int) =~= s);
    while i > 0 && !found
        invariant
            output@ == s,
            i <= s.len(),
            s.len() <= size,
            level == x.spec_level(),
            insert_index(side, s.take(i as int), level) == insert_index(side, s, level),
            found ==> i > 0 && !ranks_before(side, level, s[i - 1].spec_level()),
        decreases i + (if found { 0int } else { 1int }),
    {
        let o = compare_on(side, &level, &output[i - 1].level());
        if matches!(o, Ordering::Less) {
            assert(s.take(i as int).drop_last() =~= s.take(i - 1));
            i -= 1;
        } else {
            found = true;
        }
    }
    proof {
        if found {
            assert(s.take(i as int).last() == s[i - 1]);
        }
        assert(s.take(s.len() as int) =~= s);
    }
    assert(insert_index(side, s, level) == i);
    if i < size {
        if output.len() >= size {
            output.pop();
        }
        output.insert(i, x);
        assert(output@ =~= insert_bounded(side, s, x, size as nat));
    } else {
        assert(s.insert(i as int, x).take(size as int) =~= s);
    }
}

/// The best `size` levels of all exchanges' snapshots on `side`, best first. Equal
/// levels keep the order of the exchanges.
pub fn calculate_levels(
    exchanges: &[ArrayVec<Level, TOP_LEVELS>; EXCHANGE_COUNT],
    side: Side,
    size: usize,
) -> (r: Vec<OutLevel>)
    ensures
        r@ == top_levels(side, book_levels(books_of(*exchanges)), size as nat),
{
    let ghost books = books_of(*exchanges);
    let mut output: Vec<OutLevel> = Vec::new();
    let mut e: usize = 0;
    while e < EXCHANGE_COUNT
        invariant
            e <= EXCHANGE_COUNT,
            books == books_of(*exchanges),
            output@ == top_levels(side, book_levels(books.take(e as int)), size as nat),
        decreases EXCHANGE_COUNT - e,
    {
        let exchange = if e == 0 {
            Exchange::Binance
        } else {
            Exchange::Bitstamp
        };
        let levels = levels_slice(&exchanges[e]);
        let ghost before = book_levels(books.take(e as int));
        let ghost mine = tagged(exchange, levels@);
        let mut j: usize = 0;
        while j < levels.len()
            invariant
                e < EXCHANGE_COUNT,
                j <= levels@.len(),
                levels@ == books[e as int],
                mine == tagged(exchange, levels@),
                exchange == exchange_at(e as int),
                    output@ == top_levels(side, before + mine.take(j as int), size as nat),
            decreases levels@.len() - j,
        {
            let x = levels[j].into_orderbook_level(exchange);
            proof {
                lemma_top_levels_sorted(side, before + mine.take(j as int), size as nat);
            }
            insert_level(&mut output, x, side, size);
            proof {
                let all = before + mine.take(j + 1);
                assert(all.drop_last() =~= before + mine.take(j as int));
                assert(all.last() == x);
            }
            j += 1;
        }
        proof {
            assert(mine.take(j as int) =~= mine);
            assert(books.take(e + 1).drop_last() =~= books.take(e as int));
        }
        e += 1;
    }
    proof {
        assert(books.take(EXCHANGE_COUNT as int) =~= books);
    }
    output
}

/// A snapshot for each exchange, none yet reported.
pub open spec fn empty_books() -> Seq<Seq<Level>> {
    seq![Seq::empty(), Seq::empty()]
}

/// `books` with the snapshot of `exchange` replaced by `levels`.
pub open spec fn replace_book(books: Seq<Seq<Level>>, exchange: Exchange, levels: Seq<Level>) -> Seq<
    Seq<Level>,
> {
    books.update(exchange.spec_ordinal() as int, levels)
}

/// The summary of the latest snapshots `asks` and `bids`, one per exchange.
pub open spec fn summary_of(asks: Seq<Seq<Level>>, bids: Seq<Seq<Level>>) -> (
    Seq<OutLevel>,
    Seq<OutLevel>,
    Spread,
) {
    let a = top_levels(Side::Ask, book_levels(asks), SUMMARY_LEVELS as nat);
    let b = top_levels(Side::Bid, book_levels(bids), SUMMARY_LEVELS as nat);
    (a, b, spread_of(a, b))
}

/// What holds of every summary: both sides sorted best first and within their bound,
/// and the spread taken from the best levels, or zero when a side is empty.
pub open spec fn summary_invariants(asks: Seq<OutLevel>, bids: Seq<OutLevel>, spread: Spread) -> bool {
    &&& sorted_out(Side::Ask, asks)
    &&& sorted_out(Side::Bid, bids)
    &&& asks.len() <= SUMMARY_LEVELS
    &&& bids.len() <= SUMMARY_LEVELS
    &&& asks.len() > 0 && bids.len() > 0 ==> spread == (Spread::Difference {
        ask: asks[0].price,
        bid: bids[0].price,
    })
    &&& asks.len() == 0 || bids.len() == 0 ==> spread == Spread::Zero
}

/// Every summary of any snapshots is sorted, bounded, and has the spread of its best levels.
pub proof fn lemma_summary_invariants(asks: Seq<Seq<Level>>, bids: Seq<Seq<Level>>)
    ensures
        summary_invariants(summary_of(asks, bids).0, summary_of(asks, bids).1, summary_of(asks, bids).2),
{
    lemma_top_levels_sorted(Side::Ask, book_levels(asks), SUMMARY_LEVELS as nat);
    lemma_top_levels_sorted(Side::Bid, book_levels(bids), SUMMARY_LEVELS as nat);
}

/// The latest asks and bids of every exchange.
#[derive(Debug)]
pub struct MergeState {
    asks: [ArrayVec<Level, TOP_LEVELS>; EXCHANGE_COUNT],
    bids: [ArrayVec<Level, TOP_LEVELS>; EXCHANGE_COUNT],
}

impl MergeState {
    /// The latest asks of each exchange, by ordinal.
    pub closed spec fn ask_books(self) -> Seq<Seq<Level>> {
        books_of(self.asks)
    }

    /// The latest bids of each exchange, by ordinal.
    pub closed spec fn bid_books(self) -> Seq<Seq<Level>> {
        books_of(self.bids)
    }

    /// A state in which no exchange has reported yet.
    pub fn new() -> (r: MergeState)
        ensures
            r.ask_books() == empty_books(),
            r.bid_books() == empty_books(),
    {
        let r = MergeState {
            asks: [new_levels(), new_levels()],
            bids: [new_levels(), new_levels()],
        };
        assert(r.ask_books() =~= empty_books());
        assert(r.bid_books() =~= empty_books());
        r
    }

    /// Replaces the snapshot of the exchange that reported `input`.
    pub fn update(&mut self, input: InputUpdate)
        ensures
            final(self).ask_books() == replace_book(
                old(self).ask_books(),
                input.spec_exchange(),
                input.spec_asks(),
            ),
            final(self).bid_books() == replace_book(
                old(self).bid_books(),
                input.spec_exchange(),
                input.spec_bids(),
            ),
    {
        let (exchange, asks, bids) = input.take();
        let i = exchange.ordinal() as usize;
        self.asks[i] = asks;
        self.bids[i] = bids;
        assert(self.ask_books() =~= replace_book(old(self).ask_books(), exchange, levels_of(asks)));
        assert(self.bid_books() =~= replace_book(old(self).bid_books(), exchange, levels_of(bids)));
    }

    /// The best [`SUMMARY_LEVELS`] asks and bids over all exchanges, and their spread.
    pub fn summary(&self) -> (r: Summary)
        ensures
            (r.asks@, r.bids@, r.spread) == summary_of(self.ask_books(), self.bid_books()),
            summary_invariants(r.asks@, r.bids@, r.spread),
    {
        let asks = calculate_levels(&self.asks, Side::Ask, SUMMARY_LEVELS);
        let bids = calculate_levels(&self.bids, Side::Bid, SUMMARY_LEVELS);
        let spread = spread(&asks, &bids);
        proof {
            lemma_summary_invariants(self.ask_books(), self.bid_books());
        }
        Summary { spread, asks, bids }
    }
}

/// The latest asks of each exchange after `updates`, from a state with no reports.
pub open spec fn replay_asks(updates: Seq<InputUpdate>) -> Seq<Seq<Level>>
    decreases updates.len(),
{
    if updates.len() == 0 {
        empty_books()
    } else {
        replace_book(
            replay_asks(updates.drop_last()),
            updates.last().spec_exchange(),
            updates.last().spec_asks(),
        )
    }
}

/// The latest bids of each exchange after `updates`, from a state with no reports.
pub open spec fn replay_bids(updates: Seq<InputUpdate>) -> Seq<Seq<Level>>
    decreases updates.len(),
{
    if updates.len() == 0 {
        empty_books()
    } else {
        replace_book(
            replay_bids(updates.drop_last()),
            updates.last().spec_exchange(),
            updates.last().spec_bids(),
        )
    }
}

/// `s` is the summary of the snapshots `asks` and `bids`.
pub open spec fn summarizes(s: Summary, asks: Seq<Seq<Level>>, bids: Seq<Seq<Level>>) -> bool {
    (s.asks@, s.bids@, s.spread) == summary_of(asks, bids)
}

/// Feeds `inputs` in order to a merger with no reports and returns the summary emitted
/// after each one.
pub fn merge(inputs: &Vec<InputUpdate>) -> (r: Vec<Summary>)
    ensures
        r.len() == inputs.len(),
        forall|k: int|
            0 <= k < r.len() ==> summarizes(
                #[trigger] r[k],
                replay_asks(inputs@.take(k + 1)),
                replay_bids(inputs@.take(k + 1)),
            ),
        forall|k: int|
            0 <= k < r.len() ==> summary_invariants(
                (#[trigger] r[k]).asks@,
                r[k].bids@,
                r[k].spread,
            ),
{
    let mut state = MergeState::new();
    let mut out: Vec<Summary> = Vec::new();
    let mut i: usize = 0;
    assert(inputs@.take(0) =~= Seq::<InputUpdate>::empty());
    while i < inputs.len()
        invariant
            i <= inputs.len(),
            out.len() == i,
            state.ask_books() == replay_asks(inputs@.take(i as int)),
            state.bid_books() == replay_bids(inputs@.take(i as int)),
            forall|k: int|
                0 <= k < i ==> summarizes(
                    #[trigger] out[k],
                    replay_asks(inputs@.take(k + 1)),
                    replay_bids(inputs@.take(k + 1)),
                ),
            forall|k: int|
                0 <= k < i ==> summary_invariants(
                    (#[trigger] out[k]).asks@,
                    out[k].bids@,
                    out[k].spread,
                ),
        decreases inputs.len() - i,
    {
        let input = inputs[i].clone();
        state.update(input);
        proof {
            assert(inputs@.take(i + 1).drop_last() =~= inputs@.take(i as int));
        }
        let summary = state.summary();
        out.push(summary);
        i += 1;
    }
    out
}

/// Feeding the same update twice in succession gives the same summary both times.
pub proof fn lemma_same_update_twice(asks: Seq<Seq<Level>>, bids: Seq<Seq<Level>>, u: InputUpdate)
    requires
        asks.len() == EXCHANGE_COUNT,
        bids.len() == EXCHANGE_COUNT,
    ensures
        summary_of(
            replace_book(replace_book(asks, u.spec_exchange(), u.spec_asks()), u.spec_exchange(), u.spec_asks()),
            replace_book(replace_book(bids, u.spec_exchange(), u.spec_bids()), u.spec_exchange(), u.spec_bids()),
        ) == summary_of(
            replace_book(asks, u.spec_exchange(), u.spec_asks()),
            replace_book(bids, u.spec_exchange(), u.spec_bids()),
        ),
{
    let i = u.spec_exchange().spec_ordinal() as int;
    assert(asks.update(i, u.spec_asks()).update(i, u.spec_asks()) =~= asks.update(i, u.spec_asks()));
    assert(bids.update(i, u.spec_bids()).update(i, u.spec_bids()) =~= bids.update(i, u.spec_bids()));
}

proof fn lemma_empty_books(books: Seq<Seq<Level>>)
    requires
        forall|i: int| 0 <= i < books.len() ==> (#[trigger] books[i]).len() == 0,
    ensures
        book_levels(books).len() == 0,
    decreases books.len(),
{
    if books.len() > 0 {
        let t = books.drop_last();
        assert forall|i: int| 0 <= i < t.len() implies (#[trigger] t[i]).len() == 0 by {
            assert(t[i] == books[i]);
        }
        lemma_empty_books(t);
    }
}

/// When no exchange has an ask, or none has a bid, the spread is zero.
pub proof fn lemma_empty_side_zero_spread(asks: Seq<Seq<Level>>, bids: Seq<Seq<Level>>)
    requires
        (forall|i: int| 0 <= i < asks.len() ==> (#[trigger] asks[i]).len() == 0) || (forall|i: int|
            0 <= i < bids.len() ==> (#[trigger] bids[i]).len() == 0),
    ensures
        summary_of(asks, bids).2 == Spread::Zero,
{
    if forall|i: int| 0 <= i < asks.len() ==> (#[trigger] asks[i]).len() == 0 {
        lemma_empty_books(asks);
        assert(book_levels(asks) =~= Seq::<OutLevel>::empty());
        assert(top_levels(Side::Ask, book_levels(asks), SUMMARY_LEVELS as nat).len() == 0);
    } else {
        lemma_empty_books(bids);
        assert(book_levels(bids) =~= Seq::<OutLevel>::empty());
        assert(top_levels(Side::Bid, book_levels(bids), SUMMARY_LEVELS as nat).len() == 0);
    }
}

/// Among levels of `s` with equal price and amount, lower exchange ordinals come first.
pub open spec fn ties_by_ordinal(s: Seq<OutLevel>) -> bool {
    forall|i: int, j: int|
        0 <= i < j < s.len() && (#[trigger] s[i]).spec_level() == (#[trigger] s[j]).spec_level()
            ==> s[i].exchange.spec_ordinal() <= s[j].exchange.spec_ordinal()
}

/// Exchange ordinals never decrease along `s`.
pub open spec fn ordinals_ascending(s: Seq<OutLevel>) -> bool {
    forall|i: int, j: int|
        0 <= i < j < s.len() ==> (#[trigger] s[i]).exchange.spec_ordinal() <= (#[trigger] s[
            j
        ]).exchange.spec_ordinal()
}

/// No level of `s` comes from an exchange with an ordinal above `b`.
pub open spec fn ordinals_at_most(s: Seq<OutLevel>, b: nat) -> bool {
    forall|k: int| 0 <= k < s.len() ==> (#[trigger] s[k]).exchange.spec_ordinal() <= b
}

proof fn lemma_before_distinct(side: Side, a: Level, b: Level)
    requires
        ranks_before(side, a, b),
    ensures
        a != b,
{
    reveal(side_order);
}

proof fn lemma_top_levels_at_most(side: Side, all: Seq<OutLevel>, size: nat, b: nat)
    requires
        ordinals_at_most(all, b),
    ensures
        ordinals_at_most(top_levels(side, all, size), b),
    decreases all.len(),
{
    if all.len() > 0 {
        let rest = all.drop_last();
        assert forall|k: int| 0 <= k < rest.len() implies (#[trigger] rest[k]).exchange.spec_ordinal()
            <= b by {
            assert(rest[k] == all[k]);
        }
        lemma_top_levels_at_most(side, rest, size, b);
        let s = top_levels(side, rest, size);
        let x = all.last();
        let idx = insert_index(side, s, x.spec_level());
        lemma_insert_index(side, s, x.spec_level());
        let t = s.insert(idx as int, x);
        assert forall|k: int| 0 <= k < t.len() implies (#[trigger] t[k]).exchange.spec_ordinal()
            <= b by {
            if k < idx {
                assert(t[k] == s[k]);
            } else if k > idx {
                assert(t[k] == s[k - 1]);
            }
        }
    }
}

proof fn lemma_top_levels_ties(side: Side, all: Seq<OutLevel>, size: nat)
    requires
        ordinals_ascending(all),
    ensures
        ties_by_ordinal(top_levels(side, all, size)),
    decreases all.len(),
{
    if all.len() > 0 {
        let rest = all.drop_last();
        let x = all.last();
        assert forall|i: int, j: int| 0 <= i < j < rest.len() implies (#[trigger] rest[i]).exchange.spec_ordinal()
            <= (#[trigger] rest[j]).exchange.spec_ordinal() by {
            assert(rest[i] == all[i] && rest[j] == all[j]);
        }
        lemma_top_levels_ties(side, rest, size);
        assert forall|k: int| 0 <= k < rest.len() implies (#[trigger] rest[k]).exchange.spec_ordinal()
            <= x.exchange.spec_ordinal() by {
            assert(rest[k] == all[k]);
        }
        lemma_top_levels_at_most(side, rest, size, x.exchange.spec_ordinal());
        let s = top_levels(side, rest, size);
        let idx = insert_index(side, s, x.spec_level());
        lemma_insert_index(side, s, x.spec_level());
        let t = s.insert(idx as int, x);
        assert forall|i: int, j: int|
            0 <= i < j < t.len() && (#[trigger] t[i]).spec_level() == (#[trigger] t[j]).spec_level()
            implies t[i].exchange.spec_ordinal() <= t[j].exchange.spec_ordinal() by {
            if j < idx {
                assert(t[i] == s[i] && t[j] == s[j]);
            } else if j == idx {
                assert(t[i] == s[i]);
            } else if i == idx {
                assert(t[j] == s[j - 1]);
                lemma_before_distinct(side, x.spec_level(), s[j - 1].spec_level());
            } else if i < idx {
                assert(t[i] == s[i] && t[j] == s[j - 1]);
            } else {
                assert(t[i] == s[i - 1] && t[j] == s[j - 1]);
            }
        }
        if t.len() > size {
            assert forall|i: int, j: int|
                0 <= i < j < t.take(size as int).len() && (#[trigger] t.take(size as int)[i]).spec_level()
                    == (#[trigger] t.take(size as int)[j]).spec_level() implies t.take(size as int)[i].exchange.spec_ordinal()
                <= t.take(size as int)[j].exchange.spec_ordinal() by {
                assert(t.take(size as int)[i] == t[i] && t.take(size as int)[j] == t[j]);
            }
        }
    }
}

proof fn lemma_book_levels_ordinals(books: Seq<Seq<Level>>)
    ensures
        ordinals_ascending(book_levels(books)),
        books.len() > 0 ==> ordinals_at_most(
            book_levels(books),
            exchange_at(books.len() - 1).spec_ordinal(),
        ),
        books.len() == 0 ==> book_levels(books).len() == 0,
    decreases books.len(),
{
    if books.len() > 0 {
        let rest = books.drop_last();
        lemma_book_levels_ordinals(rest);
        let e = exchange_at(books.len() - 1);
        let head = book_levels(rest);
        let mine = tagged(e, books.last());
        let all = head + mine;
        assert forall|k: int| 0 <= k < mine.len() implies (#[trigger] mine[k]).exchange == e by {}
        assert forall|i: int, j: int| 0 <= i < j < all.len() implies (#[trigger] all[i]).exchange.spec_ordinal()
            <= (#[trigger] all[j]).exchange.spec_ordinal() by {
            if j < head.len() {
                assert(all[i] == head[i] && all[j] == head[j]);
            } else if i < head.len() {
                assert(all[i] == head[i] && all[j] == mine[j - head.len()]);
                assert(head[i].exchange.spec_ordinal() <= exchange_at(rest.len() - 1).spec_ordinal());
            } else {
                assert(all[i] == mine[i - head.len()] && all[j] == mine[j - head.len()]);
            }
        }
        assert forall|k: int| 0 <= k < all.len() implies (#[trigger] all[k]).exchange.spec_ordinal()
            <= e.spec_ordinal() by {
            if k < head.len() {
                assert(all[k] == head[k]);
                assert(head[k].exchange.spec_ordinal() <= exchange_at(rest.len() - 1).spec_ordinal());
            } else {
                assert(all[k] == mine[k - head.len()]);
            }
        }
    }
}

/// Levels with equal price and amount from several exchanges come out by exchange
/// ordinal, lowest first.
pub proof fn lemma_equal_levels_by_exchange(side: Side, books: Seq<Seq<Level>>, size: nat)
    ensures
        ties_by_ordinal(top_levels(side, book_levels(books), size)),
{
    lemma_book_levels_ordinals(books);
    lemma_top_levels_ties(side, book_levels(books), size);
}

} // verus!
