//! The order book engine.
//!
//! One arena of level records and two price-ordered side indices, kept in
//! sync: every side entry names a live arena slot holding its price, sides
//! are strictly ordered best first (descending bids, ascending asks), no two
//! entries on a side share a price, no stored quantity is zero, and after
//! every completed update the best bid sits strictly below the best ask.
//!
//! The abstract content of a side is its sequence of `(price, quantity)`
//! pairs, best first; the update algorithm is specified by three combinators
//! over such sequences: `consume_crossed`, `place_level` and
//! `remove_at_price`.

use std::collections::HashMap;
use vstd::prelude::*;

use crate::pool::Pool;
use crate::types::BuySell;
use crate::types::Level;
use crate::types::LevelIdx;
use crate::types::Price;
use crate::types::PriceLevel;
use crate::types::Qty;

verus! {

broadcast use vstd::std_specs::hash::group_hash_axioms;

/// The side an incoming `side` update executes against when it crosses.
pub open spec fn opposite_of(side: BuySell) -> BuySell {
    match side {
        BuySell::Buy => BuySell::Sell,
        BuySell::Sell => BuySell::Buy,
    }
}

/// True when an incoming `side` level at `price` would trade against a
/// resting opposite level at `best`: a buy crosses asks at or below its
/// price, a sell crosses bids at or above it.
pub open spec fn spec_crosses(price: u64, best: u64, side: BuySell) -> bool {
    match side {
        BuySell::Buy => price >= best,
        BuySell::Sell => price <= best,
    }
}

/// True when price `a` is closer to the top of `side`'s book than `b`:
/// higher for bids, lower for asks.
pub open spec fn spec_better(a: u64, b: u64, side: BuySell) -> bool {
    match side {
        BuySell::Buy => a > b,
        BuySell::Sell => a < b,
    }
}

/// The opposite side with every resting level the incoming `side` update at
/// `price` crosses consumed whole off its top.
pub open spec fn consume_crossed(opp: Seq<(u64, u64)>, price: u64, side: BuySell) -> Seq<
    (u64, u64),
>
    decreases opp.len(),
{
    if opp.len() > 0 && spec_crosses(price, opp[0].0, side) {
        consume_crossed(opp.drop_first(), price, side)
    } else {
        opp
    }
}

/// How many resting levels the incoming update consumes.
pub open spec fn crossed_count(opp: Seq<(u64, u64)>, price: u64, side: BuySell) -> int {
    opp.len() - consume_crossed(opp, price, side).len()
}

/// One side with a level placed: an existing level at `price` has its record
/// overwritten in place, and a new price enters at the position that keeps
/// the side ordered best first.
pub open spec fn place_level(own: Seq<(u64, u64)>, price: u64, qty: u64, side: BuySell) -> Seq<
    (u64, u64),
>
    decreases own.len(),
{
    if own.len() == 0 {
        seq![(price, qty)]
    } else if own[0].0 == price {
        seq![(price, qty)] + own.drop_first()
    } else if spec_better(price, own[0].0, side) {
        seq![(price, qty)] + own
    } else {
        seq![own[0]] + place_level(own.drop_first(), price, qty, side)
    }
}

/// One side with its level at `price` removed, if it holds one.
pub open spec fn remove_at_price(own: Seq<(u64, u64)>, price: u64) -> Seq<(u64, u64)>
    decreases own.len(),
{
    if own.len() == 0 {
        own
    } else if own[0].0 == price {
        own.drop_first()
    } else {
        seq![own[0]] + remove_at_price(own.drop_first(), price)
    }
}

/// True when the side holds a level at `price`.
pub open spec fn has_price(own: Seq<(u64, u64)>, price: u64) -> bool {
    exists|i: int| 0 <= i < own.len() && (#[trigger] own[i]).0 == price
}

/// Strictly ordered best first: descending prices for bids, ascending for
/// asks; in particular no two levels share a price.
pub open spec fn side_ordered(s: Seq<(u64, u64)>, side: BuySell) -> bool {
    forall|i: int, j: int|
        0 <= i < j < s.len() ==> spec_better((#[trigger] s[i]).0, (#[trigger] s[j]).0, side)
}

/// No stored level has the zero quantity that marks removal.
pub open spec fn no_zero_qty(s: Seq<(u64, u64)>) -> bool {
    forall|i: int| 0 <= i < s.len() ==> (#[trigger] s[i]).1 != 0
}

/// A side read as a mapping from price to quantity.
pub open spec fn pairs_to_map(s: Seq<(u64, u64)>) -> Map<u64, u64>
    decreases s.len(),
{
    if s.len() == 0 {
        Map::empty()
    } else {
        pairs_to_map(s.drop_last()).insert(s.last().0, s.last().1)
    }
}

/// Both sides after one normalized `{price, qty, side}` update, as
/// `update_level` applies it.
pub open spec fn apply_update(
    bids: Seq<(u64, u64)>,
    asks: Seq<(u64, u64)>,
    price: u64,
    qty: u64,
    side: BuySell,
) -> (Seq<(u64, u64)>, Seq<(u64, u64)>) {
    if qty == 0 {
        match side {
            BuySell::Buy => (remove_at_price(bids, price), asks),
            BuySell::Sell => (bids, remove_at_price(asks, price)),
        }
    } else {
        match side {
            BuySell::Buy => (
                place_level(bids, price, qty, BuySell::Buy),
                consume_crossed(asks, price, BuySell::Buy),
            ),
            BuySell::Sell => (
                consume_crossed(bids, price, BuySell::Sell),
                place_level(asks, price, qty, BuySell::Sell),
            ),
        }
    }
}

/// Both sides after a batch of `(price, qty)` updates lands on `side`, in the
/// batch's given order.
pub open spec fn apply_updates(
    bids: Seq<(u64, u64)>,
    asks: Seq<(u64, u64)>,
    ups: Seq<(u64, u64)>,
    side: BuySell,
) -> (Seq<(u64, u64)>, Seq<(u64, u64)>)
    decreases ups.len(),
{
    if ups.len() == 0 {
        (bids, asks)
    } else {
        let step = apply_update(bids, asks, ups[0].0, ups[0].1, side);
        apply_updates(step.0, step.1, ups.drop_first(), side)
    }
}

/// Consuming crossed levels never lengthens the opposite side.
proof fn lemma_consume_len(opp: Seq<(u64, u64)>, price: u64, side: BuySell)
    ensures
        consume_crossed(opp, price, side).len() <= opp.len(),
    decreases opp.len(),
{
    if opp.len() > 0 && spec_crosses(price, opp[0].0, side) {
        lemma_consume_len(opp.drop_first(), price, side);
    }
}

/// Placing a quantity at a price the side already holds overwrites that
/// level's record in place: the side keeps its length and every level keeps
/// its position; only the record at the held price changes.
proof fn lemma_place_found(own: Seq<(u64, u64)>, price: u64, qty: u64, side: BuySell, k: int)
    requires
        0 <= k < own.len(),
        own[k].0 == price,
        forall|j: int|
            0 <= j < k ==> (#[trigger] own[j]).0 != price && spec_better(own[j].0, price, side),
    ensures
        place_level(own, price, qty, side) =~= own.update(k, (price, qty)),
    decreases k,
{
    if k == 0 {
        assert(place_level(own, price, qty, side) =~= own.update(0, (price, qty)));
    } else {
        let rest = own.drop_first();
        assert forall|j: int| 0 <= j < k - 1 implies (#[trigger] rest[j]).0 != price
            && spec_better(rest[j].0, price, side) by {
            assert(rest[j] == own[j + 1]);
        }
        lemma_place_found(rest, price, qty, side, k - 1);
        assert(place_level(own, price, qty, side) =~= own.update(k, (price, qty)));
    }
}

/// Placing a price the side does not hold inserts it exactly at the rank
/// that keeps the side ordered best first.
proof fn lemma_place_insert(own: Seq<(u64, u64)>, price: u64, qty: u64, side: BuySell, k: int)
    requires
        0 <= k <= own.len(),
        forall|j: int|
            0 <= j < k ==> (#[trigger] own[j]).0 != price && spec_better(own[j].0, price, side),
        k < own.len() ==> spec_better(price, own[k].0, side),
    ensures
        place_level(own, price, qty, side) =~= own.insert(k, (price, qty)),
    decreases k,
{
    if k == 0 {
        assert(place_level(own, price, qty, side) =~= own.insert(0, (price, qty)));
    } else {
        let rest = own.drop_first();
        assert forall|j: int| 0 <= j < k - 1 implies (#[trigger] rest[j]).0 != price
            && spec_better(rest[j].0, price, side) by {
            assert(rest[j] == own[j + 1]);
        }
        if k - 1 < rest.len() {
            assert(rest[k - 1] == own[k]);
        }
        lemma_place_insert(rest, price, qty, side, k - 1);
        assert(place_level(own, price, qty, side) =~= own.insert(k, (price, qty)));
    }
}

/// Removing a held price takes out exactly the entry at its rank.
proof fn lemma_remove_found(own: Seq<(u64, u64)>, price: u64, k: int)
    requires
        0 <= k < own.len(),
        own[k].0 == price,
        forall|j: int| 0 <= j < k ==> (#[trigger] own[j]).0 != price,
    ensures
        remove_at_price(own, price) =~= own.remove(k),
    decreases k,
{
    if k == 0 {
        assert(remove_at_price(own, price) =~= own.remove(0));
    } else {
        let rest = own.drop_first();
        assert forall|j: int| 0 <= j < k - 1 implies (#[trigger] rest[j]).0 != price by {
            assert(rest[j] == own[j + 1]);
        }
        lemma_remove_found(rest, price, k - 1);
        assert(remove_at_price(own, price) =~= own.remove(k));
    }
}

/// Zero-quantity removal takes out exactly one level: removing a price the
/// side holds shrinks it by exactly one entry. Combined with `update_level`'s
/// contract — the freed slot joins the free list and `Pool::allocate` reuses
/// the most recently freed slot — a zero-quantity update frees one arena
/// slot for a later allocation.
pub proof fn lemma_zero_quantity_removal(own: Seq<(u64, u64)>, price: u64)
    requires
        has_price(own, price),
    ensures
        remove_at_price(own, price).len() == own.len() - 1,
    decreases own.len(),
{
    if own[0].0 == price {
    } else {
        let rest = own.drop_first();
        let k = choose|k: int| 0 <= k < own.len() && (#[trigger] own[k]).0 == price;
        assert(rest[k - 1] == own[k]);
        assert(has_price(rest, price));
        lemma_zero_quantity_removal(rest, price);
    }
}

/// In-place update stability: placing a quantity at a price an ordered side
/// already holds keeps the side's length and every level's rank; only the
/// record at that price changes, and it stays at its rank.
pub proof fn lemma_in_place_update(own: Seq<(u64, u64)>, price: u64, qty: u64, side: BuySell, k: int)
    requires
        side_ordered(own, side),
        0 <= k < own.len(),
        own[k].0 == price,
    ensures
        place_level(own, price, qty, side) =~= own.update(k, (price, qty)),
        place_level(own, price, qty, side).len() == own.len(),
        place_level(own, price, qty, side)[k] == (price, qty),
        forall|j: int|
            0 <= j < own.len() && j != k ==> place_level(own, price, qty, side)[j] == own[j],
{
    assert forall|j: int| 0 <= j < k implies (#[trigger] own[j]).0 != price && spec_better(
        own[j].0,
        price,
        side,
    ) by {
        assert(spec_better(own[j].0, own[k].0, side));
    }
    lemma_place_found(own, price, qty, side, k);
}

/// `lemma_place_commutes`, for the placement whose price is better.
proof fn lemma_place_commutes_better(
    own: Seq<(u64, u64)>,
    p1: u64,
    q1: u64,
    p2: u64,
    q2: u64,
    side: BuySell,
)
    requires
        spec_better(p1, p2, side),
    ensures
        place_level(place_level(own, p1, q1, side), p2, q2, side) =~= place_level(
            place_level(own, p2, q2, side),
            p1,
            q1,
            side,
        ),
    decreases own.len(),
{
    let x1 = place_level(own, p1, q1, side);
    let x2 = place_level(own, p2, q2, side);
    if own.len() == 0 {
        assert(x1 =~= seq![(p1, q1)]);
        assert(x1.drop_first() =~= Seq::<(u64, u64)>::empty());
        assert(place_level(x1.drop_first(), p2, q2, side) =~= seq![(p2, q2)]);
        assert(place_level(x1, p2, q2, side) =~= seq![(p1, q1), (p2, q2)]);
        assert(x2 =~= seq![(p2, q2)]);
        assert(place_level(x2, p1, q1, side) =~= seq![(p1, q1), (p2, q2)]);
    } else {
        let head = own[0];
        let rest = own.drop_first();
        if head.0 == p1 {
            // the better price overwrites the head; the worse one passes it
            assert(x1 =~= seq![(p1, q1)] + rest);
            assert(x1[0] == (p1, q1) && x1.drop_first() =~= rest);
            assert(place_level(x1, p2, q2, side) =~= seq![(p1, q1)] + place_level(
                rest,
                p2,
                q2,
                side,
            ));
            assert(x2 =~= seq![head] + place_level(rest, p2, q2, side));
            assert(x2[0] == head && x2.drop_first() =~= place_level(rest, p2, q2, side));
            assert(place_level(x2, p1, q1, side) =~= seq![(p1, q1)] + place_level(
                rest,
                p2,
                q2,
                side,
            ));
        } else if spec_better(p1, head.0, side) {
            // the better price lands in front either way
            assert(x1 =~= seq![(p1, q1)] + own);
            assert(x1[0] == (p1, q1) && x1.drop_first() =~= own);
            assert(place_level(x1, p2, q2, side) =~= seq![(p1, q1)] + x2);
            if head.0 == p2 {
                assert(x2 =~= seq![(p2, q2)] + rest);
                assert(x2[0] == (p2, q2));
                assert(place_level(x2, p1, q1, side) =~= seq![(p1, q1)] + x2);
            } else if spec_better(p2, head.0, side) {
                assert(x2 =~= seq![(p2, q2)] + own);
                assert(x2[0] == (p2, q2));
                assert(place_level(x2, p1, q1, side) =~= seq![(p1, q1)] + x2);
            } else {
                assert(x2 =~= seq![head] + place_level(rest, p2, q2, side));
                assert(x2[0] == head);
                assert(place_level(x2, p1, q1, side) =~= seq![(p1, q1)] + x2);
            }
        } else {
            // the head is better than both: it stays in front and the rest
            // commutes by induction
            lemma_place_commutes_better(rest, p1, q1, p2, q2, side);
            assert(x1 =~= seq![head] + place_level(rest, p1, q1, side));
            assert(x1[0] == head && x1.drop_first() =~= place_level(rest, p1, q1, side));
            assert(place_level(x1, p2, q2, side) =~= seq![head] + place_level(
                place_level(rest, p1, q1, side),
                p2,
                q2,
                side,
            ));
            assert(x2 =~= seq![head] + place_level(rest, p2, q2, side));
            assert(x2[0] == head && x2.drop_first() =~= place_level(rest, p2, q2, side));
            assert(place_level(x2, p1, q1, side) =~= seq![head] + place_level(
                place_level(rest, p2, q2, side),
                p1,
                q1,
                side,
            ));
        }
    }
}

/// Bulk-load order independence: placing two levels at distinct prices gives
/// the same side whichever lands first, so a crossing-free snapshot loads to
/// the same book in any order of its levels.
pub proof fn lemma_place_commutes(
    own: Seq<(u64, u64)>,
    p1: u64,
    q1: u64,
    p2: u64,
    q2: u64,
    side: BuySell,
)
    requires
        p1 != p2,
    ensures
        place_level(place_level(own, p1, q1, side), p2, q2, side) =~= place_level(
            place_level(own, p2, q2, side),
            p1,
            q1,
            side,
        ),
{
    if spec_better(p1, p2, side) {
        lemma_place_commutes_better(own, p1, q1, p2, q2, side);
    } else {
        lemma_place_commutes_better(own, p2, q2, p1, q1, side);
    }
}

/// Removing a price the side does not hold leaves it untouched.
proof fn lemma_remove_absent(own: Seq<(u64, u64)>, price: u64)
    requires
        !has_price(own, price),
    ensures
        remove_at_price(own, price) =~= own,
    decreases own.len(),
{
    if own.len() > 0 {
        let rest = own.drop_first();
        assert(own[0].0 != price);
        assert forall|j: int| 0 <= j < rest.len() implies (#[trigger] rest[j]).0 != price by {
            assert(rest[j] == own[j + 1]);
        }
        lemma_remove_absent(rest, price);
        assert(remove_at_price(own, price) =~= own);
    }
}

/// The limit order book: two sorted side indices over one level arena.
#[derive(Debug)]
pub struct OrderBook {
    bids: Vec<PriceLevel>,
    asks: Vec<PriceLevel>,
    levels: Pool,
}

impl OrderBook {
    /// The raw side index of `side`, best first.
    pub closed spec fn side_entries(&self, side: BuySell) -> Seq<PriceLevel> {
        match side {
            BuySell::Buy => self.bids@,
            BuySell::Sell => self.asks@,
        }
    }

    /// The `(price, quantity)` pairs of `side`, best first, read through the
    /// arena.
    pub closed spec fn side_pairs(&self, side: BuySell) -> Seq<(u64, u64)> {
        self.side_entries(side).map_values(
            |pl: PriceLevel| (pl.price.0, self.levels.slots()[pl.level_idx.0 as int].qty.0),
        )
    }

    /// The bid side as `(price, quantity)` pairs, highest price first.
    pub open spec fn bids_pairs(&self) -> Seq<(u64, u64)> {
        self.side_pairs(BuySell::Buy)
    }

    /// The ask side as `(price, quantity)` pairs, lowest price first.
    pub open spec fn asks_pairs(&self) -> Seq<(u64, u64)> {
        self.side_pairs(BuySell::Sell)
    }

    /// How many arena slots exist, live and freed together. The arena never
    /// shrinks; a level count that stays put while levels come and go shows
    /// slot reuse.
    pub closed spec fn arena_len(&self) -> nat {
        self.levels.slots().len()
    }

    /// How many freed arena slots wait for reuse.
    pub closed spec fn free_len(&self) -> nat {
        self.levels.free_list().len()
    }

    /// Each entry of `side` names a live arena slot that stores its price and
    /// a non-zero quantity.
    spec fn inv_entries(&self, side: BuySell) -> bool {
        let es = self.side_entries(side);
        forall|k: int|
            0 <= k < es.len() ==> {
                &&& (#[trigger] es[k]).side == side
                &&& es[k].level_idx.0 < self.levels.slots().len()
                &&& self.levels.slots()[es[k].level_idx.0 as int].price == es[k].price
                &&& self.levels.slots()[es[k].level_idx.0 as int].qty.0 != 0
            }
    }

    /// No arena slot is named twice: not by two side entries, and not by a
    /// side entry and the free list, and not twice by the free list.
    spec fn inv_distinct(&self) -> bool {
        let b = self.bids@;
        let a = self.asks@;
        let f = self.levels.free_list();
        &&& forall|i: int, j: int|
            0 <= i < j < b.len() ==> (#[trigger] b[i]).level_idx.0 != (#[trigger] b[j]).level_idx.0
        &&& forall|i: int, j: int|
            0 <= i < j < a.len() ==> (#[trigger] a[i]).level_idx.0 != (#[trigger] a[j]).level_idx.0
        &&& forall|i: int, j: int|
            0 <= i < b.len() && 0 <= j < a.len() ==> (#[trigger] b[i]).level_idx.0 != (
            #[trigger] a[j]).level_idx.0
        &&& forall|i: int, j: int|
            0 <= i < b.len() && 0 <= j < f.len() ==> (#[trigger] b[i]).level_idx.0 != (
            #[trigger] f[j])
        &&& forall|i: int, j: int|
            0 <= i < a.len() && 0 <= j < f.len() ==> (#[trigger] a[i]).level_idx.0 != (
            #[trigger] f[j])
        &&& forall|i: int, j: int| 0 <= i < j < f.len() ==> (#[trigger] f[i]) != (#[trigger] f[j])
    }

    /// Sides are strictly ordered best first.
    spec fn inv_ordered(&self) -> bool {
        &&& forall|i: int, j: int|
            0 <= i < j < self.bids@.len() ==> (#[trigger] self.bids@[i]).price.0 > (
            #[trigger] self.bids@[j]).price.0
        &&& forall|i: int, j: int|
            0 <= i < j < self.asks@.len() ==> (#[trigger] self.asks@[i]).price.0 < (
            #[trigger] self.asks@[j]).price.0
    }

    /// No residual cross: whenever both sides rest, the best bid sits
    /// strictly below the best ask.
    spec fn inv_no_cross(&self) -> bool {
        self.bids@.len() > 0 && self.asks@.len() > 0 ==> self.bids@[0].price.0
            < self.asks@[0].price.0
    }

    /// The book invariant every public operation preserves.
    pub closed spec fn wf(&self) -> bool {
        &&& self.levels.wf()
        &&& self.inv_entries(BuySell::Buy)
        &&& self.inv_entries(BuySell::Sell)
        &&& self.inv_distinct()
        &&& self.inv_ordered()
        &&& self.inv_no_cross()
    }

    /// An empty book: no levels, no arena slots.
    pub fn new() -> (r: Self)
        ensures
            r.wf(),
            r.bids_pairs() =~= Seq::<(u64, u64)>::empty(),
            r.asks_pairs() =~= Seq::<(u64, u64)>::empty(),
            r.arena_len() == 0,
            r.free_len() == 0,
    {
        OrderBook { bids: Vec::new(), asks: Vec::new(), levels: Pool::new() }
    }

    /// An independent, point-in-time copy of the whole book, for a consumer
    /// that wants a consistent view without holding the live engine.
    pub fn snapshot(&self) -> (r: OrderBook)
        ensures
            r.bids_pairs() == self.bids_pairs(),
            r.asks_pairs() == self.asks_pairs(),
            r.arena_len() == self.arena_len(),
            r.free_len() == self.free_len(),
            self.wf() ==> r.wf(),
    {
        let bids = self.bids.clone();
        let asks = self.asks.clone();
        let levels = self.levels.snapshot();
        proof {
            assert(bids@ =~= self.bids@);
            assert(asks@ =~= self.asks@);
        }
        let r = OrderBook { bids, asks, levels };
        proof {
            assert(r.side_pairs(BuySell::Buy) =~= self.side_pairs(BuySell::Buy));
            assert(r.side_pairs(BuySell::Sell) =~= self.side_pairs(BuySell::Sell));
        }
        r
    }

    /// How many arena slots the book has grown, live and freed together.
    /// Callers use it to rule out arena exhaustion before an update.
    pub fn arena_size(&self) -> (n: usize)
        ensures
            n == self.arena_len(),
    {
        self.levels.size()
    }

    /// How many levels rest on `side`.
    pub(crate) fn side_len(&self, side: BuySell) -> (n: usize)
        ensures
            n == self.side_entries(side).len(),
            n == self.side_pairs(side).len(),
    {
        match side {
            BuySell::Buy => self.bids.len(),
            BuySell::Sell => self.asks.len(),
        }
    }

    /// The entry at rank `i` of `side`, best first.
    fn side_at(&self, side: BuySell, i: usize) -> (pl: PriceLevel)
        requires
            i < self.side_entries(side).len(),
        ensures
            pl == self.side_entries(side)[i as int],
    {
        match side {
            BuySell::Buy => self.bids[i],
            BuySell::Sell => self.asks[i],
        }
    }

    /// Inserts `pl` at rank `i` of `side`; the other side and the arena stay
    /// put.
    fn side_insert(&mut self, side: BuySell, i: usize, pl: PriceLevel)
        requires
            i <= old(self).side_entries(side).len(),
        ensures
            final(self).side_entries(side) == old(self).side_entries(side).insert(i as int, pl),
            final(self).side_entries(opposite_of(side)) == old(self).side_entries(
                opposite_of(side),
            ),
            final(self).levels == old(self).levels,
    {
        match side {
            BuySell::Buy => self.bids.insert(i, pl),
            BuySell::Sell => self.asks.insert(i, pl),
        }
    }

    /// Removes and returns the entry at rank `i` of `side`; the other side
    /// and the arena stay put.
    fn side_remove(&mut self, side: BuySell, i: usize) -> (pl: PriceLevel)
        requires
            i < old(self).side_entries(side).len(),
        ensures
            pl == old(self).side_entries(side)[i as int],
            final(self).side_entries(side) == old(self).side_entries(side).remove(i as int),
            final(self).side_entries(opposite_of(side)) == old(self).side_entries(
                opposite_of(side),
            ),
            final(self).levels == old(self).levels,
    {
        match side {
            BuySell::Buy => self.bids.remove(i),
            BuySell::Sell => self.asks.remove(i),
        }
    }

    /// True when `level`, arriving on `buy_sell`, prices strictly through the
    /// resting level `opposite_side`.
    pub fn cross(level: &Level, buy_sell: BuySell, opposite_side: &PriceLevel) -> (r: bool)
        ensures
            buy_sell == BuySell::Buy ==> r == (level.price.0 > opposite_side.price.0),
            buy_sell == BuySell::Sell ==> r == (level.price.0 < opposite_side.price.0),
    {
        match buy_sell {
            BuySell::Buy => level.price().value() > opposite_side.price().value(),
            BuySell::Sell => level.price().value() < opposite_side.price().value(),
        }
    }

    /// True when the incoming level trades against the best of the opposite
    /// side: a buy at or above the best ask, a sell at or below the best bid.
    fn cross_(&self, level: &Level, buy_sell: BuySell) -> (r: bool)
        ensures
            r == (self.side_entries(opposite_of(buy_sell)).len() > 0 && spec_crosses(
                level.price.0,
                self.side_entries(opposite_of(buy_sell))[0].price.0,
                buy_sell,
            )),
    {
        match buy_sell {
            BuySell::Buy => {
                if self.asks.len() > 0 {
                    level.price().value() >= self.asks[0].price().value()
                } else {
                    false
                }
            },
            BuySell::Sell => {
                if self.bids.len() > 0 {
                    level.price().value() <= self.bids[0].price().value()
                } else {
                    false
                }
            },
        }
    }

    /// True when `new_level` holds a better price for `price_level`'s side
    /// than `price_level` itself.
    fn has_better_price(price_level: &PriceLevel, new_level: &Level) -> (r: bool)
        ensures
            r == spec_better(new_level.price.0, price_level.price.0, price_level.side),
    {
        match price_level.side() {
            BuySell::Buy => price_level.price().value() < new_level.price().value(),
            BuySell::Sell => price_level.price().value() > new_level.price().value(),
        }
    }

    /// The quantity resting in the arena slot a side entry names.
    fn get_qty(&self, price_level: &PriceLevel) -> (q: Qty)
        requires
            price_level.level_idx.0 < self.arena_len(),
        ensures
            q == self.levels.slots()[price_level.level_idx.0 as int].qty,
    {
        let level = self.levels.read(price_level.level_idx().value());
        level.qty
    }

    /// Removes the entry at rank `idx` of `buy_sell` and frees its arena
    /// slot for reuse.
    fn remove_price_level(&mut self, idx: usize, buy_sell: BuySell)
        requires
            old(self).wf(),
            idx < old(self).side_entries(buy_sell).len(),
        ensures
            final(self).wf(),
            final(self).side_pairs(buy_sell) == old(self).side_pairs(buy_sell).remove(idx as int),
            final(self).side_pairs(opposite_of(buy_sell)) == old(self).side_pairs(
                opposite_of(buy_sell),
            ),
            final(self).side_entries(opposite_of(buy_sell)) == old(self).side_entries(
                opposite_of(buy_sell),
            ),
            final(self).arena_len() == old(self).arena_len(),
            final(self).free_len() == old(self).free_len() + 1,
    {
        let ghost pre = *self;
        let price_level = self.side_remove(buy_sell, idx);
        self.levels.free(price_level.level_idx().value());
        proof {
            let es1 = pre.side_entries(buy_sell);
            let es2 = self.side_entries(buy_sell);
            assert forall|k: int| 0 <= k < es2.len() implies es2[k] == if k < idx {
                es1[k]
            } else {
                es1[k + 1]
            } by {}
            assert(self.inv_entries(BuySell::Buy) && self.inv_entries(BuySell::Sell));
            assert(self.inv_distinct());
            assert(self.inv_ordered());
            assert(self.inv_no_cross());
            assert(self.levels.wf());
            assert(self.side_pairs(buy_sell) =~= pre.side_pairs(buy_sell).remove(idx as int));
            assert(self.side_pairs(opposite_of(buy_sell)) =~= pre.side_pairs(
                opposite_of(buy_sell),
            ));
        }
    }

    /// Overwrites the arena record of the level at rank `k` of `buy_sell`
    /// with the incoming price and quantity. No index moves and no slot is
    /// allocated or freed.
    fn update_in_place(&mut self, level: &Level, buy_sell: BuySell, k: usize)
        requires
            old(self).wf(),
            k < old(self).side_entries(buy_sell).len(),
            old(self).side_entries(buy_sell)[k as int].price.0 == level.price.0,
            level.qty.0 != 0,
        ensures
            final(self).wf(),
            final(self).side_pairs(buy_sell) == old(self).side_pairs(buy_sell).update(
                k as int,
                (level.price.0, level.qty.0),
            ),
            final(self).side_pairs(opposite_of(buy_sell)) == old(self).side_pairs(
                opposite_of(buy_sell),
            ),
            final(self).arena_len() == old(self).arena_len(),
            final(self).free_len() == old(self).free_len(),
    {
        let price_level = self.side_at(buy_sell, k);
        let idx = price_level.level_idx().value();
        proof {
            assert(old(self).side_entries(buy_sell)[k as int].level_idx.0 < old(
                self,
            ).levels.slots().len());
        }
        let slot = self.levels.get(idx);
        slot.price = level.price;
        slot.qty = level.qty;
        proof {
            let pre = *old(self);
            let es = pre.side_entries(buy_sell);
            let os = pre.side_entries(opposite_of(buy_sell));
            let slots0 = pre.levels.slots();
            let slots2 = self.levels.slots();
            let i0 = es[k as int].level_idx.0 as int;
            assert forall|m: int| 0 <= m < es.len() && m != k implies (#[trigger] es[m]).level_idx.0
                != i0 by {
                if buy_sell == BuySell::Buy {
                    if m < k {
                        assert(pre.bids@[m].level_idx.0 != pre.bids@[k as int].level_idx.0);
                    } else {
                        assert(pre.bids@[k as int].level_idx.0 != pre.bids@[m].level_idx.0);
                    }
                } else {
                    if m < k {
                        assert(pre.asks@[m].level_idx.0 != pre.asks@[k as int].level_idx.0);
                    } else {
                        assert(pre.asks@[k as int].level_idx.0 != pre.asks@[m].level_idx.0);
                    }
                }
            }
            assert forall|m: int| 0 <= m < os.len() implies (#[trigger] os[m]).level_idx.0
                != i0 by {
                if buy_sell == BuySell::Buy {
                    assert(pre.bids@[k as int].level_idx.0 != pre.asks@[m].level_idx.0);
                } else {
                    assert(pre.bids@[m].level_idx.0 != pre.asks@[k as int].level_idx.0);
                }
            }
            assert(self.side_pairs(buy_sell) =~= pre.side_pairs(buy_sell).update(
                k as int,
                (level.price.0, level.qty.0),
            ));
            assert(self.side_pairs(opposite_of(buy_sell)) =~= pre.side_pairs(
                opposite_of(buy_sell),
            ));
            assert(self.inv_entries(BuySell::Buy));
            assert(self.inv_entries(BuySell::Sell));
            assert(self.inv_distinct());
            assert(self.inv_ordered());
            assert(self.inv_no_cross());
            assert(self.levels.wf());
        }
    }

    /// Allocates a slot for an incoming level at a price `buy_sell` does not
    /// hold and threads it into the side at rank `k`, where it keeps the side
    /// ordered best first.
    #[verifier::rlimit(100)]
    #[verifier::spinoff_prover]
    fn insert_new_level(&mut self, level: &Level, buy_sell: BuySell, k: usize)
        requires
            old(self).wf(),
            old(self).arena_len() < usize::MAX,
            level.qty.0 != 0,
            k <= old(self).side_entries(buy_sell).len(),
            forall|j: int|
                0 <= j < k ==> spec_better(
                    (#[trigger] old(self).side_entries(buy_sell)[j]).price.0,
                    level.price.0,
                    buy_sell,
                ),
            k < old(self).side_entries(buy_sell).len() ==> spec_better(
                level.price.0,
                old(self).side_entries(buy_sell)[k as int].price.0,
                buy_sell,
            ),
            old(self).side_entries(opposite_of(buy_sell)).len() > 0 ==> !spec_crosses(
                level.price.0,
                old(self).side_entries(opposite_of(buy_sell))[0].price.0,
                buy_sell,
            ),
        ensures
            final(self).wf(),
            final(self).side_pairs(buy_sell) == old(self).side_pairs(buy_sell).insert(
                k as int,
                (level.price.0, level.qty.0),
            ),
            final(self).side_pairs(opposite_of(buy_sell)) == old(self).side_pairs(
                opposite_of(buy_sell),
            ),
            old(self).free_len() == 0 ==> final(self).arena_len() == old(self).arena_len() + 1
                && final(self).free_len() == 0,
            old(self).free_len() > 0 ==> final(self).arena_len() == old(self).arena_len()
                && final(self).free_len() == old(self).free_len() - 1,
    {
        let level_idx = self.levels.allocate();
        let slot = self.levels.get(level_idx);
        slot.price = level.price;
        slot.qty = level.qty;
        let new_price_level = PriceLevel::new(level.price(), LevelIdx(level_idx), buy_sell);
        self.side_insert(buy_sell, k, new_price_level);
        proof {
            let pre = *old(self);
            let es = pre.side_entries(buy_sell);
            let os = pre.side_entries(opposite_of(buy_sell));
            let es2 = self.side_entries(buy_sell);
            let slots0 = pre.levels.slots();
            let f0 = pre.levels.free_list();
            let p = level.price.0;
            let q = level.qty.0;
            // the fresh or reused slot is named by no entry of either side
            assert forall|m: int| 0 <= m < es.len() implies (#[trigger] es[m]).level_idx.0
                != level_idx by {
                if f0.len() > 0 {
                    assert(f0[f0.len() - 1] == f0.last());
                    if buy_sell == BuySell::Buy {
                        assert(pre.bids@[m].level_idx.0 != f0[f0.len() - 1]);
                    } else {
                        assert(pre.asks@[m].level_idx.0 != f0[f0.len() - 1]);
                    }
                } else {
                    assert(es[m].level_idx.0 < slots0.len());
                }
            }
            assert forall|m: int| 0 <= m < os.len() implies (#[trigger] os[m]).level_idx.0
                != level_idx by {
                if f0.len() > 0 {
                    assert(f0[f0.len() - 1] == f0.last());
                    if buy_sell == BuySell::Buy {
                        assert(pre.asks@[m].level_idx.0 != f0[f0.len() - 1]);
                    } else {
                        assert(pre.bids@[m].level_idx.0 != f0[f0.len() - 1]);
                    }
                } else {
                    assert(os[m].level_idx.0 < slots0.len());
                }
            }
            // the reused slot is no longer on the free list
            assert forall|m: int| 0 <= m < self.levels.free_list().len() implies (
            #[trigger] self.levels.free_list()[m]) != level_idx by {
                if f0.len() > 0 {
                    assert(self.levels.free_list()[m] == f0[m]);
                    assert(f0[m] != f0[f0.len() - 1]);
                }
            }
            // every entry of the grown side sits where the insert put it
            let npl = new_price_level;
            assert forall|m: int| 0 <= m < es2.len() implies #[trigger] es2[m] == if m < k {
                es[m]
            } else if m == k {
                npl
            } else {
                es[m - 1]
            } by {}
            assert(self.side_pairs(buy_sell) =~= pre.side_pairs(buy_sell).insert(
                k as int,
                (p, q),
            ));
            assert(self.side_pairs(opposite_of(buy_sell)) =~= pre.side_pairs(
                opposite_of(buy_sell),
            ));
            // ordering around the insertion point, by transitivity through rank k
            assert forall|i: int, j: int| 0 <= i < j < es2.len() implies spec_better(
                (#[trigger] es2[i]).price.0,
                (#[trigger] es2[j]).price.0,
                buy_sell,
            ) by {
                if i < k && j == k {
                    assert(spec_better(es[i].price.0, p, buy_sell));
                } else if i == k && j > k {
                    assert(spec_better(p, es[k as int].price.0, buy_sell));
                    if j - 1 > k {
                        assert(spec_better(es[k as int].price.0, es[j - 1].price.0, buy_sell));
                    }
                }
            }
            assert(self.inv_entries(BuySell::Buy));
            assert(self.inv_entries(BuySell::Sell));
            assert(self.inv_distinct());
            assert(self.inv_ordered());
            assert(self.inv_no_cross());
            assert(self.levels.wf());
        }
    }

    /// Applies one normalized update to the book.
    ///
    /// A zero quantity removes the level resting at the price on the update's
    /// own side, if any, and frees its arena slot. A non-zero quantity first
    /// consumes, whole, every opposite level it crosses — a buy takes asks
    /// priced at or below it, a sell takes bids priced at or above it — and
    /// then lands on its own side: in place where the price is already held,
    /// at its ordered rank otherwise, reusing a freed arena slot when one
    /// waits and growing the arena only when none does.
    #[verifier::loop_isolation(false)]
    pub fn update_level(&mut self, level: &Level, buy_sell: BuySell)
        requires
            old(self).wf(),
            old(self).arena_len() < usize::MAX,
        ensures
            final(self).wf(),
            level.qty.0 == 0 ==> {
                &&& final(self).side_pairs(buy_sell) == remove_at_price(
                    old(self).side_pairs(buy_sell),
                    level.price.0,
                )
                &&& final(self).side_pairs(opposite_of(buy_sell)) == old(self).side_pairs(
                    opposite_of(buy_sell),
                )
                &&& final(self).arena_len() == old(self).arena_len()
                &&& (has_price(old(self).side_pairs(buy_sell), level.price.0) ==> final(self).free_len() == old(self).free_len() + 1)
                &&& (!has_price(old(self).side_pairs(buy_sell), level.price.0) ==> final(self).free_len() == old(self).free_len())
            },
            level.qty.0 != 0 ==> {
                &&& final(self).side_pairs(buy_sell) == place_level(
                    old(self).side_pairs(buy_sell),
                    level.price.0,
                    level.qty.0,
                    buy_sell,
                )
                &&& final(self).side_pairs(opposite_of(buy_sell)) == consume_crossed(
                    old(self).side_pairs(opposite_of(buy_sell)),
                    level.price.0,
                    buy_sell,
                )
            },
            level.qty.0 != 0 && has_price(old(self).side_pairs(buy_sell), level.price.0) ==> final(self).arena_len() == old(self).arena_len() && final(self).free_len() == old(
                self,
            ).free_len(),
            level.qty.0 != 0 && !has_price(old(self).side_pairs(buy_sell), level.price.0) ==> {
                let reclaimed = old(self).free_len() + crossed_count(
                    old(self).side_pairs(opposite_of(buy_sell)),
                    level.price.0,
                    buy_sell,
                );
                &&& (reclaimed == 0 ==> final(self).arena_len() == old(self).arena_len() + 1
                    && final(self).free_len() == 0)
                &&& (reclaimed > 0 ==> final(self).arena_len() == old(self).arena_len() && final(self).free_len() == reclaimed - 1)
            },
        decreases old(self).side_entries(opposite_of(buy_sell)).len(),
    {
        if level.qty.value() == 0 {
            let n = self.side_len(buy_sell);
            let mut i: usize = 0;
            let mut found = false;
            while i < n && !found
                invariant
                    i <= n,
                    forall|j: int|
                        0 <= j < i ==> (#[trigger] self.side_entries(buy_sell)[j]).price.0
                            != level.price.0,
                    found ==> i < n && self.side_entries(buy_sell)[i as int].price.0
                        == level.price.0,
                decreases n - i, (if found { 0int } else { 1int }),
            {
                let price_level = self.side_at(buy_sell, i);
                if price_level.price().value() == level.price().value() {
                    found = true;
                } else {
                    i += 1;
                }
            }
            proof {
                let own0 = self.side_pairs(buy_sell);
                assert forall|j: int| 0 <= j < i implies (#[trigger] own0[j]).0
                    != level.price.0 by {
                    assert(own0[j].0 == self.side_entries(buy_sell)[j].price.0);
                }
            }
            if found {
                proof {
                    let own0 = self.side_pairs(buy_sell);
                    assert(own0[i as int].0 == level.price.0);
                    assert(has_price(own0, level.price.0));
                    lemma_remove_found(own0, level.price.0, i as int);
                }
                self.remove_price_level(i, buy_sell);
            } else {
                proof {
                    let own0 = self.side_pairs(buy_sell);
                    assert(!has_price(own0, level.price.0));
                    lemma_remove_absent(own0, level.price.0);
                }
            }
            return ;
        }
        if self.cross_(level, buy_sell) {
            proof {
                let own0 = self.side_pairs(buy_sell);
                let opp0 = self.side_pairs(opposite_of(buy_sell));
                let oe = self.side_entries(opposite_of(buy_sell));
                assert(opp0[0].0 == oe[0].price.0);
                // a held own-side price cannot cross: it would put the best
                // bid at or above the best ask before the update arrived
                assert(!has_price(own0, level.price.0)) by {
                    if has_price(own0, level.price.0) {
                        let k = choose|k: int|
                            0 <= k < own0.len() && (#[trigger] own0[k]).0 == level.price.0;
                        assert(own0[k].0 == self.side_entries(buy_sell)[k].price.0);
                        if buy_sell == BuySell::Buy {
                            if k > 0 {
                                assert(self.bids@[0].price.0 > self.bids@[k].price.0);
                            }
                            assert(self.bids@[0].price.0 < self.asks@[0].price.0);
                            assert(false);
                        } else {
                            if k > 0 {
                                assert(self.asks@[0].price.0 < self.asks@[k].price.0);
                            }
                            assert(self.bids@[0].price.0 < self.asks@[0].price.0);
                            assert(false);
                        }
                    }
                }
            }
            let ghost mid = *self;
            let other = buy_sell.other_side();
            proof {
                assert(other == opposite_of(buy_sell));
                assert(opposite_of(other) == buy_sell);
            }
            self.remove_price_level(0, other);
            self.update_level(level, buy_sell);
            proof {
                let own0 = mid.side_pairs(buy_sell);
                let opp0 = mid.side_pairs(opposite_of(buy_sell));
                let p = level.price.0;
                assert(opp0.remove(0) =~= opp0.drop_first());
                assert(spec_crosses(p, opp0[0].0, buy_sell));
                assert(consume_crossed(opp0, p, buy_sell) == consume_crossed(
                    opp0.drop_first(),
                    p,
                    buy_sell,
                ));
            }
            return ;
        }
        let n = self.side_len(buy_sell);
        let mut insert_index: usize = 0;
        let mut found = false;
        let mut stop = false;
        while insert_index < n && !found && !stop
            invariant
                insert_index <= n,
                forall|j: int|
                    0 <= j < insert_index ==> (#[trigger] self.side_entries(buy_sell)[j]).price.0
                        != level.price.0 && spec_better(
                        self.side_entries(buy_sell)[j].price.0,
                        level.price.0,
                        buy_sell,
                    ),
                found ==> insert_index < n && self.side_entries(buy_sell)[insert_index as int].price.0
                    == level.price.0,
                stop ==> insert_index < n && spec_better(
                    level.price.0,
                    self.side_entries(buy_sell)[insert_index as int].price.0,
                    buy_sell,
                ),
                !(found && stop),
            decreases n - insert_index, (if found || stop { 0int } else { 1int }),
        {
            let price_level = self.side_at(buy_sell, insert_index);
            if price_level.price().value() == level.price().value() {
                found = true;
            } else if OrderBook::has_better_price(&price_level, level) {
                stop = true;
            } else {
                insert_index += 1;
            }
        }
        proof {
            // the update does not cross, so the opposite side stays put
            let opp0 = self.side_pairs(opposite_of(buy_sell));
            let oe = self.side_entries(opposite_of(buy_sell));
            if oe.len() > 0 {
                assert(opp0[0].0 == oe[0].price.0);
            }
            assert(consume_crossed(opp0, level.price.0, buy_sell) == opp0);
        }
        if !found {
            proof {
                let own0 = self.side_pairs(buy_sell);
                let es = self.side_entries(buy_sell);
                let p = level.price.0;
                let k = insert_index as int;
                assert forall|j: int| 0 <= j < own0.len() implies (#[trigger] own0[j]).0 != p by {
                    assert(own0[j].0 == es[j].price.0);
                    if j >= k {
                        assert(spec_better(p, es[k].price.0, buy_sell));
                        if j > k {
                            if buy_sell == BuySell::Buy {
                                assert(self.bids@[k].price.0 > self.bids@[j].price.0);
                            } else {
                                assert(self.asks@[k].price.0 < self.asks@[j].price.0);
                            }
                        }
                    }
                }
                assert(!has_price(own0, p));
                assert forall|j: int| 0 <= j < k implies spec_better(
                    (#[trigger] own0[j]).0,
                    p,
                    buy_sell,
                ) && own0[j].0 != p by {
                    assert(own0[j].0 == es[j].price.0);
                }
                lemma_place_insert(own0, p, level.qty.0, buy_sell, k);
            }
            self.insert_new_level(level, buy_sell, insert_index);
        } else {
            proof {
                let own0 = self.side_pairs(buy_sell);
                let es = self.side_entries(buy_sell);
                let p = level.price.0;
                let k = insert_index as int;
                assert(own0[k].0 == es[k].price.0);
                assert(has_price(own0, p));
                assert forall|j: int| 0 <= j < k implies (#[trigger] own0[j]).0 != p
                    && spec_better(own0[j].0, p, buy_sell) by {
                    assert(own0[j].0 == es[j].price.0);
                }
                lemma_place_found(own0, p, level.qty.0, buy_sell, k);
            }
            self.update_in_place(level, buy_sell, insert_index);
        }
    }

    /// The level at rank `idx` from the best of `buy_sell` (0 = best), or the
    /// default `{0, 0}` level when the rank lies past the side's depth.
    pub fn get_level(&self, idx: usize, buy_sell: BuySell) -> (r: Level)
        requires
            self.wf(),
        ensures
            idx < self.side_pairs(buy_sell).len() ==> r.price.0 == self.side_pairs(buy_sell)[
                idx as int].0 && r.qty.0 == self.side_pairs(buy_sell)[idx as int].1,
            idx >= self.side_pairs(buy_sell).len() ==> r == (Level {
                price: Price(0),
                qty: Qty(0),
            }),
    {
        if idx < self.side_len(buy_sell) {
            let price_level = self.side_at(buy_sell, idx);
            let stored = self.levels.read(price_level.level_idx().value());
            *stored
        } else {
            Level::default()
        }
    }

    /// The highest resting bid as `(price, quantity)`, or `None` on an empty
    /// bid side.
    pub fn best_bid(&self) -> (r: Option<(Price, Qty)>)
        requires
            self.wf(),
        ensures
            (r is None) == (self.bids_pairs().len() == 0),
            r matches Some(pq) ==> self.bids_pairs().len() > 0 && pq.0.0 == self.bids_pairs()[0].0
                && pq.1.0 == self.bids_pairs()[0].1,
    {
        if self.bids.len() > 0 {
            let price_level = self.side_at(BuySell::Buy, 0);
            let qty = self.get_qty(&price_level);
            Some((price_level.price(), qty))
        } else {
            None
        }
    }

    /// The lowest resting ask as `(price, quantity)`, or `None` on an empty
    /// ask side.
    pub fn best_ask(&self) -> (r: Option<(Price, Qty)>)
        requires
            self.wf(),
        ensures
            (r is None) == (self.asks_pairs().len() == 0),
            r matches Some(pq) ==> self.asks_pairs().len() > 0 && pq.0.0 == self.asks_pairs()[0].0
                && pq.1.0 == self.asks_pairs()[0].1,
    {
        if self.asks.len() > 0 {
            let price_level = self.side_at(BuySell::Sell, 0);
            let qty = self.get_qty(&price_level);
            Some((price_level.price(), qty))
        } else {
            None
        }
    }

    /// The entry resting at the top of `side`: the highest bid or the lowest
    /// ask. The side must hold at least one level.
    pub fn get_best_price_level(&self, side: BuySell) -> (r: &PriceLevel)
        requires
            self.side_entries(side).len() > 0,
        ensures
            *r == self.side_entries(side)[0],
    {
        match side {
            BuySell::Buy => &self.bids[0],
            BuySell::Sell => &self.asks[0],
        }
    }

    /// One side as a price-to-quantity table.
    #[verifier::loop_isolation(false)]
    fn side_map(&self, side: BuySell) -> (m: HashMap<u64, u64>)
        requires
            self.wf(),
        ensures
            m@ == pairs_to_map(self.side_pairs(side)),
    {
        let mut m: HashMap<u64, u64> = HashMap::new();
        let n = self.side_len(side);
        let mut i: usize = 0;
        while i < n
            invariant
                i <= n,
                m@ == pairs_to_map(self.side_pairs(side).take(i as int)),
            decreases n - i,
        {
            let price_level = self.side_at(side, i);
            let qty = self.get_qty(&price_level);
            proof {
                let s = self.side_pairs(side);
                assert(s.take(i as int + 1).drop_last() =~= s.take(i as int));
                assert(s.take(i as int + 1).last() == s[i as int]);
                assert(s[i as int].0 == self.side_entries(side)[i as int].price.0);
            }
            m.insert(price_level.price().value(), qty.value());
            i += 1;
        }
        proof {
            assert(self.side_pairs(side).take(n as int) =~= self.side_pairs(side));
        }
        m
    }

    /// The book as two price-to-quantity mappings, bids first, for external
    /// inspection. A pure function of the book's state.
    pub fn get_repr(&self) -> (r: (HashMap<u64, u64>, HashMap<u64, u64>))
        requires
            self.wf(),
        ensures
            r.0@ == pairs_to_map(self.bids_pairs()),
            r.1@ == pairs_to_map(self.asks_pairs()),
    {
        let bids = self.side_map(BuySell::Buy);
        let asks = self.side_map(BuySell::Sell);
        (bids, asks)
    }

    /// Applies a batch of `(price, quantity)` updates to `side`, in the
    /// batch's given order.
    #[verifier::loop_isolation(false)]
    fn process_entries(&mut self, entries: &Vec<(u64, u64)>, side: BuySell)
        requires
            old(self).wf(),
            old(self).arena_len() + entries@.len() <= usize::MAX,
        ensures
            final(self).wf(),
            (final(self).bids_pairs(), final(self).asks_pairs()) == apply_updates(
                old(self).bids_pairs(),
                old(self).asks_pairs(),
                entries@,
                side,
            ),
            final(self).arena_len() <= old(self).arena_len() + entries@.len(),
    {
        proof {
            assert(entries@.skip(0) =~= entries@);
        }
        let n = entries.len();
        let mut i: usize = 0;
        while i < n
            invariant
                i <= n,
                self.wf(),
                self.arena_len() <= old(self).arena_len() + i,
                apply_updates(old(self).bids_pairs(), old(self).asks_pairs(), entries@, side)
                    == apply_updates(
                    self.bids_pairs(),
                    self.asks_pairs(),
                    entries@.skip(i as int),
                    side,
                ),
            decreases n - i,
        {
            let ghost mid = *self;
            let entry = entries[i];
            let level = Level::from_tuple(entry);
            self.update_level(&level, side);
            proof {
                lemma_consume_len(mid.side_pairs(opposite_of(side)), entry.0, side);
                assert(self.arena_len() <= mid.arena_len() + 1);
                let ups = entries@.skip(i as int);
                assert(ups[0] == entries@[i as int]);
                assert(ups.drop_first() =~= entries@.skip(i as int + 1));
                if entry.1 == 0 {
                    if side == BuySell::Buy {
                        assert(self.bids_pairs() == remove_at_price(mid.bids_pairs(), entry.0));
                        assert(self.asks_pairs() == mid.asks_pairs());
                    } else {
                        assert(self.asks_pairs() == remove_at_price(mid.asks_pairs(), entry.0));
                        assert(self.bids_pairs() == mid.bids_pairs());
                    }
                } else {
                    if side == BuySell::Buy {
                        assert(self.bids_pairs() == place_level(
                            mid.bids_pairs(),
                            entry.0,
                            entry.1,
                            BuySell::Buy,
                        ));
                        assert(self.asks_pairs() == consume_crossed(
                            mid.asks_pairs(),
                            entry.0,
                            BuySell::Buy,
                        ));
                    } else {
                        assert(self.asks_pairs() == place_level(
                            mid.asks_pairs(),
                            entry.0,
                            entry.1,
                            BuySell::Sell,
                        ));
                        assert(self.bids_pairs() == consume_crossed(
                            mid.bids_pairs(),
                            entry.0,
                            BuySell::Sell,
                        ));
                    }
                }
                assert((self.bids_pairs(), self.asks_pairs()) == apply_update(
                    mid.bids_pairs(),
                    mid.asks_pairs(),
                    entry.0,
                    entry.1,
                    side,
                ));
                assert(apply_updates(mid.bids_pairs(), mid.asks_pairs(), ups, side)
                    == apply_updates(
                    self.bids_pairs(),
                    self.asks_pairs(),
                    entries@.skip(i as int + 1),
                    side,
                ));
            }
            i += 1;
        }
        proof {
            assert(entries@.skip(n as int) =~= Seq::<(u64, u64)>::empty());
        }
    }

    /// Applies one normalized update event — an ordered batch of levels, each
    /// with its own side — via `update_level`, in the batch's given order.
    #[verifier::loop_isolation(false)]
    pub fn update(&mut self, updates: &Vec<OrderBookUpdate>)
        requires
            old(self).wf(),
            old(self).arena_len() + updates@.len() <= usize::MAX,
        ensures
            final(self).wf(),
            (final(self).bids_pairs(), final(self).asks_pairs()) == apply_update_events(
                old(self).bids_pairs(),
                old(self).asks_pairs(),
                updates@,
            ),
            final(self).arena_len() <= old(self).arena_len() + updates@.len(),
    {
        proof {
            assert(updates@.skip(0) =~= updates@);
        }
        let n = updates.len();
        let mut i: usize = 0;
        while i < n
            invariant
                i <= n,
                self.wf(),
                self.arena_len() <= old(self).arena_len() + i,
                apply_update_events(old(self).bids_pairs(), old(self).asks_pairs(), updates@)
                    == apply_update_events(
                    self.bids_pairs(),
                    self.asks_pairs(),
                    updates@.skip(i as int),
                ),
            decreases n - i,
        {
            let ghost mid = *self;
            let event = &updates[i];
            let side = event.buy_sell;
            self.update_level(&event.level, side);
            proof {
                lemma_consume_len(mid.side_pairs(opposite_of(side)), event.level.price.0, side);
                assert(self.arena_len() <= mid.arena_len() + 1);
                let evs = updates@.skip(i as int);
                assert(evs[0] == updates@[i as int]);
                assert(evs.drop_first() =~= updates@.skip(i as int + 1));
                if event.level.qty.0 == 0 {
                    if side == BuySell::Buy {
                        assert(self.bids_pairs() == remove_at_price(
                            mid.bids_pairs(),
                            event.level.price.0,
                        ));
                        assert(self.asks_pairs() == mid.asks_pairs());
                    } else {
                        assert(self.asks_pairs() == remove_at_price(
                            mid.asks_pairs(),
                            event.level.price.0,
                        ));
                        assert(self.bids_pairs() == mid.bids_pairs());
                    }
                } else {
                    if side == BuySell::Buy {
                        assert(self.bids_pairs() == place_level(
                            mid.bids_pairs(),
                            event.level.price.0,
                            event.level.qty.0,
                            BuySell::Buy,
                        ));
                        assert(self.asks_pairs() == consume_crossed(
                            mid.asks_pairs(),
                            event.level.price.0,
                            BuySell::Buy,
                        ));
                    } else {
                        assert(self.asks_pairs() == place_level(
                            mid.asks_pairs(),
                            event.level.price.0,
                            event.level.qty.0,
                            BuySell::Sell,
                        ));
                        assert(self.bids_pairs() == consume_crossed(
                            mid.bids_pairs(),
                            event.level.price.0,
                            BuySell::Sell,
                        ));
                    }
                }
                assert((self.bids_pairs(), self.asks_pairs()) == apply_update(
                    mid.bids_pairs(),
                    mid.asks_pairs(),
                    event.level.price.0,
                    event.level.qty.0,
                    side,
                ));
                assert(apply_update_events(mid.bids_pairs(), mid.asks_pairs(), evs)
                    == apply_update_events(
                    self.bids_pairs(),
                    self.asks_pairs(),
                    updates@.skip(i as int + 1),
                ));
            }
            i += 1;
        }
        proof {
            assert(updates@.skip(n as int) =~= Seq::<OrderBookUpdate>::empty());
        }
    }

    /// The Bulk Loader: a book seeded from a snapshot given as one
    /// `(price, quantity)` batch per side, bids applied first.
    pub fn from_map(bids: Vec<(u64, u64)>, asks: Vec<(u64, u64)>) -> (r: OrderBook)
        requires
            bids@.len() + asks@.len() <= usize::MAX,
        ensures
            r.wf(),
            ({
                let mid = apply_updates(
                    Seq::<(u64, u64)>::empty(),
                    Seq::<(u64, u64)>::empty(),
                    bids@,
                    BuySell::Buy,
                );
                (r.bids_pairs(), r.asks_pairs()) == apply_updates(mid.0, mid.1, asks@, BuySell::Sell)
            }),
    {
        let mut order_book = OrderBook::new();
        order_book.process_entries(&bids, BuySell::Buy);
        order_book.process_entries(&asks, BuySell::Sell);
        order_book
    }
}

/// One normalized update: a level and the side it lands on.
#[derive(Debug)]
pub struct OrderBookUpdate {
    pub level: Level,
    pub buy_sell: BuySell,
}

/// Both sides after a batch of normalized updates, each landing on its own
/// side, in the batch's given order.
pub open spec fn apply_update_events(
    bids: Seq<(u64, u64)>,
    asks: Seq<(u64, u64)>,
    events: Seq<OrderBookUpdate>,
) -> (Seq<(u64, u64)>, Seq<(u64, u64)>)
    decreases events.len(),
{
    if events.len() == 0 {
        (bids, asks)
    } else {
        let ev = events[0];
        let step = apply_update(bids, asks, ev.level.price.0, ev.level.qty.0, ev.buy_sell);
        apply_update_events(step.0, step.1, events.drop_first())
    }
}

impl OrderBookUpdate {
    pub fn new(price: u64, qty: u64, buy_sell: BuySell) -> (r: Self)
        ensures
            r.level.price.0 == price,
            r.level.qty.0 == qty,
            r.buy_sell == buy_sell,
    {
        OrderBookUpdate { level: Level::new(Price(price), Qty(qty)), buy_sell }
    }
}

/// Price ordering: a well-formed book — and every book the engine hands
/// back is — lists each side strictly ordered best first, bids by descending
/// and asks by ascending price, whatever order its updates arrived in.
pub proof fn lemma_price_ordering(book: &OrderBook)
    requires
        book.wf(),
    ensures
        side_ordered(book.bids_pairs(), BuySell::Buy),
        side_ordered(book.asks_pairs(), BuySell::Sell),
{
    assert forall|i: int, j: int| 0 <= i < j < book.bids_pairs().len() implies spec_better(
        (#[trigger] book.bids_pairs()[i]).0,
        (#[trigger] book.bids_pairs()[j]).0,
        BuySell::Buy,
    ) by {
        assert(book.bids_pairs()[i].0 == book.side_entries(BuySell::Buy)[i].price.0);
        assert(book.bids_pairs()[j].0 == book.side_entries(BuySell::Buy)[j].price.0);
    }
    assert forall|i: int, j: int| 0 <= i < j < book.asks_pairs().len() implies spec_better(
        (#[trigger] book.asks_pairs()[i]).0,
        (#[trigger] book.asks_pairs()[j]).0,
        BuySell::Sell,
    ) by {
        assert(book.asks_pairs()[i].0 == book.side_entries(BuySell::Sell)[i].price.0);
        assert(book.asks_pairs()[j].0 == book.side_entries(BuySell::Sell)[j].price.0);
    }
}

/// Zero never rests: in a well-formed book — and every book the engine hands
/// back is — no stored level carries the zero quantity that marks removal.
pub proof fn lemma_no_zero_quantity_rests(book: &OrderBook)
    requires
        book.wf(),
    ensures
        no_zero_qty(book.bids_pairs()),
        no_zero_qty(book.asks_pairs()),
{
    assert forall|i: int| 0 <= i < book.bids_pairs().len() implies (
    #[trigger] book.bids_pairs()[i]).1 != 0 by {
        let es = book.side_entries(BuySell::Buy);
        assert(book.bids_pairs()[i].1 == book.levels.slots()[es[i].level_idx.0 as int].qty.0);
    }
    assert forall|i: int| 0 <= i < book.asks_pairs().len() implies (
    #[trigger] book.asks_pairs()[i]).1 != 0 by {
        let es = book.side_entries(BuySell::Sell);
        assert(book.asks_pairs()[i].1 == book.levels.slots()[es[i].level_idx.0 as int].qty.0);
    }
}

/// No residual cross: in a well-formed book — and every book the engine
/// hands back is — the best bid sits strictly below the best ask whenever
/// both sides rest.
pub proof fn lemma_no_residual_cross(book: &OrderBook)
    requires
        book.wf(),
    ensures
        book.bids_pairs().len() > 0 && book.asks_pairs().len() > 0 ==> book.bids_pairs()[0].0
            < book.asks_pairs()[0].0,
{
    if book.bids_pairs().len() > 0 && book.asks_pairs().len() > 0 {
        assert(book.bids_pairs()[0].0 == book.side_entries(BuySell::Buy)[0].price.0);
        assert(book.asks_pairs()[0].0 == book.side_entries(BuySell::Sell)[0].price.0);
    }
}

} // verus!
