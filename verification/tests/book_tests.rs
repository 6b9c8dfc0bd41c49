use order_book::book::OrderBook;
use order_book::book::OrderBookUpdate;
use order_book::types::BuySell;
use order_book::types::Level;
use order_book::types::Price;
use order_book::types::Qty;

#[test]
fn test_zero_quantity_updates() {
    let mut order_book = OrderBook::new();
    let updates = vec![
        OrderBookUpdate::new(100, 10, BuySell::Sell),
        OrderBookUpdate::new(99, 5, BuySell::Buy),
    ];

    updates.iter().for_each(|update| order_book.update_level(&update.level, update.buy_sell));

    assert_eq!(order_book.get_level(0, BuySell::Sell).price().value(), 100, "Asks should be (100, 10)");
    assert_eq!(order_book.get_level(0, BuySell::Buy).price().value(), 99, "Bids should be (100, 10)");
}

#[test]
fn test_out_of_order_updates() {
    let bids = vec![(100, 5), (101, 5)];

    let expected_b = Level::from_tuple((101, 5));

    let mut order_book = OrderBook::new();

    for bid in bids {
        let level = Level::from_tuple(bid);
        order_book.update_level(&level, BuySell::Buy);
    }
    let level_b = order_book.get_level(0, BuySell::Buy);

    assert_eq!(level_b, expected_b, "Unordered bid updates not updated correctly");
}

#[test]
fn test_in_order_updates() {
    let bids = vec![(101, 5), (100, 5)];

    let expected_b = Level::from_tuple((101, 5));

    let mut order_book = OrderBook::new();

    for bid in bids {
        let level = Level::from_tuple(bid);
        order_book.update_level(&level, BuySell::Buy);
    }
    let level_b = order_book.get_level(0, BuySell::Buy);

    assert_eq!(level_b, expected_b, "ordered bid levels not updated correctly");
}

#[test]
fn test_multiple_levels() {
    let mut order_book = OrderBook::new();

    order_book.update_level(&Level::new(Price(101), Qty(11)), BuySell::Sell);
    order_book.update_level(&Level::new(Price(100), Qty(10)), BuySell::Sell);

    order_book.update_level(&Level::new(Price(99), Qty(9)), BuySell::Buy);
    order_book.update_level(&Level::new(Price(98), Qty(8)), BuySell::Buy);

    let (bids, asks) = order_book.get_repr();

    assert_eq!(asks[&101], 11, "error");
    assert_eq!(asks[&100], 10, "error");
    assert_eq!(bids[&99], 9, "error");
    assert_eq!(bids[&98], 8, "error");
    // Crossing order
    let crossing_update = OrderBookUpdate::new(99, 5, BuySell::Sell);
    let is_cross = OrderBook::cross(
        &crossing_update.level,
        crossing_update.buy_sell,
        order_book.get_best_price_level(BuySell::Sell),
    );
    assert!(is_cross, "Order should cross");
}

#[test]
fn test_cross() {
    let asks = vec![(101, 10), (102, 25), (108, 22)];

    let bids = vec![(100, 90), (99, 5), (98, 1000)];

    let mut order_book = OrderBook::from_map(bids, asks);

    // Crossing order
    let crossing_update = OrderBookUpdate::new(100, 5, BuySell::Sell);

    order_book.update_level(&crossing_update.level, crossing_update.buy_sell);

    let level_a = order_book.get_level(0, BuySell::Sell);
    let level_b = order_book.get_level(0, BuySell::Buy);
    let expected_b = Level::new(Price(99), Qty(5));
    let expected_a = Level::new(Price(100), Qty(5));

    assert_eq!(level_a, expected_a, "Order should cross");
    assert_eq!(level_b, expected_b, "Order should cross");
}

#[test]
fn test_zero_quantity_removes_exactly_one_level() {
    let mut book = OrderBook::new();
    book.update_level(&Level::from_tuple((100, 10)), BuySell::Buy);
    book.update_level(&Level::from_tuple((99, 5)), BuySell::Buy);

    book.update_level(&Level::from_tuple((100, 0)), BuySell::Buy);

    let (bids, _) = book.get_repr();
    assert_eq!(bids.len(), 1);
    assert!(!bids.contains_key(&100));
    assert_eq!(bids[&99], 5);
}

#[test]
fn test_zero_quantity_at_absent_price_changes_nothing() {
    let mut book = OrderBook::new();
    book.update_level(&Level::from_tuple((100, 10)), BuySell::Buy);

    book.update_level(&Level::from_tuple((97, 0)), BuySell::Buy);

    let (bids, asks) = book.get_repr();
    assert_eq!(bids.len(), 1);
    assert_eq!(bids[&100], 10);
    assert!(asks.is_empty());
}

#[test]
fn test_price_ordering_both_submission_orders() {
    // bids 100 then 101 and 101 then 100 both put 101 on top
    let mut low_first = OrderBook::new();
    low_first.update_level(&Level::from_tuple((100, 4)), BuySell::Buy);
    low_first.update_level(&Level::from_tuple((101, 6)), BuySell::Buy);

    let mut high_first = OrderBook::new();
    high_first.update_level(&Level::from_tuple((101, 6)), BuySell::Buy);
    high_first.update_level(&Level::from_tuple((100, 4)), BuySell::Buy);

    for book in [&low_first, &high_first] {
        assert_eq!(book.best_bid(), Some((Price(101), Qty(6))));
        assert_eq!(book.get_level(0, BuySell::Buy), Level::new(Price(101), Qty(6)));
        assert_eq!(book.get_level(1, BuySell::Buy), Level::new(Price(100), Qty(4)));
    }
    assert_eq!(low_first.get_repr(), high_first.get_repr());
}

#[test]
fn test_price_ordering_asks_ascending() {
    let mut book = OrderBook::new();
    for entry in [(105, 1), (103, 2), (108, 3), (104, 4)] {
        book.update_level(&Level::from_tuple(entry), BuySell::Sell);
    }
    let ranked: Vec<u64> =
        (0..4).map(|i| book.get_level(i, BuySell::Sell).price().value()).collect();
    assert_eq!(ranked, vec![103, 104, 105, 108]);
}

#[test]
fn test_in_place_update_keeps_rank_and_count() {
    let mut book = OrderBook::new();
    book.update_level(&Level::from_tuple((100, 5)), BuySell::Buy);
    book.update_level(&Level::from_tuple((99, 3)), BuySell::Buy);

    book.update_level(&Level::from_tuple((100, 8)), BuySell::Buy);

    assert_eq!(book.get_level(0, BuySell::Buy), Level::new(Price(100), Qty(8)));
    assert_eq!(book.get_level(1, BuySell::Buy), Level::new(Price(99), Qty(3)));
    // past the depth: the default level, so the count is still two
    assert_eq!(book.get_level(2, BuySell::Buy), Level::new(Price(0), Qty(0)));
    let (bids, _) = book.get_repr();
    assert_eq!(bids.len(), 2);
}

#[test]
fn test_cross_consumes_every_crossed_level() {
    let mut book = OrderBook::from_map(
        vec![(100, 90), (99, 5), (98, 1000)],
        vec![(101, 10), (102, 25), (108, 22)],
    );

    // a sell at 98 prices through every resting bid and then rests
    book.update_level(&Level::from_tuple((98, 7)), BuySell::Sell);

    assert_eq!(book.best_bid(), None);
    assert_eq!(book.best_ask(), Some((Price(98), Qty(7))));
}

#[test]
fn test_no_residual_cross_after_update_sequence() {
    let mut book = OrderBook::new();
    let updates = [
        (100, 10, BuySell::Buy),
        (105, 4, BuySell::Sell),
        (103, 2, BuySell::Sell),
        (104, 9, BuySell::Buy),  // crosses the ask at 103
        (104, 0, BuySell::Buy),
        (102, 3, BuySell::Buy),
        (101, 6, BuySell::Sell), // crosses the bid at 102
    ];
    for (price, qty, side) in updates {
        book.update_level(&Level::from_tuple((price, qty)), side);
        if let (Some((bid, _)), Some((ask, _))) = (book.best_bid(), book.best_ask()) {
            assert!(bid.value() < ask.value(), "book may never stay crossed");
        }
    }
}

#[test]
fn test_bulk_load_equivalence() {
    let loaded = OrderBook::from_map(vec![(98, 8), (99, 9)], vec![(100, 10), (101, 11)]);

    let mut one_by_one = OrderBook::new();
    one_by_one.update_level(&Level::from_tuple((100, 10)), BuySell::Sell);
    one_by_one.update_level(&Level::from_tuple((98, 8)), BuySell::Buy);
    one_by_one.update_level(&Level::from_tuple((101, 11)), BuySell::Sell);
    one_by_one.update_level(&Level::from_tuple((99, 9)), BuySell::Buy);

    let mut other_order = OrderBook::new();
    other_order.update_level(&Level::from_tuple((99, 9)), BuySell::Buy);
    other_order.update_level(&Level::from_tuple((101, 11)), BuySell::Sell);
    other_order.update_level(&Level::from_tuple((98, 8)), BuySell::Buy);
    other_order.update_level(&Level::from_tuple((100, 10)), BuySell::Sell);

    assert_eq!(loaded.get_repr(), one_by_one.get_repr());
    assert_eq!(loaded.get_repr(), other_order.get_repr());
}

#[test]
fn test_repr_and_renderings_idempotent() {
    let book = OrderBook::from_map(vec![(98, 8), (99, 9)], vec![(100, 10), (101, 11)]);

    assert_eq!(book.get_repr(), book.get_repr());
    assert_eq!(book.print(), book.print());
    assert_eq!(book.best(), book.best());
}

#[test]
fn test_snapshot_is_consistent_and_independent() {
    let mut book = OrderBook::from_map(vec![(98, 8), (99, 9)], vec![(100, 10), (101, 11)]);
    let snap = book.snapshot();
    assert_eq!(snap.get_repr(), book.get_repr());

    // the live book moves on; the snapshot keeps its point-in-time view
    book.update_level(&Level::from_tuple((99, 0)), BuySell::Buy);
    let (snap_bids, _) = snap.get_repr();
    assert_eq!(snap_bids[&99], 9);
    let (live_bids, _) = book.get_repr();
    assert!(!live_bids.contains_key(&99));
}

#[test]
fn test_batch_update_applies_in_order() {
    let mut book = OrderBook::new();
    book.update(&vec![
        OrderBookUpdate::new(100, 10, BuySell::Sell),
        OrderBookUpdate::new(99, 5, BuySell::Buy),
        OrderBookUpdate::new(100, 7, BuySell::Sell),
        OrderBookUpdate::new(99, 0, BuySell::Buy),
    ]);
    assert_eq!(book.best_ask(), Some((Price(100), Qty(7))));
    assert_eq!(book.best_bid(), None);
}

#[test]
fn test_best_on_empty_sides() {
    let book = OrderBook::new();
    assert_eq!(book.best_bid(), None);
    assert_eq!(book.best_ask(), None);
}

#[test]
fn test_get_level_past_depth_is_default() {
    let book = OrderBook::new();
    assert_eq!(book.get_level(0, BuySell::Buy), Level::new(Price(0), Qty(0)));
    assert_eq!(book.get_level(3, BuySell::Sell), Level::new(Price(0), Qty(0)));
}

#[test]
fn test_get_best_price_level_tops() {
    let book = OrderBook::from_map(vec![(98, 8), (99, 9)], vec![(100, 10), (101, 11)]);
    assert_eq!(book.get_best_price_level(BuySell::Buy).price().value(), 99);
    assert_eq!(book.get_best_price_level(BuySell::Sell).price().value(), 100);
}

#[test]
fn test_cross_predicate() {
    let book = OrderBook::from_map(vec![(99, 5)], vec![(101, 10)]);
    let best_ask = book.get_best_price_level(BuySell::Sell);
    // a buy strictly above the resting price crosses it; at the price it does not
    assert!(OrderBook::cross(&Level::from_tuple((102, 1)), BuySell::Buy, best_ask));
    assert!(!OrderBook::cross(&Level::from_tuple((101, 1)), BuySell::Buy, best_ask));
    let best_bid = book.get_best_price_level(BuySell::Buy);
    assert!(OrderBook::cross(&Level::from_tuple((98, 1)), BuySell::Sell, best_bid));
    assert!(!OrderBook::cross(&Level::from_tuple((99, 1)), BuySell::Sell, best_bid));
}
