use order_book::types::BuySell;
use order_book::types::Exchange;
use order_book::types::Level;
use order_book::types::LevelIdx;
use order_book::types::Price;
use order_book::types::PriceLevel;
use order_book::types::Qty;
use order_book::types::QuoteType;

#[test]
fn test_price_and_qty_arithmetic() {
    let price = Price(100);
    assert_eq!(price.value(), 100);
    assert_eq!(price.add(5), Price(105));
    assert_eq!(price.subtract(30), Price(70));

    let qty = Qty(40);
    assert_eq!(qty.value(), 40);
    assert_eq!(qty.add(2), Qty(42));
    assert_eq!(qty.subtract(40), Qty(0));
}

#[test]
fn test_level_operations() {
    let level = Level::from_tuple((100, 10));
    assert_eq!(level.price(), Price(100));
    assert_eq!(level, Level::new(Price(100), Qty(10)));

    let reduced = level.reduce_qty(&Qty(4));
    assert_eq!(reduced, Level::new(Price(100), Qty(6)));

    let mut mutated = level;
    mutated.set_qty(Qty(3));
    assert_eq!(mutated, Level::new(Price(100), Qty(3)));

    assert_eq!(Level::default(), Level::new(Price(0), Qty(0)));
}

#[test]
fn test_price_level_accessors() {
    let entry = PriceLevel::new(Price(101), LevelIdx(7), BuySell::Sell);
    assert_eq!(entry.price(), Price(101));
    assert_eq!(entry.level_idx().value(), 7);
    assert_eq!(entry.side(), BuySell::Sell);
    assert_eq!(LevelIdx(7).value(), 7);
}

#[test]
fn test_other_side() {
    assert_eq!(BuySell::Buy.other_side(), BuySell::Sell);
    assert_eq!(BuySell::Sell.other_side(), BuySell::Buy);
}

#[test]
fn test_flat_enums() {
    assert_ne!(QuoteType::BID, QuoteType::ASK);
    assert_ne!(Exchange::Kraken, Exchange::Binance);
}
