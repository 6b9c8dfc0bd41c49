use order_book::book::OrderBook;
use order_book::types::BuySell;
use order_book::types::Level;

#[test]
fn test_best_quote_line() {
    let empty = OrderBook::new();
    assert_eq!(empty.best(), "bid: No bids, ask: No asks");

    let mut book = OrderBook::new();
    book.update_level(&Level::from_tuple((100, 5)), BuySell::Buy);
    assert_eq!(book.best(), "bid: 5, 100, ask: No asks");

    book.update_level(&Level::from_tuple((102, 37)), BuySell::Sell);
    assert_eq!(book.best(), "bid: 5, 100, ask: 102, 37");
}

#[test]
fn test_table_header_only_when_empty() {
    let book = OrderBook::new();
    let expected = format!(
        "{:<15} {:<15} {:<15} {:<15}\n",
        "Bid", "Volume", "Ask", "Volume"
    );
    assert_eq!(book.print(), expected);
}

#[test]
fn test_table_pads_shorter_side_with_zero_levels() {
    let mut book = OrderBook::new();
    book.update_level(&Level::from_tuple((100, 5)), BuySell::Buy);
    book.update_level(&Level::from_tuple((99, 3)), BuySell::Buy);
    book.update_level(&Level::from_tuple((101, 7)), BuySell::Sell);

    let expected = format!(
        "{:<15} {:<15} {:<15} {:<15}\n{:<15} {:<15} {:<15} {:<15}\n{:<15} {:<15} {:<15} {:<15}\n",
        "Bid", "Volume", "Ask", "Volume", 100, 5, 101, 7, 99, 3, 0, 0
    );
    assert_eq!(book.print(), expected);
}

#[test]
fn test_multi_digit_numbers_render_in_decimal() {
    let mut book = OrderBook::new();
    book.update_level(&Level::from_tuple((1234567890, 907)), BuySell::Sell);
    assert_eq!(book.best(), "bid: No bids, ask: 1234567890, 907");
}
