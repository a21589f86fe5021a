use order_book::book::OrderBook;
use order_book::order::{Order, OrderError, Trade};

const ONE_BTC: i64 = 100_000_000;

fn default_book() -> OrderBook {
    let mut book = OrderBook::new();
    book.add_buy_order(Order::new(3 * ONE_BTC / 2, 83570)).unwrap();
    book.add_buy_order(Order::new(ONE_BTC, 83566)).unwrap();
    book.add_sell_order(Order::new(ONE_BTC, 83565)).unwrap();
    book.add_sell_order(Order::new(2 * ONE_BTC, 83568)).unwrap();
    book
}

fn total(orders: &[Order]) -> i64 {
    orders.iter().map(|o| o.quant).sum()
}

#[test]
fn default_data_scenario() {
    let mut book = default_book();
    assert_eq!(
        book.buy_orders(),
        &vec![Order::new(3 * ONE_BTC / 2, 83570), Order::new(ONE_BTC, 83566)]
    );
    assert_eq!(
        book.sell_orders(),
        &vec![Order::new(ONE_BTC, 83565), Order::new(2 * ONE_BTC, 83568)]
    );
    let trades = book.match_orders();
    assert_eq!(
        trades,
        vec![Trade::new(ONE_BTC, 83565), Trade::new(ONE_BTC / 2, 83568)]
    );
    assert_eq!(book.buy_orders(), &vec![Order::new(ONE_BTC, 83566)]);
    assert_eq!(book.sell_orders(), &vec![Order::new(3 * ONE_BTC / 2, 83568)]);
}

#[test]
fn zero_quantity_is_rejected() {
    let mut book = OrderBook::new();
    book.add_buy_order(Order::new(5, 100)).unwrap();
    assert_eq!(book.add_buy_order(Order::new(0, 120)), Err(OrderError::InvalidOrder));
    assert_eq!(book.add_sell_order(Order::new(0, 90)), Err(OrderError::InvalidOrder));
    assert_eq!(book.add_buy_order(Order::new(-3, 120)), Err(OrderError::InvalidOrder));
    book.add_buy_order(Order::new(7, 110)).unwrap();
    assert_eq!(book.buy_orders(), &vec![Order::new(7, 110), Order::new(5, 100)]);
    assert!(book.sell_orders().is_empty());
}

#[test]
fn negative_price_is_rejected() {
    let mut book = OrderBook::new();
    book.add_sell_order(Order::new(4, 50)).unwrap();
    assert_eq!(book.add_sell_order(Order::new(4, -1)), Err(OrderError::InvalidOrder));
    assert_eq!(book.add_buy_order(Order::new(4, -10)), Err(OrderError::InvalidOrder));
    book.add_sell_order(Order::new(2, 40)).unwrap();
    assert_eq!(book.sell_orders(), &vec![Order::new(2, 40), Order::new(4, 50)]);
    assert!(book.buy_orders().is_empty());
}

#[test]
fn zero_price_is_accepted() {
    let mut book = OrderBook::new();
    assert_eq!(book.add_sell_order(Order::new(1, 0)), Ok(()));
    assert_eq!(book.sell_orders(), &vec![Order::new(1, 0)]);
}

#[test]
fn buys_stay_sorted_descending() {
    let mut book = OrderBook::new();
    for (q, p) in [(1, 10), (2, 30), (3, 20), (4, 30), (5, 5), (6, 25)] {
        book.add_buy_order(Order::new(q, p)).unwrap();
    }
    let prices: Vec<i64> = book.buy_orders().iter().map(|o| o.price).collect();
    assert_eq!(prices, vec![30, 30, 25, 20, 10, 5]);
    assert_eq!(total(book.buy_orders()), 21);
}

#[test]
fn sells_stay_sorted_ascending() {
    let mut book = OrderBook::new();
    for (q, p) in [(1, 10), (2, 30), (3, 20), (4, 10), (5, 5), (6, 25)] {
        book.add_sell_order(Order::new(q, p)).unwrap();
    }
    let prices: Vec<i64> = book.sell_orders().iter().map(|o| o.price).collect();
    assert_eq!(prices, vec![5, 10, 10, 20, 25, 30]);
    assert_eq!(total(book.sell_orders()), 21);
}

#[test]
fn equal_prices_keep_arrival_order() {
    let mut book = OrderBook::new();
    book.add_buy_order(Order::new(1, 30)).unwrap();
    book.add_buy_order(Order::new(2, 30)).unwrap();
    book.add_sell_order(Order::new(3, 40)).unwrap();
    book.add_sell_order(Order::new(4, 40)).unwrap();
    assert_eq!(book.buy_orders(), &vec![Order::new(1, 30), Order::new(2, 30)]);
    assert_eq!(book.sell_orders(), &vec![Order::new(3, 40), Order::new(4, 40)]);
}

#[test]
fn each_step_conserves_quantity() {
    let mut book = default_book();
    let buys_before = total(book.buy_orders());
    let sells_before = total(book.sell_orders());
    let trades = book.match_orders();
    let traded: i64 = trades.iter().map(|t| t.quant).sum();
    assert_eq!(traded, 3 * ONE_BTC / 2);
    assert_eq!(total(book.buy_orders()), buys_before - traded);
    assert_eq!(total(book.sell_orders()), sells_before - traded);
}

#[test]
fn single_step_trades_the_smaller_quantity() {
    let mut book = OrderBook::new();
    book.add_buy_order(Order::new(7, 100)).unwrap();
    book.add_sell_order(Order::new(3, 95)).unwrap();
    let trades = book.match_orders();
    assert_eq!(trades, vec![Trade::new(3, 95)]);
    assert_eq!(book.buy_orders(), &vec![Order::new(4, 100)]);
    assert!(book.sell_orders().is_empty());
}

#[test]
fn larger_sell_keeps_remainder() {
    let mut book = OrderBook::new();
    book.add_buy_order(Order::new(2, 100)).unwrap();
    book.add_sell_order(Order::new(9, 100)).unwrap();
    let trades = book.match_orders();
    assert_eq!(trades, vec![Trade::new(2, 100)]);
    assert!(book.buy_orders().is_empty());
    assert_eq!(book.sell_orders(), &vec![Order::new(7, 100)]);
}

#[test]
fn equal_quantities_remove_both() {
    let mut book = OrderBook::new();
    book.add_buy_order(Order::new(5, 101)).unwrap();
    book.add_sell_order(Order::new(5, 99)).unwrap();
    let trades = book.match_orders();
    assert_eq!(trades, vec![Trade::new(5, 99)]);
    assert!(book.buy_orders().is_empty());
    assert!(book.sell_orders().is_empty());
}

#[test]
fn matching_stops_without_cross() {
    let mut book = OrderBook::new();
    book.add_buy_order(Order::new(5, 90)).unwrap();
    book.add_sell_order(Order::new(5, 91)).unwrap();
    assert!(book.match_orders().is_empty());
    assert_eq!(book.buy_orders(), &vec![Order::new(5, 90)]);
    assert_eq!(book.sell_orders(), &vec![Order::new(5, 91)]);
}

#[test]
fn matching_an_empty_book() {
    let mut book = OrderBook::new();
    assert!(book.match_orders().is_empty());
    book.add_buy_order(Order::new(5, 90)).unwrap();
    assert!(book.match_orders().is_empty());
    assert_eq!(book.buy_orders(), &vec![Order::new(5, 90)]);
}

#[test]
fn matching_ends_exhausted_or_uncrossed() {
    let mut book = OrderBook::new();
    for (q, p) in [(3, 105), (4, 104), (1, 98)] {
        book.add_buy_order(Order::new(q, p)).unwrap();
    }
    for (q, p) in [(2, 100), (2, 101), (6, 103), (1, 110)] {
        book.add_sell_order(Order::new(q, p)).unwrap();
    }
    let trades = book.match_orders();
    assert_eq!(
        trades,
        vec![Trade::new(2, 100), Trade::new(1, 101), Trade::new(1, 101), Trade::new(3, 103)]
    );
    let buys = book.buy_orders();
    let sells = book.sell_orders();
    assert!(buys.is_empty() || sells.is_empty() || buys[0].price < sells[0].price);
    assert_eq!(buys, &vec![Order::new(1, 98)]);
    assert_eq!(sells, &vec![Order::new(3, 103), Order::new(1, 110)]);
}

#[test]
fn no_empty_orders_remain() {
    let mut book = OrderBook::new();
    for (q, p) in [(2, 50), (2, 49), (2, 48)] {
        book.add_buy_order(Order::new(q, p)).unwrap();
    }
    for (q, p) in [(2, 40), (2, 41), (1, 42), (1, 49)] {
        book.add_sell_order(Order::new(q, p)).unwrap();
    }
    book.match_orders();
    assert!(book.buy_orders().iter().all(|o| o.quant > 0));
    assert!(book.sell_orders().iter().all(|o| o.quant > 0));
    assert_eq!(book.buy_orders(), &vec![Order::new(1, 48)]);
    assert_eq!(book.sell_orders(), &vec![Order::new(1, 49)]);
}

#[test]
fn second_matching_is_a_no_op() {
    let mut book = default_book();
    book.match_orders();
    let buys = book.buy_orders().clone();
    let sells = book.sell_orders().clone();
    assert!(book.match_orders().is_empty());
    assert_eq!(book.buy_orders(), &buys);
    assert_eq!(book.sell_orders(), &sells);
}

#[test]
fn later_insertions_match_the_remainder() {
    let mut book = default_book();
    book.match_orders();
    book.add_buy_order(Order::new(2 * ONE_BTC, 83569)).unwrap();
    let trades = book.match_orders();
    assert_eq!(trades, vec![Trade::new(3 * ONE_BTC / 2, 83568)]);
    assert_eq!(
        book.buy_orders(),
        &vec![Order::new(ONE_BTC / 2, 83569), Order::new(ONE_BTC, 83566)]
    );
    assert!(book.sell_orders().is_empty());
}

#[test]
fn order_validity() {
    assert!(Order::new(1, 0).is_valid());
    assert!(!Order::new(0, 10).is_valid());
    assert!(!Order::new(1, -1).is_valid());
}
