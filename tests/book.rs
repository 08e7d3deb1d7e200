use perpl_core::{match_orders, BookError, Order, OrderBook, Side};

fn mock_order(id: u128, side: Side, price: u64, size: u64) -> Order {
    Order {
        id,
        trader: [0u8; 32],
        side,
        price,
        size,
        timestamp: 0,
    }
}

#[test]
fn test_match_orders() {
    let mut book = OrderBook::new();

    // Ask at 100, then a bid at 110 that crosses it.
    book.add_order(mock_order(1, Side::Ask, 100, 10)).unwrap();
    book.add_order(mock_order(2, Side::Bid, 110, 5)).unwrap();

    let matches = match_orders(&mut book);

    assert_eq!(matches.len(), 1);
    let m = &matches[0];
    assert_eq!(m.price, 100);
    assert_eq!(m.size, 5);

    assert_eq!(book.bids.len(), 0);
    assert_eq!(book.asks[0].size, 5);
}

#[test]
fn partial_fill_leaves_rest_of_ask() {
    let mut book = OrderBook::new();
    book.add_order(mock_order(1, Side::Ask, 100, 10)).unwrap();
    book.add_order(mock_order(2, Side::Bid, 110, 5)).unwrap();
    let matches = match_orders(&mut book);
    assert_eq!(matches.len(), 1);
    assert_eq!(matches[0].maker_order_id, 1);
    assert_eq!(matches[0].taker_order_id, 2);
    assert_eq!(matches[0].price, 100);
    assert_eq!(matches[0].size, 5);
    assert!(book.bids.is_empty());
    assert_eq!(book.asks.len(), 1);
    assert_eq!(book.asks[0].id, 1);
    assert_eq!(book.asks[0].size, 5);
}

#[test]
fn equal_sizes_empty_both_sides() {
    let mut book = OrderBook::new();
    book.add_order(mock_order(1, Side::Ask, 100, 10)).unwrap();
    book.add_order(mock_order(2, Side::Bid, 100, 10)).unwrap();
    let matches = match_orders(&mut book);
    assert_eq!(matches.len(), 1);
    assert_eq!(matches[0].price, 100);
    assert_eq!(matches[0].size, 10);
    assert!(book.bids.is_empty());
    assert!(book.asks.is_empty());
}

#[test]
fn no_cross_keeps_both_orders() {
    let mut book = OrderBook::new();
    book.add_order(mock_order(1, Side::Ask, 100, 5)).unwrap();
    book.add_order(mock_order(2, Side::Bid, 90, 5)).unwrap();
    let matches = match_orders(&mut book);
    assert!(matches.is_empty());
    assert_eq!(book.bids.len(), 1);
    assert_eq!(book.asks.len(), 1);
    assert_eq!(book.bids[0].id, 2);
    assert_eq!(book.asks[0].id, 1);
}

#[test]
fn zero_size_is_rejected() {
    let mut book = OrderBook::new();
    assert_eq!(book.add_order(mock_order(1, Side::Bid, 100, 0)), Err(BookError::InvalidOrder));
    assert!(book.bids.is_empty());
    assert!(book.asks.is_empty());
}

#[test]
fn sides_stay_sorted_with_fifo_at_equal_price() {
    let mut book = OrderBook::new();
    for (id, price) in [(1u128, 100u64), (2, 120), (3, 90), (4, 120), (5, 100)] {
        book.add_order(mock_order(id, Side::Bid, price, 1)).unwrap();
    }
    for (id, price) in [(11u128, 200u64), (12, 180), (13, 220), (14, 180)] {
        book.add_order(mock_order(id, Side::Ask, price, 1)).unwrap();
    }
    let bid_ids: Vec<u128> = book.bids.iter().map(|o| o.id).collect();
    let ask_ids: Vec<u128> = book.asks.iter().map(|o| o.id).collect();
    assert_eq!(bid_ids, vec![2, 4, 1, 5, 3]);
    assert_eq!(ask_ids, vec![12, 14, 11, 13]);
    assert!(book.bids.windows(2).all(|w| w[0].price >= w[1].price));
    assert!(book.asks.windows(2).all(|w| w[0].price <= w[1].price));
}

#[test]
fn remove_absent_order_is_a_no_op() {
    let mut book = OrderBook::new();
    book.add_order(mock_order(1, Side::Bid, 100, 3)).unwrap();
    book.add_order(mock_order(2, Side::Ask, 110, 3)).unwrap();
    book.remove_order(7, Side::Bid);
    book.remove_order(1, Side::Ask);
    assert_eq!(book.bids.len(), 1);
    assert_eq!(book.asks.len(), 1);
    book.remove_order(1, Side::Bid);
    assert!(book.bids.is_empty());
    assert!(!book.contains_order(1));
    assert!(book.contains_order(2));
}

#[test]
fn best_prices_read_the_fronts() {
    let mut book = OrderBook::new();
    assert!(book.best_bid().is_none());
    assert!(book.best_ask().is_none());
    book.add_order(mock_order(1, Side::Bid, 95, 3)).unwrap();
    book.add_order(mock_order(2, Side::Bid, 97, 3)).unwrap();
    book.add_order(mock_order(3, Side::Ask, 101, 3)).unwrap();
    assert_eq!(book.best_bid().unwrap().id, 2);
    assert_eq!(book.best_ask().unwrap().id, 3);
}

#[test]
fn multi_level_match_conserves_volume() {
    let mut book = OrderBook::new();
    book.add_order(mock_order(1, Side::Ask, 100, 4)).unwrap();
    book.add_order(mock_order(2, Side::Ask, 102, 6)).unwrap();
    book.add_order(mock_order(3, Side::Ask, 105, 5)).unwrap();
    book.add_order(mock_order(4, Side::Bid, 103, 7)).unwrap();
    book.add_order(mock_order(5, Side::Bid, 101, 8)).unwrap();
    let bids_before: u64 = book.bids.iter().map(|o| o.size).sum();
    let asks_before: u64 = book.asks.iter().map(|o| o.size).sum();
    let matches = match_orders(&mut book);
    let traded: u64 = matches.iter().map(|m| m.size).sum();
    let bids_after: u64 = book.bids.iter().map(|o| o.size).sum();
    let asks_after: u64 = book.asks.iter().map(|o| o.size).sum();
    assert_eq!(matches.len(), 2);
    assert_eq!((matches[0].maker_order_id, matches[0].taker_order_id, matches[0].price, matches[0].size), (1, 4, 100, 4));
    assert_eq!((matches[1].maker_order_id, matches[1].taker_order_id, matches[1].price, matches[1].size), (2, 4, 102, 3));
    assert_eq!(bids_before - bids_after, traded);
    assert_eq!(asks_before - asks_after, traded);
    assert_eq!(traded, 7);
    assert_eq!(book.bids.len(), 1);
    assert_eq!(book.bids[0].price, 101);
    assert_eq!(book.bids[0].size, 8);
    assert_eq!(book.asks[0].price, 102);
    assert_eq!(book.asks[0].size, 3);
    assert!(book.bids[0].price < book.asks[0].price);
}

#[test]
fn orders_compare_by_every_field() {
    let a = mock_order(1, Side::Bid, 100, 3);
    let mut b = a;
    assert_eq!(a, b);
    b.trader[0] = 1;
    assert_ne!(a, b);
    let mut c = a;
    c.size = 4;
    assert_ne!(a, c);
}

#[test]
fn default_book_is_empty() {
    let book = OrderBook::default();
    assert!(book.bids.is_empty());
    assert!(book.asks.is_empty());
}

#[test]
fn ids_stay_unique_across_operations() {
    let mut book = OrderBook::new();
    book.add_order(mock_order(1, Side::Ask, 100, 4)).unwrap();
    book.add_order(mock_order(2, Side::Ask, 101, 4)).unwrap();
    book.add_order(mock_order(3, Side::Bid, 99, 4)).unwrap();
    book.add_order(mock_order(4, Side::Bid, 100, 2)).unwrap();
    match_orders(&mut book);
    book.remove_order(2, Side::Ask);
    book.add_order(mock_order(2, Side::Bid, 98, 1)).unwrap();
    let mut ids: Vec<u128> = book.bids.iter().chain(book.asks.iter()).map(|o| o.id).collect();
    let n = ids.len();
    ids.sort();
    ids.dedup();
    assert_eq!(ids.len(), n);
    assert_eq!(book.asks[0].id, 1);
    assert_eq!(book.asks[0].size, 2);
    assert_eq!(book.bids.iter().map(|o| o.id).collect::<Vec<u128>>(), vec![3, 2]);
}
