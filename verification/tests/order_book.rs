use trade_aggregator::passive::BookError;
use trade_aggregator::{BookAction, BookSide, BookUpdate, OrderBook, Px, Qty};

fn upd(action: BookAction, side: BookSide, price: Px, size: Qty) -> BookUpdate {
    BookUpdate { ts: 0, action, side, price, size, order_id: None, instrument_id: 1 }
}

#[test]
fn add_cancel_modify_and_queries() {
    let mut b = OrderBook::new();
    b.apply(&upd(BookAction::Add, BookSide::Bid, 100, 5)).unwrap();
    b.apply(&upd(BookAction::Add, BookSide::Bid, 99, 3)).unwrap();
    b.apply(&upd(BookAction::Add, BookSide::Ask, 101, 4)).unwrap();
    assert_eq!(b.best_bid(), Some((100, 5)));
    assert_eq!(b.best_ask(), Some((101, 4)));

    b.apply(&upd(BookAction::Modify, BookSide::Bid, 100, 2)).unwrap();
    assert_eq!(b.best_bid(), Some((100, 2)));

    b.apply(&upd(BookAction::Cancel, BookSide::Bid, 100, 1)).unwrap();
    assert_eq!(b.best_bid(), Some((100, 1)));
    b.apply(&upd(BookAction::Cancel, BookSide::Bid, 100, 1)).unwrap();
    assert_eq!(b.best_bid(), Some((99, 3)));

    assert_eq!(b.depth(BookSide::Bid, 5), vec![(99, 3)]);
}

#[test]
fn cancel_below_zero_is_an_error() {
    let mut b = OrderBook::new();
    b.apply(&upd(BookAction::Add, BookSide::Ask, 101, 2)).unwrap();
    let err = b.apply(&upd(BookAction::Cancel, BookSide::Ask, 101, 5));
    assert_eq!(err, Err(BookError::NegativeLevel { side: BookSide::Ask, price: 101 }));
    assert_eq!(b.best_ask(), None, "the level is removed");
}

#[test]
fn crossed_book_is_detected() {
    let mut b = OrderBook::new();
    b.apply(&upd(BookAction::Add, BookSide::Bid, 101, 1)).unwrap();
    b.apply(&upd(BookAction::Add, BookSide::Ask, 100, 1)).unwrap();
    assert!(b.is_crossed());
}

#[test]
fn clear_resets_book() {
    let mut b = OrderBook::new();
    b.apply(&upd(BookAction::Add, BookSide::Bid, 100, 5)).unwrap();
    b.clear();
    assert_eq!(b.best_bid(), None);
}

#[test]
fn add_then_cancel_restores_the_book() {
    let mut b = OrderBook::new();
    b.apply(&upd(BookAction::Add, BookSide::Bid, 100, 5)).unwrap();
    b.apply(&upd(BookAction::Add, BookSide::Ask, 102, 1)).unwrap();
    let before = b.snapshot();
    b.apply(&upd(BookAction::Add, BookSide::Bid, 100, 3)).unwrap();
    assert_eq!(b.best_bid(), Some((100, 8)));
    assert_eq!(b.apply(&upd(BookAction::Cancel, BookSide::Bid, 100, 3)), Ok(()));
    assert_eq!(b, before);
    b.apply(&upd(BookAction::Add, BookSide::Bid, 99, 4)).unwrap();
    b.apply(&upd(BookAction::Cancel, BookSide::Bid, 99, 4)).unwrap();
    assert_eq!(b, before, "a new level added then cancelled disappears");
}

#[test]
fn best_levels_are_the_extremes() {
    let mut b = OrderBook::new();
    for (side, px) in [(BookSide::Bid, 97), (BookSide::Bid, 99), (BookSide::Bid, 98), (BookSide::Ask, 103), (BookSide::Ask, 101)] {
        b.apply(&upd(BookAction::Add, side, px, 1)).unwrap();
    }
    assert_eq!(b.best_bid(), Some((99, 1)));
    assert_eq!(b.best_ask(), Some((101, 1)));
    assert_eq!(b.depth(BookSide::Bid, 2), vec![(99, 1), (98, 1)]);
    assert_eq!(b.depth(BookSide::Ask, 5), vec![(101, 1), (103, 1)]);
    assert!(!b.is_crossed());
}
