use trade_aggregator::databento::{
    aggressor_from_dbn, book_from_levels, book_update_from_mbo_fields, limit_reached, merge_step,
    trade_from_fields, BookItem, MergeStep,
};
use trade_aggregator::{AggressorSide, BookAction, BookSide, OrderBook};

#[test]
fn dbn_side_bytes_map_to_aggressor() {
    assert_eq!(aggressor_from_dbn(b'B'), AggressorSide::Buy);
    assert_eq!(aggressor_from_dbn(b'A'), AggressorSide::Sell);
    assert_eq!(aggressor_from_dbn(b'N'), AggressorSide::Unknown);
    assert_eq!(aggressor_from_dbn(0), AggressorSide::Unknown);
}

#[test]
fn trade_fields_become_a_canonical_trade() {
    let t = trade_from_fields(1_700_000_000_000_000_000, 1_850_025, 3, b'A', 42);
    assert_eq!(t.ts, 1_700_000_000_000_000_000);
    assert_eq!(t.price, 1_850_025);
    assert_eq!(t.size, 3);
    assert_eq!(t.aggressor, AggressorSide::Sell);
    assert_eq!(t.instrument_id, 42);
}

#[test]
fn mbo_fields_map_to_book_updates() {
    let add = book_update_from_mbo_fields(10, b'A', b'B', 100, 5, 77, 1).unwrap();
    assert_eq!(add.action, BookAction::Add);
    assert_eq!(add.side, BookSide::Bid);
    assert_eq!(add.size, 5);
    assert_eq!(add.order_id, Some(77));
    assert_eq!(add.ts, 10);
    let cancel = book_update_from_mbo_fields(11, b'C', b'A', 101, 2, 78, 1).unwrap();
    assert_eq!((cancel.action, cancel.side), (BookAction::Cancel, BookSide::Ask));
    let modify = book_update_from_mbo_fields(12, b'M', b'A', 101, 9, 78, 1).unwrap();
    assert_eq!(modify.action, BookAction::Modify);
    assert_eq!(book_update_from_mbo_fields(13, b'T', b'B', 100, 1, 1, 1), None, "trade");
    assert_eq!(book_update_from_mbo_fields(13, b'F', b'B', 100, 1, 1, 1), None, "fill");
    assert_eq!(book_update_from_mbo_fields(13, b'R', b'B', 100, 1, 1, 1), None, "clear");
    assert_eq!(book_update_from_mbo_fields(13, b'A', b'N', 100, 1, 1, 1), None, "no side");
}

#[test]
fn snapshot_levels_rebuild_the_book() {
    let levels = vec![(100, 101, 5, 4), (99, 102, 0, 7), (98, 103, 2, 0)];
    let b = book_from_levels(&levels);
    assert_eq!(b.best_bid(), Some((100, 5)));
    assert_eq!(b.best_ask(), Some((101, 4)));
    assert_eq!(b.depth(BookSide::Bid, 10), vec![(100, 5), (98, 2)], "empty bid level skipped");
    assert_eq!(b.depth(BookSide::Ask, 10), vec![(101, 4), (102, 7)], "empty ask level skipped");
    let empty = book_from_levels(&Vec::new());
    assert_eq!(empty.best_bid(), None);
    assert_eq!(empty.best_ask(), None);
}

#[test]
fn merge_puts_book_before_trade_on_equal_times() {
    assert_eq!(merge_step(Some(10), Some(10), 0, None), MergeStep::Book);
    assert_eq!(merge_step(Some(10), Some(9), 0, None), MergeStep::Book);
    assert_eq!(merge_step(Some(10), Some(11), 0, None), MergeStep::Trade);
    assert_eq!(merge_step(None, Some(11), 0, None), MergeStep::Book);
    assert_eq!(merge_step(Some(10), None, 0, None), MergeStep::Trade);
    assert_eq!(merge_step(None, None, 0, None), MergeStep::Stop);
}

#[test]
fn merge_stops_at_the_limit() {
    assert_eq!(merge_step(Some(10), Some(10), 3, Some(3)), MergeStep::Stop);
    assert_eq!(merge_step(Some(10), Some(10), 2, Some(3)), MergeStep::Book);
    assert!(limit_reached(5, Some(5)));
    assert!(!limit_reached(4, Some(5)));
    assert!(!limit_reached(usize::MAX, None));
}

#[test]
fn book_item_times() {
    let u = book_update_from_mbo_fields(42, b'A', b'B', 100, 1, 1, 1).unwrap();
    assert_eq!(BookItem::Update(u).ts(), 42);
    assert_eq!(BookItem::Snapshot { ts: 7, book: OrderBook::new() }.ts(), 7);
}
