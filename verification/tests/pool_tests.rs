use order_book::pool::OidMap;
use order_book::pool::Pool;
use order_book::types::Level;
use order_book::types::Price;
use order_book::types::Qty;

#[test]
fn test_allocate_grows_then_reuses() {
    let mut pool = Pool::new();
    let first = pool.allocate();
    let second = pool.allocate();
    assert_eq!(first, 0);
    assert_eq!(second, 1);

    // a freed slot is the next one handed out
    pool.free(first);
    let reused = pool.allocate();
    assert_eq!(reused, first);
}

#[test]
fn test_free_is_a_stack() {
    let mut pool = Pool::with_capacity(4);
    let a = pool.allocate();
    let b = pool.allocate();
    let c = pool.allocate();
    pool.free(a);
    pool.free(c);
    // most recently freed first
    assert_eq!(pool.allocate(), c);
    assert_eq!(pool.allocate(), a);
    // nothing left to reuse: the arena grows instead
    assert_eq!(pool.allocate(), 3);
    let _ = b;
}

#[test]
fn test_slots_keep_their_records() {
    let mut pool = Pool::new();
    let a = pool.allocate();
    let b = pool.allocate();
    {
        let slot = pool.get(a);
        slot.price = Price(100);
        slot.qty = Qty(5);
    }
    {
        let slot = pool.get(b);
        slot.price = Price(101);
        slot.qty = Qty(7);
    }
    assert_eq!(*pool.read(a), Level::new(Price(100), Qty(5)));
    assert_eq!(*pool.read(b), Level::new(Price(101), Qty(7)));
    // a fresh slot holds the default level
    let c = pool.allocate();
    assert_eq!(*pool.read(c), Level::new(Price(0), Qty(0)));
}

#[test]
fn test_oid_map_insert_get_remove() {
    let mut map = OidMap::new();
    map.insert(2, Level::new(Price(100), Qty(5)));
    // the table stretched over the unset ids with default levels
    assert_eq!(*map.get(0), Level::new(Price(0), Qty(0)));
    assert_eq!(*map.get(1), Level::new(Price(0), Qty(0)));
    assert_eq!(*map.get(2), Level::new(Price(100), Qty(5)));

    map.insert(0, Level::new(Price(99), Qty(1)));
    assert_eq!(*map.get(0), Level::new(Price(99), Qty(1)));

    map.remove(0);
    // records past the removed id shift down
    assert_eq!(*map.get(1), Level::new(Price(100), Qty(5)));
}
