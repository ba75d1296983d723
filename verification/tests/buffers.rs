use buffer_manager::bounded;
use buffer_manager::manager;

#[test]
fn bounded_new_is_empty() {
    let b: bounded::BufferManager<u32> = bounded::BufferManager::new(3);
    assert_eq!(b.capacity(), 3);
    assert_eq!(b.len(), 0);
    assert!(b.is_empty());
    assert!(!b.is_full());
    assert_eq!(b.peek(), None);
}

#[test]
fn bounded_push_refuses_when_full() {
    let mut b = bounded::BufferManager::new(2);
    assert_eq!(b.push(10u32), Ok(()));
    assert_eq!(b.push(20), Ok(()));
    assert!(b.is_full());
    assert_eq!(b.push(30), Err(30));
    assert_eq!(b.len(), 2);
    assert_eq!(b.total_writes(), 2);
}

#[test]
fn bounded_fifo_order() {
    let mut b = bounded::BufferManager::new(5);
    for x in [1u32, 2, 3] {
        b.push(x).unwrap();
    }
    assert_eq!(b.peek(), Some(1));
    assert_eq!(b.pop(), Some(1));
    b.push(4).unwrap();
    assert_eq!(b.pop(), Some(2));
    assert_eq!(b.pop(), Some(3));
    assert_eq!(b.pop(), Some(4));
    assert!(b.is_empty());
    assert_eq!(b.total_reads(), 4);
    assert_eq!(b.pop(), None);
    assert_eq!(b.total_reads(), 4);
}

#[test]
fn bounded_peak_and_warnings() {
    let mut b = bounded::BufferManager::new(10);
    for x in 0..9u32 {
        b.push(x).unwrap();
    }
    // 9 items of 10: 9 > 10 * 90 / 100 = 9 is false
    assert_eq!(b.overflow_warnings(), 0);
    assert_eq!(b.usage_percent(), 90);
    b.push(9).unwrap();
    assert_eq!(b.overflow_warnings(), 1);
    assert_eq!(b.usage_percent(), 100);
    assert_eq!(b.peak_usage(), 10);
    b.pop().unwrap();
    b.pop().unwrap();
    assert_eq!(b.peak_usage(), 10);
    assert_eq!(b.len(), 8);
}

#[test]
fn bounded_small_capacity_warns_on_first_push() {
    let mut b = bounded::BufferManager::new(1);
    b.push(5u8).unwrap();
    // 1 > 1 * 90 / 100 = 0
    assert_eq!(b.overflow_warnings(), 1);
    assert_eq!(b.push(6), Err(6));
    assert_eq!(b.overflow_warnings(), 1);
}

#[test]
fn manager_push_refuses_when_full() {
    let mut m: manager::BufferManager<u32, ()> = manager::BufferManager::new(2);
    assert_eq!(m.push(1), Ok(()));
    assert_eq!(m.push(2), Ok(()));
    assert_eq!(m.push(3), Err(3));
    assert_eq!(m.capacity(), 2);
    // 2 > 2 * 95 / 100 = 1 on the second push; no growth with no readers
    assert_eq!(m.overflow_warnings(), 1);
    assert_eq!(m.total_writes(), 2);
}

#[test]
fn manager_grows_with_some_readers() {
    let mut m: manager::BufferManager<u32, u8> = manager::BufferManager::new(20);
    m.add_reader(0);
    m.add_reader(1);
    m.add_reader(2);
    for x in 0..19u32 {
        m.push(x).unwrap();
    }
    // 19 > 20 * 95 / 100 = 19 is false
    assert_eq!(m.capacity(), 20);
    m.push(19).unwrap();
    assert_eq!(m.capacity(), 10020);
    assert_eq!(m.overflow_warnings(), 1);
}

#[test]
fn manager_does_not_grow_with_two_readers() {
    let mut m: manager::BufferManager<u32, u8> = manager::BufferManager::new(1);
    m.add_reader(0);
    m.add_reader(1);
    m.push(7).unwrap();
    assert_eq!(m.capacity(), 1);
    assert_eq!(m.overflow_warnings(), 1);
    assert_eq!(m.push(8), Err(8));
}

#[test]
fn manager_grows_more_with_many_readers() {
    let mut m: manager::BufferManager<u32, usize> = manager::BufferManager::new(1);
    for h in 0..50usize {
        m.add_reader(h);
    }
    m.push(7).unwrap();
    assert_eq!(m.capacity(), 50001);
}

#[test]
fn manager_batch_ignores_capacity() {
    let mut m: manager::BufferManager<u32, u8> = manager::BufferManager::new(4);
    m.add_reader(0);
    m.add_reader(1);
    m.add_reader(2);
    assert!(m.can_take(6));
    m.push_batch(vec![1, 2, 3, 4, 5, 6]);
    assert_eq!(m.len(), 6);
    assert_eq!(m.total_writes(), 6);
    // one warning for the whole batch, against the capacity before it
    assert_eq!(m.overflow_warnings(), 1);
    assert_eq!(m.capacity(), 10004);
    let mut out = Vec::new();
    while let Some(x) = m.try_pop() {
        out.push(x);
    }
    assert_eq!(out, vec![1, 2, 3, 4, 5, 6]);
    assert_eq!(m.total_reads(), 6);
    assert_eq!(m.try_pop(), None);
}

#[test]
fn manager_empty_batch_below_threshold() {
    let mut m: manager::BufferManager<u32, u8> = manager::BufferManager::new(100);
    m.push_batch(Vec::new());
    assert_eq!(m.overflow_warnings(), 0);
    assert_eq!(m.total_writes(), 0);
    assert_eq!(m.capacity(), 100);
}

#[test]
fn manager_pop_is_fifo() {
    let mut m: manager::BufferManager<&str, ()> = manager::BufferManager::new(10);
    m.push("a").unwrap();
    m.push("b").unwrap();
    assert_eq!(m.pop(), "a");
    assert_eq!(m.pop(), "b");
    assert!(m.is_empty());
}

#[test]
fn manager_shutdown_returns_readers() {
    let mut m: manager::BufferManager<u32, &str> = manager::BufferManager::new(10);
    assert!(m.is_running());
    m.add_reader("r1");
    m.add_reader("r2");
    assert_eq!(m.reader_count(), 2);
    let handles = m.shutdown();
    assert_eq!(handles, vec!["r1", "r2"]);
    assert!(!m.is_running());
    assert_eq!(m.reader_count(), 0);
}

#[test]
fn manager_stats_snapshot() {
    let mut m: manager::BufferManager<u32, u8> = manager::BufferManager::new(10);
    m.add_reader(9);
    m.push(1).unwrap();
    m.push(2).unwrap();
    m.pop();
    let s = m.stats();
    assert_eq!(s.len, 1);
    assert_eq!(s.capacity, 10);
    assert_eq!(s.total_writes, 2);
    assert_eq!(s.total_reads, 1);
    assert_eq!(s.overflow_warnings, 0);
    assert_eq!(s.threads, 1);
}

#[test]
fn manager_can_take_detects_overflow() {
    let mut m: manager::BufferManager<u32, u8> = manager::BufferManager::new(usize::MAX);
    assert!(m.can_take(1));
    assert!(m.can_take(usize::MAX));
    m.push(1).unwrap();
    assert!(!m.can_take(usize::MAX));
}

#[test]
fn manager_can_take_growth_overflow() {
    let mut m: manager::BufferManager<u32, u8> = manager::BufferManager::new(usize::MAX - 5);
    m.add_reader(0);
    m.add_reader(1);
    m.add_reader(2);
    assert!(m.can_take(1));
    // a huge batch would cross the warning level and grow past usize::MAX
    assert!(!m.can_take(usize::MAX - 10));
}

#[test]
fn writes_are_read_or_held() {
    let mut b = bounded::BufferManager::new(4);
    let mut m: manager::BufferManager<u32, u8> = manager::BufferManager::new(4);
    for x in 0..4u32 {
        b.push(x).unwrap();
        m.push(x).unwrap();
    }
    b.pop().unwrap();
    m.pop();
    m.push_batch(vec![7, 8, 9]);
    assert_eq!(b.total_writes(), b.total_reads() + b.len());
    assert_eq!(m.total_writes(), m.total_reads() + m.len());
}

#[test]
fn bounded_pop_oldest_then_peek() {
    let mut b = bounded::BufferManager::new(3);
    assert_eq!(b.push(1i32), Ok(()));
    assert_eq!(b.push(2), Ok(()));
    assert_eq!(b.pop(), Some(1));
    assert_eq!(b.len(), 1);
    assert_eq!(b.peek(), Some(2));
}

#[test]
fn bounded_pop_empty_returns_none() {
    let mut b: bounded::BufferManager<i32> = bounded::BufferManager::new(2);
    assert_eq!(b.pop(), None);
    assert_eq!(b.len(), 0);
    assert_eq!(b.total_reads(), 0);
}

#[test]
fn manager_two_batches_equal_one() {
    let mut one: manager::BufferManager<u32, u8> = manager::BufferManager::new(100);
    let mut two: manager::BufferManager<u32, u8> = manager::BufferManager::new(100);
    one.push(0).unwrap();
    two.push(0).unwrap();
    one.push_batch(vec![1, 2]);
    one.push_batch(vec![3]);
    two.push_batch(vec![1, 2, 3]);
    assert_eq!(one.total_writes(), two.total_writes());
    let mut a = Vec::new();
    while let Some(x) = one.try_pop() {
        a.push(x);
    }
    let mut b = Vec::new();
    while let Some(x) = two.try_pop() {
        b.push(x);
    }
    assert_eq!(a, b);
}

#[test]
fn manager_push_keeps_len_within_capacity() {
    let mut m: manager::BufferManager<u32, u8> = manager::BufferManager::new(3);
    for x in 0..10u32 {
        let before = m.capacity();
        let _ = m.push(x);
        assert!(m.len() <= m.capacity());
        let grown = m.capacity() - before;
        assert!(grown == 0 || grown == 10000 || grown == 50000);
    }
    assert_eq!(m.len(), 3);
}

#[test]
fn manager_try_pop_run_is_fifo() {
    let mut m: manager::BufferManager<u32, u8> = manager::BufferManager::new(10);
    for x in [5u32, 6, 7] {
        m.push(x).unwrap();
    }
    m.push(8).unwrap();
    assert_eq!(m.try_pop(), Some(5));
    assert_eq!(m.try_pop(), Some(6));
    assert_eq!(m.try_pop(), Some(7));
    assert_eq!(m.try_pop(), Some(8));
    assert_eq!(m.try_pop(), None);
    assert!(m.is_empty());
}
