//! FIFO behaviour, occupancy bookkeeping, and the error cases of the push
//! and pop operations.

use ringbuf::Error;
use ringbuf::RingBuf;

#[test]
fn new_buffer_is_empty() {
    let b: RingBuf<i32, 4> = RingBuf::new();
    assert_eq!(b.len(), 0);
    assert!(b.is_empty());
    assert!(!b.is_full());
    assert_eq!(b.capacity(), 4);
    assert_eq!(b.free(), 4);
}

#[test]
fn fifo_order_push_back_pop_front() {
    let mut b: RingBuf<i32, 4> = RingBuf::new();
    assert_eq!(b.push_back(10), Ok(()));
    assert_eq!(b.push_back(20), Ok(()));
    assert_eq!(b.push_back(30), Ok(()));
    assert_eq!(b.pop_front(), Ok(10));
    assert_eq!(b.push_back(40), Ok(()));
    assert_eq!(b.pop_front(), Ok(20));
    assert_eq!(b.pop_front(), Ok(30));
    assert_eq!(b.pop_front(), Ok(40));
    assert_eq!(b.pop_front(), Err(Error::WouldBlock));
}

#[test]
fn fifo_order_mirrored_push_front_pop_back() {
    let mut b: RingBuf<i32, 4> = RingBuf::new();
    assert_eq!(b.push_front(10), Ok(()));
    assert_eq!(b.push_front(20), Ok(()));
    assert_eq!(b.push_front(30), Ok(()));
    assert_eq!(b.pop_back(), Ok(10));
    assert_eq!(b.push_front(40), Ok(()));
    assert_eq!(b.pop_back(), Ok(20));
    assert_eq!(b.pop_back(), Ok(30));
    assert_eq!(b.pop_back(), Ok(40));
    assert_eq!(b.pop_back(), Err(Error::WouldBlock));
}

#[test]
fn push_back_then_pop_back_is_net_noop() {
    let mut b: RingBuf<i32, 4> = RingBuf::new();
    assert_eq!(b.push_back(1), Ok(()));
    assert_eq!(b.push_back(2), Ok(()));
    let len_before = b.len();
    assert_eq!(b.push_back(99), Ok(()));
    assert_eq!(b.pop_back(), Ok(99));
    assert_eq!(b.len(), len_before);
    assert_eq!(b.get(0), Ok(1));
    assert_eq!(b.get(1), Ok(2));
}

#[test]
fn push_front_then_pop_front_is_net_noop() {
    let mut b: RingBuf<i32, 4> = RingBuf::new();
    assert_eq!(b.push_back(1), Ok(()));
    assert_eq!(b.push_back(2), Ok(()));
    let len_before = b.len();
    assert_eq!(b.push_front(99), Ok(()));
    assert_eq!(b.pop_front(), Ok(99));
    assert_eq!(b.len(), len_before);
    assert_eq!(b.get(0), Ok(1));
    assert_eq!(b.get(1), Ok(2));
}

#[test]
fn len_counts_accepted_pushes_minus_accepted_pops() {
    let mut b: RingBuf<i32, 2> = RingBuf::new();
    let mut accepted: usize = 0;
    if b.push_back(1).is_ok() {
        accepted += 1;
    }
    if b.push_front(2).is_ok() {
        accepted += 1;
    }
    if b.push_back(3).is_ok() {
        accepted += 1;
    }
    // the third push hits a full buffer and must be refused
    assert_eq!(accepted, 2);
    assert_eq!(b.len(), 2);
    assert!(b.is_full());
    assert!(!b.is_empty());
    assert_eq!(b.free(), 0);
    if b.pop_back().is_ok() {
        accepted -= 1;
    }
    assert_eq!(b.len(), accepted);
    assert_eq!(b.len(), 1);
    assert!(!b.is_full());
    if b.pop_front().is_ok() {
        accepted -= 1;
    }
    assert_eq!(b.len(), 0);
    assert!(b.is_empty());
    assert!(!b.is_full());
    assert_eq!(b.free(), 2);
    // a refused pop leaves the count untouched
    assert!(b.pop_front().is_err());
    assert_eq!(b.len(), 0);
}

#[test]
fn push_into_full_buffer_would_block_and_preserves_contents() {
    let mut b: RingBuf<i32, 3> = RingBuf::new();
    assert_eq!(b.push_back(1), Ok(()));
    assert_eq!(b.push_back(2), Ok(()));
    assert_eq!(b.push_back(3), Ok(()));
    assert!(b.is_full());
    assert_eq!(b.push_back(4), Err(Error::WouldBlock));
    assert_eq!(b.push_front(5), Err(Error::WouldBlock));
    assert_eq!(b.len(), 3);
    assert_eq!(b.get(0), Ok(1));
    assert_eq!(b.get(1), Ok(2));
    assert_eq!(b.get(2), Ok(3));
}

#[test]
fn pop_from_empty_buffer_would_block_and_alters_nothing() {
    let mut b: RingBuf<i32, 3> = RingBuf::new();
    assert_eq!(b.pop_front(), Err(Error::WouldBlock));
    assert_eq!(b.pop_back(), Err(Error::WouldBlock));
    assert_eq!(b.len(), 0);
    assert!(b.is_empty());
    // the buffer still works normally afterwards
    assert_eq!(b.push_back(7), Ok(()));
    assert_eq!(b.pop_front(), Ok(7));
}

#[test]
fn capacity_one_buffer_alternates() {
    let mut b: RingBuf<u8, 1> = RingBuf::new();
    assert_eq!(b.push_back(1), Ok(()));
    assert!(b.is_full());
    assert_eq!(b.push_back(2), Err(Error::WouldBlock));
    assert_eq!(b.pop_front(), Ok(1));
    assert_eq!(b.push_front(3), Ok(()));
    assert_eq!(b.pop_back(), Ok(3));
    assert!(b.is_empty());
}

#[test]
fn capacity_zero_buffer_refuses_everything() {
    let mut b: RingBuf<u8, 0> = RingBuf::new();
    assert!(b.is_empty());
    assert!(b.is_full());
    assert_eq!(b.free(), 0);
    assert_eq!(b.push_back(1), Err(Error::WouldBlock));
    assert_eq!(b.push_front(1), Err(Error::WouldBlock));
    assert_eq!(b.pop_back(), Err(Error::WouldBlock));
    assert_eq!(b.pop_front(), Err(Error::WouldBlock));
}

#[test]
fn long_alternation_keeps_fifo_order_across_many_wraps() {
    let mut b: RingBuf<u32, 4> = RingBuf::new();
    let mut next_in: u32 = 0;
    let mut next_out: u32 = 0;
    for round in 0..25 {
        let pushes = 1 + (round % 4);
        for _ in 0..pushes {
            if b.push_back(next_in).is_ok() {
                next_in += 1;
            }
        }
        let pops = 1 + ((round + 1) % 3);
        for _ in 0..pops {
            if let Ok(v) = b.pop_front() {
                assert_eq!(v, next_out);
                next_out += 1;
            }
        }
    }
    while let Ok(v) = b.pop_front() {
        assert_eq!(v, next_out);
        next_out += 1;
    }
    assert_eq!(next_in, next_out);
}
