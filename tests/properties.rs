use trotcast::state::State;
use trotcast::{InnerRecvError, SendError};

#[test]
fn each_accepted_value_reaches_each_reader_once_in_order() {
    let mut s: State<u64> = State::new(3);
    s.add_writer();
    let a = s.add_reader().unwrap();
    let b = s.add_reader().unwrap();
    let mut got_a = Vec::new();
    let mut got_b = Vec::new();
    let mut accepted = Vec::new();
    for v in 1..=9u64 {
        if s.send(v).is_ok() {
            accepted.push(v);
        }
        if v % 2 == 0 {
            while let Ok(x) = s.recv(a) {
                got_a.push(x);
            }
        }
        if v % 3 == 0 {
            while let Ok(x) = s.recv(b) {
                got_b.push(x);
            }
        }
    }
    while let Ok(x) = s.recv(a) {
        got_a.push(x);
    }
    while let Ok(x) = s.recv(b) {
        got_b.push(x);
    }
    assert_eq!(got_a, accepted);
    assert_eq!(got_b, accepted);
}

#[test]
fn fence_slot_is_clear_whenever_a_send_is_accepted() {
    let mut s: State<u64> = State::new(2);
    s.add_writer();
    let a = s.add_reader().unwrap();
    for v in 0..8u64 {
        let fence = (s.tail() + 1) % s.len();
        let (reads, required, _) = s.slot(fence);
        let r = s.send(v);
        assert_eq!(r.is_ok(), reads == required);
        if v % 3 == 0 {
            let _ = s.recv(a);
        }
    }
}

#[test]
fn drained_reader_then_sees_disconnected() {
    let mut s: State<u64> = State::new(4);
    s.add_writer();
    let a = s.add_reader().unwrap();
    for v in [3u64, 1, 4] {
        assert_eq!(s.send(v), Ok(()));
    }
    s.remove_writer();
    assert_eq!(s.recv(a), Ok(3));
    assert_eq!(s.recv(a), Ok(1));
    assert_eq!(s.recv(a), Ok(4));
    assert_eq!(s.recv(a), Err(InnerRecvError::Disconnected));
}

#[test]
fn departing_reader_unblocks_producers() {
    let mut s: State<u64> = State::new(2);
    s.add_writer();
    let slow = s.add_reader().unwrap();
    let fast = s.add_reader().unwrap();
    assert_eq!(s.send(1), Ok(()));
    assert_eq!(s.send(2), Ok(()));
    assert_eq!(s.recv(fast), Ok(1));
    assert_eq!(s.recv(fast), Ok(2));
    assert_eq!(s.send(3), Err(SendError::Full(3)));
    s.remove_reader(slow);
    assert_eq!(s.send(3), Ok(()));
    assert_eq!(s.recv(fast), Ok(3));
}

#[test]
fn capacity_values_then_full() {
    for cap in 1..6usize {
        let mut s: State<usize> = State::new(cap);
        s.add_reader();
        for v in 0..cap {
            assert_eq!(s.send(v), Ok(()));
        }
        assert_eq!(s.send(cap), Err(SendError::Full(cap)));
    }
}

#[test]
fn new_reader_sees_only_later_values() {
    let mut s: State<u64> = State::new(4);
    s.add_writer();
    let a = s.add_reader().unwrap();
    assert_eq!(s.send(1), Ok(()));
    assert_eq!(s.send(2), Ok(()));
    let b = s.add_reader().unwrap();
    assert_eq!(s.recv(b), Err(InnerRecvError::Empty));
    assert_eq!(s.send(3), Ok(()));
    assert_eq!(s.recv(b), Ok(3));
    assert_eq!(s.recv(b), Err(InnerRecvError::Empty));
    assert_eq!(s.recv(a), Ok(1));
}

#[test]
fn two_readers_see_one_order() {
    let mut s: State<u64> = State::new(2);
    s.add_writer();
    let a = s.add_reader().unwrap();
    let b = s.add_reader().unwrap();
    let mut got_a = Vec::new();
    let mut got_b = Vec::new();
    for v in [7u64, 3, 9, 1, 5] {
        while s.send(v).is_err() {
            if let Ok(x) = s.recv(a) {
                got_a.push(x);
            }
            if let Ok(x) = s.recv(b) {
                got_b.push(x);
            }
        }
        if let Ok(x) = s.recv(b) {
            got_b.push(x);
        }
    }
    while let Ok(x) = s.recv(a) {
        got_a.push(x);
    }
    while let Ok(x) = s.recv(b) {
        got_b.push(x);
    }
    assert_eq!(got_a, vec![7, 3, 9, 1, 5]);
    assert_eq!(got_a, got_b);
}
