use trotcast::state::{ring_id, State};
use trotcast::{InnerRecvError, SendError};

#[test]
fn ring_id_wraps_at_length() {
    assert_eq!(ring_id(0, 3), 1);
    assert_eq!(ring_id(1, 3), 2);
    assert_eq!(ring_id(2, 3), 0);
}

#[test]
fn new_state_is_empty_and_padded() {
    let s: State<u64> = State::new(3);
    assert_eq!(s.len(), 4);
    assert_eq!(s.tail(), 0);
    assert_eq!(s.num_readers(), 0);
    assert_eq!(s.num_writers(), 0);
    for i in 0..4 {
        assert_eq!(s.slot(i), (0, 0, false));
    }
}

#[test]
fn send_without_reader_is_disconnected_and_changes_nothing() {
    let mut s: State<u64> = State::new(2);
    assert_eq!(s.send(9), Err(SendError::Disconnected(9)));
    assert_eq!(s.tail(), 0);
    assert_eq!(s.slot(0), (0, 0, false));
}

#[test]
fn send_writes_tail_slot_and_advances() {
    let mut s: State<u64> = State::new(2);
    assert_eq!(s.add_reader(), Some(0));
    assert_eq!(s.add_reader(), Some(1));
    assert_eq!(s.send(5), Ok(()));
    assert_eq!(s.tail(), 1);
    assert_eq!(s.slot(0), (0, 2, true));
    assert_eq!(s.slot(1), (0, 0, false));
}

#[test]
fn clone_for_early_readers_take_for_last() {
    let mut s: State<String> = State::new(2);
    s.add_writer();
    let a = s.add_reader().unwrap();
    let b = s.add_reader().unwrap();
    assert_eq!(s.send("hi".to_string()), Ok(()));
    assert_eq!(s.recv(a), Ok("hi".to_string()));
    assert_eq!(s.slot(0), (1, 2, true));
    assert_eq!(s.recv(b), Ok("hi".to_string()));
    assert_eq!(s.slot(0), (2, 2, false));
    assert_eq!(s.recv(a), Err(InnerRecvError::Empty));
}

#[test]
fn full_when_a_reader_lags_by_capacity() {
    let mut s: State<u64> = State::new(2);
    s.add_writer();
    let a = s.add_reader().unwrap();
    assert_eq!(s.send(1), Ok(()));
    assert_eq!(s.send(2), Ok(()));
    assert_eq!(s.send(3), Err(SendError::Full(3)));
    assert_eq!(s.tail(), 2);
    assert_eq!(s.recv(a), Ok(1));
    assert_eq!(s.send(3), Ok(()));
    assert_eq!(s.tail(), 0);
    assert_eq!(s.recv(a), Ok(2));
    assert_eq!(s.recv(a), Ok(3));
}

#[test]
fn removed_reader_counts_its_unread_slots() {
    let mut s: State<u64> = State::new(3);
    s.add_writer();
    let a = s.add_reader().unwrap();
    let b = s.add_reader().unwrap();
    assert_eq!(s.send(1), Ok(()));
    assert_eq!(s.send(2), Ok(()));
    assert_eq!(s.recv(a), Ok(1));
    s.remove_reader(a);
    assert_eq!(s.num_readers(), 1);
    assert_eq!(s.slot(0), (1, 2, true));
    assert_eq!(s.slot(1), (1, 2, true));
    assert_eq!(s.recv(b), Ok(1));
    assert_eq!(s.recv(b), Ok(2));
    assert_eq!(s.slot(0), (2, 2, false));
    assert_eq!(s.slot(1), (2, 2, false));
}

#[test]
fn removed_entry_is_reused_first() {
    let mut s: State<u64> = State::new(1);
    assert_eq!(s.add_reader(), Some(0));
    assert_eq!(s.add_reader(), Some(1));
    assert_eq!(s.add_reader(), Some(2));
    s.remove_reader(1);
    assert_eq!(s.num_readers(), 2);
    assert_eq!(s.add_reader(), Some(1));
    assert_eq!(s.add_reader(), Some(3));
    s.remove_reader(7);
    assert_eq!(s.num_readers(), 4);
}

#[test]
fn unknown_reader_is_disconnected() {
    let mut s: State<u64> = State::new(1);
    s.add_writer();
    assert_eq!(s.recv(0), Err(InnerRecvError::Disconnected));
    let a = s.add_reader().unwrap();
    s.remove_reader(a);
    assert_eq!(s.recv(a), Err(InnerRecvError::Disconnected));
}

#[test]
fn closed_latch_sticks_after_new_writer() {
    let mut s: State<u64> = State::new(2);
    s.add_writer();
    let a = s.add_reader().unwrap();
    s.remove_writer();
    assert_eq!(s.num_writers(), 0);
    assert_eq!(s.recv(a), Err(InnerRecvError::Disconnected));
    s.add_writer();
    assert_eq!(s.send(4), Ok(()));
    assert_eq!(s.recv(a), Err(InnerRecvError::Disconnected));
}

#[test]
fn reader_registered_without_writers_receives_later_values() {
    let mut s: State<u64> = State::new(2);
    let a = s.add_reader().unwrap();
    s.add_writer();
    assert_eq!(s.send(4), Ok(()));
    assert_eq!(s.recv(a), Ok(4));
}

#[test]
fn writer_count_does_not_go_below_zero() {
    let mut s: State<u64> = State::new(2);
    s.remove_writer();
    assert_eq!(s.num_writers(), 0);
    s.add_writer();
    s.add_writer();
    s.remove_writer();
    assert_eq!(s.num_writers(), 1);
}

#[test]
fn largest_ring_wraps_many_times() {
    let mut s: State<u64> = State::new(1);
    s.add_writer();
    let a = s.add_reader().unwrap();
    for v in 0..10u64 {
        assert_eq!(s.send(v), Ok(()));
        assert_eq!(s.send(v + 100), Err(SendError::Full(v + 100)));
        assert_eq!(s.recv(a), Ok(v));
    }
}
