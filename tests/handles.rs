use trotcast::receiver::try_recv_error;
use trotcast::{
    channel, BlockingSendError, Channel, InnerRecvError, RecvError, SendError, TryRecvError,
};

#[test]
fn error_messages() {
    assert_eq!(TryRecvError::Empty.message(), "Channel Empty");
    assert_eq!(TryRecvError::Disconnected.message(), "Channel Disconnected");
    assert_eq!(RecvError::Disconnected.message(), "Channel Disconnected");
    assert_eq!(SendError::Full(1u8).message(), "Channel Full");
    assert_eq!(SendError::Disconnected(1u8).message(), "Channel Disconnected");
    assert_eq!(BlockingSendError::Disconnected(1u8).message(), "Channel Disconnected");
}

#[test]
fn refused_value_comes_back() {
    assert_eq!(SendError::Full(4u8).into_inner(), 4);
    assert_eq!(SendError::Disconnected(6u8).into_inner(), 6);
}

#[test]
fn receive_step_errors_map_to_try_recv_errors() {
    assert_eq!(try_recv_error(InnerRecvError::Empty), TryRecvError::Empty);
    assert_eq!(try_recv_error(InnerRecvError::Disconnected), TryRecvError::Disconnected);
}

#[test]
fn debugger_renders_state() {
    let tx: Channel<u64> = Channel::new(2);
    let _rx = tx.spawn_rx();
    assert_eq!(tx.send(5), Ok(()));
    assert_eq!(
        tx.debugger().print_state(),
        "Tail: 1\nnum readers: 1\nSeat(0): (0, 1, true)\nSeat(1): (0, 0, false)\nSeat(2): (0, 0, false)\n"
    );
}

#[test]
fn debugger_renders_multi_digit_numbers() {
    let tx: Channel<u64> = Channel::new(11);
    let rxs: Vec<_> = (0..12).map(|_| tx.spawn_rx()).collect();
    for v in 0..10u64 {
        assert_eq!(tx.send(v), Ok(()));
    }
    let text = tx.debugger().print_state();
    assert!(text.starts_with("Tail: 10\nnum readers: 12\nSeat(0): (0, 12, true)\n"));
    assert!(text.ends_with("Seat(10): (0, 0, false)\nSeat(11): (0, 0, false)\n"));
    drop(rxs);
}

#[test]
fn sender_from_receiver_keeps_channel_open() {
    let (tx, mut rx) = channel::<u64>(2);
    let tx2 = rx.spawn_tx();
    tx.close();
    assert_eq!(rx.try_recv(), Err(TryRecvError::Empty));
    assert_eq!(tx2.send(8), Ok(()));
    assert_eq!(rx.try_recv(), Ok(8));
    let mut rx2 = tx2.spawn_rx();
    tx2.close();
    assert_eq!(rx2.try_recv(), Err(TryRecvError::Disconnected));
}

#[test]
fn cloned_receiver_starts_at_tail() {
    let tx: Channel<u64> = Channel::new(3);
    let mut a = tx.spawn_rx();
    assert_eq!(tx.send(1), Ok(()));
    let mut b = a.clone();
    assert_eq!(tx.send(2), Ok(()));
    assert_eq!(a.try_recv(), Ok(1));
    assert_eq!(a.try_recv(), Ok(2));
    assert_eq!(b.try_recv(), Ok(2));
    assert_eq!(b.try_recv(), Err(TryRecvError::Empty));
}

#[test]
fn cloned_sender_counts_as_producer() {
    let tx: Channel<u64> = Channel::new(3);
    let mut rx = tx.spawn_rx();
    let tx2 = tx.clone();
    tx.close();
    assert_eq!(tx2.send(3), Ok(()));
    tx2.close();
    assert_eq!(rx.try_recv(), Ok(3));
    assert_eq!(rx.try_recv(), Err(TryRecvError::Disconnected));
}

#[test]
fn values_that_are_not_copy_are_cloned_to_each_reader() {
    let tx: Channel<Vec<u8>> = Channel::new(2);
    let mut a = tx.spawn_rx();
    let mut b = tx.spawn_rx();
    assert_eq!(tx.send(vec![1, 2]), Ok(()));
    assert_eq!(a.try_recv(), Ok(vec![1, 2]));
    assert_eq!(b.try_recv(), Ok(vec![1, 2]));
}

#[test]
fn blocking_send_retries_only_when_full() {
    assert_eq!(SendError::Full(2u8).into_blocking(), Ok(2));
    assert_eq!(
        SendError::Disconnected(2u8).into_blocking(),
        Err(BlockingSendError::Disconnected(2))
    );
}

#[test]
fn blocking_recv_retries_only_when_empty() {
    assert_eq!(TryRecvError::Empty.into_blocking(), Ok(()));
    assert_eq!(TryRecvError::Disconnected.into_blocking(), Err(RecvError::Disconnected));
}

#[test]
fn consumer_cloned_while_no_producer_receives_later_values() {
    let (tx, rx) = channel::<u64>(4);
    tx.close();
    let mut rx2 = rx.clone();
    let tx2 = rx.spawn_tx();
    assert_eq!(tx2.send(5), Ok(()));
    assert_eq!(rx2.try_recv(), Ok(5));
}
