use trotcast::{channel, Channel, Receiver, SendError, TryRecvError};

fn drain(rx: &mut Receiver<u64>, into: &mut Vec<u64>) {
    while let Ok(v) = rx.try_recv() {
        into.push(v);
    }
}

#[test]
fn reconnect_after_consumers_leave() {
    let tx: Channel<u64> = Channel::new(4);
    assert_eq!(tx.send(5), Err(SendError::Disconnected(5)));
    let mut c1 = tx.spawn_rx();
    assert_eq!(tx.send(6), Ok(()));
    assert_eq!(c1.try_recv(), Ok(6));
    c1.close();
    assert_eq!(tx.send(42), Err(SendError::Disconnected(42)));
    let mut c1 = tx.spawn_rx();
    let mut c2 = tx.spawn_rx();
    assert_eq!(tx.send(90), Ok(()));
    assert_eq!(c1.try_recv(), Ok(90));
    assert_eq!(c2.try_recv(), Ok(90));
}

#[test]
fn two_producers_two_consumers_small_capacity() {
    let p1: Channel<u64> = Channel::new(2);
    let p2 = p1.clone();
    let mut c1 = p1.spawn_rx();
    let mut c2 = c1.clone();
    let mut got1 = Vec::new();
    let mut got2 = Vec::new();
    for (p, v) in [(&p1, 1u64), (&p2, 3), (&p1, 2), (&p2, 4)] {
        let mut value = v;
        loop {
            match p.send(value) {
                Ok(()) => break,
                Err(SendError::Full(back)) => {
                    value = back;
                    drain(&mut c1, &mut got1);
                    drain(&mut c2, &mut got2);
                }
                Err(SendError::Disconnected(_)) => panic!("consumers are attached"),
            }
        }
    }
    drain(&mut c1, &mut got1);
    drain(&mut c2, &mut got2);
    let mut sorted = got1.clone();
    sorted.sort();
    assert_eq!(sorted, vec![1, 2, 3, 4]);
    assert_eq!(got1, got2);
}

#[test]
fn fullness_at_capacity() {
    let tx: Channel<u64> = Channel::new(3);
    let mut c = tx.spawn_rx();
    assert_eq!(tx.send(10), Ok(()));
    assert_eq!(tx.send(20), Ok(()));
    assert_eq!(tx.send(30), Ok(()));
    assert_eq!(tx.send(40), Err(SendError::Full(40)));
    assert_eq!(c.try_recv(), Ok(10));
    assert_eq!(tx.send(40), Ok(()));
    assert_eq!(c.try_recv(), Ok(20));
    assert_eq!(c.try_recv(), Ok(30));
    assert_eq!(c.try_recv(), Ok(40));
    assert_eq!(c.try_recv(), Err(TryRecvError::Empty));
}

#[test]
fn fresh_consumer_after_departed_one_is_empty() {
    let tx: Channel<u64> = Channel::new(2);
    let c = tx.spawn_rx();
    c.close();
    let mut c2 = tx.spawn_rx();
    assert_eq!(c2.try_recv(), Err(TryRecvError::Empty));
    assert_eq!(tx.send(7), Ok(()));
    assert_eq!(c2.try_recv(), Ok(7));
}

#[test]
fn last_producer_leaving_closes_channel() {
    let (tx, mut rx) = channel::<u64>(4);
    assert_eq!(tx.send(1), Ok(()));
    assert_eq!(tx.send(2), Ok(()));
    assert_eq!(tx.send(3), Ok(()));
    tx.close();
    assert_eq!(rx.try_recv(), Ok(1));
    assert_eq!(rx.try_recv(), Ok(2));
    assert_eq!(rx.try_recv(), Ok(3));
    assert_eq!(rx.try_recv(), Err(TryRecvError::Disconnected));
    assert_eq!(rx.try_recv(), Err(TryRecvError::Disconnected));
}

#[test]
fn new_consumer_starts_at_tail() {
    let tx: Channel<u64> = Channel::new(4);
    let mut c1 = tx.spawn_rx();
    assert_eq!(tx.send(1), Ok(()));
    assert_eq!(tx.send(2), Ok(()));
    assert_eq!(c1.try_recv(), Ok(1));
    let mut c2 = tx.spawn_rx();
    assert_eq!(tx.send(3), Ok(()));
    assert_eq!(c1.try_recv(), Ok(2));
    assert_eq!(c1.try_recv(), Ok(3));
    assert_eq!(c2.try_recv(), Ok(3));
    assert_eq!(c2.try_recv(), Err(TryRecvError::Empty));
}
