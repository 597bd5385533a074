use ipc_channel::channel;
use ipc_channel::Bootstrap;
use ipc_channel::ConnectionError;
use ipc_channel::IpcOneShotServer;
use ipc_channel::IpcSender;
use ipc_channel::RecvError;
use ipc_channel::SendError;
use ipc_channel::Value;

#[test]
fn typed_round_trip_int() {
    let (tx, rx) = channel::<u64>().unwrap();
    tx.send(5).unwrap();
    assert_eq!(rx.recv(), Ok(5));
}

#[test]
fn typed_round_trip_string() {
    let (tx, rx) = channel::<String>().unwrap();
    tx.send(String::from("across the wire")).unwrap();
    assert_eq!(rx.recv(), Ok(String::from("across the wire")));
}

#[test]
fn typed_round_trip_value() {
    let (tx, rx) = channel::<Value>().unwrap();
    tx.send(Value::List(vec![Value::Int(1), Value::Str(String::from("x"))]))
        .unwrap();
    match rx.recv() {
        Ok(Value::List(vs)) => assert_eq!(vs.len(), 2),
        _ => panic!("expected the list back"),
    }
}

#[test]
fn fifo_ordering() {
    let (tx, rx) = channel::<u64>().unwrap();
    tx.send(1).unwrap();
    tx.send(2).unwrap();
    tx.send(3).unwrap();
    assert_eq!(rx.recv(), Ok(1));
    assert_eq!(rx.recv(), Ok(2));
    assert_eq!(rx.recv(), Ok(3));
}

#[test]
fn capability_transfer() {
    let (tx, rx) = channel::<IpcSender<u64>>().unwrap();
    let (side_tx, side_rx) = channel::<u64>().unwrap();
    tx.send(side_tx.clone()).unwrap();
    let carried = rx.recv().unwrap();
    // the received endpoint sends independently to the original receiver
    carried.send(42).unwrap();
    assert_eq!(side_rx.recv(), Ok(42));
    // and remains usable after the carrying message is fully processed
    carried.send(43).unwrap();
    assert_eq!(side_rx.recv(), Ok(43));
    // the endpoint the peer kept still works too
    side_tx.send(44).unwrap();
    assert_eq!(side_rx.recv(), Ok(44));
}

#[test]
fn disconnection_after_drain() {
    let (tx, rx) = channel::<u64>().unwrap();
    tx.send(1).unwrap();
    drop(tx);
    // buffered messages are drained first, then disconnection is reported
    assert_eq!(rx.recv(), Ok(1));
    assert_eq!(rx.recv(), Err(RecvError::Disconnected));
}

#[test]
fn send_after_receiver_dropped() {
    let (tx, rx) = channel::<u64>().unwrap();
    drop(rx);
    assert_eq!(tx.send(1), Err(SendError::Disconnected));
}

#[test]
fn cloned_sender_is_independent() {
    let (tx, rx) = channel::<u64>().unwrap();
    let tx2 = tx.clone();
    drop(tx);
    tx2.send(11).unwrap();
    assert_eq!(rx.recv(), Ok(11));
}

#[test]
fn one_shot_accept() {
    let mut boot = Bootstrap::new();
    let (server, name) = IpcOneShotServer::<u64>::new(&mut boot).unwrap();
    let tx = IpcSender::<u64>::connect(&mut boot, name.clone()).unwrap();
    tx.send(9).unwrap();
    let (rx, first) = server.accept().unwrap();
    assert_eq!(first, 9);
    // the returned receiver carries all subsequent traffic
    tx.send(10).unwrap();
    assert_eq!(rx.recv(), Ok(10));
    // a second connection attempt to the same name fails
    assert_eq!(
        IpcSender::<u64>::connect(&mut boot, name).err(),
        Some(ConnectionError::NameNotFound)
    );
}

#[test]
fn connect_unknown_name() {
    let mut boot = Bootstrap::new();
    assert_eq!(
        IpcSender::<u64>::connect(&mut boot, String::from("nowhere")).err(),
        Some(ConnectionError::NameNotFound)
    );
}

#[test]
fn one_shot_names_are_distinct() {
    let mut boot = Bootstrap::new();
    let (_s1, n1) = IpcOneShotServer::<u64>::new(&mut boot).unwrap();
    let (_s2, n2) = IpcOneShotServer::<u64>::new(&mut boot).unwrap();
    assert_ne!(n1, n2);
}

#[test]
fn one_shot_first_message_carries_capability() {
    // bootstrapping a duplex link: the first message carries an endpoint
    let mut boot = Bootstrap::new();
    let (server, name) = IpcOneShotServer::<IpcSender<u64>>::new(&mut boot).unwrap();
    let (reply_tx, reply_rx) = channel::<u64>().unwrap();
    let tx = IpcSender::<IpcSender<u64>>::connect(&mut boot, name).unwrap();
    tx.send(reply_tx).unwrap();
    let (_rx, carried) = server.accept().unwrap();
    carried.send(77).unwrap();
    assert_eq!(reply_rx.recv(), Ok(77));
}
