use std::io::ErrorKind;

use riak_async::errors::RiakErr;
use riak_async::pool::ClientManager;

#[test]
fn test_client_manager_rejects_empty_addresses() {
    let err = ClientManager::<&str>::new(&[]).expect_err("expected empty address list to fail");

    match err {
        RiakErr::IoError(io_err) => assert_eq!(io_err.kind(), ErrorKind::InvalidInput),
        other => panic!("unexpected error type: {other:?}"),
    }
}

#[test]
fn client_manager_takes_addresses_in_turn() {
    let manager = ClientManager::new(&["a:1", "b:2", "c:3"]).unwrap();
    assert_eq!(manager.addrs(), &["a:1", "b:2", "c:3"]);
    let got: Vec<&str> = (0..5).map(|_| *manager.next_address()).collect();
    assert_eq!(got, vec!["a:1", "b:2", "c:3", "a:1", "b:2"]);
}

#[test]
fn client_manager_turns_wrap_around() {
    let manager = ClientManager::new(&["a:1", "b:2", "c:3"]).unwrap();
    assert_eq!(*manager.address_for_turn(0), "a:1");
    assert_eq!(*manager.address_for_turn(4), "b:2");
    assert_eq!(*manager.address_for_turn(usize::MAX), ["a:1", "b:2", "c:3"][usize::MAX % 3]);
}
