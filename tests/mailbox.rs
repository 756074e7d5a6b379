use artiq_ipc::mailbox::Mailbox;

#[test]
fn fresh_mailbox_receives_nothing() {
    let mut m = Mailbox::new();
    assert_eq!(m.receive(), 0);
    assert!(m.acknowledged());
    assert_eq!(m.dcache_flushes, 0);
}

#[test]
fn own_value_is_not_delivered_back() {
    let mut m = Mailbox::new();
    m.send(0x1234);
    assert_eq!(m.receive(), 0);
    assert!(!m.acknowledged());
    assert_eq!(m.dcache_flushes, 0);
}

#[test]
fn peer_value_is_delivered_and_flushes() {
    let mut m = Mailbox::new();
    m.send(0x1234);
    m.store_from_peer(0x5678);
    assert!(m.acknowledged());
    assert_eq!(m.receive(), 0x5678);
    assert_eq!(m.dcache_flushes, 1);
    m.acknowledge();
    assert_eq!(m.word, 0);
    assert_eq!(m.receive(), 0);
    assert_eq!(m.dcache_flushes, 1);
}

#[test]
fn acknowledge_by_peer_clears_pending() {
    let mut m = Mailbox::new();
    m.send(7);
    assert!(!m.acknowledged());
    m.store_from_peer(0);
    assert!(m.acknowledged());
    assert_eq!(m.last, 7);
}
