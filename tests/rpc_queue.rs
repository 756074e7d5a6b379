use artiq_ipc::rpc_queue::{RpcQueue, QUEUE_BEGIN, QUEUE_CHUNK, QUEUE_CHUNKS};

fn encode(payload: &[u8]) -> impl FnOnce(Vec<u8>) -> (Vec<u8>, Result<usize, ()>) + '_ {
    move |mut chunk: Vec<u8>| {
        chunk[..payload.len()].copy_from_slice(payload);
        (chunk, Ok(payload.len()))
    }
}

#[test]
fn enqueue_then_dequeue_round_trips() {
    for size in [0usize, 1, 100, QUEUE_CHUNK] {
        let mut q = RpcQueue::init();
        let payload: Vec<u8> = (0..size).map(|i| (i % 251) as u8 + 1).collect();
        assert_eq!(q.enqueue(encode(&payload)), Ok(size));
        assert!(!q.empty());
        let got = q.dequeue(|chunk: Vec<u8>| Ok::<Vec<u8>, ()>(chunk[..size].to_vec()));
        assert_eq!(got, Ok(payload));
        assert!(q.empty());
        assert_eq!(q.dcache_flushes, 1);
    }
}

#[test]
fn failed_encode_leaves_cursors() {
    let mut q = RpcQueue::init();
    let r = q.enqueue(|mut chunk: Vec<u8>| {
        chunk[0] = 42;
        (chunk, Err::<(), &str>("no room"))
    });
    assert_eq!(r, Err("no room"));
    assert_eq!(q.send, QUEUE_BEGIN);
    assert!(q.empty());
    assert_eq!(q.mem[0], 0);
}

#[test]
fn failed_decode_leaves_cursors() {
    let mut q = RpcQueue::init();
    assert_eq!(q.enqueue(encode(&[7, 8])), Ok(2));
    let r = q.dequeue(|_chunk: Vec<u8>| Err::<(), u8>(1));
    assert_eq!(r, Err(1));
    assert_eq!(q.recv, QUEUE_BEGIN);
    assert!(!q.empty());
    let r = q.dequeue(|chunk: Vec<u8>| Ok::<u8, u8>(chunk[1]));
    assert_eq!(r, Ok(8));
}

#[test]
fn ring_is_full_after_capacity_minus_one() {
    let mut q = RpcQueue::init();
    for i in 0..QUEUE_CHUNKS - 1 {
        assert!(!q.full());
        let b = [(i % 256) as u8];
        assert_eq!(q.enqueue(encode(&b)), Ok(1));
    }
    assert!(q.full());
    assert!(!q.empty());
    assert_eq!(q.dequeue(|c: Vec<u8>| Ok::<u8, ()>(c[0])), Ok(0));
    assert!(!q.full());
}

#[test]
fn cursors_wrap_to_window_start() {
    let mut q = RpcQueue::init();
    for _ in 0..QUEUE_CHUNKS - 1 {
        assert_eq!(q.enqueue(encode(&[1])), Ok(1));
        assert_eq!(q.dequeue(|_c: Vec<u8>| Ok::<(), ()>(())), Ok(()));
    }
    assert_eq!(q.send, QUEUE_BEGIN + (QUEUE_CHUNKS - 1) * QUEUE_CHUNK);
    assert_eq!(q.enqueue(encode(&[2])), Ok(1));
    assert_eq!(q.send, QUEUE_BEGIN);
    assert_eq!(q.dequeue(|c: Vec<u8>| Ok::<u8, ()>(c[0])), Ok(2));
    assert_eq!(q.recv, QUEUE_BEGIN);
}

#[test]
fn full_ring_refuses_without_calling_encoder() {
    let mut q = RpcQueue::init();
    for _ in 0..QUEUE_CHUNKS - 1 {
        assert_eq!(q.try_enqueue(encode(&[3])), Some(Ok(1)));
    }
    assert!(q.full());
    let (send, recv) = (q.send, q.recv);
    let mut called = false;
    let r = q.try_enqueue(|c: Vec<u8>| {
        called = true;
        (c, Ok::<(), ()>(()))
    });
    assert_eq!(r, None);
    assert!(!called);
    assert_eq!((q.send, q.recv), (send, recv));
}

#[test]
fn last_chunk_ends_inside_window() {
    let last = QUEUE_BEGIN + (QUEUE_CHUNKS - 1) * QUEUE_CHUNK;
    assert!(last + QUEUE_CHUNK <= artiq_ipc::rpc_queue::QUEUE_END);
    assert_eq!(QUEUE_CHUNKS, 4095);
}
