use artiq_ipc::rpc_fifo::{RpcFifo, RpcFifoError, FIFO_BUFFER_SIZE, FIFO_QUEUE_SIZE};

#[test]
fn push_then_pull_round_trips_zero_padded() {
    let mut f = RpcFifo::new();
    let data = [1u8, 2, 3, 4, 5];
    assert_eq!(f.push(&data), Ok(5));
    assert!(!f.empty());
    let mut target = vec![0xffu8; FIFO_BUFFER_SIZE];
    assert_eq!(f.pull(&mut target), Ok(5));
    assert_eq!(&target[..5], &data);
    assert!(target[5..].iter().all(|&b| b == 0));
    assert!(f.empty());
}

#[test]
fn pull_from_empty_is_empty_read() {
    let mut f = RpcFifo::new();
    assert!(f.empty());
    let mut target = vec![0u8; FIFO_BUFFER_SIZE];
    assert_eq!(f.pull(&mut target), Err(RpcFifoError::EmptyRead));
}

#[test]
fn oversized_push_is_data_overflow() {
    let mut f = RpcFifo::new();
    let data = vec![9u8; FIFO_BUFFER_SIZE + 1];
    assert_eq!(f.push(&data), Err(RpcFifoError::DataOverflow));
    assert!(f.empty());
    let exact = vec![9u8; FIFO_BUFFER_SIZE];
    assert_eq!(f.push(&exact), Ok(FIFO_BUFFER_SIZE));
}

#[test]
fn small_target_is_data_overflow() {
    let mut f = RpcFifo::new();
    assert_eq!(f.push(&[1, 2]), Ok(2));
    let mut target = vec![0u8; FIFO_BUFFER_SIZE - 1];
    assert_eq!(f.pull(&mut target), Err(RpcFifoError::DataOverflow));
    let mut target = vec![0u8; FIFO_BUFFER_SIZE + 3];
    assert_eq!(f.pull(&mut target), Ok(2));
}

#[test]
fn fifo_keeps_order_and_fills_up() {
    let mut f = RpcFifo::new();
    for i in 0..FIFO_QUEUE_SIZE - 1 {
        assert!(!f.full());
        assert_eq!(f.push(&[i as u8]), Ok(1));
    }
    assert!(f.full());
    assert_eq!(f.push(&[0]), Err(RpcFifoError::FifoFull));
    let mut target = vec![0u8; FIFO_BUFFER_SIZE];
    for i in 0..FIFO_QUEUE_SIZE - 1 {
        assert_eq!(f.pull(&mut target), Ok(1));
        assert_eq!(target[0], i as u8);
    }
    assert!(f.empty());
}

#[test]
fn init_zeroes_slots_and_lengths() {
    let mut f = RpcFifo::new();
    assert_eq!(f.push(&[1, 2, 3]), Ok(3));
    f.init();
    assert!(f.buffers.iter().all(|&b| b == 0));
    assert!(f.lens.iter().all(|&l| l == 0));
    assert!(f.empty());
    let mut target = vec![5u8; FIFO_BUFFER_SIZE];
    assert_eq!(f.pull(&mut target), Err(RpcFifoError::EmptyRead));
    assert!(target.iter().all(|&b| b == 5));
    assert_eq!(f.push(&[4]), Ok(1));
    assert_eq!(f.pull(&mut target), Ok(1));
    assert_eq!(target[0], 4);
}

#[test]
fn push_and_pull_move_their_own_index() {
    let mut f = RpcFifo::new();
    assert_eq!(f.push(&[1, 2]), Ok(2));
    assert_eq!((f.read, f.write), (0, 1));
    assert_eq!(f.lens[1], 2);
    let mut target = vec![0u8; FIFO_BUFFER_SIZE];
    assert_eq!(f.pull(&mut target), Ok(2));
    assert_eq!((f.read, f.write), (1, 1));
    assert_eq!(f.lens[1], 0);
}
