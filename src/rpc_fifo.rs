//! A FIFO of fixed-size slots with a parallel table of payload lengths. One
//! slot is always left unused so that a full FIFO differs from an empty one.
use vstd::prelude::*;

verus! {

/// Size of each slot, the largest payload the FIFO carries.
pub const FIFO_BUFFER_SIZE: usize = 4096;

/// Number of slots.
pub const FIFO_QUEUE_SIZE: usize = 128;

#[derive(Debug, PartialEq, Eq, Structural, Clone, Copy)]
pub enum RpcFifoError {
    Unknown,
    FifoFull,
    EmptyRead,
    DataOverflow,
}

/// The slot after `index`, wrapping round.
pub open spec fn next_spec(index: int) -> int {
    (index + 1) % (FIFO_QUEUE_SIZE as int)
}

fn next(index: usize) -> (r: usize)
    requires
        index < FIFO_QUEUE_SIZE,
    ensures
        r == next_spec(index as int),
        r < FIFO_QUEUE_SIZE,
{
    (index + 1) % FIFO_QUEUE_SIZE
}

/// `data` followed by zeros up to the slot size.
pub open spec fn padded(data: Seq<u8>) -> Seq<u8> {
    data + Seq::new((FIFO_BUFFER_SIZE - data.len()) as nat, |i: int| 0u8)
}


/// What `push` does: `r` is its result and `f1` the FIFO after it.
pub open spec fn push_outcome(f0: RpcFifo, data: Seq<u8>, r: Result<usize, RpcFifoError>, f1: RpcFifo) -> bool {
    &&& data.len() > FIFO_BUFFER_SIZE ==> r == Err::<usize, RpcFifoError>(
        RpcFifoError::DataOverflow,
    ) && f1 == f0
    &&& data.len() <= FIFO_BUFFER_SIZE && f0.pending().len() == FIFO_QUEUE_SIZE - 1 ==> r
        == Err::<usize, RpcFifoError>(RpcFifoError::FifoFull) && f1 == f0
    &&& data.len() <= FIFO_BUFFER_SIZE && f0.pending().len() < FIFO_QUEUE_SIZE - 1 ==> {
        &&& r == Ok::<usize, RpcFifoError>(data.len() as usize)
        &&& f1.pending() == f0.pending().push(data)
        &&& f1.write == next_spec(f0.write as int)
        &&& f1.read == f0.read
        &&& f1.lens@[f1.write as int] == data.len()
        &&& f1.slot(f1.write as int) == padded(data)
    }
}

/// What `pull` does: `t0` and `t1` are the target before and after it.
pub open spec fn pull_outcome(
    f0: RpcFifo,
    t0: Seq<u8>,
    r: Result<usize, RpcFifoError>,
    f1: RpcFifo,
    t1: Seq<u8>,
) -> bool {
    &&& t0.len() < FIFO_BUFFER_SIZE ==> r == Err::<usize, RpcFifoError>(
        RpcFifoError::DataOverflow,
    ) && f1 == f0 && t1 == t0
    &&& t0.len() >= FIFO_BUFFER_SIZE && f0.pending().len() == 0 ==> r == Err::<
        usize,
        RpcFifoError,
    >(RpcFifoError::EmptyRead) && f1 == f0 && t1 == t0
    &&& t0.len() >= FIFO_BUFFER_SIZE && f0.pending().len() > 0 ==> {
        &&& r == Ok::<usize, RpcFifoError>(f0.pending()[0].len() as usize)
        &&& t1 == padded(f0.pending()[0]) + t0.subrange(FIFO_BUFFER_SIZE as int, t0.len() as int)
        &&& f1.pending() == f0.pending().drop_first()
        &&& f1.read == next_spec(f0.read as int)
        &&& f1.write == f0.write
        &&& f1.lens@[f1.read as int] == 0
        &&& f1.slot(f1.read as int) == Seq::new(FIFO_BUFFER_SIZE as nat, |i: int| 0u8)
    }
}

/// The slots and lengths as shared with the other core. `read` is the slot
/// read last and `write` the slot written last; the slots after `read` up to
/// and including `write` hold the pending payloads.
pub struct RpcFifo {
    pub buffers: Vec<u8>,
    pub lens: Vec<usize>,
    pub read: usize,
    pub write: usize,
}

impl RpcFifo {
    /// How many payloads are pending.
    pub open spec fn count(&self) -> int {
        (self.write + FIFO_QUEUE_SIZE - self.read) % (FIFO_QUEUE_SIZE as int)
    }

    /// The slot of the `k`-th pending payload.
    pub open spec fn slot_of(&self, k: int) -> int {
        (self.read + 1 + k) % (FIFO_QUEUE_SIZE as int)
    }

    /// The bytes of slot `i`.
    pub open spec fn slot(&self, i: int) -> Seq<u8> {
        self.buffers@.subrange(i * FIFO_BUFFER_SIZE, i * FIFO_BUFFER_SIZE + FIFO_BUFFER_SIZE)
    }

    /// The pending payloads, oldest first.
    pub open spec fn pending(&self) -> Seq<Seq<u8>> {
        Seq::new(
            self.count() as nat,
            |k: int| self.slot(self.slot_of(k)).subrange(0, self.lens@[self.slot_of(k)] as int),
        )
    }

    pub open spec fn wf(&self) -> bool {
        &&& self.buffers@.len() == FIFO_QUEUE_SIZE * FIFO_BUFFER_SIZE
        &&& self.lens@.len() == FIFO_QUEUE_SIZE
        &&& self.read < FIFO_QUEUE_SIZE
        &&& self.write < FIFO_QUEUE_SIZE
        &&& forall|k: int|
            0 <= k < self.count() ==> {
                let i = #[trigger] self.slot_of(k);
                &&& self.lens@[i] <= FIFO_BUFFER_SIZE
                &&& forall|j: int|
                    self.lens@[i] <= j < FIFO_BUFFER_SIZE ==> #[trigger] self.slot(i)[j] == 0u8
            }
    }

    /// A FIFO with every slot zeroed and nothing pending.
    pub fn new() -> (r: RpcFifo)
        ensures
            r.wf(),
            r.pending() == Seq::<Seq<u8>>::empty(),
    {
        let r = RpcFifo {
            buffers: vec![0u8; FIFO_QUEUE_SIZE * FIFO_BUFFER_SIZE],
            lens: vec![0usize; FIFO_QUEUE_SIZE],
            read: 0,
            write: 0,
        };
        assert(r.pending() =~= Seq::<Seq<u8>>::empty());
        r
    }

    /// Zeroes every slot and every length, which discards whatever was
    /// pending.
    pub fn init(&mut self)
        requires
            old(self).wf(),
        ensures
            final(self).wf(),
            final(self).pending() == Seq::<Seq<u8>>::empty(),
            final(self).read == old(self).write,
            final(self).write == old(self).write,
            final(self).buffers@ == Seq::new(
                (FIFO_QUEUE_SIZE * FIFO_BUFFER_SIZE) as nat,
                |i: int| 0u8,
            ),
            final(self).lens@ == Seq::new(FIFO_QUEUE_SIZE as nat, |i: int| 0usize),
    {
        let mut i: usize = 0;
        while i < self.buffers.len()
            invariant
                i <= self.buffers@.len(),
                self.buffers@.len() == FIFO_QUEUE_SIZE * FIFO_BUFFER_SIZE,
                self.lens@.len() == FIFO_QUEUE_SIZE,
                self.read == old(self).read,
                self.write == old(self).write,
                self.read < FIFO_QUEUE_SIZE,
                self.write < FIFO_QUEUE_SIZE,
                forall|j: int| 0 <= j < i ==> self.buffers@[j] == 0u8,
            decreases self.buffers@.len() - i,
        {
            self.buffers[i] = 0;
            i = i + 1;
        }
        let mut i: usize = 0;
        while i < self.lens.len()
            invariant
                i <= self.lens@.len(),
                self.buffers@.len() == FIFO_QUEUE_SIZE * FIFO_BUFFER_SIZE,
                self.lens@.len() == FIFO_QUEUE_SIZE,
                self.read == old(self).read,
                self.write == old(self).write,
                self.read < FIFO_QUEUE_SIZE,
                self.write < FIFO_QUEUE_SIZE,
                forall|j: int| 0 <= j < self.buffers@.len() ==> self.buffers@[j] == 0u8,
                forall|j: int| 0 <= j < i ==> self.lens@[j] == 0usize,
            decreases self.lens@.len() - i,
        {
            self.lens[i] = 0;
            i = i + 1;
        }
        assert(self.buffers@ =~= Seq::new(
            (FIFO_QUEUE_SIZE * FIFO_BUFFER_SIZE) as nat,
            |i: int| 0u8,
        ));
        self.read = self.write;
        assert(self.lens@ =~= Seq::new(FIFO_QUEUE_SIZE as nat, |i: int| 0usize));
        assert(self.pending() =~= Seq::<Seq<u8>>::empty());
    }

    /// Nothing is pending.
    pub fn empty(&self) -> (r: bool)
        requires
            self.wf(),
        ensures
            r == (self.pending().len() == 0),
    {
        self.write == self.read
    }

    /// Every slot but the one kept free is pending.
    pub fn full(&self) -> (r: bool)
        requires
            self.wf(),
        ensures
            r == (self.pending().len() == FIFO_QUEUE_SIZE - 1),
    {
        next(self.write) == self.read
    }

    /// Copies `data` into the next free slot, zero-padded, and records its
    /// length.
    pub fn push(&mut self, data: &[u8]) -> (r: Result<usize, RpcFifoError>)
        requires
            old(self).wf(),
        ensures
            final(self).wf(),
            push_outcome(*old(self), data@, r, *final(self)),
    {
        if data.len() > FIFO_BUFFER_SIZE {
            return Err(RpcFifoError::DataOverflow);
        }
        if self.full() {
            return Err(RpcFifoError::FifoFull);
        }
        let ghost before = *self;
        let n = next(self.write);
        let base = n * FIFO_BUFFER_SIZE;
        let mut j: usize = 0;
        while j < FIFO_BUFFER_SIZE
            invariant
                base == n * FIFO_BUFFER_SIZE,
                n < FIFO_QUEUE_SIZE,
                data@.len() <= FIFO_BUFFER_SIZE,
                j <= FIFO_BUFFER_SIZE,
                self.buffers@.len() == before.buffers@.len(),
                self.lens == before.lens,
                self.read == before.read,
                self.write == before.write,
                before.wf(),
                forall|t: int|
                    0 <= t < self.buffers@.len() && !(base <= t < base + j) ==> #[trigger] self.buffers@[t]
                        == before.buffers@[t],
                forall|t: int|
                    base <= t < base + j ==> #[trigger] self.buffers@[t] == padded(data@)[t - base],
            decreases FIFO_BUFFER_SIZE - j,
        {
            let v = if j < data.len() {
                data[j]
            } else {
                0u8
            };
            self.buffers[base + j] = v;
            j = j + 1;
        }
        self.lens[n] = data.len();
        self.write = n;
        proof {
            assert(self.slot(n as int) =~= padded(data@));
            assert forall|k: int| 0 <= k < before.count() implies #[trigger] self.slot_of(k)
                == before.slot_of(k) && self.slot_of(k) != n && self.slot(self.slot_of(k))
                == before.slot(before.slot_of(k)) by {
                let i = self.slot_of(k);
                assert(i != n);
                assert(self.slot(i) =~= before.slot(i));
            }
            assert(self.count() == before.count() + 1);
            assert(self.slot_of(before.count()) == n);
            assert(self.slot(n as int).subrange(0, data@.len() as int) =~= data@);
            assert(self.pending()[before.count()] == data@);
            assert forall|k: int| 0 <= k < before.count() implies self.pending()[k]
                == before.pending()[k] by {
                let i = self.slot_of(k);
                assert(self.lens@[i] == before.lens@[i]);
            }
            assert(self.pending() =~= before.pending().push(data@));
        }
        Ok(data.len())
    }

    /// Copies the oldest pending slot, zero padding included, into the front
    /// of `target`, then zeroes the slot and its length. Returns the length
    /// of the payload.
    pub fn pull(&mut self, target: &mut [u8]) -> (r: Result<usize, RpcFifoError>)
        requires
            old(self).wf(),
        ensures
            final(self).wf(),
            pull_outcome(*old(self), old(target)@, r, *final(self), final(target)@),
    {
        if target.len() < FIFO_BUFFER_SIZE {
            return Err(RpcFifoError::DataOverflow);
        }
        if self.empty() {
            return Err(RpcFifoError::EmptyRead);
        }
        let ghost before = *self;
        let ghost t0 = target@;
        let n = next(self.read);
        let base = n * FIFO_BUFFER_SIZE;
        let len = self.lens[n];
        proof {
            assert(before.slot_of(0) == n);
            assert(before.slot(n as int) =~= padded(before.pending()[0]));
        }
        let mut j: usize = 0;
        while j < FIFO_BUFFER_SIZE
            invariant
                base == n * FIFO_BUFFER_SIZE,
                n < FIFO_QUEUE_SIZE,
                j <= FIFO_BUFFER_SIZE,
                self.buffers@.len() == before.buffers@.len(),
                self.lens == before.lens,
                self.read == before.read,
                self.write == before.write,
                before.wf(),
                target@.len() == t0.len(),
                t0.len() >= FIFO_BUFFER_SIZE,
                forall|t: int|
                    0 <= t < self.buffers@.len() && !(base <= t < base + j) ==> #[trigger] self.buffers@[t]
                        == before.buffers@[t],
                forall|t: int| base <= t < base + j ==> #[trigger] self.buffers@[t] == 0u8,
                forall|t: int| 0 <= t < j ==> #[trigger] target@[t] == before.buffers@[base + t],
                forall|t: int| j <= t < t0.len() ==> #[trigger] target@[t] == t0[t],
            decreases FIFO_BUFFER_SIZE - j,
        {
            target[j] = self.buffers[base + j];
            self.buffers[base + j] = 0;
            j = j + 1;
        }
        self.lens[n] = 0;
        self.read = n;
        proof {
            assert(target@ =~= padded(before.pending()[0]) + t0.subrange(
                FIFO_BUFFER_SIZE as int,
                t0.len() as int,
            )) by {
                assert forall|t: int| 0 <= t < FIFO_BUFFER_SIZE implies target@[t] == before.slot(
                    n as int,
                )[t] by {}
            }
            assert(self.slot(n as int) =~= Seq::new(FIFO_BUFFER_SIZE as nat, |i: int| 0u8));
            assert(self.count() == before.count() - 1);
            assert forall|k: int| 0 <= k < self.count() implies #[trigger] self.slot_of(k)
                == before.slot_of(k + 1) && self.slot_of(k) != n && self.slot(self.slot_of(k))
                == before.slot(before.slot_of(k + 1)) by {
                let i = self.slot_of(k);
                assert(i != n);
                assert(self.slot(i) =~= before.slot(i));
            }
            assert(self.pending() =~= before.pending().drop_first());
        }
        Ok(len)
    }
}

/// A payload pushed into an empty FIFO comes back from the next pull:
/// the first slot-size bytes of the target are the payload padded with
/// zeros, and the length returned is the payload's own.
pub proof fn lemma_push_then_pull(
    f0: RpcFifo,
    data: Seq<u8>,
    r1: Result<usize, RpcFifoError>,
    f1: RpcFifo,
    t0: Seq<u8>,
    r2: Result<usize, RpcFifoError>,
    f2: RpcFifo,
    t1: Seq<u8>,
)
    requires
        f0.wf(),
        f0.pending().len() == 0,
        data.len() <= FIFO_BUFFER_SIZE,
        t0.len() >= FIFO_BUFFER_SIZE,
        push_outcome(f0, data, r1, f1),
        pull_outcome(f1, t0, r2, f2, t1),
    ensures
        r1 == Ok::<usize, RpcFifoError>(data.len() as usize),
        r2 == Ok::<usize, RpcFifoError>(data.len() as usize),
        t1.subrange(0, FIFO_BUFFER_SIZE as int) == padded(data),
        f2.pending().len() == 0,
{
    assert(f1.pending() =~= seq![data]);
    assert((padded(data) + t0.subrange(FIFO_BUFFER_SIZE as int, t0.len() as int)).subrange(
        0,
        FIFO_BUFFER_SIZE as int,
    ) =~= padded(data));
}

} // verus!
