//! A ring of fixed-size chunks over a shared memory window. The producer
//! encodes straight into the chunk at the send cursor and the consumer
//! decodes from the chunk at the receive cursor; one chunk is always left
//! free so that a full ring differs from an empty one.
use vstd::prelude::*;
use crate::mailbox::{bump, bumped};

verus! {

/// Address of the first chunk of the window.
pub const QUEUE_BEGIN: usize = 0x4400_0000;

/// End of the window: every chunk lies wholly before this address.
pub const QUEUE_END: usize = 0x44ff_ff80;

/// Size of a chunk.
pub const QUEUE_CHUNK: usize = 0x1000;

/// How many whole chunks fit in the window.
pub const QUEUE_CHUNKS: usize = 4095;

/// Whether `addr` is the start of a chunk that lies wholly in the window.
pub open spec fn chunk_addr(addr: int) -> bool {
    QUEUE_BEGIN <= addr && addr + QUEUE_CHUNK <= QUEUE_END && (addr - QUEUE_BEGIN) % (
    QUEUE_CHUNK as int) == 0
}

/// The number of the chunk at `addr`.
pub open spec fn index_of(addr: int) -> int {
    (addr - QUEUE_BEGIN) / (QUEUE_CHUNK as int)
}

/// The chunk after the one at `addr`, wrapping to the start of the window
/// where the following chunk would not fit.
pub open spec fn next_spec(addr: int) -> int {
    if addr + 2 * QUEUE_CHUNK > QUEUE_END {
        QUEUE_BEGIN as int
    } else {
        addr + QUEUE_CHUNK
    }
}

proof fn lemma_chunk_addr(addr: int)
    requires
        chunk_addr(addr),
    ensures
        0 <= index_of(addr) < QUEUE_CHUNKS,
        addr == QUEUE_BEGIN + index_of(addr) * QUEUE_CHUNK,
        addr - QUEUE_BEGIN + QUEUE_CHUNK <= QUEUE_CHUNKS * QUEUE_CHUNK,
        chunk_addr(next_spec(addr)),
        index_of(next_spec(addr)) == (index_of(addr) + 1) % (QUEUE_CHUNKS as int),
{
}

fn next(addr: usize) -> (r: usize)
    requires
        chunk_addr(addr as int),
    ensures
        r == next_spec(addr as int),
{
    let a = addr + QUEUE_CHUNK;
    if a + QUEUE_CHUNK > QUEUE_END {
        QUEUE_BEGIN
    } else {
        a
    }
}

/// `written` laid over the front of `chunk`; bytes past the chunk are dropped.
pub open spec fn overlay(chunk: Seq<u8>, written: Seq<u8>) -> Seq<u8> {
    Seq::new(chunk.len(), |i: int| if i < written.len() { written[i] } else { chunk[i] })
}

/// The window with its send and receive cursors, which the two cores share,
/// and how many times a dequeue has invalidated the data cache.
pub struct RpcQueue {
    pub send: usize,
    pub recv: usize,
    pub mem: Vec<u8>,
    pub dcache_flushes: u64,
}

impl RpcQueue {
    pub open spec fn wf(&self) -> bool {
        &&& chunk_addr(self.send as int)
        &&& chunk_addr(self.recv as int)
        &&& self.mem@.len() == QUEUE_CHUNKS * QUEUE_CHUNK
    }

    /// The bytes of the chunk at `addr`.
    pub open spec fn chunk(&self, addr: int) -> Seq<u8> {
        self.mem@.subrange(addr - QUEUE_BEGIN, addr - QUEUE_BEGIN + QUEUE_CHUNK)
    }

    /// How many chunks are enqueued and not yet dequeued.
    pub open spec fn count(&self) -> int {
        (index_of(self.send as int) - index_of(self.recv as int) + QUEUE_CHUNKS) % (
        QUEUE_CHUNKS as int)
    }

    /// The contents of the chunks in flight, oldest first.
    pub open spec fn pending(&self) -> Seq<Seq<u8>> {
        Seq::new(
            self.count() as nat,
            |k: int|
                self.chunk(
                    QUEUE_BEGIN + ((index_of(self.recv as int) + k) % (QUEUE_CHUNKS as int))
                        * QUEUE_CHUNK,
                ),
        )
    }

    pub open spec fn is_empty(&self) -> bool {
        self.send == self.recv
    }

    pub open spec fn is_full(&self) -> bool {
        next_spec(self.send as int) == self.recv
    }

    /// An empty ring over a zeroed window, both cursors at its start.
    pub fn init() -> (r: RpcQueue)
        ensures
            r.wf(),
            r.send == QUEUE_BEGIN,
            r.recv == QUEUE_BEGIN,
            r.count() == 0,
            r.dcache_flushes == 0,
    {
        RpcQueue {
            send: QUEUE_BEGIN,
            recv: QUEUE_BEGIN,
            mem: vec![0u8; QUEUE_CHUNKS * QUEUE_CHUNK],
            dcache_flushes: 0,
        }
    }

    pub fn empty(&self) -> (r: bool)
        ensures
            r == self.is_empty(),
    {
        self.send == self.recv
    }

    pub fn full(&self) -> (r: bool)
        requires
            self.wf(),
        ensures
            r == self.is_full(),
    {
        next(self.send) == self.recv
    }

    /// A copy of the chunk at `addr`.
    fn chunk_at(&self, addr: usize) -> (r: Vec<u8>)
        requires
            self.wf(),
            chunk_addr(addr as int),
        ensures
            r@ == self.chunk(addr as int),
    {
        proof {
            lemma_chunk_addr(addr as int);
        }
        let base = addr - QUEUE_BEGIN;
        let mut c: Vec<u8> = Vec::new();
        let mut i: usize = 0;
        while i < QUEUE_CHUNK
            invariant
                base == addr - QUEUE_BEGIN,
                base + QUEUE_CHUNK <= self.mem@.len(),
                i <= QUEUE_CHUNK,
                c@ == self.mem@.subrange(base as int, base + i),
            decreases QUEUE_CHUNK - i,
        {
            c.push(self.mem[base + i]);
            i = i + 1;
            assert(c@ =~= self.mem@.subrange(base as int, base + i));
        }
        c
    }

    /// Lays `written` over the front of the chunk at `addr`.
    fn store_chunk(&mut self, addr: usize, written: &Vec<u8>)
        requires
            old(self).wf(),
            chunk_addr(addr as int),
        ensures
            final(self).send == old(self).send,
            final(self).recv == old(self).recv,
            final(self).dcache_flushes == old(self).dcache_flushes,
            final(self).mem@ == old(self).mem@.update_subrange_with(
                addr - QUEUE_BEGIN,
                overlay(old(self).chunk(addr as int), written@),
            ),
    {
        proof {
            lemma_chunk_addr(addr as int);
        }
        let base = addr - QUEUE_BEGIN;
        let n = if written.len() < QUEUE_CHUNK {
            written.len()
        } else {
            QUEUE_CHUNK
        };
        let mut i: usize = 0;
        while i < n
            invariant
                base == addr - QUEUE_BEGIN,
                base + QUEUE_CHUNK <= old(self).mem@.len(),
                n <= QUEUE_CHUNK,
                n <= written@.len(),
                i <= n,
                self.send == old(self).send,
                self.recv == old(self).recv,
                self.dcache_flushes == old(self).dcache_flushes,
                self.mem@.len() == old(self).mem@.len(),
                forall|t: int|
                    0 <= t < self.mem@.len() && !(base <= t < base + i) ==> #[trigger] self.mem@[t]
                        == old(self).mem@[t],
                forall|t: int| base <= t < base + i ==> #[trigger] self.mem@[t] == written@[t - base],
            decreases n - i,
        {
            self.mem[base + i] = written[i];
            i = i + 1;
        }
        assert(self.mem@ =~= old(self).mem@.update_subrange_with(
            addr - QUEUE_BEGIN,
            overlay(old(self).chunk(addr as int), written@),
        ));
    }

    /// Hands the chunk at the send cursor to `f`, which gives back the bytes
    /// it wrote over the front of the chunk and its result. Those bytes are
    /// stored, and the cursor moves on, only where `f` succeeds.
    pub fn enqueue<T, E, F>(&mut self, f: F) -> (r: Result<T, E>) where
        F: FnOnce(Vec<u8>) -> (Vec<u8>, Result<T, E>),
        requires
            old(self).wf(),
            !old(self).is_full(),
            forall|c: Vec<u8>| c@.len() == QUEUE_CHUNK ==> #[trigger] f.requires((c,)),
        ensures
            final(self).wf(),
            exists|c: Vec<u8>, w: Vec<u8>|
                {
                    &&& c@ == old(self).chunk(old(self).send as int)
                    &&& #[trigger] f.ensures((c,), (w, r))
                    &&& r is Ok ==> enqueued(*old(self), w@, *final(self))
                    &&& r is Err ==> *final(self) == *old(self)
                },
    {
        let addr = self.send;
        let c = self.chunk_at(addr);
        let ghost c0 = c;
        let (w, r) = f(c);
        if r.is_ok() {
            self.store_chunk(addr, &w);
            self.send = next(addr);
            proof {
                lemma_chunk_addr(addr as int);
                lemma_chunk_addr(self.recv as int);
            }
        }
        assert(f.ensures((c0,), (w, r)));
        r
    }

    /// Like `enqueue`, but on a full ring refuses without calling `f` and
    /// leaves the ring untouched.
    pub fn try_enqueue<T, E, F>(&mut self, f: F) -> (r: Option<Result<T, E>>) where
        F: FnOnce(Vec<u8>) -> (Vec<u8>, Result<T, E>),
        requires
            old(self).wf(),
            forall|c: Vec<u8>| c@.len() == QUEUE_CHUNK ==> #[trigger] f.requires((c,)),
        ensures
            final(self).wf(),
            (r is None) <==> old(self).is_full(),
            r is None ==> *final(self) == *old(self),
            r matches Some(res) ==> exists|c: Vec<u8>, w: Vec<u8>|
                {
                    &&& c@ == old(self).chunk(old(self).send as int)
                    &&& #[trigger] f.ensures((c,), (w, res))
                    &&& res is Ok ==> enqueued(*old(self), w@, *final(self))
                    &&& res is Err ==> *final(self) == *old(self)
                },
    {
        if self.full() {
            None
        } else {
            Some(self.enqueue(f))
        }
    }

    /// Invalidates the data cache, then hands the chunk at the receive
    /// cursor to `f`; the cursor moves on only where `f` succeeds.
    pub fn dequeue<T, E, F>(&mut self, f: F) -> (r: Result<T, E>) where
        F: FnOnce(Vec<u8>) -> Result<T, E>,
        requires
            old(self).wf(),
            !old(self).is_empty(),
            forall|c: Vec<u8>| c@.len() == QUEUE_CHUNK ==> #[trigger] f.requires((c,)),
        ensures
            final(self).wf(),
            final(self).dcache_flushes == bumped(old(self).dcache_flushes),
            exists|c: Vec<u8>|
                {
                    &&& c@ == old(self).chunk(old(self).recv as int)
                    &&& #[trigger] f.ensures((c,), r)
                },
            r is Ok ==> dequeued(*old(self), *final(self)),
            r is Err ==> final(self).send == old(self).send && final(self).recv == old(self).recv
                && final(self).mem == old(self).mem,
    {
        self.dcache_flushes = bump(self.dcache_flushes);
        let addr = self.recv;
        let c = self.chunk_at(addr);
        let ghost c0 = c;
        let r = f(c);
        if r.is_ok() {
            self.recv = next(addr);
            proof {
                lemma_chunk_addr(addr as int);
                lemma_chunk_addr(self.send as int);
            }
        }
        assert(f.ensures((c0,), r));
        r
    }
}

/// `q1` is `q0` after an enqueue whose encoder wrote `written`.
pub open spec fn enqueued(q0: RpcQueue, written: Seq<u8>, q1: RpcQueue) -> bool {
    &&& q1.send == next_spec(q0.send as int)
    &&& q1.recv == q0.recv
    &&& q1.dcache_flushes == q0.dcache_flushes
    &&& q1.mem@ == q0.mem@.update_subrange_with(
        q0.send - QUEUE_BEGIN,
        overlay(q0.chunk(q0.send as int), written),
    )
    &&& q1.count() == q0.count() + 1
}

/// `q1` is `q0` after a successful dequeue, cache invalidation aside.
pub open spec fn dequeued(q0: RpcQueue, q1: RpcQueue) -> bool {
    &&& q1.send == q0.send
    &&& q1.recv == next_spec(q0.recv as int)
    &&& q1.mem == q0.mem
    &&& q1.count() == q0.count() - 1
}

/// On a well-formed ring, full and empty are fixed by the number of
/// chunks in flight.
pub proof fn lemma_full_empty_count(q: RpcQueue)
    requires
        q.wf(),
    ensures
        q.is_full() <==> q.count() == QUEUE_CHUNKS - 1,
        q.is_empty() <==> q.count() == 0,
{
    lemma_chunk_addr(q.send as int);
    lemma_chunk_addr(q.recv as int);
}

proof fn lemma_enqueued_wf(q0: RpcQueue, written: Seq<u8>, q1: RpcQueue)
    requires
        q0.wf(),
        enqueued(q0, written, q1),
    ensures
        q1.wf(),
{
    lemma_chunk_addr(q0.send as int);
}

proof fn lemma_counts(qs: Seq<RpcQueue>, ws: Seq<Seq<u8>>, k: int)
    requires
        0 <= k < qs.len(),
        qs[0].wf(),
        qs[0].is_empty(),
        forall|i: int| 0 <= i < k ==> enqueued(#[trigger] qs[i], ws[i], qs[i + 1]),
    ensures
        qs[k].wf(),
        qs[k].count() == k,
    decreases k,
{
    if k == 0 {
        lemma_full_empty_count(qs[0]);
    } else {
        lemma_counts(qs, ws, k - 1);
        assert(enqueued(qs[k - 1], ws[k - 1], qs[k]));
        lemma_enqueued_wf(qs[k - 1], ws[k - 1], qs[k]);
    }
}

/// Starting from an empty ring, enqueues with no dequeue between them leave
/// the ring full after exactly `QUEUE_CHUNKS - 1` of them, and not before.
pub proof fn lemma_full_after_enqueues(qs: Seq<RpcQueue>, ws: Seq<Seq<u8>>)
    requires
        qs.len() == QUEUE_CHUNKS,
        qs[0].wf(),
        qs[0].is_empty(),
        forall|i: int| 0 <= i < QUEUE_CHUNKS - 1 ==> enqueued(#[trigger] qs[i], ws[i], qs[i + 1]),
    ensures
        qs[QUEUE_CHUNKS - 1].is_full(),
        forall|i: int| 0 <= i < QUEUE_CHUNKS - 1 ==> !(#[trigger] qs[i]).is_full(),
{
    lemma_counts(qs, ws, QUEUE_CHUNKS - 1);
    lemma_full_empty_count(qs[QUEUE_CHUNKS - 1]);
    assert forall|i: int| 0 <= i < QUEUE_CHUNKS - 1 implies !(#[trigger] qs[i]).is_full() by {
        lemma_counts(qs, ws, i);
        lemma_full_empty_count(qs[i]);
    }
}

/// What an encoder wrote into an empty ring is what the next dequeue hands
/// its decoder: the chunk at the receive cursor starts with those bytes.
pub proof fn lemma_enqueue_then_dequeue(q0: RpcQueue, written: Seq<u8>, q1: RpcQueue)
    requires
        q0.wf(),
        q0.is_empty(),
        written.len() <= QUEUE_CHUNK,
        enqueued(q0, written, q1),
    ensures
        q1.chunk(q1.recv as int).subrange(0, written.len() as int) == written,
{
    lemma_chunk_addr(q0.send as int);
    assert(q1.chunk(q1.recv as int).subrange(0, written.len() as int) =~= written);
}

/// An enqueue adds the chunk its encoder wrote at the back of the chunks in
/// flight and leaves the others as they were.
pub proof fn lemma_enqueue_pending(q0: RpcQueue, written: Seq<u8>, q1: RpcQueue)
    requires
        q0.wf(),
        !q0.is_full(),
        enqueued(q0, written, q1),
    ensures
        q1.pending() == q0.pending().push(overlay(q0.chunk(q0.send as int), written)),
{
    lemma_chunk_addr(q0.send as int);
    lemma_chunk_addr(q0.recv as int);
    lemma_full_empty_count(q0);
    let r = index_of(q0.recv as int);
    let c = QUEUE_CHUNKS as int;
    let ov = overlay(q0.chunk(q0.send as int), written);
    assert forall|k: int| 0 <= k < q0.count() implies #[trigger] q1.pending()[k]
        == q0.pending()[k] by {
        let i = (r + k) % c;
        assert(i != index_of(q0.send as int));
        let a = QUEUE_BEGIN + i * QUEUE_CHUNK;
        assert(q1.chunk(a) =~= q0.chunk(a));
    }
    assert((r + q0.count()) % c == index_of(q0.send as int));
    assert(q1.pending()[q0.count() as int] =~= ov);
    assert(q1.pending() =~= q0.pending().push(ov));
}

/// A dequeue hands its decoder the oldest chunk in flight and, on success,
/// leaves the rest in order.
pub proof fn lemma_dequeue_pending(q0: RpcQueue, q1: RpcQueue)
    requires
        q0.wf(),
        !q0.is_empty(),
        dequeued(q0, q1),
    ensures
        q0.pending()[0] == q0.chunk(q0.recv as int),
        q1.pending() == q0.pending().drop_first(),
{
    lemma_chunk_addr(q0.send as int);
    lemma_chunk_addr(q0.recv as int);
    lemma_full_empty_count(q0);
    let r = index_of(q0.recv as int);
    let c = QUEUE_CHUNKS as int;
    assert(index_of(q1.recv as int) == (r + 1) % c);
    assert forall|k: int| 0 <= k < q1.count() implies #[trigger] q1.pending()[k]
        == q0.pending()[k + 1] by {
        assert(((r + 1) % c + k) % c == (r + k + 1) % c);
    }
    assert(q1.pending() =~= q0.pending().drop_first());
}

} // verus!
