//! The single-word mailbox through which the two cores hand each other one
//! value at a time. Zero in the word means that nothing is pending.
use vstd::prelude::*;

verus! {

/// `n` plus one, held at the largest value.
pub open spec fn bumped(n: u64) -> u64 {
    if n < u64::MAX {
        (n + 1) as u64
    } else {
        n
    }
}

pub fn bump(n: u64) -> (r: u64)
    ensures
        r == bumped(n),
{
    if n < u64::MAX {
        n + 1
    } else {
        n
    }
}

/// What a receive reports for contents `word` when this side last sent
/// `last`: nothing for a value of this side's own.
pub open spec fn received(word: usize, last: usize) -> usize {
    if word == last {
        0
    } else {
        word
    }
}

/// The mailbox word as this core sees it, the value this side sent last, and
/// how many times a receive has invalidated the data cache so that memory
/// the other core wrote is read fresh.
pub struct Mailbox {
    pub word: usize,
    pub last: usize,
    pub dcache_flushes: u64,
}

impl Mailbox {
    pub fn new() -> (r: Mailbox)
        ensures
            r.word == 0,
            r.last == 0,
            r.dcache_flushes == 0,
    {
        Mailbox { word: 0, last: 0, dcache_flushes: 0 }
    }

    /// Posts `data` to the other core and remembers it as sent.
    pub fn send(&mut self, data: usize)
        requires
            data != 0,
        ensures
            final(self).word == data,
            final(self).last == data,
            final(self).dcache_flushes == old(self).dcache_flushes,
    {
        self.last = data;
        self.word = data;
    }

    /// The other core has taken or replaced what this side sent.
    pub fn acknowledged(&self) -> (r: bool)
        ensures
            r == (self.word == 0 || self.word != self.last),
    {
        self.word == 0 || self.word != self.last
    }

    /// The value the other core posted, or 0 where the word is empty or
    /// still holds this side's own value. A value handed over invalidates
    /// the data cache first.
    pub fn receive(&mut self) -> (r: usize)
        ensures
            r == received(old(self).word, old(self).last),
            final(self).word == old(self).word,
            final(self).last == old(self).last,
            final(self).dcache_flushes == if r != 0 {
                bumped(old(self).dcache_flushes)
            } else {
                old(self).dcache_flushes
            },
    {
        let data = self.word;
        if data == self.last {
            0
        } else {
            if data != 0 {
                self.dcache_flushes = bump(self.dcache_flushes);
            }
            data
        }
    }

    /// Empties the word.
    pub fn acknowledge(&mut self)
        ensures
            final(self).word == 0,
            final(self).last == old(self).last,
            final(self).dcache_flushes == old(self).dcache_flushes,
    {
        self.word = 0;
    }

    /// The other core stores `data` into the word.
    pub fn store_from_peer(&mut self, data: usize)
        ensures
            final(self).word == data,
            final(self).last == old(self).last,
            final(self).dcache_flushes == old(self).dcache_flushes,
    {
        self.word = data;
    }
}

/// No self-delivery: while the word holds a value, a receive reports
/// nothing exactly when that value is the one this side sent last.
pub proof fn lemma_no_self_delivery(word: usize, last: usize)
    requires
        word != 0,
    ensures
        (received(word, last) == 0) <==> (word == last),
{
}

} // verus!
