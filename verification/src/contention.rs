//! How a thread competes for the right to work on a lock.

use vstd::prelude::*;

verus! {

/// The bits of a lock word that count the read locks.
pub const READ_COUNT_MASK: usize = 0x00FF_FFFF;

/// The bit of a lock word that is set while the lock is locked for writing.
pub const WRITE_LOCKED: usize = 0x0100_0000;

/// The bit of a lock word that is set while a thread works on the lock.
pub const CONTENDED: usize = 0x0200_0000;

/// The number of failed attempts after which a thread yields instead of spinning.
pub const SPIN_LIMIT: u32 = 16;

/// What a thread does after an attempt to set the `CONTENDED` bit.
#[derive(Debug, Clone, Copy, PartialEq, Eq, Structural)]
pub enum Backoff {
    /// The bit was clear and is now this thread's. Holds the word as it was found.
    Acquired(usize),
    /// Another thread has the bit: pass this many memory fences and try again.
    Spin(u32),
    /// Another thread has had the bit for long: let other threads run and try again.
    Yield,
}

/// A thread's attempts to set the `CONTENDED` bit of a lock word.
#[derive(Debug)]
pub struct Contention {
    spins: u32,
}

impl Contention {
    /// The number of failed attempts so far, counted up to [`SPIN_LIMIT`].
    pub closed spec fn spins(&self) -> nat {
        self.spins as nat
    }

    /// Whether the attempts are counted up to [`SPIN_LIMIT`].
    pub closed spec fn wf(&self) -> bool {
        self.spins <= SPIN_LIMIT
    }

    /// A thread that has not tried yet.
    pub fn new() -> (contention: Contention)
        ensures
            contention.wf(),
            contention.spins() == 0,
    {
        Contention { spins: 0 }
    }

    /// Decides on the next step of a thread that has just set the `CONTENDED` bit and found the
    /// word to be `word` before. The wait doubles with every failure, and from [`SPIN_LIMIT`]
    /// failures on the thread yields.
    pub fn observe(&mut self, word: usize) -> (next: Backoff)
        requires
            old(self).wf(),
        ensures
            final(self).wf(),
            next == (if word & CONTENDED == 0 {
                Backoff::Acquired(word)
            } else if old(self).spins() < SPIN_LIMIT {
                Backoff::Spin(2u32 << (old(self).spins() as u32))
            } else {
                Backoff::Yield
            }),
            final(self).spins() == (if word & CONTENDED != 0 && old(self).spins() < SPIN_LIMIT {
                old(self).spins() + 1
            } else {
                old(self).spins()
            }),
    {
        if word & CONTENDED != 0 {
            if self.spins >= SPIN_LIMIT {
                Backoff::Yield
            } else {
                let fences: u32 = 2u32 << self.spins;
                self.spins = self.spins + 1;
                Backoff::Spin(fences)
            }
        } else {
            Backoff::Acquired(word)
        }
    }
}

/// A step of a thread on the lock word that it shares with other threads.
pub enum WordStep {
    /// The thread sets the `CONTENDED` bit and finds the word as it was before.
    Contend,
    /// The thread that has the `CONTENDED` bit is done and leaves this word.
    Store(usize),
}

/// The word after the first `n` of `steps`, which are the steps of all threads in their order.
pub open spec fn word_after(start: usize, steps: Seq<WordStep>, n: nat) -> usize
    decreases n,
{
    if n == 0 {
        start
    } else {
        match steps[n - 1] {
            WordStep::Contend => word_after(start, steps, (n - 1) as nat) | CONTENDED,
            WordStep::Store(word) => word,
        }
    }
}

/// Whether the step at `i` is an attempt that succeeds: one that finds the `CONTENDED` bit clear.
pub open spec fn acquires(start: usize, steps: Seq<WordStep>, i: int) -> bool {
    steps[i] is Contend && word_after(start, steps, i as nat) & CONTENDED == 0
}

/// Whether the step at `i` hands the lock back: it leaves a word whose `CONTENDED` bit is clear.
pub open spec fn hands_back(steps: Seq<WordStep>, i: int) -> bool {
    steps[i] matches WordStep::Store(word) && word & CONTENDED == 0
}

/// An attempt sets the `CONTENDED` bit and no other: the read count and the mark of a writer stay.
/// If the bit was clear, what was found is the word without that bit.
pub proof fn law_contending_sets_one_bit(word: usize)
    ensures
        (word | CONTENDED) & CONTENDED == CONTENDED,
        (word | CONTENDED) & READ_COUNT_MASK == word & READ_COUNT_MASK,
        (word | CONTENDED) & WRITE_LOCKED == word & WRITE_LOCKED,
        word & CONTENDED == 0 ==> (word | CONTENDED) & !CONTENDED == word,
{
    assert({
        &&& (word | 0x0200_0000) & 0x0200_0000 == 0x0200_0000
        &&& (word | 0x0200_0000) & 0x00FF_FFFF == word & 0x00FF_FFFF
        &&& (word | 0x0200_0000) & 0x0100_0000 == word & 0x0100_0000
        &&& word & 0x0200_0000 == 0 ==> (word | 0x0200_0000) & !0x0200_0000 == word
    }) by (bit_vector);
}

/// One thread at a time has the `CONTENDED` bit: between two attempts that succeed, the lock was
/// handed back.
pub proof fn law_one_contender_at_a_time(start: usize, steps: Seq<WordStep>, i: int, j: int)
    requires
        0 <= i < j < steps.len(),
        acquires(start, steps, i),
        acquires(start, steps, j),
    ensures
        exists|k: int| i < k < j && #[trigger] hands_back(steps, k),
{
    if forall|k: int| i < k < j ==> !#[trigger] hands_back(steps, k) {
        lemma_contended_until_handed_back(start, steps, i, j);
    }
}

/// The `CONTENDED` bit stays set until the lock is handed back.
proof fn lemma_contended_until_handed_back(start: usize, steps: Seq<WordStep>, i: int, j: int)
    requires
        0 <= i < j <= steps.len(),
        steps[i] is Contend,
        forall|k: int| i < k < j ==> !#[trigger] hands_back(steps, k),
    ensures
        word_after(start, steps, j as nat) & CONTENDED != 0,
{
    let word = word_after(start, steps, (j - 1) as nat);
    assert((word | 0x0200_0000) & 0x0200_0000 != 0) by (bit_vector);
    if i < j - 1 {
        assert(!hands_back(steps, j - 1));
    }
}

} // verus!
