//! A reader/writer spin-lock kept in one unsigned word.
//!
//! The low half of the word counts the readers that have registered, the high
//! half the writers. A reader registers by adding one and is admitted once it
//! sees no writer registered. A writer registers by adding one to the high half
//! and is admitted only if the whole word was zero just before; otherwise it
//! withdraws and bids again later. Nothing is queued, so sustained reading can
//! keep a writer out for as long as it lasts.
//!
//! `SpinRwLock` holds the word for a single owner, who takes every step of the
//! protocol through `&mut self`. The decisions of the protocol, `read_admitted`
//! and `write_admitted`, are plain functions of an observed word, so that a
//! lock shared between threads can take them on what its atomic accesses return.

use vstd::prelude::*;

verus! {

/// Width in bits of each half of the lock word.
pub open spec fn half_bits() -> nat {
    (usize::BITS / 2) as nat
}

/// What one registered writer adds to the lock word: two to the power
/// `half_bits()`.
pub open spec fn unit() -> nat {
    if usize::BITS == 64 {
        0x1_0000_0000
    } else {
        0x1_0000
    }
}

/// Number of readers registered in `word`: its low half.
pub open spec fn readers_of(word: usize) -> nat {
    (word as nat) % unit()
}

/// Number of writers registered in `word`: its high half.
pub open spec fn writers_of(word: usize) -> nat {
    (word as nat) / unit()
}

/// The word that an atomic fetch-and-add of `n` leaves behind: the sum, wrapped
/// to the width of the word.
pub open spec fn raised(word: usize, n: usize) -> usize {
    if word + n > usize::MAX {
        (word + n - (usize::MAX + 1)) as usize
    } else {
        (word + n) as usize
    }
}

/// The word that an atomic fetch-and-subtract of `n` leaves behind: the
/// difference, wrapped to the width of the word.
pub open spec fn lowered(word: usize, n: usize) -> usize {
    if word < n {
        (word - n + (usize::MAX + 1)) as usize
    } else {
        (word - n) as usize
    }
}

/// One writer's unit is two to the power of the width of a half, and the two
/// halves together fill the word.
pub proof fn lemma_unit_is_power()
    ensures
        unit() == vstd::arithmetic::power2::pow2(half_bits()),
        unit() * unit() == usize::MAX + 1,
{
    vstd::arithmetic::power2::lemma2_to64();
    if usize::BITS == 64 {
        assert(0x1_0000_0000 * 0x1_0000_0000 == 0x1_0000_0000_0000_0000) by (nonlinear_arith);
    } else {
        assert(0x1_0000 * 0x1_0000 == 0x1_0000_0000) by (nonlinear_arith);
    }
}

/// A word is its writers times the unit plus its readers, and the readers are
/// fewer than the unit.
pub proof fn lemma_word_splits(word: usize)
    ensures
        word == writers_of(word) * unit() + readers_of(word),
        readers_of(word) < unit(),
        writers_of(word) < unit(),
{
    lemma_unit_is_power();
    vstd::arithmetic::div_mod::lemma_fundamental_div_mod(word as int, unit() as int);
    assert(writers_of(word) < unit()) by (nonlinear_arith)
        requires
            word == writers_of(word) * unit() + readers_of(word),
            word < unit() * unit(),
            unit() > 0,
    ;
}

/// A word made of `writers` units and `readers` ones, each count below the
/// unit, has exactly these counts.
pub proof fn lemma_counts_of(word: usize, writers: nat, readers: nat)
    requires
        readers < unit(),
        word == writers * unit() + readers,
    ensures
        writers_of(word) == writers,
        readers_of(word) == readers,
{
    vstd::arithmetic::div_mod::lemma_fundamental_div_mod_converse(
        word as int,
        unit() as int,
        writers as int,
        readers as int,
    );
}

/// Unless the reader half is full, registering a reader raises the count of
/// readers by one and leaves the writers as they are.
pub proof fn lemma_reader_registered(word: usize)
    requires
        readers_of(word) + 1 < unit(),
    ensures
        readers_of(raised(word, 1)) == readers_of(word) + 1,
        writers_of(raised(word, 1)) == writers_of(word),
{
    lemma_word_splits(word);
    lemma_unit_is_power();
    assert(word + 1 < unit() * unit()) by (nonlinear_arith)
        requires
            word == writers_of(word) * unit() + readers_of(word),
            readers_of(word) + 1 < unit(),
            writers_of(word) < unit(),
    ;
    lemma_counts_of(raised(word, 1), writers_of(word), readers_of(word) + 1);
}

/// A reader that gives back its hold lowers the count of readers by one and
/// leaves the writers as they are.
pub proof fn lemma_reader_released(word: usize)
    requires
        readers_of(word) >= 1,
    ensures
        readers_of(lowered(word, 1)) == readers_of(word) - 1,
        writers_of(lowered(word, 1)) == writers_of(word),
{
    lemma_word_splits(word);
    lemma_counts_of(lowered(word, 1), writers_of(word), (readers_of(word) - 1) as nat);
}

/// Unless the writer half is full, registering a writer raises the count of
/// writers by one and leaves the readers as they are.
pub proof fn lemma_writer_registered(word: usize)
    requires
        writers_of(word) + 1 < unit(),
    ensures
        writers_of(raised(word, unit() as usize)) == writers_of(word) + 1,
        readers_of(raised(word, unit() as usize)) == readers_of(word),
{
    lemma_word_splits(word);
    lemma_unit_is_power();
    assert(word + unit() < unit() * unit() && (writers_of(word) + 1) * unit() + readers_of(word)
        == word + unit()) by (nonlinear_arith)
        requires
            word == writers_of(word) * unit() + readers_of(word),
            readers_of(word) < unit(),
            writers_of(word) + 1 < unit(),
    ;
    lemma_counts_of(raised(word, unit() as usize), writers_of(word) + 1, readers_of(word));
}

/// A writer that gives back its hold, or withdraws, lowers the count of
/// writers by one and leaves the readers as they are.
pub proof fn lemma_writer_released(word: usize)
    requires
        writers_of(word) >= 1,
    ensures
        writers_of(lowered(word, unit() as usize)) == writers_of(word) - 1,
        readers_of(lowered(word, unit() as usize)) == readers_of(word),
{
    lemma_word_splits(word);
    lemma_unit_is_power();
    assert(word >= unit() && (writers_of(word) - 1) * unit() + readers_of(word) == word - unit())
        by (nonlinear_arith)
        requires
            word == writers_of(word) * unit() + readers_of(word),
            writers_of(word) >= 1,
    ;
    lemma_counts_of(
        lowered(word, unit() as usize),
        (writers_of(word) - 1) as nat,
        readers_of(word),
    );
}

/// Giving back what was registered restores the word, whatever it was.
pub proof fn lemma_release_restores(word: usize, n: usize)
    ensures
        lowered(raised(word, n), n) == word,
        raised(lowered(word, n), n) == word,
{
}

/// Width in bits of the reader half of the lock word.
pub fn reader_bits() -> (bits: usize)
    ensures
        bits == half_bits(),
        bits == usize::BITS / 2,
{
    let bits: u32 = usize::BITS / 2;
    bits as usize
}

/// What one registered writer adds to the lock word.
pub fn writer_unit() -> (one_writer: usize)
    ensures
        one_writer == unit(),
{
    let bits: usize = reader_bits();
    assert(bits == 16 ==> 1usize << bits == 0x1_0000) by (bit_vector);
    assert(bits == 32 && usize::BITS == 64 ==> 1usize << bits == 0x1_0000_0000) by (bit_vector);
    1usize << bits
}

/// Whether a reader that observed `observed` may proceed: no writer is
/// registered in it.
pub fn read_admitted(observed: usize) -> (admitted: bool)
    ensures
        admitted == (writers_of(observed) == 0),
{
    let bits: usize = reader_bits();
    proof {
        vstd::bits::lemma_usize_shr_is_div(observed, bits);
        vstd::arithmetic::power2::lemma2_to64();
    }
    observed >> bits == 0
}

/// Whether a writer whose registration observed `observed` just before it may
/// proceed: nobody at all was registered.
pub fn write_admitted(observed: usize) -> (admitted: bool)
    ensures
        admitted == (observed == 0),
{
    observed == 0
}

/// The lock word in the hands of a single owner.
#[derive(Debug)]
pub struct SpinRwLock {
    word: usize,
}

impl SpinRwLock {
    /// The current lock word.
    pub closed spec fn word(&self) -> usize {
        self.word
    }

    /// Number of readers registered.
    pub open spec fn readers(&self) -> nat {
        readers_of(self.word())
    }

    /// Number of writers registered.
    pub open spec fn writers(&self) -> nat {
        writers_of(self.word())
    }

    /// Nobody is registered.
    pub open spec fn is_idle(&self) -> bool {
        self.word() == 0
    }

    /// An idle lock.
    pub fn new() -> (lock: Self)
        ensures
            lock.is_idle(),
    {
        SpinRwLock { word: 0 }
    }

    /// Adds `n` to the word, wrapping, and returns the word as it was.
    fn fetch_add(&mut self, n: usize) -> (seen: usize)
        ensures
            seen == old(self).word(),
            final(self).word() == raised(old(self).word(), n),
    {
        let seen: usize = self.word;
        self.word = seen.wrapping_add(n);
        seen
    }

    /// Subtracts `n` from the word, wrapping, and returns the word as it was.
    fn fetch_sub(&mut self, n: usize) -> (seen: usize)
        ensures
            seen == old(self).word(),
            final(self).word() == lowered(old(self).word(), n),
    {
        let seen: usize = self.word;
        self.word = seen.wrapping_sub(n);
        seen
    }

    /// The word as it stands.
    pub fn load(&self) -> (seen: usize)
        ensures
            seen == self.word(),
    {
        self.word
    }

    /// Registers a reader and says whether it is admitted at once. A reader
    /// that is not admitted stays registered and waits until `load` shows a
    /// word that `read_admitted` accepts.
    pub fn register_reader(&mut self) -> (admitted: bool)
        ensures
            final(self).word() == raised(old(self).word(), 1),
            admitted == (old(self).writers() == 0),
    {
        let seen: usize = self.fetch_add(1);
        read_admitted(seen)
    }

    /// Registers a writer and says whether it is admitted. A writer that is not
    /// admitted must withdraw with `wunlock` and may bid again once `load`
    /// shows a word that `write_admitted` accepts.
    pub fn register_writer(&mut self) -> (admitted: bool)
        ensures
            final(self).word() == raised(old(self).word(), unit() as usize),
            admitted == old(self).is_idle(),
    {
        let seen: usize = self.fetch_add(writer_unit());
        write_admitted(seen)
    }

    /// Takes the lock for reading. The owner must not call this while a writer
    /// is registered: the wait would never end.
    pub fn rlock(&mut self)
        requires
            old(self).writers() == 0,
        ensures
            final(self).word() == raised(old(self).word(), 1),
    {
        let admitted: bool = self.register_reader();
        assert(admitted);
    }

    /// Gives back one reader's hold.
    pub fn runlock(&mut self)
        ensures
            final(self).word() == lowered(old(self).word(), 1),
    {
        self.fetch_sub(1);
    }

    /// Takes the lock for writing. The owner must not call this while anybody
    /// is registered: the wait would never end.
    pub fn wlock(&mut self)
        requires
            old(self).is_idle(),
        ensures
            final(self).word() == unit(),
    {
        let admitted: bool = self.register_writer();
        assert(admitted);
    }

    /// Gives back a writer's hold, or withdraws a writer's registration that
    /// was not admitted.
    pub fn wunlock(&mut self)
        ensures
            final(self).word() == lowered(old(self).word(), unit() as usize),
    {
        self.fetch_sub(writer_unit());
    }
}

} // verus!
