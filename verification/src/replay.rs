//! Replay protection for received data packets.

use crate::error::CryptoError;
use vstd::prelude::*;

verus! {

/// Bitmap slider width in bits.
pub const REPLAY_WORD_SIZE: u64 = 64;

/// Number of words in the bitmap.
pub const REPLAY_N_WORDS: usize = 16;

/// Total window width = 1024 packets.
pub const REPLAY_N_BITS: u64 = 1024;

/// Bitmap-based replay protection for received data packets.
///
/// Tracks a sliding window of 1024 nonce values, accepting limited
/// reordering while rejecting duplicated or too-old counters.
#[derive(Debug)]
pub struct ReplayValidator {
    /// One more than the highest nonce received.
    next: u64,
    /// Bitmap of packets within the window: the nonce `n` has bit `n % 1024`.
    bitmap: [u64; REPLAY_N_WORDS],
}

/// What a [`ReplayValidator`] remembers: one more than the highest counter
/// received, and which counters of the window below it have been received.
pub struct ReplayView {
    pub next: int,
    pub received: Set<int>,
}

/// The counters that a window ending before `next` covers.
pub open spec fn in_window(next: int, counter: int) -> bool {
    0 <= counter < next && next - counter <= REPLAY_N_BITS
}

impl ReplayView {
    /// Nothing received yet.
    pub open spec fn fresh() -> ReplayView {
        ReplayView { next: 0, received: Set::empty() }
    }

    /// Only counters of the window are remembered.
    pub open spec fn wf(self) -> bool {
        &&& 0 <= self.next
        &&& forall|n: int| #[trigger] self.received.contains(n) ==> in_window(self.next, n)
    }

    /// Whether a counter is accepted, or why it is not.
    pub open spec fn verdict(self, counter: int) -> Result<(), CryptoError> {
        if counter >= self.next {
            Ok(())
        } else if !in_window(self.next, counter) {
            Err(CryptoError::Encrypt)
        } else if self.received.contains(counter) {
            Err(CryptoError::NonceReplayed)
        } else {
            Ok(())
        }
    }

    /// The state after a counter was marked as received. A counter at or above
    /// `next` moves the window up to it, and what falls out of the window is
    /// forgotten. A counter that is too old changes nothing.
    pub open spec fn marked(self, counter: int) -> ReplayView {
        if counter >= self.next {
            ReplayView {
                next: counter + 1,
                received: self.received.insert(counter).filter(
                    |n: int| in_window(counter + 1, n),
                ),
            }
        } else if in_window(self.next, counter) {
            ReplayView { next: self.next, received: self.received.insert(counter) }
        } else {
            self
        }
    }
}

/// The bit of the bitmap that stands for the counter `n`.
spec fn has_bit(bitmap: Seq<u64>, n: int) -> bool {
    let slot = n % 1024;
    (bitmap[slot / 64] >> ((slot % 64) as u64)) & 1 == 1
}

impl View for ReplayValidator {
    type V = ReplayView;

    closed spec fn view(&self) -> ReplayView {
        ReplayView {
            next: self.next as int,
            received: Set::new(
                |n: int| in_window(self.next as int, n) && has_bit(self.bitmap@, n),
            ),
        }
    }
}

impl ReplayValidator {
    /// Create a new validator starting at nonce 0.
    pub fn new() -> (r: Self)
        ensures
            r@ == ReplayView::fresh(),
    {
        let r = Self { next: 0, bitmap: [0u64; REPLAY_N_WORDS] };
        assert(r@.received =~= Set::<int>::empty());
        r
    }

    /// Quick pre-check before decryption: returns `Ok(())` if the counter
    /// is acceptable, `Err(NonceReplayed)` if duplicate, or
    /// `Err(Encrypt)` if too old.
    ///
    /// Call before expensive decryption to avoid wasting cycles on replays.
    pub fn will_accept(&self, counter: u64) -> (r: Result<(), CryptoError>)
        ensures
            r == self@.verdict(counter as int),
    {
        if counter >= self.next {
            return Ok(());
        }
        if self.next - counter > REPLAY_N_BITS {
            return Err(CryptoError::Encrypt);
        }
        if self.check_bit(counter) {
            return Err(CryptoError::NonceReplayed);
        }
        Ok(())
    }

    /// Mark a counter as received after successful decryption.
    ///
    /// Advances the sliding window. Call only after decryption succeeds. A
    /// counter that is too old leaves the window as it is. The counter
    /// `u64::MAX` is never a packet's nonce.
    pub fn mark_did_receive(&mut self, counter: u64)
        requires
            counter < u64::MAX,
        ensures
            final(self)@ == old(self)@.marked(counter as int),
    {
        let ghost before = *self;
        if counter >= self.next {
            if counter - self.next >= REPLAY_N_BITS {
                self.clear_all();
            } else {
                self.clear_gap(counter);
            }
            self.set_bit(counter);
            self.next = counter + 1;
            proof {
                let c = counter as int;
                assert forall|n: int| in_window(c + 1, n) implies (has_bit(self.bitmap@, n) <==> n == c
                    || before@.received.contains(n)) by {
                    if n != c {
                        lemma_places_apart(n, c);
                    }
                }
                assert(self@.received =~= before@.marked(c).received);
            }
        } else if self.next - counter <= REPLAY_N_BITS {
            self.set_bit(counter);
            proof {
                let c = counter as int;
                let next = before.next as int;
                assert forall|n: int| in_window(next, n) implies (has_bit(self.bitmap@, n) <==> n
                    == c || before@.received.contains(n)) by {
                    if n < c {
                        lemma_places_apart(n, c);
                    } else if c < n {
                        lemma_places_apart(c, n);
                    }
                }
                assert(self@.received =~= before@.marked(c).received);
            }
        }
    }

    /// Every validator remembers counters of its window only.
    pub proof fn remembers_window_only(&self)
        ensures
            self@.wf(),
    {
    }

    // --- Bitmap helpers ---

    /// Clears the bits of the counters from `next` up to `counter`.
    fn clear_gap(&mut self, counter: u64)
        requires
            old(self).next <= counter,
            counter - old(self).next < REPLAY_N_BITS,
        ensures
            final(self).next == old(self).next,
            forall|n: int|
                old(self).next <= n <= counter ==> !#[trigger] has_bit(final(self).bitmap@, n),
            forall|n: int|
                counter - 1024 < n < old(self).next && 0 <= n ==> #[trigger] has_bit(
                    final(self).bitmap@,
                    n,
                ) == has_bit(old(self).bitmap@, n),
    {
        let ghost before = *self;
        let mut i: u64 = self.next;
        while i % REPLAY_WORD_SIZE != 0 && i < counter
            invariant
                self.gap_cleared(before, counter as int, i as int),
                before.next <= i <= counter,
            decreases counter - i,
        {
            let ghost cleared = self.bitmap@;
            self.clear_bit(i);
            proof {
                lemma_gap_bit(cleared, self.bitmap@, before.next as int, counter as int, i as int);
            }
            i += 1;
        }
        while counter - i >= REPLAY_WORD_SIZE
            invariant
                self.gap_cleared(before, counter as int, i as int),
                before.next <= i <= counter,
                i % 64 == 0 || i == counter,
            decreases counter - i,
        {
            let ghost cleared = self.bitmap@;
            self.clear_word(i);
            proof {
                lemma_gap_word(cleared, self.bitmap@, before.next as int, counter as int, i as int);
            }
            i += REPLAY_WORD_SIZE;
        }
        while i < counter
            invariant
                self.gap_cleared(before, counter as int, i as int),
                before.next <= i <= counter,
            decreases counter - i,
        {
            let ghost cleared = self.bitmap@;
            self.clear_bit(i);
            proof {
                lemma_gap_bit(cleared, self.bitmap@, before.next as int, counter as int, i as int);
            }
            i += 1;
        }
        let ghost cleared = self.bitmap@;
        self.clear_bit(counter);
        proof {
            lemma_gap_bit(
                cleared,
                self.bitmap@,
                before.next as int,
                counter as int,
                counter as int,
            );
        }
    }

    /// The bits from `before.next` up to, not including, `i` are clear, and the
    /// bits below that stay in the window are as they were.
    spec fn gap_cleared(self, before: ReplayValidator, counter: int, i: int) -> bool {
        &&& self.next == before.next
        &&& counter - before.next < 1024
        &&& forall|n: int| before.next <= n < i ==> !#[trigger] has_bit(self.bitmap@, n)
        &&& forall|n: int|
            counter - 1024 < n < before.next && 0 <= n ==> #[trigger] has_bit(self.bitmap@, n)
                == has_bit(before.bitmap@, n)
    }

    /// Clears the whole bitmap.
    fn clear_all(&mut self)
        ensures
            final(self).next == old(self).next,
            forall|n: int| 0 <= n ==> !#[trigger] has_bit(final(self).bitmap@, n),
    {
        let mut w: usize = 0;
        while w < REPLAY_N_WORDS
            invariant
                w <= 16,
                self.next == old(self).next,
                forall|k: int| 0 <= k < w ==> self.bitmap@[k] == 0,
            decreases 16 - w,
        {
            self.bitmap[w] = 0;
            w += 1;
        }
        proof {
            assert forall|n: int| 0 <= n implies !#[trigger] has_bit(self.bitmap@, n) by {
                let b = ((n % 1024) % 64) as u64;
                assert(b < 64 ==> (0u64 >> b) & 1 == 0) by (bit_vector);
                assert(self.bitmap@[(n % 1024) / 64] == 0);
            }
        }
    }

    fn set_bit(&mut self, idx: u64)
        ensures
            final(self).next == old(self).next,
            forall|n: int|
                0 <= n ==> #[trigger] has_bit(final(self).bitmap@, n) == (has_bit(
                    old(self).bitmap@,
                    n,
                ) || n % 1024 == idx % 1024),
    {
        let bit_idx: u64 = idx % REPLAY_N_BITS;
        let word: usize = (bit_idx / REPLAY_WORD_SIZE) as usize;
        let bit: u64 = bit_idx % REPLAY_WORD_SIZE;
        let w: u64 = self.bitmap[word];
        self.bitmap[word] = w | (1u64 << bit);
        proof {
            assert forall|n: int| 0 <= n implies #[trigger] has_bit(self.bitmap@, n) == (has_bit(
                old(self).bitmap@,
                n,
            ) || n % 1024 == idx % 1024) by {
                let b = ((n % 1024) % 64) as u64;
                assert(b < 64 && bit < 64 ==> (((w | (1u64 << bit)) >> b) & 1 == 1) == ((w >> b)
                    & 1 == 1 || b == bit)) by (bit_vector);
            }
        }
    }

    fn clear_bit(&mut self, idx: u64)
        ensures
            final(self).next == old(self).next,
            forall|n: int|
                0 <= n ==> #[trigger] has_bit(final(self).bitmap@, n) == (has_bit(
                    old(self).bitmap@,
                    n,
                ) && n % 1024 != idx % 1024),
    {
        let bit_idx: u64 = idx % REPLAY_N_BITS;
        let word: usize = (bit_idx / REPLAY_WORD_SIZE) as usize;
        let bit: u64 = bit_idx % REPLAY_WORD_SIZE;
        let w: u64 = self.bitmap[word];
        self.bitmap[word] = w & !(1u64 << bit);
        proof {
            assert forall|n: int| 0 <= n implies #[trigger] has_bit(self.bitmap@, n) == (has_bit(
                old(self).bitmap@,
                n,
            ) && n % 1024 != idx % 1024) by {
                let b = ((n % 1024) % 64) as u64;
                assert(b < 64 && bit < 64 ==> (((w & !(1u64 << bit)) >> b) & 1 == 1) == ((w >> b)
                    & 1 == 1 && b != bit)) by (bit_vector);
            }
        }
    }

    fn clear_word(&mut self, idx: u64)
        ensures
            final(self).next == old(self).next,
            forall|n: int|
                0 <= n ==> #[trigger] has_bit(final(self).bitmap@, n) == (has_bit(
                    old(self).bitmap@,
                    n,
                ) && (n % 1024) / 64 != (idx % 1024) / 64),
    {
        let bit_idx: u64 = idx % REPLAY_N_BITS;
        let word: usize = (bit_idx / REPLAY_WORD_SIZE) as usize;
        self.bitmap[word] = 0;
        proof {
            assert forall|n: int| 0 <= n implies #[trigger] has_bit(self.bitmap@, n) == (has_bit(
                old(self).bitmap@,
                n,
            ) && (n % 1024) / 64 != (idx % 1024) / 64) by {
                let b = ((n % 1024) % 64) as u64;
                assert(b < 64 ==> (0u64 >> b) & 1 == 0) by (bit_vector);
            }
        }
    }

    fn check_bit(&self, idx: u64) -> (set: bool)
        ensures
            set == has_bit(self.bitmap@, idx as int),
    {
        let bit_idx: u64 = idx % REPLAY_N_BITS;
        let word: usize = (bit_idx / REPLAY_WORD_SIZE) as usize;
        let bit: u64 = bit_idx % REPLAY_WORD_SIZE;
        ((self.bitmap[word] >> bit) & 1) == 1
    }
}

impl Clone for ReplayValidator {
    fn clone(&self) -> (r: Self)
        ensures
            r@ == self@,
    {
        Self { next: self.next, bitmap: self.bitmap }
    }
}

impl Default for ReplayValidator {
    fn default() -> (r: Self)
        ensures
            r@ == ReplayView::fresh(),
    {
        Self::new()
    }
}

/// Clearing the bit of `i` extends a cleared gap by one counter.
proof fn lemma_gap_bit(old_map: Seq<u64>, new_map: Seq<u64>, next: int, counter: int, i: int)
    requires
        0 <= next <= i <= counter,
        counter - next < 1024,
        forall|n: int| next <= n < i ==> !#[trigger] has_bit(old_map, n),
        forall|n: int|
            0 <= n ==> #[trigger] has_bit(new_map, n) == (has_bit(old_map, n) && n % 1024 != i
                % 1024),
    ensures
        forall|n: int| next <= n < i + 1 ==> !#[trigger] has_bit(new_map, n),
        forall|n: int|
            counter - 1024 < n < next && 0 <= n ==> #[trigger] has_bit(new_map, n) == has_bit(
                old_map,
                n,
            ),
{
    assert forall|n: int| counter - 1024 < n < next && 0 <= n implies #[trigger] has_bit(new_map, n)
        == has_bit(old_map, n) by {
        lemma_places_apart(n, i);
    }
}

/// Counters less than a window apart have different places in the bitmap.
proof fn lemma_places_apart(a: int, b: int)
    requires
        0 < b - a < 1024,
    ensures
        a % 1024 != b % 1024,
{
    assert(a == 1024 * (a / 1024) + a % 1024);
    assert(b == 1024 * (b / 1024) + b % 1024);
}

/// Clearing the word of an aligned `i` extends a cleared gap by 64 counters.
proof fn lemma_gap_word(old_map: Seq<u64>, new_map: Seq<u64>, next: int, counter: int, i: int)
    requires
        0 <= next <= i,
        i + 64 <= counter,
        i % 64 == 0,
        counter - next < 1024,
        forall|n: int| next <= n < i ==> !#[trigger] has_bit(old_map, n),
        forall|n: int|
            0 <= n ==> #[trigger] has_bit(new_map, n) == (has_bit(old_map, n) && (n % 1024) / 64
                != (i % 1024) / 64),
    ensures
        forall|n: int| next <= n < i + 64 ==> !#[trigger] has_bit(new_map, n),
        forall|n: int|
            counter - 1024 < n < next && 0 <= n ==> #[trigger] has_bit(new_map, n) == has_bit(
                old_map,
                n,
            ),
{
    assert forall|n: int| next <= n < i + 64 implies !#[trigger] has_bit(new_map, n) by {
        if i <= n {
            lemma_word_of(n);
            lemma_word_of(i);
            assert(n / 64 == i / 64);
        }
    }
    assert forall|n: int| counter - 1024 < n < next && 0 <= n implies #[trigger] has_bit(new_map, n)
        == has_bit(old_map, n) by {
        if (n % 1024) / 64 == (i % 1024) / 64 {
            lemma_word_of(n);
            lemma_word_of(i);
            let (j, k) = (n / 64, i / 64);
            assert(j % 16 == k % 16 && j < k);
            assert(k - j >= 16);
        }
    }
}

/// The word of a counter, from the counter's own word number.
proof fn lemma_word_of(n: int)
    requires
        0 <= n,
    ensures
        (n % 1024) / 64 == (n / 64) % 16,
{
    let (q, r) = (n / 1024, n % 1024);
    assert(n == 1024 * q + r);
    assert(n / 64 == 16 * q + r / 64);
}

} // verus!
