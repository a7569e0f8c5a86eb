//! The rate throttler: coalesces a high-frequency stream of small byte
//! chunks into larger batches released at most once per interval.
//!
//! The clock stays outside: `push_at` and `flush_at` take the current
//! time as an argument and are exact functions of state, time and chunk;
//! `push` and `flush` read the clock and delegate.
//!
//! Known limitation, by design: no upper bound is put on the buffer, so a
//! busy link grows memory until the next emission.

use vstd::prelude::*;
use crate::sys::now_millis;

verus! {

/// The batching buffer, its interval, and the time of the last emission.
pub struct DataThrottler {
    buffer: Vec<u8>,
    interval_ms: u64,
    last_emit_ms: Option<u64>,
}

/// The mathematical reading of a DataThrottler.
pub ghost struct DataThrottlerView {
    pub pending: Seq<u8>,
    pub interval: u64,
    pub last_emit: Option<u64>,
}

impl View for DataThrottler {
    type V = DataThrottlerView;

    closed spec fn view(&self) -> DataThrottlerView {
        (DataThrottlerView {
            pending: self.buffer@,
            interval: self.interval_ms,
            last_emit: match self.last_emit_ms {
                Some(t) => Some(t),
                None => None,
            },
        })
    }
}

/// Whether a push at the given time emits: always on the first push,
/// afterwards exactly when at least the interval has elapsed since the
/// last emission (a clock reading behind the last emission counts as no
/// elapsed time).
pub open spec fn spec_should_emit(s: DataThrottlerView, now_ms: u64) -> bool {
    match s.last_emit {
        None => true,
        Some(t) => now_ms >= t && now_ms - t >= s.interval,
    }
}

/// The state after a push that withheld its batch: the chunk is
/// appended in FIFO order, nothing else moves.
pub open spec fn spec_push_buffered(s: DataThrottlerView, data: Seq<u8>) -> DataThrottlerView {
    (DataThrottlerView { pending: s.pending + data, interval: s.interval, last_emit: s.last_emit })
}

impl DataThrottler {
    /// A throttler with an empty buffer that will emit on its first push.
    pub fn new(interval_ms: u64) -> (r: Self)
        ensures
            r@.pending == Seq::<u8>::empty(),
            r@.interval == interval_ms,
            r@.last_emit is None,
    {
        let r = DataThrottler { buffer: Vec::new(), interval_ms, last_emit_ms: None };
        proof {
            assert(r@.pending =~= Seq::<u8>::empty());
        }
        r
    }

    /// Appends the chunk to the buffer, then emits the whole buffer if
    /// and only if at least the interval has elapsed at the given time
    /// since the last emission (or nothing was emitted yet); an emission
    /// records the given time as the new last-emission instant.
    pub fn push_at(&mut self, now_ms: u64, data: &[u8]) -> (r: Option<Vec<u8>>)
        ensures
            final(self)@.interval == old(self)@.interval,
            (r is Some) == spec_should_emit(old(self)@, now_ms),
            (match r {
                Some(batch) => batch@ == old(self)@.pending + data@ && final(self)@.pending
                    == Seq::<u8>::empty() && final(self)@.last_emit == Some(now_ms),
                None => final(self)@ == spec_push_buffered(old(self)@, data@),
            }),
    {
        let ghost oldpending = self@.pending;
        let mut i: usize = 0;
        while i < data.len()
            invariant
                0 <= i <= data@.len(),
                self.buffer@ == oldpending + data@.take(i as int),
                self.interval_ms == old(self).interval_ms,
                self.last_emit_ms == old(self).last_emit_ms,
            decreases data@.len() - i,
        {
            self.buffer.push(data[i]);
            proof {
                assert(oldpending + data@.take(i + 1) =~= (oldpending + data@.take(i as int)).push(
                    data@[i as int],
                ));
            }
            i = i + 1;
        }
        proof {
            assert(oldpending + data@.take(data@.len() as int) =~= oldpending + data@);
        }
        let emit: bool = match self.last_emit_ms {
            None => true,
            Some(t) => now_ms >= t && now_ms - t >= self.interval_ms,
        };
        if emit {
            let mut batch: Vec<u8> = Vec::new();
            let mut j: usize = 0;
            while j < self.buffer.len()
                invariant
                    0 <= j <= self.buffer@.len(),
                    batch@ == self.buffer@.take(j as int),
                    self.buffer@ == oldpending + data@,
                    self.interval_ms == old(self).interval_ms,
                decreases self.buffer@.len() - j,
            {
                batch.push(self.buffer[j]);
                proof {
                    assert(self.buffer@.take(j + 1) =~= self.buffer@.take(j as int).push(
                        self.buffer@[j as int],
                    ));
                }
                j = j + 1;
            }
            proof {
                assert(self.buffer@.take(self.buffer@.len() as int) =~= self.buffer@);
            }
            self.buffer.clear();
            self.last_emit_ms = Some(now_ms);
            proof {
                assert(self@.pending =~= Seq::<u8>::empty());
            }
            Some(batch)
        } else {
            None
        }
    }

    /// Appends the chunk and emits by the interval, reading the clock:
    /// what comes back is `push_at` at some reading, so either the exact
    /// accumulated batch comes out, stamping the emission instant, or the
    /// chunk is retained in FIFO order. The first push always emits.
    pub fn push(&mut self, data: &[u8]) -> (r: Option<Vec<u8>>)
        ensures
            final(self)@.interval == old(self)@.interval,
            (match r {
                Some(batch) => batch@ == old(self)@.pending + data@ && final(self)@.pending
                    == Seq::<u8>::empty() && final(self)@.last_emit is Some,
                None => final(self)@ == spec_push_buffered(old(self)@, data@),
            }),
            old(self)@.last_emit is None ==> r is Some,
    {
        let now_signed = now_millis();
        let now: u64 = if now_signed < 0 {
            0
        } else {
            now_signed as u64
        };
        self.push_at(now, data)
    }

    /// Emits and clears the buffer unconditionally, unless it is empty;
    /// an emission records the given time as the new last-emission
    /// instant.
    pub fn flush_at(&mut self, now_ms: u64) -> (r: Option<Vec<u8>>)
        ensures
            final(self)@.interval == old(self)@.interval,
            (r is None) == (old(self)@.pending.len() == 0),
            (match r {
                Some(batch) => batch@ == old(self)@.pending && final(self)@.pending
                    == Seq::<u8>::empty() && final(self)@.last_emit == Some(now_ms),
                None => final(self)@ == old(self)@,
            }),
    {
        if self.buffer.len() == 0 {
            return None;
        }
        let mut batch: Vec<u8> = Vec::new();
        let mut j: usize = 0;
        while j < self.buffer.len()
            invariant
                0 <= j <= self.buffer@.len(),
                batch@ == self.buffer@.take(j as int),
                self.buffer@ == old(self)@.pending,
                self.interval_ms == old(self).interval_ms,
                self.last_emit_ms == old(self).last_emit_ms,
            decreases self.buffer@.len() - j,
        {
            batch.push(self.buffer[j]);
            proof {
                assert(self.buffer@.take(j + 1) =~= self.buffer@.take(j as int).push(
                    self.buffer@[j as int],
                ));
            }
            j = j + 1;
        }
        proof {
            assert(self.buffer@.take(self.buffer@.len() as int) =~= self.buffer@);
        }
        self.buffer.clear();
        self.last_emit_ms = Some(now_ms);
        proof {
            assert(self@.pending =~= Seq::<u8>::empty());
        }
        Some(batch)
    }

    /// Emits and clears any non-empty buffer, reading the clock for the
    /// new emission instant.
    pub fn flush(&mut self) -> (r: Option<Vec<u8>>)
        ensures
            final(self)@.interval == old(self)@.interval,
            (r is None) == (old(self)@.pending.len() == 0),
            (match r {
                Some(batch) => batch@ == old(self)@.pending && final(self)@.pending
                    == Seq::<u8>::empty() && final(self)@.last_emit is Some,
                None => final(self)@ == old(self)@,
            }),
    {
        let now_signed = now_millis();
        let now: u64 = if now_signed < 0 {
            0
        } else {
            now_signed as u64
        };
        self.flush_at(now)
    }

    /// Drops any buffered bytes; the interval and the last emission time
    /// are kept.
    pub fn clear(&mut self)
        ensures
            final(self)@.pending == Seq::<u8>::empty(),
            final(self)@.interval == old(self)@.interval,
            final(self)@.last_emit == old(self)@.last_emit,
    {
        self.buffer.clear();
        proof {
            assert(self@.pending =~= Seq::<u8>::empty());
        }
    }

    /// Changes the interval; buffered bytes are kept.
    pub fn set_interval(&mut self, interval_ms: u64)
        ensures
            final(self)@.pending == old(self)@.pending,
            final(self)@.interval == interval_ms,
            final(self)@.last_emit == old(self)@.last_emit,
    {
        self.interval_ms = interval_ms;
    }
}

impl Default for DataThrottler {
    /// A throttler with the default 50 ms interval.
    fn default() -> (r: Self)
        ensures
            r@.pending == Seq::<u8>::empty(),
            r@.interval == 50,
            r@.last_emit is None,
    {
        DataThrottler::new(50)
    }
}

/// All pushed chunks, concatenated in order.
pub open spec fn concat_chunks(chunks: Seq<Seq<u8>>) -> Seq<u8>
    decreases chunks.len(),
{
    if chunks.len() == 0 {
        Seq::empty()
    } else {
        chunks[0] + concat_chunks(chunks.drop_first())
    }
}

/// The throttler state after a run of pushes none of which emitted: each
/// step is the buffered case of `push_at`, as its contract fixes it.
pub open spec fn buffered_state_after(s: DataThrottlerView, chunks: Seq<Seq<u8>>)
    -> DataThrottlerView
    decreases chunks.len(),
{
    if chunks.len() == 0 {
        s
    } else {
        buffered_state_after(spec_push_buffered(s, chunks[0]), chunks.drop_first())
    }
}

/// Throttling never coalesces bytes away: a run of pushes that all
/// returned None leaves the buffer holding exactly the initial contents
/// followed by the concatenation of every pushed chunk, in FIFO order,
/// with the interval and the last emission instant untouched. Starting
/// from an empty buffer, a flush after such a run therefore returns
/// precisely that concatenation (when it is non-empty; an empty one has
/// nothing to flush).
pub proof fn lemma_throttler_conserves_bytes(s: DataThrottlerView, chunks: Seq<Seq<u8>>)
    ensures
        buffered_state_after(s, chunks).pending == s.pending + concat_chunks(chunks),
        buffered_state_after(s, chunks).interval == s.interval,
        buffered_state_after(s, chunks).last_emit == s.last_emit,
    decreases chunks.len(),
{
    if chunks.len() == 0 {
        assert(s.pending + concat_chunks(chunks) =~= s.pending);
    } else {
        lemma_throttler_conserves_bytes(spec_push_buffered(s, chunks[0]), chunks.drop_first());
        assert((s.pending + chunks[0]) + concat_chunks(chunks.drop_first()) =~= s.pending + (
        chunks[0] + concat_chunks(chunks.drop_first())));
    }
}

} // verus!
