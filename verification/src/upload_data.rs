//! The synthetic, self-throttling data source that feeds the upload test.
//!
//! An upload worker streams a request body without materializing it: each
//! pull produces at most [`MAX_CHUNK_BYTES`] bytes of filler until the target
//! size is reached, and a pull after the time budget has elapsed signals a
//! clean "time's up" end of the stream.

use vstd::prelude::*;

use crate::clock;

verus! {

/// Upper bound on the bytes produced by one pull, whatever capacity the
/// caller offers; matches a typical chunked-transfer frame size.
pub const MAX_CHUNK_BYTES: u64 = 8192;

/// The failure a pull signals once the time budget has elapsed. It means
/// "stop sending, this worker is done", not a defect.
#[derive(Clone, Copy, PartialEq, Eq, Structural, Debug)]
pub enum UploadReadError {
    TimedOut,
}

/// Byte at position `i` of the filler stream: the 62-character alphabet
/// `0`..`9`, `A`..`Z`, `a`..`z`, repeated. Only the count of bytes matters to
/// the receiver; the content is fixed so that it costs nothing to regenerate.
pub open spec fn filler_byte(i: int) -> u8 {
    let r = i % 62;
    if r < 10 {
        (48 + r) as u8
    } else if r < 36 {
        (65 + (r - 10)) as u8
    } else {
        (97 + (r - 36)) as u8
    }
}

/// Bytes one pull of capacity `k` yields from a source that has emitted `cur`
/// of `total` target bytes and whose time budget has not yet elapsed.
pub open spec fn pull_yield(total: nat, cur: nat, k: nat) -> nat {
    if cur < total {
        if k < MAX_CHUNK_BYTES { k } else { MAX_CHUNK_BYTES as nat }
    } else {
        0
    }
}

/// Emitted count after a sequence of in-budget pulls with the given
/// capacities, starting from `cur` emitted bytes.
pub open spec fn emitted_after(total: nat, cur: nat, pulls: Seq<nat>) -> nat
    decreases pulls.len(),
{
    if pulls.len() == 0 {
        cur
    } else {
        emitted_after(total, cur + pull_yield(total, cur, pulls[0]), pulls.drop_first())
    }
}

/// Sum of pull capacities, each capped at [`MAX_CHUNK_BYTES`]: the most a
/// sequence of pulls can draw from a source.
pub open spec fn capped_sum(pulls: Seq<nat>) -> nat
    decreases pulls.len(),
{
    if pulls.len() == 0 {
        0
    } else {
        (if pulls[0] < MAX_CHUNK_BYTES { pulls[0] } else { MAX_CHUNK_BYTES as nat })
            + capped_sum(pulls.drop_first())
    }
}

/// Law: pulls whose capped capacities sum to exactly the remaining target
/// drive the source to exactly its target, no further: requesting reads that
/// together sum to `total` before the budget elapses ends with every target
/// byte emitted.
pub proof fn lemma_pulls_reach_target(total: nat, cur: nat, pulls: Seq<nat>)
    requires
        cur + capped_sum(pulls) == total,
    ensures
        emitted_after(total, cur, pulls) == total,
    decreases pulls.len(),
{
    if pulls.len() > 0 {
        let k: nat = if pulls[0] < MAX_CHUNK_BYTES { pulls[0] } else { MAX_CHUNK_BYTES as nat };
        if cur < total {
            lemma_pulls_reach_target(total, cur + k, pulls.drop_first());
        } else {
            lemma_pulls_reach_target(total, cur, pulls.drop_first());
        }
    }
}

/// A bounded byte stream: it produces filler until `total_data_size` bytes
/// have gone out or `timeout_in_sec` seconds have passed since construction,
/// whichever comes first.
pub struct UploadData {
    pub total_data_size: u64,
    pub timeout_in_sec: u64,
    pub start_time: std::time::Instant,
    pub current_size: u64,
}

impl UploadData {
    /// The counters stay clear of `u64` overflow: one pull advances
    /// `current_size` by at most [`MAX_CHUNK_BYTES`] past the target, and the
    /// budget converts to milliseconds without wrapping.
    pub open spec fn wf(self) -> bool {
        &&& self.total_data_size <= u64::MAX - MAX_CHUNK_BYTES
        &&& self.current_size <= self.total_data_size + MAX_CHUNK_BYTES
        &&& self.timeout_in_sec <= u64::MAX / 1000
    }

    /// A fresh source targeting `n` bytes under a budget of `timeout_secs`
    /// seconds, with its clock started now.
    pub fn new(n: u64, timeout_secs: u64) -> (r: UploadData)
        requires
            n <= u64::MAX - MAX_CHUNK_BYTES,
            timeout_secs <= u64::MAX / 1000,
        ensures
            r.total_data_size == n,
            r.timeout_in_sec == timeout_secs,
            r.current_size == 0,
            r.wf(),
    {
        UploadData {
            total_data_size: n,
            timeout_in_sec: timeout_secs,
            start_time: clock::instant_now(),
            current_size: 0,
        }
    }

    /// One pull, given the elapsed time the caller observed.
    ///
    /// At or past the budget the pull fails cleanly and changes nothing.
    /// Within the budget it yields exactly [`pull_yield`] bytes of filler
    /// into the front of `buf`: a capped chunk while target bytes remain, a
    /// zero-length clean end once the target is met.
    pub fn read_step(&mut self, elapsed_in_millis: u64, buf: &mut Vec<u8>) -> (r: Result<
        usize,
        UploadReadError,
    >)
        requires
            old(self).wf(),
        ensures
            final(self).wf(),
            final(self).total_data_size == old(self).total_data_size,
            final(self).timeout_in_sec == old(self).timeout_in_sec,
            final(self).start_time == old(self).start_time,
            final(self).current_size >= old(self).current_size,
            final(buf).len() == old(buf).len(),
            (r is Err) <==> elapsed_in_millis >= old(self).timeout_in_sec * 1000,
            r is Err ==> *final(self) == *old(self) && final(buf)@ == old(buf)@,
            r matches Ok(n) ==> {
                &&& n <= MAX_CHUNK_BYTES
                &&& n == pull_yield(
                    old(self).total_data_size as nat,
                    old(self).current_size as nat,
                    old(buf).len() as nat,
                )
                &&& final(self).current_size == old(self).current_size + n
                &&& forall|j: int| 0 <= j < n ==> final(buf)[j] == filler_byte(j)
                &&& forall|j: int| n <= j < old(buf).len() ==> final(buf)[j] == old(buf)[j]
            },
    {
        if elapsed_in_millis >= self.timeout_in_sec * 1000 {
            return Err(UploadReadError::TimedOut);
        }
        if self.current_size < self.total_data_size {
            let chunk: usize = if (buf.len() as u64) < MAX_CHUNK_BYTES {
                buf.len()
            } else {
                MAX_CHUNK_BYTES as usize
            };
            let ghost buf0 = buf@;
            for idx in 0..chunk
                invariant
                    chunk <= buf.len(),
                    buf.len() == buf0.len(),
                    forall|j: int| 0 <= j < idx ==> buf[j] == filler_byte(j),
                    forall|j: int| idx <= j < buf0.len() ==> buf[j] == buf0[j],
            {
                buf[idx] = filler_index_byte(idx);
            }
            self.current_size = self.current_size + chunk as u64;
            Ok(chunk)
        } else {
            Ok(0)
        }
    }

    /// One pull against the real clock. The outcome depends on when the call
    /// runs: whatever elapsed time the clock reports, the pull behaves as
    /// [`Self::read_step`] does for that reading, so every outcome either
    /// fails cleanly with nothing changed or yields a capped filler chunk.
    pub fn read(&mut self, buf: &mut Vec<u8>) -> (r: Result<usize, UploadReadError>)
        requires
            old(self).wf(),
        ensures
            final(self).wf(),
            final(self).total_data_size == old(self).total_data_size,
            final(self).timeout_in_sec == old(self).timeout_in_sec,
            final(self).start_time == old(self).start_time,
            final(self).current_size >= old(self).current_size,
            final(buf).len() == old(buf).len(),
            r is Err ==> *final(self) == *old(self) && final(buf)@ == old(buf)@,
            r matches Ok(n) ==> {
                &&& n <= MAX_CHUNK_BYTES
                &&& n == pull_yield(
                    old(self).total_data_size as nat,
                    old(self).current_size as nat,
                    old(buf).len() as nat,
                )
                &&& final(self).current_size == old(self).current_size + n
                &&& forall|j: int| 0 <= j < n ==> final(buf)[j] == filler_byte(j)
                &&& forall|j: int| n <= j < old(buf).len() ==> final(buf)[j] == old(buf)[j]
            },
    {
        let elapsed = clock::duration_as_millis(&clock::instant_elapsed(&self.start_time));
        self.read_step(elapsed, buf)
    }
}

/// Byte at position `i` of the filler stream, computed.
fn filler_index_byte(i: usize) -> (b: u8)
    ensures
        b == filler_byte(i as int),
{
    let r: usize = i % 62;
    if r < 10 {
        48 + r as u8
    } else if r < 36 {
        65 + (r as u8 - 10)
    } else {
        97 + (r as u8 - 36)
    }
}

} // verus!
