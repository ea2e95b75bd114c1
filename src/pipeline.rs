//! The decisions of the producer and consumer loops: when the producer stops,
//! and what the consumer does with each block.
use vstd::prelude::*;
use crate::events::{appended, flushes, ingested, EventBuffer, ScoredBlock};
use crate::spectrum::{hit_count, hit_count_spec, spectra_view};

verus! {

/// What the producer does with the outcome of one device read.
#[derive(Clone, Copy, Debug, PartialEq, Eq, Structural)]
pub enum ProducerAction {
    /// Hand the block to the consumer and read again.
    Forward,
    /// Stop reading and release the device.
    Stop,
}

/// Decision after a read of a block of `block_len` bytes: `read` is the
/// number of bytes read, or `None` when the read failed. A failed or short
/// read stops the producer, since samples would otherwise be lost silently.
pub fn after_read(read: Option<usize>, block_len: usize) -> (r: ProducerAction)
    ensures
        r == ProducerAction::Forward <==> (read matches Some(n) && n >= block_len),
{
    match read {
        Some(n) => if n >= block_len {
            ProducerAction::Forward
        } else {
            ProducerAction::Stop
        },
        None => ProducerAction::Stop,
    }
}

/// Consumer step for one block: counts its interesting windows from their
/// spectra and ingests the block with that count. Returns the history to
/// write out when the block ends a burst.
pub fn process_block(
    buffer: &mut EventBuffer,
    data: Vec<u8>,
    spectra: &Vec<Vec<u32>>,
) -> (r: Option<Vec<ScoredBlock>>)
    requires
        spectra@.len() <= u32::MAX,
        forall|i: int| 0 <= i < spectra@.len() ==> (#[trigger] spectra@[i])@.len() >= 2,
    ensures
        ({
            let hits = hit_count_spec(spectra_view(spectra@)) as u32;
            &&& final(buffer)@ == ingested(old(buffer)@, data@, hits)
            &&& r.is_some() == flushes(old(buffer)@, data@, hits)
            &&& r matches Some(out) ==> out@.map_values(|b: ScoredBlock| b@) == appended(
                old(buffer)@,
                data@,
                hits,
            )
        }),
{
    let hits = hit_count(spectra);
    buffer.ingest(data, hits)
}

/// What to do when a shutdown is requested.
#[derive(Clone, Copy, Debug, PartialEq, Eq, Structural)]
pub enum ShutdownAction {
    /// Set the shutdown flag and let both loops finish their current step.
    RequestStop,
    /// A stop was already requested: end the process at once.
    ExitNow,
}

/// Decision on a shutdown request, given whether one is already pending.
pub fn on_shutdown_request(already_requested: bool) -> (r: ShutdownAction)
    ensures
        r == (if already_requested {
            ShutdownAction::ExitNow
        } else {
            ShutdownAction::RequestStop
        }),
{
    if already_requested {
        ShutdownAction::ExitNow
    } else {
        ShutdownAction::RequestStop
    }
}

/// The `k`-th analysis window of a block: `2 * width` bytes, that is `width`
/// I/Q pairs, starting at byte `2 * width * k`.
pub open spec fn window_at(block: Seq<u8>, width: int, k: int) -> Seq<u8> {
    block.subrange(2 * width * k, 2 * width * (k + 1))
}

/// Splits a block into consecutive, non-overlapping windows of `width` I/Q
/// pairs; trailing bytes that do not fill a window are left out.
pub fn split_windows(block: &Vec<u8>, width: usize) -> (r: Vec<Vec<u8>>)
    requires
        width >= 1,
        2 * width <= usize::MAX,
    ensures
        r@.len() == block@.len() as int / (2 * width as int),
        forall|k: int| 0 <= k < r@.len() ==> (#[trigger] r@[k])@ == window_at(block@, width as int, k),
{
    let size: usize = 2 * width;
    let total: usize = block.len();
    let count: usize = total / size;
    let mut windows: Vec<Vec<u8>> = Vec::new();
    let mut k: usize = 0;
    while k < count
        invariant
            size == 2 * width,
            width >= 1,
            total == block@.len(),
            count == block@.len() as int / (size as int),
            k <= count,
            windows@.len() == k,
            forall|j: int| 0 <= j < k ==> (#[trigger] windows@[j])@ == window_at(block@, width as int, j),
        decreases count - k,
    {
        proof {
            let n = block@.len() as int;
            vstd::arithmetic::div_mod::lemma_fundamental_div_mod(n, size as int);
            vstd::arithmetic::div_mod::lemma_mod_pos_bound(n, size as int);
            assert(size * count <= n);
            assert(size * (k + 1) <= size * count) by (nonlinear_arith)
                requires k < count, size >= 1;
            assert(size * k + size == size * (k + 1)) by (nonlinear_arith);
            assert(size * k <= total);
        }
        let start: usize = size * k;
        let mut w: Vec<u8> = Vec::new();
        let mut i: usize = 0;
        while i < size
            invariant
                start == size * k,
                start + size <= block@.len(),
                total == block@.len(),
                i <= size,
                w@ == block@.subrange(start as int, start + i),
            decreases size - i,
        {
            w.push(block[start + i]);
            i = i + 1;
            assert(w@ =~= block@.subrange(start as int, start + i));
        }
        assert(2 * width * (k + 1) == start + size) by (nonlinear_arith)
            requires start == size * k, size == 2 * width;
        windows.push(w);
        k = k + 1;
    }
    windows
}

} // verus!
