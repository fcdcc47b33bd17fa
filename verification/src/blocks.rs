//! Splitting sample ranges into processing blocks: the audio callback's render
//! blocks, the grain engine's 64-frame tiles and the one-second analysis windows.

use vstd::prelude::*;
use crate::config::{BLOCK, SR};

verus! {

/// Frames per grain-processing tile.
pub const TILE: usize = 64;

/// `spans` cuts `[0, total)` into consecutive spans of `chunk` elements, the last
/// one possibly shorter: span `k` starts at `k * chunk`, every span but the last
/// holds `chunk` elements, the last ends at `total`, and there is no span when
/// `total` is zero.
pub open spec fn is_chunking(spans: Seq<(usize, usize)>, total: int, chunk: int) -> bool {
    &&& (spans.len() == 0 <==> total == 0)
    &&& forall|k: int| 0 <= k < spans.len() ==> (#[trigger] spans[k]).0 == k * chunk
    &&& forall|k: int|
        0 <= k < spans.len() ==> (#[trigger] spans[k]).1 == if k + 1 < spans.len() {
            spans[k].0 + chunk
        } else {
            total
        }
    &&& forall|k: int|
        0 <= k < spans.len() ==> (#[trigger] spans[k]).0 < spans[k].1 <= spans[k].0 + chunk
}

/// Consecutive spans of `chunk` elements covering `[0, total)`, the last one possibly shorter.
pub fn chunk_spans(total: usize, chunk: usize) -> (spans: Vec<(usize, usize)>)
    requires
        chunk > 0,
    ensures
        is_chunking(spans@, total as int, chunk as int),
{
    let mut spans: Vec<(usize, usize)> = Vec::new();
    let mut pos: usize = 0;
    proof {
        assert(0 * chunk == 0) by (nonlinear_arith);
    }
    while pos < total
        invariant
            chunk > 0,
            pos <= total,
            pos < total ==> pos == spans@.len() * chunk,
            spans@.len() == 0 ==> pos == 0,
            spans@.len() > 0 ==> pos == spans@[spans@.len() - 1].1,
            forall|k: int| 0 <= k < spans@.len() ==> (#[trigger] spans@[k]).0 == k * chunk,
            forall|k: int|
                0 <= k < spans@.len() ==> (#[trigger] spans@[k]).1 == if k + 1 < spans@.len() {
                    spans@[k].0 + chunk
                } else {
                    pos as int
                },
            forall|k: int|
                0 <= k < spans@.len() ==> (#[trigger] spans@[k]).0 < spans@[k].1 <= spans@[k].0
                    + chunk,
            spans@.len() > 0 ==> spans@[spans@.len() - 1].1 == spans@[spans@.len() - 1].0 + chunk
                || pos == total,
        decreases total - pos,
    {
        let remaining = total - pos;
        let step = if remaining < chunk { remaining } else { chunk };
        let ghost n = spans@.len();
        proof {
            assert((n + 1) * chunk == n * chunk + chunk) by (nonlinear_arith);
        }
        spans.push((pos, pos + step));
        pos = pos + step;
        proof {
            if step < chunk {
                assert(pos == total);
            }
            assert forall|k: int| 0 <= k < spans@.len() implies (#[trigger] spans@[k]).1 == if k + 1
                < spans@.len() {
                spans@[k].0 + chunk
            } else {
                pos as int
            } by {
                if k + 1 == n {
                    assert(spans@[k].1 == spans@[k].0 + chunk || spans@[k].1 == spans@[k].0 + step);
                }
            }
        }
    }
    spans
}

/// Frames a block renders for an interleaved stereo buffer of `len` samples:
/// half the length, at most one block.
pub fn frames_for_output(len: usize) -> (frames: usize)
    ensures
        frames == if len / 2 < BLOCK { len / 2 } else { BLOCK },
{
    let half = len / 2;
    if half < BLOCK {
        half
    } else {
        BLOCK
    }
}

/// The audio callback's render blocks over an interleaved stereo buffer of `len`
/// samples: `(start, end)` sample ranges of at most `BLOCK` frames each, covering the
/// `len / 2` whole frames in order.
pub fn render_spans(len: usize) -> (spans: Vec<(usize, usize)>)
    ensures
        spans@.len() == chunk_spans_len((len / 2) as int, BLOCK as int),
        forall|k: int|
            0 <= k < spans@.len() ==> (#[trigger] spans@[k]).0 == 2 * (k * BLOCK) && spans@[k].1
                == 2 * (if k + 1 < spans@.len() {
                k * BLOCK + BLOCK
            } else {
                (len / 2) as int
            }),
        forall|k: int|
            0 <= k < spans@.len() ==> (#[trigger] spans@[k]).0 < spans@[k].1 <= spans@[k].0 + 2
                * BLOCK,
        len / 2 == 0 <==> spans@.len() == 0,
{
    let frames = chunk_spans(len / 2, BLOCK);
    let mut spans: Vec<(usize, usize)> = Vec::new();
    let mut k: usize = 0;
    while k < frames.len()
        invariant
            k <= frames@.len(),
            is_chunking(frames@, (len / 2) as int, BLOCK as int),
            spans@.len() == k,
            forall|j: int|
                0 <= j < k ==> (#[trigger] spans@[j]).0 == 2 * frames@[j].0 && spans@[j].1 == 2
                    * frames@[j].1,
        decreases frames@.len() - k,
    {
        let (s, e) = frames[k];
        proof {
            lemma_chunk_end_bound(frames@, (len / 2) as int, BLOCK as int, k as int);
        }
        spans.push((2 * s, 2 * e));
        k = k + 1;
    }
    proof {
        lemma_chunk_len(frames@, (len / 2) as int, BLOCK as int);
    }
    spans
}

/// Number of spans of a chunking of `[0, total)` into spans of `chunk` elements.
pub open spec fn chunk_spans_len(total: int, chunk: int) -> int {
    (total + chunk - 1) / chunk
}

/// Every span of a chunking ends inside `[0, total]`.
proof fn lemma_chunk_end_bound(spans: Seq<(usize, usize)>, total: int, chunk: int, k: int)
    requires
        chunk > 0,
        is_chunking(spans, total, chunk),
        0 <= k < spans.len(),
    ensures
        spans[k].1 <= total,
    decreases spans.len() - k,
{
    if k + 1 < spans.len() {
        lemma_chunk_end_bound(spans, total, chunk, k + 1);
        assert(spans[k + 1].0 == (k + 1) * chunk);
        assert((k + 1) * chunk == k * chunk + chunk) by (nonlinear_arith);
    }
}

/// A chunking of `[0, total)` has `ceil(total / chunk)` spans.
pub proof fn lemma_chunk_len(spans: Seq<(usize, usize)>, total: int, chunk: int)
    requires
        chunk > 0,
        total >= 0,
        is_chunking(spans, total, chunk),
    ensures
        spans.len() == chunk_spans_len(total, chunk),
{
    if spans.len() > 0 {
        let n = spans.len() as int;
        let last = spans[n - 1];
        assert(last.0 == (n - 1) * chunk);
        assert(last.0 < total <= last.0 + chunk);
        assert((n - 1) * chunk < total <= (n - 1) * chunk + chunk);
        assert((total + chunk - 1) / chunk == n) by (nonlinear_arith)
            requires
                chunk > 0,
                (n - 1) * chunk < total,
                total <= (n - 1) * chunk + chunk,
        ;
    } else {
        assert(total == 0);
        assert((chunk - 1) / chunk == 0) by (nonlinear_arith)
            requires
                chunk > 0,
        ;
    }
}

/// The grain engine's 64-frame tiles over a block of `frames` frames.
pub fn tile_bounds(frames: usize) -> (tiles: Vec<(usize, usize)>)
    ensures
        is_chunking(tiles@, frames as int, TILE as int),
        tiles@.len() == chunk_spans_len(frames as int, TILE as int),
{
    let tiles = chunk_spans(frames, TILE);
    proof {
        lemma_chunk_len(tiles@, frames as int, TILE as int);
    }
    tiles
}

/// The one-second windows over which the grain pool measures a source sample's
/// loudness: none for a sample shorter than one second (the pool then uses a fixed
/// fallback level), else one-second windows covering the whole sample, the last
/// one possibly shorter.
pub fn rms_windows(len: usize) -> (windows: Vec<(usize, usize)>)
    ensures
        len < SR ==> windows@.len() == 0,
        len >= SR ==> is_chunking(windows@, len as int, SR as int),
        len >= SR ==> windows@.len() == chunk_spans_len(len as int, SR as int),
{
    if len < SR {
        return Vec::new();
    }
    let windows = chunk_spans(len, SR);
    proof {
        lemma_chunk_len(windows@, len as int, SR as int);
    }
    windows
}

/// A chunking partitions `[0, total)`: it starts at 0, each span starts where the
/// previous one ended, and the last one ends at `total`.
pub proof fn lemma_chunking_partitions(spans: Seq<(usize, usize)>, total: int, chunk: int)
    requires
        chunk > 0,
        is_chunking(spans, total, chunk),
    ensures
        spans.len() > 0 ==> spans[0].0 == 0,
        spans.len() > 0 ==> spans[spans.len() - 1].1 == total,
        forall|k: int| 0 <= k < spans.len() - 1 ==> (#[trigger] spans[k]).1 == spans[k + 1].0,
{
    if spans.len() > 0 {
        assert(spans[0].0 == 0 * chunk);
    }
    assert forall|k: int| 0 <= k < spans.len() - 1 implies (#[trigger] spans[k]).1 == spans[k
        + 1].0 by {
        assert(spans[k + 1].0 == (k + 1) * chunk);
        assert((k + 1) * chunk == k * chunk + chunk) by (nonlinear_arith);
    }
}

} // verus!
