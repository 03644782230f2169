//! Voice chat: the signalling messages exchanged with the server, and the
//! cutting of captured audio into codec frames.

use vstd::prelude::*;

verus! {

/// A WebRTC signalling message, sent to the server as JSON tagged by `type`.
#[derive(Debug)]
pub enum VoiceSignal {
    Offer { sdp: String },
    Answer { sdp: String },
    IceCandidate { candidate: String },
}

/// The number of samples in one codec frame (20 ms of mono audio at 48 kHz).
pub const FRAME_SAMPLES: usize = 960usize;

/// Takes every whole frame from the front of `buffer`, in order; what is
/// left (fewer samples than a frame) stays in `buffer`.
pub fn drain_frames<T: Copy>(buffer: &mut Vec<T>) -> (frames: Vec<Vec<T>>)
    ensures
        frames@.len() == old(buffer)@.len() / 960,
        forall|k: int|
            0 <= k < frames@.len() ==> (#[trigger] frames@[k])@ == old(buffer)@.subrange(960 * k, 960 * k + 960),
        final(buffer)@ == old(buffer)@.skip(960 * frames@.len() as int),
        final(buffer)@.len() < 960,
{
    let len = buffer.len();
    let n = len / FRAME_SAMPLES;
    let ghost whole = buffer@;
    let mut frames: Vec<Vec<T>> = Vec::new();
    let mut k: usize = 0;
    while k < n
        invariant
            whole == buffer@,
            len == buffer@.len(),
            n == len / 960,
            k <= n,
            frames@.len() == k,
            forall|i: int| 0 <= i < k ==> (#[trigger] frames@[i])@ == whole.subrange(960 * i, 960 * i + 960),
        decreases n - k,
    {
        let mut frame: Vec<T> = Vec::new();
        let mut j: usize = 0;
        while j < FRAME_SAMPLES
            invariant
                whole == buffer@,
                len == buffer@.len(),
                n == len / 960,
                k < n,
                j <= 960,
                frame@ =~= whole.subrange(960 * k, 960 * k + j),
            decreases 960 - j,
        {
            frame.push(buffer[960 * k + j]);
            j = j + 1;
        }
        frames.push(frame);
        k = k + 1;
    }
    let mut rest: Vec<T> = Vec::new();
    let mut j: usize = 960 * n;
    while j < len
        invariant
            whole == buffer@,
            len == buffer@.len(),
            n == len / 960,
            960 * n <= j <= len,
            rest@ =~= whole.subrange(960 * n, j as int),
        decreases len - j,
    {
        rest.push(buffer[j]);
        j = j + 1;
    }
    *buffer = rest;
    proof {
        assert(buffer@ =~= whole.skip(960 * frames@.len() as int));
    }
    frames
}

} // verus!
