//! Energy-gated detection of radio transmissions.
//!
//! The caller decides per chunk whether it holds speech (its RMS energy
//! reaches the configured threshold); this state machine turns that stream of
//! decisions into the audio to send and the points at which a transmission
//! ends.

use vstd::prelude::*;

verus! {

/// Audio returned from one local VAD update.
#[derive(Debug, Clone, PartialEq, Eq)]
pub struct VadResult {
    pub chunks: Vec<Vec<u8>>,
    pub commit: bool,
}

/// A duration in whole chunks, rounded to the nearest chunk and at least one.
pub open spec fn rounded_chunks(duration_ms: nat, chunk_ms: nat) -> nat {
    let n = (duration_ms + chunk_ms / 2) / chunk_ms;
    if n < 1 { 1 } else { n }
}

/// The byte sequences held by a vector of chunks.
pub open spec fn chunk_bytes(v: Seq<Vec<u8>>) -> Seq<Seq<u8>> {
    v.map_values(|c: Vec<u8>| c@)
}

/// Simple voice-activity detector tuned for radio transmissions.
#[derive(Debug)]
pub struct LocalVad {
    required_silent_chunks: usize,
    prefix_capacity: usize,
    prefix: Vec<Vec<u8>>,
    active: bool,
    silent_chunks: usize,
}

/// The detector's state, as plain values.
pub struct VadState {
    /// The number of consecutive quiet chunks that ends a transmission.
    pub required_silent: nat,
    /// How many chunks of audio before speech are kept.
    pub prefix_capacity: nat,
    /// The quiet chunks kept while idle, oldest first.
    pub prefix: Seq<Seq<u8>>,
    /// Whether a transmission is in progress.
    pub active: bool,
    /// Quiet chunks seen since the last speech of the current transmission.
    pub silent_chunks: nat,
}

/// One detector update on the chunk `pcm`: the new state, the chunks to
/// send, and whether the transmission ends here.
///
/// While idle, quiet chunks are only remembered (the most recent
/// `prefix_capacity` of them); the first speech chunk starts a transmission
/// and releases the remembered chunks with it. During a transmission every
/// chunk is released, and the `required_silent`-th consecutive quiet chunk
/// ends it.
pub open spec fn vad_step(s: VadState, pcm: Seq<u8>, speech: bool) -> (VadState, Seq<Seq<u8>>, bool) {
    if !s.active {
        let kept = (if s.prefix.len() == s.prefix_capacity {
            s.prefix.drop_first()
        } else {
            s.prefix
        }).push(pcm);
        if !speech {
            (
                VadState {
                    required_silent: s.required_silent,
                    prefix_capacity: s.prefix_capacity,
                    prefix: kept,
                    active: false,
                    silent_chunks: 0,
                },
                Seq::empty(),
                false,
            )
        } else {
            (
                VadState {
                    required_silent: s.required_silent,
                    prefix_capacity: s.prefix_capacity,
                    prefix: Seq::empty(),
                    active: true,
                    silent_chunks: 0,
                },
                kept,
                false,
            )
        }
    } else if speech {
        (
            VadState {
                required_silent: s.required_silent,
                prefix_capacity: s.prefix_capacity,
                prefix: s.prefix,
                active: true,
                silent_chunks: 0,
            },
            seq![pcm],
            false,
        )
    } else if s.silent_chunks + 1 < s.required_silent {
        (
            VadState {
                required_silent: s.required_silent,
                prefix_capacity: s.prefix_capacity,
                prefix: s.prefix,
                active: true,
                silent_chunks: s.silent_chunks + 1,
            },
            seq![pcm],
            false,
        )
    } else {
        (
            VadState {
                required_silent: s.required_silent,
                prefix_capacity: s.prefix_capacity,
                prefix: Seq::empty(),
                active: false,
                silent_chunks: 0,
            },
            seq![pcm],
            true,
        )
    }
}

/// The detector's state after `n` consecutive quiet chunks.
pub open spec fn quiet_run(s: VadState, n: nat) -> VadState
    decreases n,
{
    if n == 0 {
        s
    } else {
        vad_step(quiet_run(s, (n - 1) as nat), Seq::empty(), false).0
    }
}

/// During a transmission, quiet chunks keep it going until the
/// `required_silent`-th one in a row, which ends it: after `n` quiet chunks
/// (fewer than required) the transmission is still on, none of them ended
/// it, and the next quiet chunk ends it exactly when it is the required one.
pub proof fn transmission_ends_after_required_silence(s: VadState, n: nat, pcm: Seq<u8>)
    requires
        s.active,
        s.silent_chunks == 0,
        s.required_silent >= 1,
        n < s.required_silent,
    ensures
        quiet_run(s, n).active,
        quiet_run(s, n).silent_chunks == n,
        quiet_run(s, n).required_silent == s.required_silent,
        vad_step(quiet_run(s, n), pcm, false).2 <==> n + 1 == s.required_silent,
    decreases n,
{
    if n > 0 {
        transmission_ends_after_required_silence(s, (n - 1) as nat, pcm);
    }
}

impl LocalVad {
    /// The detector's state.
    pub closed spec fn state(&self) -> VadState {
        VadState {
            required_silent: self.required_silent_chunks as nat,
            prefix_capacity: self.prefix_capacity as nat,
            prefix: chunk_bytes(self.prefix@),
            active: self.active,
            silent_chunks: self.silent_chunks as nat,
        }
    }

    /// The detector's invariant.
    pub closed spec fn wf(&self) -> bool {
        &&& self.required_silent_chunks >= 1
        &&& self.prefix_capacity >= 1
        &&& self.prefix@.len() <= self.prefix_capacity
        &&& self.active ==> self.prefix@.len() == 0
        &&& !self.active ==> self.silent_chunks == 0
        &&& self.active ==> self.silent_chunks < self.required_silent_chunks
    }

    /// A detector for chunks of `chunk_ms` that ends a transmission after
    /// `silence_ms` of quiet and sends the `prefix_ms` of audio before speech.
    pub fn new(silence_ms: u32, chunk_ms: u32, prefix_ms: u32) -> (r: Self)
        requires
            chunk_ms > 0,
            silence_ms + chunk_ms / 2 <= u32::MAX,
            prefix_ms + chunk_ms / 2 <= u32::MAX,
        ensures
            r.wf(),
            r.state() == (VadState {
                required_silent: rounded_chunks(silence_ms as nat, chunk_ms as nat),
                prefix_capacity: rounded_chunks(prefix_ms as nat, chunk_ms as nat),
                prefix: Seq::empty(),
                active: false,
                silent_chunks: 0,
            }),
    {
        let silent = (silence_ms + chunk_ms / 2) / chunk_ms;
        let prefix = (prefix_ms + chunk_ms / 2) / chunk_ms;
        let required_silent_chunks = if silent < 1 { 1 } else { silent as usize };
        let prefix_capacity = if prefix < 1 { 1 } else { prefix as usize };
        let r = LocalVad {
            required_silent_chunks,
            prefix_capacity,
            prefix: Vec::new(),
            active: false,
            silent_chunks: 0,
        };
        assert(chunk_bytes(r.prefix@) =~= Seq::<Seq<u8>>::empty());
        r
    }

    /// Feeds one chunk of PCM audio; `speech` tells whether the chunk's
    /// energy reaches the speech threshold. What it sends and when it
    /// commits is `vad_step`.
    pub fn process(&mut self, pcm: &[u8], speech: bool) -> (r: VadResult)
        requires
            old(self).wf(),
        ensures
            final(self).wf(),
            (final(self).state(), chunk_bytes(r.chunks@), r.commit) == vad_step(old(self).state(), pcm@, speech),
    {
        let chunk = slice_to_vec(pcm);
        if !self.active {
            let ghost before = self.prefix@;
            if self.prefix.len() == self.prefix_capacity {
                self.prefix.remove(0);
                assert(chunk_bytes(self.prefix@) =~= chunk_bytes(before).drop_first());
            }
            let ghost mid = self.prefix@;
            self.prefix.push(chunk);
            assert(chunk_bytes(self.prefix@) =~= chunk_bytes(mid).push(pcm@));
            if !speech {
                return VadResult { chunks: Vec::new(), commit: false };
            }
            self.active = true;
            self.silent_chunks = 0;
            let mut released: Vec<Vec<u8>> = Vec::new();
            std::mem::swap(&mut released, &mut self.prefix);
            assert(chunk_bytes(self.prefix@) =~= Seq::<Seq<u8>>::empty());
            return VadResult { chunks: released, commit: false };
        }
        let mut chunks: Vec<Vec<u8>> = Vec::new();
        chunks.push(chunk);
        assert(chunk_bytes(chunks@) =~= seq![pcm@]);
        if speech {
            self.silent_chunks = 0;
            return VadResult { chunks, commit: false };
        }
        self.silent_chunks = self.silent_chunks + 1;
        if self.silent_chunks < self.required_silent_chunks {
            return VadResult { chunks, commit: false };
        }
        self.active = false;
        self.silent_chunks = 0;
        self.prefix.clear();
        assert(chunk_bytes(self.prefix@) =~= Seq::<Seq<u8>>::empty());
        VadResult { chunks, commit: true }
    }
}

/// A copy of a byte slice.
fn slice_to_vec(s: &[u8]) -> (r: Vec<u8>)
    ensures
        r@ == s@,
{
    let mut v: Vec<u8> = Vec::new();
    let mut i: usize = 0;
    while i < s.len()
        invariant
            i <= s@.len(),
            v@ == s@.take(i as int),
        decreases s.len() - i,
    {
        v.push(s[i]);
        assert(v@ =~= s@.take(i + 1));
        i += 1;
    }
    assert(s@.take(s@.len() as int) =~= s@);
    v
}

} // verus!
