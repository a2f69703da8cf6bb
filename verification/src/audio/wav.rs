//! Framing of mono, 24 kHz, signed PCM16 audio as a RIFF/WAVE file.

use vstd::prelude::*;
use crate::SAMPLE_RATE;

verus! {

/// Why PCM data cannot be framed as a WAV file.
#[derive(Debug, Clone, Copy, PartialEq, Eq, Structural)]
pub enum WavError {
    /// The data does not hold whole two-byte samples.
    IncompleteSample,
    /// The file would exceed the 4 GiB that a RIFF size field can describe.
    TooLarge,
}

impl WavError {
    /// The error as a sentence.
    pub fn message(&self) -> (r: &'static str)
        ensures
            *self == WavError::IncompleteSample ==> r@ == "PCM16 data must contain complete two-byte samples"@,
            *self == WavError::TooLarge ==> r@ == "recording is too large for WAV"@,
    {
        match self {
            WavError::IncompleteSample => "PCM16 data must contain complete two-byte samples",
            WavError::TooLarge => "recording is too large for WAV",
        }
    }
}

/// The little-endian bytes of a 16-bit value.
pub open spec fn le16(v: nat) -> Seq<u8> {
    seq![(v % 256) as u8, ((v / 256) % 256) as u8]
}

/// The little-endian bytes of a 32-bit value.
pub open spec fn le32(v: nat) -> Seq<u8> {
    seq![(v % 256) as u8, ((v / 256) % 256) as u8, ((v / 65536) % 256) as u8, ((v / 16777216) % 256) as u8]
}

/// The 44-byte header of a mono 24 kHz PCM16 WAV file holding `n` data bytes.
#[verifier::opaque]
pub open spec fn wav_header(n: nat) -> Seq<u8> {
    seq![82u8, 73u8, 70u8, 70u8]  // "RIFF"
     + le32(36 + n) + seq![87u8, 65u8, 86u8, 69u8]  // "WAVE"
     + seq![102u8, 109u8, 116u8, 32u8]  // "fmt "
     + le32(16)  // format chunk length
     + le16(1)  // PCM
     + le16(1)  // mono
     + le32(SAMPLE_RATE as nat) + le32(2 * SAMPLE_RATE as nat)  // byte rate
     + le16(2)  // block alignment
     + le16(16)  // bits per sample
     + seq![100u8, 97u8, 116u8, 97u8]  // "data"
     + le32(n)
}

/// The error, if any, for framing `n` bytes of PCM16 data.
pub open spec fn wav_error(n: nat) -> Option<WavError> {
    if n % 2 != 0 {
        Some(WavError::IncompleteSample)
    } else if n + 36 > u32::MAX {
        Some(WavError::TooLarge)
    } else {
        None
    }
}

fn push_le16(out: &mut Vec<u8>, v: u16)
    ensures
        final(out)@ == old(out)@ + le16(v as nat),
{
    out.push((v % 256) as u8);
    out.push(((v / 256) % 256) as u8);
    assert(final(out)@ =~= old(out)@ + le16(v as nat));
}

fn push_le32(out: &mut Vec<u8>, v: u32)
    ensures
        final(out)@ == old(out)@ + le32(v as nat),
{
    out.push((v % 256) as u8);
    out.push(((v / 256) % 256) as u8);
    out.push(((v / 65536) % 256) as u8);
    out.push(((v / 16777216) % 256) as u8);
    assert(final(out)@ =~= old(out)@ + le32(v as nat));
}

fn push_bytes4(out: &mut Vec<u8>, a: u8, b: u8, c: u8, d: u8)
    ensures
        final(out)@ == old(out)@ + seq![a, b, c, d],
{
    out.push(a);
    out.push(b);
    out.push(c);
    out.push(d);
    assert(final(out)@ =~= old(out)@ + seq![a, b, c, d]);
}

/// The complete WAV file for mono, 24 kHz, signed PCM16 data: the standard
/// 44-byte RIFF/WAVE header followed by the data itself.
pub fn wav_file_bytes(pcm: &[u8]) -> (r: Result<Vec<u8>, WavError>)
    ensures
        match wav_error(pcm@.len()) {
            Some(e) => r == Err::<Vec<u8>, WavError>(e),
            None => r matches Ok(bytes) && bytes@ == wav_header(pcm@.len()) + pcm@,
        },
{
    if pcm.len() % 2 != 0 {
        return Err(WavError::IncompleteSample);
    }
    if pcm.len() > 4294967259 {
        return Err(WavError::TooLarge);
    }
    let data_size = pcm.len() as u32;
    let mut out: Vec<u8> = Vec::new();
    push_bytes4(&mut out, 82, 73, 70, 70);
    push_le32(&mut out, 36 + data_size);
    push_bytes4(&mut out, 87, 65, 86, 69);
    push_bytes4(&mut out, 102, 109, 116, 32);
    push_le32(&mut out, 16);
    push_le16(&mut out, 1);
    push_le16(&mut out, 1);
    push_le32(&mut out, SAMPLE_RATE);
    push_le32(&mut out, SAMPLE_RATE * 2);
    push_le16(&mut out, 2);
    push_le16(&mut out, 16);
    push_bytes4(&mut out, 100, 97, 116, 97);
    push_le32(&mut out, data_size);
    assert(out@ =~= wav_header(pcm@.len())) by {
        reveal(wav_header);
    }
    let mut i: usize = 0;
    while i < pcm.len()
        invariant
            i <= pcm@.len(),
            out@ == wav_header(pcm@.len()) + pcm@.take(i as int),
        decreases pcm.len() - i,
    {
        out.push(pcm[i]);
        assert(out@ =~= wav_header(pcm@.len()) + pcm@.take(i + 1));
        i += 1;
    }
    assert(pcm@.take(pcm@.len() as int) =~= pcm@);
    Ok(out)
}

/// The header is 44 bytes long, so the sample data starts at byte 44 of the
/// file, and its size field matches the data.
pub proof fn wav_header_layout(n: nat)
    ensures
        wav_header(n).len() == 44,
        wav_header(n).subrange(40, 44) == le32(n),
        wav_header(n).subrange(0, 4) == seq![82u8, 73u8, 70u8, 70u8],
        wav_header(n).subrange(8, 12) == seq![87u8, 65u8, 86u8, 69u8],
{
    reveal(wav_header);
    assert(wav_header(n).subrange(40, 44) =~= le32(n));
    assert(wav_header(n).subrange(0, 4) =~= seq![82u8, 73u8, 70u8, 70u8]);
    assert(wav_header(n).subrange(8, 12) =~= seq![87u8, 65u8, 86u8, 69u8]);
}

} // verus!
