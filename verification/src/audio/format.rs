//! Interpretation of the mix format that a Windows audio endpoint reports.

use vstd::prelude::*;
use crate::audio::ChannelSelection;
use crate::text::{chars_of, decimal, decimal_chars, extend_chars, extend_str, string_of};

verus! {

/// `WAVE_FORMAT_PCM`: integer samples.
pub const WAVE_FORMAT_PCM: u32 = 1;

/// `WAVE_FORMAT_IEEE_FLOAT`: floating-point samples.
pub const WAVE_FORMAT_IEEE_FLOAT: u32 = 3;

/// `WAVE_FORMAT_EXTENSIBLE`: the sample kind is given by the sub-format GUID.
pub const WAVE_FORMAT_EXTENSIBLE: u32 = 65534;

/// The sub-format GUID of an extensible format, as far as it matters here.
#[derive(Debug, Clone, Copy, PartialEq, Eq, Structural)]
pub enum SubFormat {
    /// `KSDATAFORMAT_SUBTYPE_IEEE_FLOAT`
    IeeeFloat,
    /// `KSDATAFORMAT_SUBTYPE_PCM`
    Pcm,
    /// Any other GUID.
    Other,
}

/// How one sample of one channel is stored.
#[derive(Debug, Clone, Copy, PartialEq, Eq, Structural)]
pub enum SampleEncoding {
    Unsigned8,
    Signed16,
    Signed24,
    Signed32,
    Float32,
    Float64,
}

/// The layout of the interleaved frames that an endpoint delivers.
#[derive(Debug, Clone, Copy, PartialEq, Eq, Structural)]
pub struct DeviceFormat {
    pub channels: usize,
    pub sample_rate: u32,
    pub block_align: usize,
    pub bytes_per_sample: usize,
    pub encoding: SampleEncoding,
}

/// Why a reported mix format cannot be captured.
#[derive(Debug, Clone, Copy, PartialEq, Eq, Structural)]
pub enum FormatError {
    /// No channels, no sample rate or no block alignment.
    Invalid,
    /// An extensible format whose sub-format is neither PCM nor IEEE float.
    UnsupportedExtensible,
    /// A format tag other than PCM, IEEE float and extensible.
    UnsupportedTag(u32),
    /// A sample width that the sample kind does not come in.
    UnsupportedBits(u16),
    /// Frames too small for their samples.
    InvalidBlockAlign,
}

/// Whether the samples are floating point; `None` for an unsupported kind.
pub open spec fn float_samples(format_tag: u32, sub_format: SubFormat) -> Result<bool, FormatError> {
    if format_tag == WAVE_FORMAT_EXTENSIBLE {
        match sub_format {
            SubFormat::IeeeFloat => Ok(true),
            SubFormat::Pcm => Ok(false),
            SubFormat::Other => Err(FormatError::UnsupportedExtensible),
        }
    } else if format_tag == WAVE_FORMAT_IEEE_FLOAT {
        Ok(true)
    } else if format_tag == WAVE_FORMAT_PCM {
        Ok(false)
    } else {
        Err(FormatError::UnsupportedTag(format_tag))
    }
}

/// The encoding of `bits`-wide samples of the given kind.
pub open spec fn encoding_of(is_float: bool, bits: u16) -> Option<SampleEncoding> {
    if is_float && bits == 32 {
        Some(SampleEncoding::Float32)
    } else if is_float && bits == 64 {
        Some(SampleEncoding::Float64)
    } else if !is_float && bits == 8 {
        Some(SampleEncoding::Unsigned8)
    } else if !is_float && bits == 16 {
        Some(SampleEncoding::Signed16)
    } else if !is_float && bits == 24 {
        Some(SampleEncoding::Signed24)
    } else if !is_float && bits == 32 {
        Some(SampleEncoding::Signed32)
    } else {
        None
    }
}

/// The capture layout for a reported mix format, or why it is refused.
pub open spec fn format_layout(
    format_tag: u32,
    channels: u16,
    sample_rate: u32,
    block_align: u16,
    bits: u16,
    sub_format: SubFormat,
) -> Result<DeviceFormat, FormatError> {
    if channels == 0 || sample_rate == 0 || block_align == 0 {
        Err(FormatError::Invalid)
    } else {
        match float_samples(format_tag, sub_format) {
            Err(e) => Err(e),
            Ok(is_float) => match encoding_of(is_float, bits) {
                None => Err(FormatError::UnsupportedBits(bits)),
                Some(encoding) => {
                    let bytes = (bits as nat + 7) / 8;
                    if bytes * channels > block_align {
                        Err(FormatError::InvalidBlockAlign)
                    } else {
                        Ok(
                            DeviceFormat {
                                channels: channels as usize,
                                sample_rate,
                                block_align: block_align as usize,
                                bytes_per_sample: bytes as usize,
                                encoding,
                            },
                        )
                    }
                },
            },
        }
    }
}

/// Decides how to capture from an endpoint whose mix format has the given
/// `WAVEFORMATEX` fields (and, for an extensible format, sub-format).
pub fn device_format(
    format_tag: u32,
    channels: u16,
    sample_rate: u32,
    block_align: u16,
    bits: u16,
    sub_format: SubFormat,
) -> (r: Result<DeviceFormat, FormatError>)
    ensures
        r == format_layout(format_tag, channels, sample_rate, block_align, bits, sub_format),
{
    if channels == 0 || sample_rate == 0 || block_align == 0 {
        return Err(FormatError::Invalid);
    }
    let is_float = if format_tag == WAVE_FORMAT_EXTENSIBLE {
        match sub_format {
            SubFormat::IeeeFloat => true,
            SubFormat::Pcm => false,
            SubFormat::Other => return Err(FormatError::UnsupportedExtensible),
        }
    } else if format_tag == WAVE_FORMAT_IEEE_FLOAT {
        true
    } else if format_tag == WAVE_FORMAT_PCM {
        false
    } else {
        return Err(FormatError::UnsupportedTag(format_tag));
    };
    let encoding = if is_float && bits == 32 {
        SampleEncoding::Float32
    } else if is_float && bits == 64 {
        SampleEncoding::Float64
    } else if !is_float && bits == 8 {
        SampleEncoding::Unsigned8
    } else if !is_float && bits == 16 {
        SampleEncoding::Signed16
    } else if !is_float && bits == 24 {
        SampleEncoding::Signed24
    } else if !is_float && bits == 32 {
        SampleEncoding::Signed32
    } else {
        return Err(FormatError::UnsupportedBits(bits));
    };
    let bytes_per_sample: usize = ((bits as usize) + 7) / 8;
    assert(bytes_per_sample <= 8);
    assert(bytes_per_sample * (channels as usize) <= 8 * 65535) by (nonlinear_arith)
        requires
            bytes_per_sample <= 8,
            channels <= 65535,
    ;
    let needed: usize = bytes_per_sample * (channels as usize);
    if needed > block_align as usize {
        return Err(FormatError::InvalidBlockAlign);
    }
    Ok(
        DeviceFormat {
            channels: channels as usize,
            sample_rate,
            block_align: block_align as usize,
            bytes_per_sample,
            encoding,
        },
    )
}

impl FormatError {
    /// The error as a sentence.
    pub fn message(&self) -> (r: String)
        ensures
            r@ == match *self {
                FormatError::Invalid => "Windows returned an invalid audio mix format"@,
                FormatError::UnsupportedExtensible => "the selected audio device uses an unsupported extensible format"@,
                FormatError::UnsupportedTag(tag) => "the selected audio device uses unsupported format tag "@ + decimal(
                    tag as nat,
                ),
                FormatError::UnsupportedBits(bits) => "the selected audio device uses unsupported "@ + decimal(
                    bits as nat,
                ) + "-bit samples"@,
                FormatError::InvalidBlockAlign => "the selected audio device has an invalid block alignment"@,
            },
    {
        match self {
            FormatError::Invalid => string_of(&chars_of("Windows returned an invalid audio mix format")),
            FormatError::UnsupportedExtensible => string_of(
                &chars_of("the selected audio device uses an unsupported extensible format"),
            ),
            FormatError::UnsupportedTag(tag) => {
                let mut m = chars_of("the selected audio device uses unsupported format tag ");
                extend_chars(&mut m, &decimal_chars(*tag as u64));
                string_of(&m)
            },
            FormatError::UnsupportedBits(bits) => {
                let mut m = chars_of("the selected audio device uses unsupported ");
                extend_chars(&mut m, &decimal_chars(*bits as u64));
                extend_str(&mut m, "-bit samples");
                string_of(&m)
            },
            FormatError::InvalidBlockAlign => string_of(
                &chars_of("the selected audio device has an invalid block alignment"),
            ),
        }
    }
}

/// Whether samples of this encoding are integers.
pub open spec fn is_integer_encoding(encoding: SampleEncoding) -> bool {
    !(encoding is Float32) && !(encoding is Float64)
}

/// The width in bytes of one sample of an integer encoding.
pub open spec fn integer_width(encoding: SampleEncoding) -> nat {
    match encoding {
        SampleEncoding::Unsigned8 => 1,
        SampleEncoding::Signed16 => 2,
        SampleEncoding::Signed24 => 3,
        _ => 4,
    }
}

/// The unsigned value of the little-endian bytes `b`.
pub open spec fn le_value(b: Seq<u8>) -> nat
    decreases b.len(),
{
    if b.len() == 0 {
        0
    } else {
        b[0] as nat + 256 * le_value(b.skip(1))
    }
}

/// The value of an integer sample stored in `bytes` (little endian): offset
/// binary for 8-bit samples, two's complement for the wider ones.
pub open spec fn integer_sample_value(encoding: SampleEncoding, bytes: Seq<u8>) -> int {
    let width = integer_width(encoding);
    let u = le_value(bytes.take(width as int));
    if encoding is Unsigned8 {
        u - 128
    } else if u >= vstd::arithmetic::power2::pow2((8 * width - 1) as nat) {
        u - vstd::arithmetic::power2::pow2(8 * width)
    } else {
        u as int
    }
}

proof fn lemma_le_prefix(b: Seq<u8>)
    requires
        b.len() >= 1,
    ensures
        le_value(b.take(1)) == b[0] as nat,
        b.len() >= 2 ==> le_value(b.take(2)) == b[0] as nat + 256 * (b[1] as nat),
        b.len() >= 3 ==> le_value(b.take(3)) == b[0] as nat + 256 * (b[1] as nat) + 65536 * (b[2] as nat),
        b.len() >= 4 ==> le_value(b.take(4)) == b[0] as nat + 256 * (b[1] as nat) + 65536 * (b[2] as nat)
            + 16777216 * (b[3] as nat),
{
    reveal_with_fuel(le_value, 5);
    let n: int = if b.len() >= 4 { 4 } else { b.len() as int };
    assert forall|k: int| 1 <= k <= n implies le_value(#[trigger] b.take(k)) == b[0] as nat + 256 * le_value(
        b.skip(1).take(k - 1),
    ) by {
        assert(b.take(k).skip(1) =~= b.skip(1).take(k - 1));
    }
    let c = b.skip(1);
    assert(c.take(0) =~= Seq::<u8>::empty());
    if b.len() >= 2 {
        assert(c.take(1).skip(1) =~= Seq::<u8>::empty());
        assert(le_value(c.take(1)) == c[0] as nat);
    }
    if b.len() >= 3 {
        assert(c.take(2).skip(1) =~= c.skip(1).take(1));
        assert(c.skip(1).take(1).skip(1) =~= Seq::<u8>::empty());
        assert(le_value(c.skip(1).take(1)) == c[1] as nat);
        assert(le_value(c.take(2)) == c[0] as nat + 256 * (c[1] as nat));
    }
    if b.len() >= 4 {
        assert(c.take(3).skip(1) =~= c.skip(1).take(2));
        assert(c.skip(1).take(2).skip(1) =~= c.skip(2).take(1));
        assert(c.skip(2).take(1).skip(1) =~= Seq::<u8>::empty());
        assert(le_value(c.skip(2).take(1)) == c[2] as nat);
        assert(le_value(c.skip(1).take(2)) == c[1] as nat + 256 * (c[2] as nat));
        assert(le_value(c.take(3)) == c[0] as nat + 256 * (c[1] as nat) + 65536 * (c[2] as nat));
    }
}

/// Reads one integer sample from the start of `bytes`.
pub fn integer_sample(encoding: SampleEncoding, bytes: &[u8]) -> (r: i32)
    requires
        is_integer_encoding(encoding),
        bytes@.len() >= integer_width(encoding),
    ensures
        r == integer_sample_value(encoding, bytes@),
{
    let ghost b = bytes@;
    proof {
        vstd::arithmetic::power2::lemma2_to64();
        lemma_le_prefix(b);
    }
    match encoding {
        SampleEncoding::Unsigned8 => {
            assert(le_value(b.take(1)) == b[0] as nat);
            bytes[0] as i32 - 128
        },
        SampleEncoding::Signed16 => {
            let u: i32 = bytes[0] as i32 + 256 * (bytes[1] as i32);
            assert(le_value(b.take(2)) == u);
            if u >= 32768 {
                u - 65536
            } else {
                u
            }
        },
        SampleEncoding::Signed24 => {
            let u: i32 = bytes[0] as i32 + 256 * (bytes[1] as i32) + 65536 * (bytes[2] as i32);
            assert(le_value(b.take(3)) == u);
            if u >= 8388608 {
                u - 16777216
            } else {
                u
            }
        },
        _ => {
            let u: i64 = bytes[0] as i64 + 256 * (bytes[1] as i64) + 65536 * (bytes[2] as i64) + 16777216 * (
            bytes[3] as i64);
            assert(le_value(b.take(4)) == u);
            let v: i64 = if u >= 2147483648 {
                u - 4294967296
            } else {
                u
            };
            v as i32
        },
    }
}

/// How a captured packet is to be read.
#[derive(Debug, Clone, Copy, PartialEq, Eq, Structural)]
pub enum PacketPlan {
    /// The packet is flagged silent: this many frames of silence.
    Silence(usize),
    /// Read this many bytes of interleaved frames.
    Decode(usize),
}

/// The plan for a packet of `frame_count` frames, or why it cannot be read.
pub open spec fn packet_plan_spec(
    channels: nat,
    block_align: nat,
    frame_count: nat,
    silent: bool,
    has_data: bool,
    selection: ChannelSelection,
) -> Result<PacketPlan, Seq<char>> {
    if selection == ChannelSelection::Right && channels < 2 {
        Err("the selected device is mono; it has no right channel"@)
    } else if silent {
        Ok(PacketPlan::Silence(frame_count as usize))
    } else if !has_data {
        Err("Windows returned an empty non-silent audio buffer"@)
    } else if frame_count * block_align > usize::MAX {
        Err("the captured audio packet is too large"@)
    } else {
        Ok(PacketPlan::Decode((frame_count * block_align) as usize))
    }
}

/// Decides how to read a captured packet of `frame_count` frames in the
/// device format `format`, flagged `silent` or not, whose data pointer is
/// present (`has_data`), for the channel `selection`.
pub fn packet_plan(
    format: &DeviceFormat,
    frame_count: usize,
    silent: bool,
    has_data: bool,
    selection: ChannelSelection,
) -> (r: Result<PacketPlan, String>)
    ensures
        match packet_plan_spec(
            format.channels as nat,
            format.block_align as nat,
            frame_count as nat,
            silent,
            has_data,
            selection,
        ) {
            Ok(p) => r == Ok::<PacketPlan, String>(p),
            Err(m) => r matches Err(e) && e@ == m,
        },
{
    if selection == ChannelSelection::Right && format.channels < 2 {
        return Err(string_of(&chars_of("the selected device is mono; it has no right channel")));
    }
    if silent {
        return Ok(PacketPlan::Silence(frame_count));
    }
    if !has_data {
        return Err(string_of(&chars_of("Windows returned an empty non-silent audio buffer")));
    }
    match frame_count.checked_mul(format.block_align) {
        Some(bytes) => Ok(PacketPlan::Decode(bytes)),
        None => Err(string_of(&chars_of("the captured audio packet is too large"))),
    }
}

} // verus!
