//! Platform-independent audio processing: channel selection, output-device
//! resolution, PCM16 encoding, chunking, local voice activity detection and
//! WAV framing.

pub mod format;
pub mod vad;
pub mod wav;

use vstd::prelude::*;
use crate::text::{
    chars_of, concat_str, contains_chars, debug_quoted, debug_string, decimal, decimal_chars, extend_chars,
    extend_str, lower_ascii_seq, occurs_in, string_of, to_lower_ascii, to_lowercase, unicode_lowercase,
};
pub use self::vad::{LocalVad, VadResult};
pub use self::wav::{wav_file_bytes, WavError};

verus! {

/// The input channel or channel combination sent for transcription.
#[derive(Debug, Clone, Copy, PartialEq, Eq, Structural)]
pub enum ChannelSelection {
    Left,
    Right,
    Mix,
}

/// The name under which a channel selection is written and parsed.
pub open spec fn channel_name(c: ChannelSelection) -> Seq<char> {
    match c {
        ChannelSelection::Left => "left"@,
        ChannelSelection::Right => "right"@,
        ChannelSelection::Mix => "mix"@,
    }
}

/// The channel selection a name stands for, ignoring ASCII case.
pub open spec fn channel_named(value: Seq<char>) -> Option<ChannelSelection> {
    let v = lower_ascii_seq(value);
    if v == "left"@ {
        Some(ChannelSelection::Left)
    } else if v == "right"@ {
        Some(ChannelSelection::Right)
    } else if v == "mix"@ {
        Some(ChannelSelection::Mix)
    } else {
        None
    }
}

impl ChannelSelection {
    /// Parses "left", "right" or "mix" in any ASCII case.
    pub fn parse(value: &str) -> (r: Result<ChannelSelection, String>)
        ensures
            match channel_named(value@) {
                Some(c) => r == Ok::<ChannelSelection, String>(c),
                None => r matches Err(e) && e@ == "unknown channel: "@ + value@,
            },
    {
        let chars = chars_of(value);
        let mut lower: Vec<char> = Vec::new();
        let mut i: usize = 0;
        while i < chars.len()
            invariant
                i <= chars@.len(),
                lower@ == lower_ascii_seq(chars@.take(i as int)),
            decreases chars.len() - i,
        {
            lower.push(to_lower_ascii(chars[i]));
            assert(lower@ =~= lower_ascii_seq(chars@.take(i + 1)));
            i += 1;
        }
        assert(chars@.take(chars@.len() as int) =~= chars@);
        if crate::text::word_is(&lower, "left") {
            Ok(ChannelSelection::Left)
        } else if crate::text::word_is(&lower, "right") {
            Ok(ChannelSelection::Right)
        } else if crate::text::word_is(&lower, "mix") {
            Ok(ChannelSelection::Mix)
        } else {
            Err(concat_str("unknown channel: ", value))
        }
    }

    /// The lower-case name of the selection.
    pub fn as_str(&self) -> (r: &'static str)
        ensures
            r@ == channel_name(*self),
    {
        match self {
            ChannelSelection::Left => "left",
            ChannelSelection::Right => "right",
            ChannelSelection::Mix => "mix",
        }
    }
}

impl std::str::FromStr for ChannelSelection {
    type Err = String;

    fn from_str(value: &str) -> (r: Result<ChannelSelection, String>)
        ensures
            match channel_named(value@) {
                Some(c) => r == Ok::<ChannelSelection, String>(c),
                None => r matches Err(e) && e@ == "unknown channel: "@ + value@,
            },
    {
        ChannelSelection::parse(value)
    }
}

/// Writing a selection's name and parsing it back gives the same selection.
pub proof fn channel_name_round_trip(c: ChannelSelection)
    ensures
        channel_named(channel_name(c)) == Some(c),
{
    reveal_strlit("left");
    reveal_strlit("right");
    reveal_strlit("mix");
    assert(lower_ascii_seq("left"@) =~= "left"@);
    assert(lower_ascii_seq("right"@) =~= "right"@);
    assert(lower_ascii_seq("mix"@) =~= "mix"@);
}

/// A Windows render endpoint: its system identifier and its friendly name.
#[derive(Debug, Clone, PartialEq, Eq)]
pub struct AudioDevice {
    pub id: String,
    pub name: String,
}

pub open spec fn is_ascii_digit(c: char) -> bool {
    '0' <= c && c <= '9'
}

/// The value of a run of decimal digits.
pub open spec fn digits_value(s: Seq<char>) -> nat
    decreases s.len(),
{
    if s.len() == 0 {
        0
    } else {
        digits_value(s.drop_last()) * 10 + ((s.last() as u32) - ('0' as u32)) as nat
    }
}

/// `s` without one leading `+`.
pub open spec fn unsigned_digits(s: Seq<char>) -> Seq<char> {
    if s.len() > 0 && s[0] == '+' { s.skip(1) } else { s }
}

pub open spec fn all_ascii_digits(s: Seq<char>) -> bool {
    forall|k: int| 0 <= k < s.len() ==> is_ascii_digit(#[trigger] s[k])
}

/// What `str::parse::<usize>` accepts: an optional `+` and one or more ASCII
/// digits whose value fits in `usize`.
pub open spec fn parsed_usize(s: Seq<char>) -> Option<nat> {
    let digits = unsigned_digits(s);
    if digits.len() > 0 && all_ascii_digits(digits) && digits_value(digits) <= usize::MAX {
        Some(digits_value(digits))
    } else {
        None
    }
}

/// Indices `k < n` of the devices whose lower-cased name contains `needle`.
pub open spec fn matching_devices(devices: Seq<AudioDevice>, needle: Seq<char>, n: int) -> Seq<int>
    decreases n,
{
    if n <= 0 {
        Seq::empty()
    } else if occurs_in(needle, unicode_lowercase(devices[n - 1].name@)) {
        matching_devices(devices, needle, n - 1).push(n - 1)
    } else {
        matching_devices(devices, needle, n - 1)
    }
}

/// The device a request selects: a 1-based device number, or a piece of
/// exactly one device's name in any case; otherwise the error message.
pub open spec fn device_choice(devices: Seq<AudioDevice>, requested: Seq<char>) -> Result<int, Seq<char>> {
    if devices.len() == 0 {
        Err("no active Windows output devices were found"@)
    } else if parsed_usize(requested) is Some {
        let n = parsed_usize(requested)->0;
        if 1 <= n <= devices.len() {
            Ok(n - 1)
        } else {
            Err("device number must be between 1 and "@ + decimal(devices.len()))
        }
    } else {
        let needle = unicode_lowercase(requested);
        let found = matching_devices(devices, needle, devices.len() as int);
        if found.len() == 1 {
            Ok(found[0])
        } else if found.len() == 0 {
            Err("no output device contains "@ + debug_quoted(needle))
        } else {
            Err("more than one output device contains "@ + debug_quoted(needle))
        }
    }
}

fn parse_usize(s: &Vec<char>) -> (r: Option<usize>)
    ensures
        match parsed_usize(s@) {
            Some(n) => r == Some(n as usize),
            None => r is None,
        },
{
    let ghost digits = unsigned_digits(s@);
    let start: usize = if s.len() > 0 && s[0] == '+' { 1 } else { 0 };
    assert(digits =~= s@.skip(start as int));
    if start >= s.len() {
        return None;
    }
    let mut value: usize = 0;
    let mut overflow = false;
    let mut i = start;
    while i < s.len()
        invariant
            start <= i <= s@.len(),
            digits == unsigned_digits(s@),
            digits =~= s@.skip(start as int),
            forall|k: int| 0 <= k < i - start ==> is_ascii_digit(#[trigger] digits[k]),
            !overflow ==> value as nat == digits_value(digits.take(i - start)),
            overflow ==> digits_value(digits.take(i - start)) > usize::MAX,
        decreases s.len() - i,
    {
        let c = s[i];
        if !('0' <= c && c <= '9') {
            assert(digits[i - start] == c);
            assert(!is_ascii_digit(digits[i - start]));
            return None;
        }
        let d = ((c as u32) - ('0' as u32)) as usize;
        assert(digits.take(i - start + 1).drop_last() =~= digits.take(i - start));
        assert(digits.take(i - start + 1).last() == c);
        if !overflow {
            match value.checked_mul(10) {
                Some(v10) => match v10.checked_add(d) {
                    Some(v) => value = v,
                    None => overflow = true,
                },
                None => overflow = true,
            }
        } else {
            assert(digits_value(digits.take(i - start + 1)) >= digits_value(digits.take(i - start)) * 10);
        }
        i += 1;
    }
    assert(digits.take(s@.len() - start) =~= digits);
    if overflow {
        None
    } else {
        Some(value)
    }
}

/// Finds the output device that `requested` names: a 1-based number, or a
/// case-insensitive piece of exactly one device name.
pub fn resolve_device<'a>(devices: &'a [AudioDevice], requested: &str) -> (r: Result<&'a AudioDevice, String>)
    ensures
        match device_choice(devices@, requested@) {
            Ok(i) => 0 <= i < devices@.len() && (r matches Ok(d) && *d == devices@[i]),
            Err(m) => r matches Err(e) && e@ == m,
        },
{
    if devices.len() == 0 {
        return Err(string_of(&chars_of("no active Windows output devices were found")));
    }
    let req = chars_of(requested);
    if let Some(number) = parse_usize(&req) {
        if number >= 1 && number <= devices.len() {
            return Ok(&devices[number - 1]);
        }
        let mut message = chars_of("device number must be between 1 and ");
        let count = decimal_chars(devices.len() as u64);
        extend_chars(&mut message, &count);
        return Err(string_of(&message));
    }
    let needle_string = to_lowercase(requested);
    let needle = chars_of(needle_string.as_str());
    let ghost nv = unicode_lowercase(requested@);
    let mut found: Vec<usize> = Vec::new();
    let mut k: usize = 0;
    while k < devices.len()
        invariant
            k <= devices@.len(),
            needle@ == nv,
            found@.map_values(|x: usize| x as int) == matching_devices(devices@, nv, k as int),
            forall|j: int| 0 <= j < found@.len() ==> found@[j] < k,
        decreases devices.len() - k,
    {
        let name = to_lowercase(devices[k].name.as_str());
        let name_chars = chars_of(name.as_str());
        if contains_chars(&name_chars, &needle) {
            found.push(k);
            assert(found@.map_values(|x: usize| x as int) =~= matching_devices(devices@, nv, k as int).push(
                k as int,
            ));
        }
        k += 1;
    }
    if found.len() == 1 {
        assert(found@.map_values(|x: usize| x as int)[0] == found@[0] as int);
        Ok(&devices[found[0]])
    } else if found.len() == 0 {
        let quoted = debug_string(needle_string.as_str());
        Err(concat_str("no output device contains ", quoted.as_str()))
    } else {
        let quoted = debug_string(needle_string.as_str());
        Err(concat_str("more than one output device contains ", quoted.as_str()))
    }
}

/// The error, if any, for interleaved audio of `sample_count` samples in
/// `channel_count` channels from which `selection` is to be taken.
pub open spec fn channel_layout_error(sample_count: nat, channel_count: nat, selection: ChannelSelection) -> Option<
    Seq<char>,
> {
    if channel_count == 0 {
        Some("audio must contain at least one channel"@)
    } else if sample_count % channel_count != 0 {
        Some("sample count "@ + decimal(sample_count) + " is not divisible by channel count "@ + decimal(
            channel_count,
        ))
    } else if selection == ChannelSelection::Right && channel_count < 2 {
        Some("the selected device is mono; it has no right channel"@)
    } else {
        None
    }
}

/// Checks that interleaved audio of `sample_count` samples splits into whole
/// frames of `channel_count` channels holding the selected channel, and
/// returns the number of frames.
pub fn channel_frame_count(sample_count: usize, channel_count: usize, selection: ChannelSelection) -> (r: Result<
    usize,
    String,
>)
    ensures
        match channel_layout_error(sample_count as nat, channel_count as nat, selection) {
            Some(m) => r matches Err(e) && e@ == m,
            None => r == Ok::<usize, String>((sample_count / channel_count) as usize),
        },
{
    if channel_count == 0 {
        return Err(string_of(&chars_of("audio must contain at least one channel")));
    }
    if sample_count % channel_count != 0 {
        let mut message = chars_of("sample count ");
        extend_chars(&mut message, &decimal_chars(sample_count as u64));
        extend_str(&mut message, " is not divisible by channel count ");
        extend_chars(&mut message, &decimal_chars(channel_count as u64));
        return Err(string_of(&message));
    }
    if selection == ChannelSelection::Right && channel_count < 2 {
        return Err(string_of(&chars_of("the selected device is mono; it has no right channel")));
    }
    Ok(sample_count / channel_count)
}

/// Whether `value` is the selected channel of the `i`-th frame of
/// `channels` interleaved samples: its first sample (left), its second
/// (right), or a value that `mix` may return for the whole frame.
pub open spec fn frame_channel<T, F: Fn(&[T]) -> T>(
    samples: Seq<T>,
    channels: nat,
    selection: ChannelSelection,
    mix: F,
    i: int,
    value: T,
) -> bool {
    match selection {
        ChannelSelection::Left => value == samples[i * channels],
        ChannelSelection::Right => value == samples[i * channels + 1],
        ChannelSelection::Mix => exists|frame: &[T]|
            frame@ == samples.subrange(i * channels, i * channels + channels) && #[trigger] call_ensures(
                mix,
                (frame,),
                value,
            ),
    }
}

/// Whether `out` holds the selected channel of each frame of `channels`
/// interleaved samples.
pub open spec fn selected_channel<T, F: Fn(&[T]) -> T>(
    samples: Seq<T>,
    channels: nat,
    selection: ChannelSelection,
    mix: F,
    out: Seq<T>,
) -> bool {
    &&& channels > 0
    &&& out.len() * channels == samples.len()
    &&& forall|i: int| 0 <= i < out.len() ==> frame_channel(samples, channels, selection, mix, i, #[trigger] out[i])
}

proof fn lemma_frame_bounds(i: int, frames: int, c: int)
    requires
        0 <= i < frames,
        c > 0,
    ensures
        i * c + c <= frames * c,
        0 <= i * c,
{
    assert(i * c + c <= frames * c) by (nonlinear_arith)
        requires
            i < frames,
            c > 0,
    ;
    assert(0 <= i * c) by (nonlinear_arith)
        requires
            0 <= i,
            c > 0,
    ;
}

/// Selects one channel of interleaved audio, or mixes each frame down to
/// one sample with `mix`: the checks of `channel_frame_count`, then one
/// sample per frame.
#[verifier::loop_isolation(false)]
pub fn select_channel<T: Copy, F: Fn(&[T]) -> T>(
    samples: &[T],
    channel_count: usize,
    selection: ChannelSelection,
    mix: F,
) -> (r: Result<Vec<T>, String>)
    requires
        forall|frame: &[T]| frame@.len() == channel_count ==> #[trigger] mix.requires((frame,)),
    ensures
        match channel_layout_error(samples@.len() as nat, channel_count as nat, selection) {
            Some(m) => r matches Err(e) && e@ == m,
            None => r matches Ok(v) && selected_channel(samples@, channel_count as nat, selection, mix, v@),
        },
{
    let frames = match channel_frame_count(samples.len(), channel_count, selection) {
        Ok(n) => n,
        Err(e) => return Err(e),
    };
    let c = channel_count;
    proof {
        let n = samples@.len() as int;
        assert(n % (c as int) == 0);
        assert((n / (c as int)) * (c as int) == n) by (nonlinear_arith)
            requires
                n % (c as int) == 0,
                c > 0,
        ;
    }
    let mut out: Vec<T> = Vec::new();
    let mut i: usize = 0;
    while i < frames
        invariant
            c > 0,
            c == channel_count,
            frames * c == samples@.len(),
            samples@.len() <= usize::MAX,
            channel_layout_error(samples@.len() as nat, channel_count as nat, selection) is None,
            forall|frame: &[T]| frame@.len() == channel_count ==> #[trigger] mix.requires((frame,)),
            i <= frames,
            out@.len() == i,
            forall|k: int| 0 <= k < i ==> frame_channel(samples@, c as nat, selection, mix, k, #[trigger] out@[k]),
        decreases frames - i,
    {
        proof {
            lemma_frame_bounds(i as int, frames as int, c as int);
        }
        let base = i * c;
        let value = match selection {
            ChannelSelection::Left => samples[base],
            ChannelSelection::Right => samples[base + 1],
            ChannelSelection::Mix => {
                let mut frame: Vec<T> = Vec::new();
                let mut j: usize = 0;
                while j < c
                    invariant
                        base + c <= samples@.len(),
                        j <= c,
                        frame@ == samples@.subrange(base as int, base + j),
                    decreases c - j,
                {
                    frame.push(samples[base + j]);
                    assert(frame@ =~= samples@.subrange(base as int, base + j + 1));
                    j += 1;
                }
                let f = frame.as_slice();
                let m = mix(f);
                assert(f@ == samples@.subrange(i * c, i * c + c));
                assert(call_ensures(mix, (f,), m));
                assert(exists|frame: &[T]|
                    frame@ == samples@.subrange(i * c, i * c + c) && call_ensures(mix, (frame,), m));
                m
            },
        };
        assert(frame_channel(samples@, c as nat, selection, mix, i as int, value));
        let ghost before = out@;
        out.push(value);
        proof {
            assert forall|k: int| 0 <= k < i + 1 implies frame_channel(
                samples@,
                c as nat,
                selection,
                mix,
                k,
                #[trigger] out@[k],
            ) by {
                if k < i {
                    assert(out@[k] == before[k]);
                } else {
                    assert(out@[k] == value);
                }
            }
        }
        i += 1;
    }
    proof {
        assert(out@.len() * (c as int) == samples@.len());
    }
    Ok(out)
}

/// Selecting a channel takes one sample from each frame, in order: the
/// left channel is the first sample of every frame and the right channel
/// the second, whatever the number of channels.
pub proof fn channel_selection_picks_frame_samples<T, F: Fn(&[T]) -> T>(
    samples: Seq<T>,
    channels: nat,
    selection: ChannelSelection,
    mix: F,
    out: Seq<T>,
)
    requires
        selected_channel(samples, channels, selection, mix, out),
    ensures
        out.len() * channels == samples.len(),
        selection == ChannelSelection::Left ==> forall|i: int|
            #![trigger out[i]]
            0 <= i < out.len() ==> out[i] == samples[i * channels],
        selection == ChannelSelection::Right && channels >= 2 ==> forall|i: int|
            #![trigger out[i]]
            0 <= i < out.len() ==> out[i] == samples[i * channels + 1],
{
    if selection == ChannelSelection::Left {
        assert forall|i: int| #![trigger out[i]] 0 <= i < out.len() implies out[i] == samples[i * channels] by {
            assert(frame_channel(samples, channels, selection, mix, i, out[i]));
        }
    }
    if selection == ChannelSelection::Right {
        assert forall|i: int| #![trigger out[i]] 0 <= i < out.len() implies out[i] == samples[i * channels + 1] by {
            assert(frame_channel(samples, channels, selection, mix, i, out[i]));
        }
    }
}

/// Indices in `matching_devices` are exactly the devices whose lower-cased
/// name contains the needle, in increasing order.
proof fn lemma_matching_devices(devices: Seq<AudioDevice>, needle: Seq<char>, n: int)
    requires
        0 <= n <= devices.len(),
    ensures
        forall|m: int|
            0 <= m < matching_devices(devices, needle, n).len() ==> 0 <= #[trigger] matching_devices(
                devices,
                needle,
                n,
            )[m] < n && occurs_in(needle, unicode_lowercase(devices[matching_devices(devices, needle, n)[m]].name@)),
        forall|k: int|
            0 <= k < n && occurs_in(needle, unicode_lowercase(devices[k].name@)) ==> exists|m: int|
                0 <= m < matching_devices(devices, needle, n).len() && #[trigger] matching_devices(devices, needle, n)[m]
                    == k,
    decreases n,
{
    if n > 0 {
        lemma_matching_devices(devices, needle, n - 1);
        let prev = matching_devices(devices, needle, n - 1);
        let cur = matching_devices(devices, needle, n);
        if occurs_in(needle, unicode_lowercase(devices[n - 1].name@)) {
            assert(cur == prev.push(n - 1));
            assert forall|k: int|
                0 <= k < n && occurs_in(needle, unicode_lowercase(devices[k].name@)) implies exists|m: int|
                0 <= m < cur.len() && #[trigger] cur[m] == k by {
                if k == n - 1 {
                    assert(cur[prev.len() as int] == k);
                } else {
                    let m = choose|m: int| 0 <= m < prev.len() && #[trigger] prev[m] == k;
                    assert(cur[m] == k);
                }
            }
        }
    }
}

/// A device chosen by name is the one device whose name, lower-cased,
/// contains the request, lower-cased.
pub proof fn device_by_name_contains_request(devices: Seq<AudioDevice>, requested: Seq<char>)
    requires
        devices.len() > 0,
        parsed_usize(requested) is None,
        device_choice(devices, requested) is Ok,
    ensures
        ({
            let i = device_choice(devices, requested)->Ok_0;
            let needle = unicode_lowercase(requested);
            let name = unicode_lowercase(devices[i].name@);
            &&& 0 <= i < devices.len()
            &&& exists|j: int| 0 <= j <= name.len() - needle.len() && #[trigger] name.subrange(j, j + needle.len()) == needle
            &&& forall|k: int|
                0 <= k < devices.len() && k != i ==> !occurs_in(needle, unicode_lowercase(#[trigger] devices[k].name@))
        }),
{
    let needle = unicode_lowercase(requested);
    let found = matching_devices(devices, needle, devices.len() as int);
    lemma_matching_devices(devices, needle, devices.len() as int);
    assert(found.len() == 1);
    let i = found[0];
    assert(0 <= found[0] < devices.len());
    assert forall|k: int| 0 <= k < devices.len() && k != i implies !occurs_in(
        needle,
        unicode_lowercase(#[trigger] devices[k].name@),
    ) by {
        if occurs_in(needle, unicode_lowercase(devices[k].name@)) {
            let m = choose|m: int| 0 <= m < found.len() && #[trigger] found[m] == k;
            assert(m == 0);
        }
    }
}

/// The two little-endian bytes of a signed 16-bit sample.
pub open spec fn pcm16_le(sample: i16) -> Seq<u8> {
    let u = sample as u16;
    seq![(u % 256) as u8, (u / 256) as u8]
}

/// The little-endian byte encoding of a run of 16-bit samples.
pub open spec fn pcm16_stream(samples: Seq<i16>) -> Seq<u8>
    decreases samples.len(),
{
    if samples.len() == 0 {
        Seq::empty()
    } else {
        pcm16_stream(samples.drop_last()) + pcm16_le(samples.last())
    }
}

/// Encodes signed 16-bit samples as little-endian PCM16 bytes.
pub fn pcm16_le_bytes(samples: &[i16]) -> (r: Vec<u8>)
    ensures
        r@ == pcm16_stream(samples@),
{
    let mut pcm: Vec<u8> = Vec::new();
    let mut i: usize = 0;
    while i < samples.len()
        invariant
            i <= samples@.len(),
            pcm@ == pcm16_stream(samples@.take(i as int)),
        decreases samples.len() - i,
    {
        let u = samples[i] as u16;
        pcm.push((u % 256) as u8);
        pcm.push((u / 256) as u8);
        assert(samples@.take(i + 1).drop_last() =~= samples@.take(i as int));
        assert(pcm@ =~= pcm16_stream(samples@.take(i as int)) + pcm16_le(samples@[i as int]));
        i += 1;
    }
    assert(samples@.take(samples@.len() as int) =~= samples@);
    pcm
}

/// The complete chunks of `chunk_size` items at the front of `s`.
pub open spec fn full_chunks<T>(s: Seq<T>, chunk_size: nat) -> Seq<Seq<T>>
    decreases s.len(),
{
    if chunk_size == 0 || s.len() < chunk_size {
        Seq::empty()
    } else {
        seq![s.take(chunk_size as int)] + full_chunks(s.skip(chunk_size as int), chunk_size)
    }
}

/// What is left of `s` after its complete chunks.
pub open spec fn chunk_remainder<T>(s: Seq<T>, chunk_size: nat) -> Seq<T>
    decreases s.len(),
{
    if chunk_size == 0 || s.len() < chunk_size {
        s
    } else {
        chunk_remainder(s.skip(chunk_size as int), chunk_size)
    }
}

/// The items of a sequence of chunks, in order.
pub open spec fn flatten<T>(chunks: Seq<Seq<T>>) -> Seq<T>
    decreases chunks.len(),
{
    if chunks.len() == 0 {
        Seq::empty()
    } else {
        chunks[0] + flatten(chunks.skip(1))
    }
}

/// Accumulates arbitrary capture packets into fixed-size processing chunks.
pub struct SampleChunker<T> {
    chunk_size: usize,
    pending: Vec<T>,
}

impl<T: Copy> SampleChunker<T> {
    /// The number of items in each chunk.
    pub closed spec fn size(&self) -> nat {
        self.chunk_size as nat
    }

    /// The items received but not yet returned in a chunk.
    pub closed spec fn pending(&self) -> Seq<T> {
        self.pending@
    }

    /// A chunker for chunks of `chunk_size` items; refuses a size of zero.
    pub fn new(chunk_size: usize) -> (r: Result<Self, String>)
        ensures
            chunk_size == 0 ==> (r matches Err(e) && e@ == "audio chunk size must be greater than zero"@),
            chunk_size > 0 ==> (r matches Ok(c) && c.size() == chunk_size && c.pending() == Seq::<T>::empty()),
    {
        if chunk_size == 0 {
            return Err(string_of(&chars_of("audio chunk size must be greater than zero")));
        }
        Ok(SampleChunker { chunk_size, pending: Vec::new() })
    }

    /// Adds `samples` and returns every chunk that is now complete, oldest first.
    pub fn push(&mut self, samples: &[T]) -> (chunks: Vec<Vec<T>>)
        requires
            old(self).size() > 0,
        ensures
            final(self).size() == old(self).size(),
            chunks@.map_values(|c: Vec<T>| c@) == full_chunks(old(self).pending() + samples@, old(self).size()),
            final(self).pending() == chunk_remainder(old(self).pending() + samples@, old(self).size()),
    {
        let ghost all = self.pending@ + samples@;
        let cs = self.chunk_size;
        let mut buffer: Vec<T> = Vec::new();
        let mut i: usize = 0;
        while i < self.pending.len()
            invariant
                i <= self.pending@.len(),
                buffer@ == self.pending@.take(i as int),
            decreases self.pending.len() - i,
        {
            buffer.push(self.pending[i]);
            assert(buffer@ =~= self.pending@.take(i + 1));
            i += 1;
        }
        let mut j: usize = 0;
        while j < samples.len()
            invariant
                j <= samples@.len(),
                buffer@ == self.pending@ + samples@.take(j as int),
            decreases samples.len() - j,
        {
            buffer.push(samples[j]);
            assert(buffer@ =~= self.pending@ + samples@.take(j + 1));
            j += 1;
        }
        assert(samples@.take(samples@.len() as int) =~= samples@);
        assert(buffer@ == all);
        let mut chunks: Vec<Vec<T>> = Vec::new();
        let mut pos: usize = 0;
        assert(all.skip(0) =~= all);
        while buffer.len() - pos >= cs
            invariant
                cs > 0,
                buffer@ == all,
                pos <= all.len(),
                full_chunks(all, cs as nat) == chunks@.map_values(|c: Vec<T>| c@) + full_chunks(
                    all.skip(pos as int),
                    cs as nat,
                ),
                chunk_remainder(all, cs as nat) == chunk_remainder(all.skip(pos as int), cs as nat),
            decreases all.len() - pos,
        {
            let mut chunk: Vec<T> = Vec::new();
            let mut k: usize = 0;
            while k < cs
                invariant
                    buffer@ == all,
                    pos + cs <= all.len(),
                    all.len() <= usize::MAX,
                    k <= cs,
                    chunk@ == all.subrange(pos as int, pos + k),
                decreases cs - k,
            {
                chunk.push(buffer[pos + k]);
                assert(chunk@ =~= all.subrange(pos as int, pos + k + 1));
                k += 1;
            }
            let ghost rest = all.skip(pos as int);
            assert(rest.take(cs as int) =~= chunk@);
            assert(rest.skip(cs as int) =~= all.skip(pos + cs));
            let ghost before = chunks@.map_values(|c: Vec<T>| c@);
            chunks.push(chunk);
            assert(chunks@.map_values(|c: Vec<T>| c@) =~= before.push(rest.take(cs as int)));
            assert(before + (seq![rest.take(cs as int)] + full_chunks(all.skip(pos + cs), cs as nat))
                =~= before.push(rest.take(cs as int)) + full_chunks(all.skip(pos + cs), cs as nat));
            pos += cs;
        }
        let ghost rest = all.skip(pos as int);
        assert(full_chunks(rest, cs as nat) == Seq::<Seq<T>>::empty());
        assert(chunks@.map_values(|c: Vec<T>| c@) + Seq::<Seq<T>>::empty() =~= chunks@.map_values(|c: Vec<T>| c@));
        let mut remaining: Vec<T> = Vec::new();
        let mut m: usize = pos;
        while m < buffer.len()
            invariant
                buffer@ == all,
                pos <= m <= all.len(),
                remaining@ == all.subrange(pos as int, m as int),
            decreases buffer.len() - m,
        {
            remaining.push(buffer[m]);
            assert(remaining@ =~= all.subrange(pos as int, m + 1));
            m += 1;
        }
        assert(remaining@ =~= rest);
        self.pending = remaining;
        chunks
    }
}

/// Chunking loses and reorders nothing: the chunks, followed by what is
/// left over, are exactly the items that went in; every chunk has the
/// chunk size and fewer items than that are left over.
pub proof fn chunking_keeps_every_item<T>(s: Seq<T>, chunk_size: nat)
    requires
        chunk_size > 0,
    ensures
        flatten(full_chunks(s, chunk_size)) + chunk_remainder(s, chunk_size) == s,
        forall|k: int| 0 <= k < full_chunks(s, chunk_size).len() ==> (#[trigger] full_chunks(s, chunk_size)[k]).len()
            == chunk_size,
        chunk_remainder(s, chunk_size).len() < chunk_size,
    decreases s.len(),
{
    if s.len() >= chunk_size {
        let rest = s.skip(chunk_size as int);
        chunking_keeps_every_item(rest, chunk_size);
        let c = seq![s.take(chunk_size as int)] + full_chunks(rest, chunk_size);
        assert(c.skip(1) =~= full_chunks(rest, chunk_size));
        assert(flatten(c) == s.take(chunk_size as int) + flatten(full_chunks(rest, chunk_size)));
        assert(s.take(chunk_size as int) + (flatten(full_chunks(rest, chunk_size)) + chunk_remainder(rest, chunk_size))
            =~= s);
        assert forall|k: int| 0 <= k < c.len() implies (#[trigger] c[k]).len() == chunk_size by {
            if k > 0 {
                assert(c[k] == full_chunks(rest, chunk_size)[k - 1]);
            }
        }
    } else {
        assert(flatten(Seq::<Seq<T>>::empty()) == Seq::<T>::empty());
        assert(Seq::<T>::empty() + s =~= s);
    }
}

} // verus!
