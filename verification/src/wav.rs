//! The header of the WAV file that carries an export's mixed sound:
//! interleaved stereo 32-bit float samples at the export sample rate.

use vstd::prelude::*;

verus! {

/// Sample rate of mixed audio, in Hz.
pub const AUDIO_SAMPLE_RATE: u32 = 48_000;

/// Channels of mixed audio (interleaved stereo).
pub const AUDIO_CHANNELS: u16 = 2;

/// `x` as four little-endian bytes.
pub open spec fn le32(x: int) -> Seq<u8> {
    seq![(x % 256) as u8, ((x / 256) % 256) as u8, ((x / 65536) % 256) as u8, ((x / 16777216) % 256) as u8]
}

/// `x` as two little-endian bytes.
pub open spec fn le16(x: int) -> Seq<u8> {
    seq![(x % 256) as u8, ((x / 256) % 256) as u8]
}

/// The bytes of a tag.
pub open spec fn tag(s: Seq<char>) -> Seq<u8> {
    s.map_values(|c: char| c as u8)
}

/// The 44-byte header for `samples` float values: a RIFF chunk holding the
/// format (IEEE float, two channels, 48 kHz, 32 bits) and the data size.
pub open spec fn wav_header_spec(samples: int) -> Seq<u8> {
    let data = 4 * samples;
    tag("RIFF"@) + le32(36 + data) + tag("WAVEfmt "@) + le32(16) + le16(3) + le16(2) + le32(48_000) + le32(384_000)
        + le16(8) + le16(32) + tag("data"@) + le32(data)
}

fn push_le32(v: &mut Vec<u8>, x: u32)
    ensures
        final(v)@ == old(v)@ + le32(x as int),
{
    v.push((x % 256) as u8);
    v.push(((x / 256) % 256) as u8);
    v.push(((x / 65536) % 256) as u8);
    v.push(((x / 16777216) % 256) as u8);
    proof {
        assert(final(v)@ =~= old(v)@ + le32(x as int));
    }
}

fn push_le16(v: &mut Vec<u8>, x: u16)
    ensures
        final(v)@ == old(v)@ + le16(x as int),
{
    v.push((x % 256) as u8);
    v.push(((x / 256) % 256) as u8);
    proof {
        assert(final(v)@ =~= old(v)@ + le16(x as int));
    }
}

fn push_tag(v: &mut Vec<u8>, a: u8, b: u8, c: u8, d: u8)
    ensures
        final(v)@ == old(v)@ + seq![a, b, c, d],
{
    v.push(a);
    v.push(b);
    v.push(c);
    v.push(d);
    proof {
        assert(final(v)@ =~= old(v)@ + seq![a, b, c, d]);
    }
}

/// The header of a WAV file holding `samples` interleaved float values;
/// `None` when the data would not fit the format's 32-bit size field.
pub fn wav_header(samples: usize) -> (r: Option<Vec<u8>>)
    requires
        !(u32::MAX - 36 < 4 * samples <= u32::MAX),
    ensures
        4 * samples > u32::MAX ==> r is None,
        4 * samples <= u32::MAX ==> (r matches Some(h) && h@ == wav_header_spec(samples as int)),
{
    if samples > 1_073_741_823 {
        return None;
    }
    let data: u32 = (samples * 4) as u32;
    let mut h: Vec<u8> = Vec::new();
    push_tag(&mut h, 82, 73, 70, 70);
    push_le32(&mut h, 36 + data);
    push_tag(&mut h, 87, 65, 86, 69);
    push_tag(&mut h, 102, 109, 116, 32);
    push_le32(&mut h, 16);
    push_le16(&mut h, 3);
    push_le16(&mut h, AUDIO_CHANNELS);
    push_le32(&mut h, AUDIO_SAMPLE_RATE);
    push_le32(&mut h, AUDIO_SAMPLE_RATE * 8);
    push_le16(&mut h, AUDIO_CHANNELS * 4);
    push_le16(&mut h, 32);
    push_tag(&mut h, 100, 97, 116, 97);
    push_le32(&mut h, data);
    proof {
        reveal_strlit("RIFF");
        reveal_strlit("WAVEfmt ");
        reveal_strlit("data");
        assert(tag("RIFF"@) =~= seq![82u8, 73, 70, 70]);
        assert(tag("WAVEfmt "@) =~= seq![87u8, 65, 86, 69] + seq![102u8, 109, 116, 32]);
        assert(tag("data"@) =~= seq![100u8, 97, 116, 97]);
        assert(h@ =~= wav_header_spec(samples as int));
    }
    Some(h)
}

} // verus!
