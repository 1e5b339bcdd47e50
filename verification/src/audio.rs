use tsproto_packets::packets::{AudioData, CodecType, OutAudio, OutPacket};
use vstd::prelude::*;

verus! {

/// Samples per channel in one Opus frame: 20 ms at 48 kHz.
pub const FRAME_SIZE: usize = 960;

/// Interleaved stereo samples in one frame.
pub const FRAME_SAMPLES: usize = 1920;

/// The largest Opus packet that one frame is encoded into.
pub const MAX_PACKET_SIZE: usize = 3828;

/// The most packets that one song can have: their ids count up in a `u16`.
pub const MAX_PACKETS: usize = 65535;

#[verifier::external_type_specification]
#[verifier::external_body]
pub struct ExOutPacket(OutPacket);

/// The packet that `OutAudio::new` makes of a client-to-server Opus-music voice frame.
pub uninterp spec fn opus_music_packet_of(id: u16, data: Seq<u8>) -> OutPacket;

/// Builds the voice packet of an encoded frame.
///
/// Calls `tsproto_packets::packets::OutAudio::new` on `AudioData::C2S` with codec
/// `CodecType::OpusMusic`. The contract names the packet: the same id and data give the same
/// packet.
#[verifier::external_body]
fn opus_music_packet(id: u16, data: &[u8]) -> (packet: OutPacket)
    ensures
        packet == opus_music_packet_of(id, data@),
{
    OutAudio::new(&AudioData::C2S { id, codec: CodecType::OpusMusic, data })
}

/// The sample that two bytes hold in big-endian order, as `i16::from_be_bytes` reads it.
pub open spec fn be_sample(hi: u8, lo: u8) -> i16 {
    if hi < 128 {
        (hi * 256 + lo) as i16
    } else {
        (hi * 256 + lo - 65536) as i16
    }
}

/// Reads raw big-endian 16-bit samples; an odd last byte is dropped.
pub fn samples_from_be_bytes(bytes: &[u8]) -> (samples: Vec<i16>)
    ensures
        samples@.len() == bytes@.len() / 2,
        forall|i: int|
            0 <= i < samples@.len() ==> #[trigger] samples@[i] == be_sample(
                bytes@[2 * i],
                bytes@[2 * i + 1],
            ),
{
    let len = bytes.len();
    let n = len / 2;
    let mut samples: Vec<i16> = Vec::new();
    let mut i: usize = 0;
    while i < n
        invariant
            len == bytes@.len(),
            n == bytes@.len() / 2,
            i <= n,
            samples@.len() == i,
            forall|k: int|
                0 <= k < i ==> #[trigger] samples@[k] == be_sample(bytes@[2 * k], bytes@[2 * k + 1]),
        decreases n - i,
    {
        assert(2 * i + 1 < bytes@.len()) by (nonlinear_arith)
            requires
                i < n,
                n == bytes@.len() / 2,
        ;
        let hi = bytes[2 * i];
        let lo = bytes[2 * i + 1];
        let value: i16 = if hi < 128 {
            (hi as i16) * 256 + lo as i16
        } else {
            ((hi as i16) - 256) * 256 + lo as i16
        };
        samples.push(value);
        i = i + 1;
    }
    samples
}

/// How many frames `n` samples make: the last one may be partial.
pub open spec fn frame_count(n: nat) -> nat {
    (n + 1919) / 1920
}

/// Sample `j` of frame `k`: the frame's own sample, or, past the end of a partial last frame,
/// what the frame before left in the buffer (0 when there is none).
pub open spec fn pcm_sample(samples: Seq<i16>, k: int, j: int) -> i16 {
    if k * 1920 + j < samples.len() {
        samples[k * 1920 + j]
    } else if k > 0 {
        samples[(k - 1) * 1920 + j]
    } else {
        0
    }
}

/// Cuts interleaved stereo samples into full frames, filling a partial last frame from one
/// reused buffer, as the encoder is fed.
pub fn pcm_frames(samples: &[i16]) -> (frames: Vec<Vec<i16>>)
    ensures
        frames@.len() == frame_count(samples@.len() as nat),
        forall|k: int|
            0 <= k < frames@.len() ==> (#[trigger] frames@[k])@.len() == FRAME_SAMPLES,
        forall|k: int, j: int|
            #![trigger frames@[k]@[j]]
            0 <= k < frames@.len() && 0 <= j < FRAME_SAMPLES ==> frames@[k]@[j] == pcm_sample(
                samples@,
                k,
                j,
            ),
{
    let n = samples.len();
    let mut buffer: Vec<i16> = vec![0i16; FRAME_SAMPLES];
    let mut frames: Vec<Vec<i16>> = Vec::new();
    let mut start: usize = 0;
    let ghost mut k: int = 0;
    while start < n
        invariant
            n == samples@.len(),
            start <= n,
            start < n ==> start == k * 1920,
            k > 0 ==> (k - 1) * 1920 < n,
            start < n ==> k < frame_count(n as nat),
            start == n ==> k == frame_count(n as nat),
            frames@.len() == k,
            buffer@.len() == FRAME_SAMPLES,
            forall|j: int|
                0 <= j < FRAME_SAMPLES ==> #[trigger] buffer@[j] == (if k == 0 {
                    0
                } else {
                    pcm_sample(samples@, k - 1, j)
                }),
            forall|f: int| 0 <= f < k ==> (#[trigger] frames@[f])@.len() == FRAME_SAMPLES,
            forall|f: int, j: int|
                #![trigger frames@[f]@[j]]
                0 <= f < k && 0 <= j < FRAME_SAMPLES ==> frames@[f]@[j] == pcm_sample(
                    samples@,
                    f,
                    j,
                ),
        decreases n - start,
    {
        let len = if n - start < FRAME_SAMPLES {
            n - start
        } else {
            FRAME_SAMPLES
        };
        let ghost prev = buffer@;
        let mut i: usize = 0;
        while i < len
            invariant
                n == samples@.len(),
                start == k * 1920,
                start + len <= n,
                len <= FRAME_SAMPLES,
                len == FRAME_SAMPLES || start + len == n,
                i <= len,
                buffer@.len() == FRAME_SAMPLES,
                forall|j: int| 0 <= j < i ==> #[trigger] buffer@[j] == samples@[start + j],
                forall|j: int| i <= j < FRAME_SAMPLES ==> #[trigger] buffer@[j] == prev[j],
            decreases len - i,
        {
            buffer.set(i, samples[start + i]);
            i = i + 1;
        }
        proof {
            assert forall|j: int| 0 <= j < FRAME_SAMPLES implies #[trigger] buffer@[j]
                == pcm_sample(samples@, k, j) by {
                if j >= len {
                    assert(k > 0 ==> (k - 1) * 1920 + j < n) by {
                        assert(start + len == n);
                        assert(start >= 1920 || k == 0);
                    }
                    if k == 0 {
                        assert(start + len == n);
                    }
                }
            }
        }
        let frame = buffer.clone();
        assert(frame@ =~= buffer@);
        frames.push(frame);
        proof {
            if start + len < n {
                assert(len == FRAME_SAMPLES);
                assert((k + 1) < frame_count(n as nat)) by (nonlinear_arith)
                    requires
                        (k + 1) * 1920 < n,
                ;
            } else {
                assert(k + 1 == frame_count(n as nat)) by (nonlinear_arith)
                    requires
                        k * 1920 < n,
                        n <= (k + 1) * 1920,
                ;
            }
            k = k + 1;
        }
        start = start + len;
    }
    frames
}

/// The voice packets of a song's encoded frames, with ids counting up from 0.
pub fn audio_packets(encoded: &Vec<Vec<u8>>) -> (packets: Vec<OutPacket>)
    requires
        encoded@.len() <= MAX_PACKETS,
    ensures
        packets@.len() == encoded@.len(),
        forall|i: int|
            0 <= i < packets@.len() ==> #[trigger] packets@[i] == opus_music_packet_of(
                i as u16,
                encoded@[i]@,
            ),
{
    let mut packets: Vec<OutPacket> = Vec::new();
    let mut id: u16 = 0;
    let mut i: usize = 0;
    while i < encoded.len()
        invariant
            encoded@.len() <= MAX_PACKETS,
            i <= encoded@.len(),
            id == i,
            packets@.len() == i,
            forall|k: int|
                0 <= k < i ==> #[trigger] packets@[k] == opus_music_packet_of(
                    k as u16,
                    encoded@[k]@,
                ),
        decreases encoded@.len() - i,
    {
        let packet = opus_music_packet(id, encoded[i].as_slice());
        packets.push(packet);
        id = id + 1;
        i = i + 1;
    }
    packets
}

} // verus!
