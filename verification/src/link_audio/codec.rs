//! Decoding received audio buffers into blocks of samples, chunk by chunk.
use vstd::prelude::*;

use crate::bytes::{lemma_u16_roundtrip, u16_be, u16_of_be};
use crate::link::node::NodeId;

use super::encoding::{ByteStreamReader, ByteStreamWrite};
use super::payload::{frames_sum, is_zero_id, AudioBuffer, AudioBufferView, Chunk, Codec, Id};

verus! {

/// The 16-bit samples that `bytes` holds, big-endian; a trailing odd byte
/// is ignored.
pub open spec fn pcm_samples(bytes: Seq<u8>) -> Seq<i16> {
    Seq::new(bytes.len() / 2, |k: int| u16_of_be(bytes[2 * k], bytes[2 * k + 1]) as i16)
}

/// Where the samples of each chunk lie among `n` decoded samples, starting
/// at `offset`: its offset and length. The chunks stop at the first one
/// whose samples run past the end.
pub open spec fn chunk_ranges(chunks: Seq<Chunk>, num_channels: nat, n: nat, offset: nat) -> Seq<
    (usize, usize),
>
    decreases chunks.len(),
{
    if chunks.len() == 0 {
        seq![]
    } else {
        let len = (chunks[0].num_frames * num_channels) as nat;
        if offset + len > n {
            seq![]
        } else {
            seq![(offset as usize, len as usize)] + chunk_ranges(
                chunks.skip(1),
                num_channels,
                n,
                (offset + len) as nat,
            )
        }
    }
}

/// Decodes received audio buffers, keeping the decoded samples in a cache
/// that grows as needed.
#[derive(Debug)]
pub struct PcmDecoder {
    samples: Vec<i16>,
}

impl View for PcmDecoder {
    type V = Seq<i16>;

    closed spec fn view(&self) -> Seq<i16> {
        self.samples@
    }
}

impl PcmDecoder {
    /// A decoder whose cache holds `cache_size` zero samples.
    pub fn new(cache_size: usize) -> (d: Self)
        ensures
            d@ == Seq::new(cache_size as nat, |i: int| 0i16),
    {
        let mut samples: Vec<i16> = Vec::new();
        let mut i: usize = 0;
        while i < cache_size
            invariant
                i <= cache_size,
                samples@ == Seq::new(i as nat, |j: int| 0i16),
            decreases cache_size - i,
        {
            samples.push(0);
            proof {
                assert(samples@ =~= Seq::new((i + 1) as nat, |j: int| 0i16));
            }
            i = i + 1;
        }
        PcmDecoder { samples }
    }

    /// The decoded samples.
    pub fn samples(&self) -> (s: &[i16])
        ensures
            s@ == self@,
    {
        self.samples.as_slice()
    }

    /// Decodes `input` into the cache and returns, for each chunk whose
    /// samples were all received, where they lie in the cache. Nothing is
    /// decoded from a buffer that is not 16-bit PCM or has no channels.
    pub fn decode(&mut self, input: &AudioBuffer) -> (ranges: Vec<(usize, usize)>)
        ensures
            input.codec != Codec::PcmI16 || input.num_channels == 0 ==> ranges@.len() == 0
                && final(self)@ == old(self)@,
            input.codec == Codec::PcmI16 && input.num_channels > 0 ==> {
                let decoded = pcm_samples(input.bytes@);
                &&& final(self)@.len() == if old(self)@.len() < decoded.len() {
                    decoded.len()
                } else {
                    old(self)@.len()
                }
                &&& final(self)@.take(decoded.len() as int) == decoded
                &&& forall|j: int|
                    decoded.len() <= j < old(self)@.len() ==> #[trigger] final(self)@[j] == old(self)@[j]
                &&& ranges@ == chunk_ranges(input.chunks@, input.num_channels as nat, decoded.len(), 0)
            },
    {
        if input.codec != Codec::PcmI16 || input.num_channels == 0 {
            return Vec::new();
        }
        let ghost decoded = pcm_samples(input.bytes@);
        let ghost old_samples = self.samples@;
        let total = input.bytes.len();
        let mut reader = ByteStreamReader::new(input.bytes.as_slice());
        let mut num_samples: usize = 0;
        while !reader.is_empty()
            invariant
                reader.bytes() == input.bytes@,
                reader.pos() == 2 * num_samples,
                2 * num_samples <= input.bytes@.len(),
                input.bytes@.len() == total,
                num_samples <= decoded.len(),
                decoded == pcm_samples(input.bytes@),
                self.samples@.len() == if old_samples.len() < num_samples {
                    num_samples as nat
                } else {
                    old_samples.len()
                },
                self.samples@.take(num_samples as int) == decoded.take(num_samples as int),
                forall|j: int|
                    num_samples <= j < old_samples.len() ==> #[trigger] self.samples@[j] == old_samples[j],
            ensures
                num_samples == decoded.len(),
            decreases reader.unread().len(),
        {
            match reader.read_i16() {
                Ok(sample) => {
                    proof {
                        assert(2 * num_samples + 2 <= input.bytes@.len());
                        assert(sample == decoded[num_samples as int]);
                    }
                    if num_samples == self.samples.len() {
                        self.samples.push(sample);
                    } else {
                        self.samples.set(num_samples, sample);
                    }
                    proof {
                        assert(self.samples@.take(num_samples + 1) =~= decoded.take(num_samples + 1));
                    }
                    num_samples = num_samples + 1;
                },
                Err(_) => {
                    break;
                },
            }
        }
        proof {
            assert(decoded.take(num_samples as int) =~= decoded);
        }
        let num_channels = input.num_channels as usize;
        let ghost chunks = input.chunks@;
        let ghost filled = self.samples@;
        proof {
            assert(chunks.skip(0) =~= chunks);
        }
        let mut ranges: Vec<(usize, usize)> = Vec::new();
        let mut offset: usize = 0;
        let mut i: usize = 0;
        while i < input.chunks.len()
            invariant
                i <= chunks.len(),
                chunks == input.chunks@,
                num_channels == input.num_channels,
                num_channels <= 255,
                self.samples@ == filled,
                offset <= num_samples,
                num_samples == decoded.len(),
                ranges@ + chunk_ranges(chunks.skip(i as int), num_channels as nat, num_samples as nat, offset as nat)
                    == chunk_ranges(chunks, num_channels as nat, num_samples as nat, 0),
            ensures
                ranges@ == chunk_ranges(chunks, num_channels as nat, num_samples as nat, 0),
                self.samples@ == filled,
            decreases input.chunks.len() - i,
        {
            let frames = input.chunks[i].num_frames as usize;
            assert(frames * num_channels <= 65535 * 255) by (nonlinear_arith)
                requires
                    frames <= 65535,
                    num_channels <= 255,
                self.samples@ == filled,
            ;
            let chunk_samples = frames * num_channels;
            proof {
                assert(chunks.skip(i as int)[0] == chunks[i as int]);
                assert(chunks.skip(i as int).skip(1) =~= chunks.skip(i + 1));
            }
            if chunk_samples > num_samples - offset {
                proof {
                    assert(chunk_ranges(chunks.skip(i as int), num_channels as nat, num_samples as nat, offset as nat)
                        == Seq::<(usize, usize)>::empty());
                    assert(ranges@ + Seq::<(usize, usize)>::empty() =~= ranges@);
                }
                break;
            }
            let ghost before = ranges@;
            ranges.push((offset, chunk_samples));
            proof {
                assert(before + chunk_ranges(chunks.skip(i as int), num_channels as nat, num_samples as nat, offset as nat)
                    =~= ranges@ + chunk_ranges(chunks.skip(i + 1), num_channels as nat, num_samples as nat, (offset + chunk_samples) as nat));
            }
            offset = offset + chunk_samples;
            i = i + 1;
        }
        proof {
            if i == chunks.len() {
                assert(chunks.skip(i as int) =~= Seq::<Chunk>::empty());
                assert(ranges@ + Seq::<(usize, usize)>::empty() =~= ranges@);
            }
        }
        ranges
    }
}

impl Default for PcmDecoder {
    fn default() -> (d: Self)
        ensures
            d@ == Seq::new(4096, |i: int| 0i16),
    {
        PcmDecoder::new(4096)
    }
}

// ---------------------------------------------------------------------------
// Encoding
// ---------------------------------------------------------------------------

/// Audio buffer messages are sized against the 576 bytes of an IP message
/// that every node must process: what is left for audio after the message
/// header (24 bytes) and the non-audio part of an audio buffer (50 bytes).
pub const MAX_AUDIO_BYTES: usize = 502;

/// The bytes of 16-bit samples, each big-endian.
pub open spec fn pcm_bytes(s: Seq<i16>) -> Seq<u8>
    decreases s.len(),
{
    if s.len() == 0 {
        seq![]
    } else {
        pcm_bytes(s.drop_last()) + u16_be(s.last() as u16)
    }
}

/// The smaller of two numbers.
pub open spec fn min_of(a: int, b: int) -> int {
    if a <= b {
        a
    } else {
        b
    }
}

/// Serializes blocks of interleaved samples, with the chunks that describe
/// them, into audio buffers of one channel. The buffer is reused from block
/// to block.
#[derive(Debug)]
pub struct PcmEncoder {
    output: AudioBuffer,
}

impl View for PcmEncoder {
    type V = AudioBufferView;

    closed spec fn view(&self) -> AudioBufferView {
        self.output@
    }
}

impl PcmEncoder {
    /// An encoder for the channel `channel_id`, holding an empty buffer.
    pub fn new(channel_id: Id) -> (e: Self)
        ensures
            e@.0 == channel_id,
            is_zero_id(e@.1),
            e@.2.len() == 0,
            e@.3 == Codec::Invalid,
            e@.4 == 0,
            e@.5 == 0,
            e@.6.len() == 0,
    {
        let output = AudioBuffer {
            channel_id,
            session_id: NodeId::default(),
            chunks: Vec::new(),
            codec: Codec::Invalid,
            sample_rate: 0,
            num_channels: 0,
            bytes: Vec::new(),
        };
        PcmEncoder { output }
    }

    /// The buffer last filled.
    pub fn output(&self) -> (b: &AudioBuffer)
        ensures
            b@ == self@,
    {
        &self.output
    }

    /// Fills the buffer with the chunks and as many samples as they cover,
    /// for `num_channels` channels (the buffer keeps its low eight bits),
    /// and says whether it is ready to send: it is not when `samples` holds
    /// fewer samples than the chunks cover.
    pub fn flush(
        &mut self,
        samples: &[i16],
        chunks: &[Chunk],
        num_channels: u32,
        sample_rate: u32,
        session_id: Id,
    ) -> (ready: bool)
        requires
            frames_sum(chunks@) <= u32::MAX,
            frames_sum(chunks@) * num_channels <= usize::MAX,
        ensures
            ({
                let n = min_of(frames_sum(chunks@) * num_channels, samples@.len() as int);
                final(self)@ == (
                    old(self)@.0,
                    session_id,
                    chunks@,
                    Codec::PcmI16,
                    sample_rate,
                    num_channels as u8,
                    pcm_bytes(samples@.take(n)),
                )
            }),
            ready == (frames_sum(chunks@) * num_channels <= samples@.len()),
    {
        let mut copied: Vec<Chunk> = Vec::new();
        let mut i: usize = 0;
        while i < chunks.len()
            invariant
                i <= chunks@.len(),
                copied@ == chunks@.take(i as int),
            decreases chunks@.len() - i,
        {
            copied.push(chunks[i]);
            i = i + 1;
            assert(copied@ =~= chunks@.take(i as int));
        }
        assert(chunks@.take(i as int) =~= chunks@);
        self.output.chunks = copied;
        self.output.codec = Codec::PcmI16;
        self.output.sample_rate = sample_rate;
        self.output.num_channels = #[verifier::truncate] (num_channels as u8);
        self.output.session_id = session_id;
        let num_frames = self.output.num_frames() as usize;
        assert(num_frames * (num_channels as usize) <= usize::MAX);
        let wanted = num_frames * num_channels as usize;
        let num_samples = if wanted < samples.len() {
            wanted
        } else {
            samples.len()
        };
        self.output.bytes.clear();
        let ghost fixed = self.output@;
        let mut k: usize = 0;
        while k < num_samples
            invariant
                k <= num_samples <= samples@.len(),
                self.output@.0 == fixed.0 && self.output@.1 == fixed.1 && self.output@.2 == fixed.2,
                self.output@.3 == fixed.3 && self.output@.4 == fixed.4 && self.output@.5 == fixed.5,
                self.output.bytes@ == pcm_bytes(samples@.take(k as int)),
            decreases num_samples - k,
        {
            let ghost before = self.output.bytes@;
            self.output.bytes.write_i16(samples[k]);
            proof {
                let t = samples@.take(k + 1);
                assert(t.drop_last() =~= samples@.take(k as int));
                assert(t.last() == samples@[k as int]);
            }
            k = k + 1;
        }
        wanted == num_samples
    }
}

/// The number of bytes of `pcm_bytes(s)`, and where each sample lies.
proof fn lemma_pcm_bytes_layout(s: Seq<i16>)
    ensures
        pcm_bytes(s).len() == 2 * s.len(),
        forall|k: int|
            0 <= k < s.len() ==> pcm_bytes(s)[2 * k] == #[trigger] u16_be(s[k] as u16)[0]
                && pcm_bytes(s)[2 * k + 1] == u16_be(s[k] as u16)[1],
    decreases s.len(),
{
    if s.len() > 0 {
        lemma_pcm_bytes_layout(s.drop_last());
        assert forall|k: int| 0 <= k < s.len() implies pcm_bytes(s)[2 * k] == #[trigger] u16_be(
            s[k] as u16,
        )[0] && pcm_bytes(s)[2 * k + 1] == u16_be(s[k] as u16)[1] by {
            if k < s.len() - 1 {
                assert(s.drop_last()[k] == s[k]);
            }
        }
    }
}

/// What the encoder writes the decoder reads back: the samples of
/// `pcm_bytes(s)` are `s`.
pub proof fn lemma_pcm_roundtrip(s: Seq<i16>)
    ensures
        pcm_samples(pcm_bytes(s)) == s,
{
    lemma_pcm_bytes_layout(s);
    let b = pcm_bytes(s);
    assert forall|k: int| 0 <= k < s.len() implies #[trigger] pcm_samples(b)[k] == s[k] by {
        let v = s[k] as u16;
        assert(u16_be(v)[0] == b[2 * k]);
        lemma_u16_roundtrip(v, 0, 0);
        let x = s[k];
        assert(((x as u16) as i16) == x) by (bit_vector);
    }
    assert(pcm_samples(b) =~= s);
}

} // verus!
