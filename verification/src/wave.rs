//! Sender side: decoded source audio, stereo upmixing, and the chunker that
//! turns the sample sequence into serialized datagram payloads.

use vstd::prelude::*;

use crate::wire;

verus! {

/// Decoded source audio: channel count, sample rate in Hz, and the
/// interleaved sample sequence.
pub struct Wave {
    pub channels: u16,
    pub sample_rate: u32,
    pub data: Vec<i16>,
}

/// The stereo upmix of a mono sequence: every source sample appears twice in
/// a row, once per channel, in the original order.
pub open spec fn stereo_of(s: Seq<i16>) -> Seq<i16> {
    Seq::new(2 * s.len(), |i: int| s[i / 2])
}

/// The partition of a sample sequence into chunks of `chunk_size` samples;
/// the final chunk holds whatever remains and may be shorter.
pub open spec fn chunks_of(s: Seq<i16>, chunk_size: int) -> Seq<Seq<i16>>
    decreases s.len(),
    when chunk_size >= 1
{
    if s.len() == 0 {
        Seq::empty()
    } else if s.len() <= chunk_size {
        seq![s]
    } else {
        seq![s.take(chunk_size)] + chunks_of(s.skip(chunk_size), chunk_size)
    }
}

/// The chunks of a sequence partition it exactly: concatenated in order they
/// give the sequence back (so chunk lengths sum to the input length, with no
/// gap, overlap or reordering), every chunk is non-empty and at most
/// `chunk_size` long, and only the final chunk is shorter than `chunk_size`.
pub proof fn lemma_chunks_partition(s: Seq<i16>, chunk_size: int)
    requires
        chunk_size >= 1,
    ensures
        chunks_of(s, chunk_size).flatten() == s,
        forall|i: int| 0 <= i < chunks_of(s, chunk_size).len()
            ==> 1 <= (#[trigger] chunks_of(s, chunk_size)[i]).len() <= chunk_size,
        forall|i: int| 0 <= i < chunks_of(s, chunk_size).len() - 1
            ==> (#[trigger] chunks_of(s, chunk_size)[i]).len() == chunk_size,
    decreases s.len(),
{
    let cs = chunks_of(s, chunk_size);
    if s.len() == 0 {
        assert(cs.flatten() =~= s);
    } else if s.len() <= chunk_size {
        assert(cs =~= seq![s]);
        cs.lemma_flatten_one_element();
    } else {
        let head = s.take(chunk_size);
        let tail = s.skip(chunk_size);
        lemma_chunks_partition(tail, chunk_size);
        let rest = chunks_of(tail, chunk_size);
        assert(cs == seq![head] + rest);
        assert(cs.first() == head);
        assert(cs.drop_first() =~= rest);
        assert(cs.flatten() == cs.first() + cs.drop_first().flatten());
        assert(head + tail =~= s);
        assert forall|i: int| 0 <= i < cs.len() implies 1 <= (#[trigger] cs[i]).len()
            <= chunk_size by {
            if i >= 1 {
                assert(cs[i] == rest[i - 1]);
            }
        }
        assert forall|i: int| 0 <= i < cs.len() - 1 implies (#[trigger] cs[i]).len()
            == chunk_size by {
            if i >= 1 {
                assert(cs[i] == rest[i - 1]);
            }
        }
    }
}

/// One production step of the chunker walks the partition: on a non-empty
/// remainder, the samples the next chunk covers are the head of `chunks_of`,
/// and the chunks of what is left after the cursor advances are exactly the
/// later chunks.
pub proof fn lemma_chunks_of_step(s: Seq<i16>, chunk_size: int)
    requires
        chunk_size >= 1,
        s.len() > 0,
    ensures
        chunks_of(s, chunk_size).len() >= 1,
        chunks_of(s, chunk_size)[0] == (if s.len() < chunk_size {
            s
        } else {
            s.take(chunk_size)
        }),
        chunks_of(s, chunk_size).skip(1) == chunks_of(
            (if s.len() < chunk_size {
                s.skip(s.len() as int)
            } else {
                s.skip(chunk_size)
            }),
            chunk_size,
        ),
{
    if s.len() <= chunk_size {
        assert(s.take(s.len() as int) =~= s);
        if s.len() == chunk_size {
            assert(s.take(chunk_size) =~= s);
        }
        assert(chunks_of(s, chunk_size).skip(1) =~= Seq::<Seq<i16>>::empty());
        assert(chunks_of(s.skip(s.len() as int), chunk_size) =~= Seq::<Seq<i16>>::empty());
    } else {
        assert(chunks_of(s, chunk_size).skip(1) =~= chunks_of(s.skip(chunk_size), chunk_size));
    }
}

/// The sample-byte payloads of the chunks of a sequence, in production
/// order, before any sequence-number prefix is added.
pub open spec fn chunk_payloads(s: Seq<i16>, chunk_size: int) -> Seq<Seq<u8>>
    decreases s.len(),
    when chunk_size >= 1
{
    if s.len() == 0 {
        Seq::empty()
    } else if s.len() <= chunk_size {
        seq![wire::sample_bytes(s)]
    } else {
        seq![wire::sample_bytes(s.take(chunk_size))] + chunk_payloads(
            s.skip(chunk_size),
            chunk_size,
        )
    }
}

/// The chunk payloads are exactly the sample bytes of the chunks, chunk by
/// chunk.
pub proof fn lemma_chunk_payloads_match(s: Seq<i16>, chunk_size: int)
    requires
        chunk_size >= 1,
    ensures
        chunk_payloads(s, chunk_size).len() == chunks_of(s, chunk_size).len(),
        forall|i: int| 0 <= i < chunks_of(s, chunk_size).len()
            ==> #[trigger] chunk_payloads(s, chunk_size)[i] == wire::sample_bytes(
                chunks_of(s, chunk_size)[i],
            ),
    decreases s.len(),
{
    if s.len() > chunk_size {
        lemma_chunk_payloads_match(s.skip(chunk_size), chunk_size);
        let ps = chunk_payloads(s, chunk_size);
        let cs = chunks_of(s, chunk_size);
        assert forall|i: int| 0 <= i < cs.len() implies #[trigger] ps[i] == wire::sample_bytes(
            cs[i],
        ) by {
            if i >= 1 {
                assert(ps[i] == chunk_payloads(s.skip(chunk_size), chunk_size)[i - 1]);
                assert(cs[i] == chunks_of(s.skip(chunk_size), chunk_size)[i - 1]);
            }
        }
    }
}

/// Concatenating the sample bytes of every chunk payload, in order,
/// reconstructs the byte payload of the whole sequence.
pub proof fn lemma_chunk_payloads_flatten(s: Seq<i16>, chunk_size: int)
    requires
        chunk_size >= 1,
    ensures
        chunk_payloads(s, chunk_size).flatten() == wire::sample_bytes(s),
    decreases s.len(),
{
    let payloads = chunk_payloads(s, chunk_size);
    if s.len() == 0 {
        assert(payloads.flatten() =~= wire::sample_bytes(s));
    } else if s.len() <= chunk_size {
        assert(payloads =~= seq![wire::sample_bytes(s)]);
        payloads.lemma_flatten_one_element();
    } else {
        let head = s.take(chunk_size);
        let tail = s.skip(chunk_size);
        lemma_chunk_payloads_flatten(tail, chunk_size);
        assert(payloads.first() == wire::sample_bytes(head));
        assert(payloads.drop_first() =~= chunk_payloads(tail, chunk_size));
        assert(payloads.flatten() == payloads.first() + payloads.drop_first().flatten());
        wire::lemma_sample_bytes_concat(head, tail);
        assert(head + tail =~= s);
    }
}

/// Round trip: chunking a sample sequence and then concatenating the chunks'
/// payload sample bytes, in order, yields a byte stream that decodes back to
/// the original sequence exactly.
pub proof fn lemma_chunk_round_trip(s: Seq<i16>, chunk_size: int)
    requires
        chunk_size >= 1,
    ensures
        chunk_payloads(s, chunk_size).flatten() == wire::sample_bytes(s),
        wire::decoded_samples(chunk_payloads(s, chunk_size).flatten()) == s,
{
    lemma_chunk_payloads_flatten(s, chunk_size);
    wire::lemma_payload_round_trip(s);
}

impl Wave {
    /// Wraps a decoded sample sequence; the source is assumed to be mono.
    pub fn from_samples(sample_rate: u32, data: Vec<i16>) -> (wave: Wave)
        ensures
            wave.channels == 1,
            wave.sample_rate == sample_rate,
            wave.data == data,
    {
        Wave { channels: 1, sample_rate, data }
    }

    /// Upmixes a mono wave to interleaved stereo by duplicating every sample,
    /// once per channel, preserving the original order; a wave that is
    /// already stereo is left unchanged.
    pub fn make_stereo(&mut self)
        ensures
            final(self).channels == 2,
            final(self).sample_rate == old(self).sample_rate,
            old(self).channels == 2 ==> final(self).data == old(self).data,
            old(self).channels != 2 ==> final(self).data@ == stereo_of(old(self).data@),
    {
        if self.channels == 2 {
            return;
        }

        self.channels = 2;

        let mut data: Vec<i16> = Vec::new();
        let n = self.data.len();
        let mut i: usize = 0;
        while i < n
            invariant
                n == self.data@.len(),
                i <= n,
                data@ =~= stereo_of(self.data@).take(2 * i as int),
            decreases n - i,
        {
            let sample = self.data[i];
            data.push(sample);
            data.push(sample);
            proof {
                let st = stereo_of(self.data@);
                assert forall|k: int| 0 <= k < 2 * (i + 1) implies #[trigger] data@[k] == st[k] by {
                    if 2 * (i as int) <= k {
                        assert(k / 2 == i as int) by (nonlinear_arith)
                            requires 2 * (i as int) <= k < 2 * (i as int) + 2;
                    } else {
                        assert(0 <= k / 2 < i as int) by (nonlinear_arith)
                            requires 0 <= k < 2 * (i as int);
                    }
                }
                assert(data@ =~= st.take(2 * (i + 1) as int));
            }
            i = i + 1;
        }
        assert(stereo_of(self.data@).take(2 * n as int) =~= stereo_of(self.data@));
        self.data = data;
    }

    /// The nominal chunk size for this wave and a chunk duration in
    /// milliseconds: `channels * ms * sample_rate / 1000` samples.
    pub open spec fn spec_chunk_size(self, ms: usize) -> int {
        self.channels as int * ms as int * self.sample_rate as int / 1000
    }

    /// Consumes the wave and yields a reusable payload buffer together with
    /// the chunk sequence covering the wave's samples.
    pub fn chunk_ms(self, ms: usize, include_sequence_number: bool) -> (r: (Vec<u8>, WaveChunks))
        requires
            self.channels as int * ms as int * self.sample_rate as int <= usize::MAX,
            self.spec_chunk_size(ms) >= 1,
        ensures
            r.0@ == Seq::<u8>::empty(),
            r.1.wf(),
            r.1.stream@ == self.data@,
            r.1.chunk_size as int == self.spec_chunk_size(ms),
            r.1.include_sequence_number == include_sequence_number,
            r.1.count == 0,
            r.1.remaining() == self.data@,
    {
        proof {
            let c = self.channels as int;
            let m = ms as int;
            let r = self.sample_rate as int;
            assert(c * m * r >= 1000) by (nonlinear_arith)
                requires c * m * r / 1000 >= 1, c * m * r >= 0;
            assert(r >= 1) by (nonlinear_arith)
                requires c * m * r >= 1000, r >= 0;
            assert(c * m <= c * m * r) by (nonlinear_arith)
                requires r >= 1, c >= 0, m >= 0;
        }
        let chunk_size = (self.channels as usize * ms) * (self.sample_rate as usize) / 1000;
        (Vec::new(), WaveChunks::new(self.data, chunk_size, include_sequence_number))
    }
}

/// A lazy, finite, non-restartable sequence of serialized chunk payloads
/// drawn from a sample stream. Chunks are produced in order from a cursor;
/// `count` is the sequence number of the next chunk and wraps as a native
/// 32-bit unsigned counter.
pub struct WaveChunks {
    pub include_sequence_number: bool,
    pub exhausted: bool,
    pub stream: Vec<i16>,
    pub chunk_size: usize,
    pub cursor: usize,
    pub count: u32,
}

/// The sequence-number prefix of a payload: four big-endian bytes when
/// enabled, nothing otherwise.
pub open spec fn payload_header(include_sequence_number: bool, count: u32) -> Seq<u8> {
    if include_sequence_number {
        wire::be32(count)
    } else {
        Seq::empty()
    }
}

impl WaveChunks {
    /// Internal consistency: the cursor never passes the end of the stream,
    /// and the sequence is exhausted exactly when it has consumed the whole
    /// stream.
    pub open spec fn wf(self) -> bool {
        &&& self.chunk_size >= 1
        &&& self.cursor <= self.stream@.len()
        &&& (self.exhausted <==> self.cursor == self.stream@.len())
    }

    /// The samples not yet covered by a produced chunk.
    pub open spec fn remaining(self) -> Seq<i16> {
        self.stream@.skip(self.cursor as int)
    }

    /// The number of samples the next chunk will cover: `chunk_size`, or
    /// whatever remains for the final chunk.
    pub open spec fn head_len(self) -> int {
        if self.remaining().len() < self.chunk_size {
            self.remaining().len() as int
        } else {
            self.chunk_size as int
        }
    }

    pub fn new(stream: Vec<i16>, chunk_size: usize, include_sequence_number: bool) -> (r:
        WaveChunks)
        requires
            chunk_size >= 1,
        ensures
            r.wf(),
            r.stream == stream,
            r.chunk_size == chunk_size,
            r.include_sequence_number == include_sequence_number,
            r.count == 0,
            r.cursor == 0,
            r.exhausted <==> stream@.len() == 0,
    {
        WaveChunks {
            exhausted: stream.len() == 0,
            stream,
            chunk_size,
            cursor: 0,
            count: 0,
            include_sequence_number,
        }
    }

    /// Produces the next serialized payload into `buffer` and returns its
    /// byte length, or `None` once the whole stream has been consumed. The
    /// payload is the optional 4-byte big-endian sequence number followed by
    /// the big-endian bytes of the next `head_len()` samples, and the cursor
    /// advances by exactly that many samples.
    pub fn next(&mut self, buffer: &mut Vec<u8>) -> (r: Option<usize>)
        requires
            old(self).wf(),
        ensures
            final(self).wf(),
            final(self).stream == old(self).stream,
            final(self).chunk_size == old(self).chunk_size,
            final(self).include_sequence_number == old(self).include_sequence_number,
            old(self).exhausted ==> {
                &&& r is None
                &&& *final(self) == *old(self)
                &&& final(buffer)@ == old(buffer)@
            },
            !old(self).exhausted ==> {
                &&& final(buffer)@ == payload_header(
                    old(self).include_sequence_number,
                    old(self).count,
                ) + wire::sample_bytes(old(self).remaining().take(old(self).head_len()))
                &&& (r matches Some(len) && len == final(buffer)@.len())
                &&& final(self).remaining() == old(self).remaining().skip(old(self).head_len())
                &&& final(self).cursor == old(self).cursor + old(self).head_len()
                &&& final(self).count == wire::wrap_inc(old(self).count)
                &&& (final(self).exhausted <==> old(self).head_len()
                    == old(self).remaining().len())
            },
    {
        if self.exhausted {
            return None;
        }

        let rem = self.stream.len() - self.cursor;
        let take = if self.chunk_size < rem {
            self.chunk_size
        } else {
            rem
        };

        buffer.clear();

        if self.include_sequence_number {
            wire::push_u32_be(buffer, self.count);
        }

        let ghost header = payload_header(self.include_sequence_number, self.count);
        let ghost chunk = self.remaining().take(take as int);
        let start = self.cursor;
        let slen = self.stream.len();
        let mut j: usize = 0;
        while j < take
            invariant
                j <= take,
                start + take <= slen,
                slen == self.stream@.len(),
                chunk == self.stream@.skip(start as int).take(take as int),
                buffer@ =~= header + wire::sample_bytes(chunk.take(j as int)),
            decreases take - j,
        {
            wire::push_sample_be(buffer, self.stream[start + j]);
            proof {
                wire::lemma_sample_bytes_push(
                    chunk.take(j as int),
                    self.stream@[start as int + j as int],
                );
                assert(chunk.take(j as int + 1) =~= chunk.take(j as int).push(chunk[j as int]));
            }
            j = j + 1;
        }
        assert(chunk.take(take as int) =~= chunk);
        proof {
            assert(self.stream@.skip(start as int + take as int) =~= self.stream@.skip(
                start as int,
            ).skip(take as int));
        }

        self.cursor = self.cursor + take;
        if self.cursor == self.stream.len() {
            self.exhausted = true;
        }
        self.count = if self.count == u32::MAX {
            0
        } else {
            self.count + 1
        };

        Some(buffer.len())
    }
}

} // verus!
