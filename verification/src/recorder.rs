//! Receiver side: the recorder. It accumulates every arrived sample batch in
//! arrival order and, on request, serializes the whole accumulated recording
//! once into a 16-bit PCM WAV container.

use vstd::prelude::*;

verus! {

/// The messages a recorder reacts to: append an arrived batch, stop without
/// saving, or serialize the recording and stop.
pub enum RecorderMessage {
    JustExit,
    SaveAndExit,
    Incoming(Vec<i16>),
}

/// The recorder's life cycle: it listens for messages, moves to `Saving`
/// exactly when asked to save, and never leaves `Stopped`.
#[derive(Clone, Copy, Debug, PartialEq, Eq, Structural)]
pub enum RecorderState {
    Listening,
    Saving,
    Stopped,
}

/// The recording does not fit a WAV container, whose size fields are 32-bit;
/// nothing was written.
#[derive(Clone, Copy, Debug, PartialEq, Eq, Structural)]
pub struct SaveError;

/// The bytes of the WAV container that holds 16-bit signed PCM samples with
/// the given channel count and sample rate. The exact byte layout is the
/// encoder's; it depends on these arguments alone.
pub uninterp spec fn wav_encoding(channels: u16, sample_rate: u32, samples: Seq<i16>) -> Seq<u8>;

/// A sample sequence that a WAV container can hold: 2 bytes per sample plus
/// the 44-byte header must fit the container's 32-bit size fields.
pub open spec fn fits_wav_container(len: nat) -> bool {
    2 * len + 44 <= 0xFFFFFFFF
}

/// Relies on hound's `WavWriter` (`new`, `write_sample`, `finalize`) writing
/// a WAV container to an in-memory cursor: 16-bit signed integer samples,
/// the given channel count and sample rate; the resulting bytes are a
/// function of those arguments alone. In-memory writes cannot fail, and the
/// preconditions rule out the encoder's arithmetic limits: a zero channel
/// count or sample rate, a byte rate past its 32-bit field, and a data size
/// past the container's 32-bit size fields — at most two channels, so the
/// header is the 44-byte `PCMWAVEFORMAT` one that `fits_wav_container`
/// models, never the longer `WAVEFORMATEXTENSIBLE` one. A sample count that
/// is not a multiple of the channel count is still written in full — the
/// header is updated before `finalize` signals it, and an unfinalized
/// writer's destructor writes the same bytes — so that no arrived sample is
/// ever lost.
#[verifier::external_body]
fn encode_wav(channels: u16, sample_rate: u32, samples: &Vec<i16>) -> (bytes: Vec<u8>)
    requires
        1 <= channels <= 2,
        1 <= sample_rate,
        2 * channels as int * sample_rate as int <= 0xFFFFFFFF,
        fits_wav_container(samples@.len()),
    ensures
        bytes@ == wav_encoding(channels, sample_rate, samples@),
        bytes@.len() == 44 + 2 * samples@.len(),
{
    let format = hound::SampleFormat::Int;
    let spec = hound::WavSpec { channels, sample_rate, bits_per_sample: 16, sample_format: format };
    let mut cursor = std::io::Cursor::new(Vec::new());
    let mut writer = hound::WavWriter::new(&mut cursor, spec).expect("in-memory header write cannot fail");
    for &sample in samples.iter() {
        writer.write_sample(sample).expect("in-memory sample write cannot fail");
    }
    match writer.finalize() {
        Err(hound::Error::UnfinishedSample) => Ok(()),
        other => other,
    }.expect("in-memory header update cannot fail");
    cursor.into_inner()
}

/// The recording after a run of arrived batches, starting from `rec`.
pub open spec fn record_run(rec: Seq<i16>, batches: Seq<Seq<i16>>) -> Seq<i16>
    decreases batches.len(),
{
    if batches.len() == 0 {
        rec
    } else {
        record_run(rec + batches[0], batches.skip(1))
    }
}

/// Appending batches one at a time, in arrival order, accumulates exactly
/// their concatenation behind what was already recorded: no sample is
/// reordered, dropped or duplicated, however the arrivals were interleaved
/// in time.
pub proof fn lemma_recording_preserves_arrival_order(rec: Seq<i16>, batches: Seq<Seq<i16>>)
    ensures
        record_run(rec, batches) == rec + batches.flatten(),
    decreases batches.len(),
{
    if batches.len() == 0 {
        assert(rec + batches.flatten() =~= rec);
    } else {
        lemma_recording_preserves_arrival_order(rec + batches[0], batches.skip(1));
        assert(batches.first() == batches[0]);
        assert((rec + batches[0]) + batches.skip(1).flatten() =~= rec + (batches[0]
            + batches.drop_first().flatten()));
        assert(batches.flatten() == batches.first() + batches.drop_first().flatten());
    }
}

/// The recorder: the accumulated recording, the layout it will be saved
/// with, and where it stands in its life cycle.
pub struct Recorder {
    pub channels: u16,
    pub sample_rate: u32,
    pub recording: Vec<i16>,
    pub state: RecorderState,
}

impl Recorder {
    /// A layout the WAV encoder accepts: interleaved stereo at a sample rate
    /// that is neither zero nor past the container's 32-bit byte-rate field.
    pub open spec fn wf(self) -> bool {
        &&& self.channels == 2
        &&& 1 <= self.sample_rate
        &&& 2 * self.channels as int * self.sample_rate as int <= 0xFFFFFFFF
    }

    /// A recorder that has recorded nothing yet and is listening; it records
    /// interleaved stereo at the given sample rate.
    pub fn new(sample_rate: u32) -> (recorder: Recorder)
        requires
            1 <= sample_rate,
            4 * sample_rate as int <= 0xFFFFFFFF,
        ensures
            recorder.wf(),
            recorder.channels == 2,
            recorder.sample_rate == sample_rate,
            recorder.recording@ == Seq::<i16>::empty(),
            recorder.state is Listening,
    {
        let recorder = Recorder {
            channels: 2,
            sample_rate,
            recording: Vec::new(),
            state: RecorderState::Listening,
        };
        proof {
            assert(recorder.recording@ =~= Seq::<i16>::empty());
        }
        recorder
    }

    /// Handles one message and says whether the recorder keeps listening.
    /// An arrived batch extends the recording, in arrival order, with exactly
    /// the samples it carries; the two terminal messages stop the recorder,
    /// moving it to `Saving` exactly when the recording is to be saved.
    pub fn listen(&mut self, msg: RecorderMessage) -> (keep_listening: bool)
        requires
            old(self).state is Listening,
        ensures
            final(self).channels == old(self).channels,
            final(self).sample_rate == old(self).sample_rate,
            msg matches RecorderMessage::Incoming(batch) ==> {
                &&& final(self).recording@ == old(self).recording@ + batch@
                &&& final(self).state is Listening
                &&& keep_listening
            },
            msg is JustExit ==> {
                &&& final(self).recording == old(self).recording
                &&& final(self).state is Stopped
                &&& !keep_listening
            },
            msg is SaveAndExit ==> {
                &&& final(self).recording == old(self).recording
                &&& final(self).state is Saving
                &&& !keep_listening
            },
    {
        match msg {
            RecorderMessage::Incoming(mut batch) => {
                self.recording.append(&mut batch);
                true
            },
            RecorderMessage::JustExit => {
                self.state = RecorderState::Stopped;
                false
            },
            RecorderMessage::SaveAndExit => {
                self.state = RecorderState::Saving;
                false
            },
        }
    }

    /// Serializes the whole accumulated recording into a WAV container with
    /// the recorder's channel count, sample rate and 16-bit signed samples,
    /// and stops. Saving happens at most once: it is only allowed in
    /// `Saving`, and leaves the recorder `Stopped`. It succeeds for exactly
    /// the recordings that fit the container's 32-bit size fields; the one
    /// failure is surfaced, never swallowed.
    pub fn save(&mut self) -> (r: Result<Vec<u8>, SaveError>)
        requires
            old(self).wf(),
            old(self).state is Saving,
        ensures
            *final(self) == (Recorder { state: RecorderState::Stopped, ..*old(self) }),
            r is Ok <==> fits_wav_container(old(self).recording@.len()),
            (r matches Ok(bytes) ==> bytes@ == wav_encoding(
                old(self).channels,
                old(self).sample_rate,
                old(self).recording@,
            ) && bytes@.len() == 44 + 2 * old(self).recording@.len()),
    {
        self.state = RecorderState::Stopped;
        if self.recording.len() as u64 <= (0xFFFFFFFFu64 - 44) / 2 {
            Ok(encode_wav(self.channels, self.sample_rate, &self.recording))
        } else {
            Err(SaveError)
        }
    }
}

} // verus!
