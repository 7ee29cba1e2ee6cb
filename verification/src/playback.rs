//! Receiver side: the jitter-buffered live playback engine. An external sink
//! pulls one sample at a time at its own clock; arrived sample batches are
//! appended between pulls. When the queue runs dry the engine emits a whole
//! backoff window of silence before resuming, so bursty arrival is smoothed
//! instead of stuttering.

use vstd::prelude::*;

verus! {

/// What one pull emits: a silent sample, or the sample popped from the head
/// of the queue. The sink renormalizes samples; silence plays as amplitude
/// zero.
#[derive(Clone, Copy, Debug, PartialEq, Eq, Structural)]
pub enum Pulled {
    Silence,
    Sample(i16),
}

/// The abstract state of the playback engine: the configured backoff window
/// in samples, the silence still owed from the last underrun, and the queued
/// samples in arrival order.
#[verifier::ext_equal]
pub struct PlaybackModel {
    pub jitter_backoff: nat,
    pub backoff: nat,
    pub queue: Seq<i16>,
}

/// One event the engine reacts to: a pull from the sink, or the arrival of a
/// decoded sample batch.
pub enum PlaybackOp {
    Pull,
    Arrive(Seq<i16>),
}

/// The state after one pull: pending silence is paid down first; otherwise an
/// empty queue starts a new backoff window; otherwise the head sample leaves
/// the queue.
pub open spec fn model_pull(m: PlaybackModel) -> PlaybackModel {
    if m.backoff > 0 {
        PlaybackModel { backoff: (m.backoff - 1) as nat, ..m }
    } else if m.queue.len() == 0 {
        PlaybackModel { backoff: m.jitter_backoff, ..m }
    } else {
        PlaybackModel { queue: m.queue.skip(1), ..m }
    }
}

/// What one pull emits from state `m`.
pub open spec fn pull_output(m: PlaybackModel) -> Pulled {
    if m.backoff > 0 || m.queue.len() == 0 {
        Pulled::Silence
    } else {
        Pulled::Sample(m.queue[0])
    }
}

/// The state after one event.
pub open spec fn model_step(m: PlaybackModel, op: PlaybackOp) -> PlaybackModel {
    match op {
        PlaybackOp::Pull => model_pull(m),
        PlaybackOp::Arrive(batch) => PlaybackModel { queue: m.queue + batch, ..m },
    }
}

/// The state after a sequence of events.
pub open spec fn model_run(m: PlaybackModel, ops: Seq<PlaybackOp>) -> PlaybackModel
    decreases ops.len(),
{
    if ops.len() == 0 {
        m
    } else {
        model_run(model_step(m, ops[0]), ops.skip(1))
    }
}

/// How many of the events are pulls.
pub open spec fn pull_count(ops: Seq<PlaybackOp>) -> nat
    decreases ops.len(),
{
    if ops.len() == 0 {
        0
    } else {
        (if ops[0] is Pull {
            1nat
        } else {
            0nat
        }) + pull_count(ops.skip(1))
    }
}

/// The samples arriving over a sequence of events, in arrival order.
pub open spec fn arrivals(ops: Seq<PlaybackOp>) -> Seq<i16>
    decreases ops.len(),
{
    if ops.len() == 0 {
        Seq::empty()
    } else {
        (match ops[0] {
            PlaybackOp::Arrive(batch) => batch,
            PlaybackOp::Pull => Seq::empty(),
        }) + arrivals(ops.skip(1))
    }
}

/// Every pull among the events emits silence.
pub open spec fn all_pulls_silent(m: PlaybackModel, ops: Seq<PlaybackOp>) -> bool
    decreases ops.len(),
{
    if ops.len() == 0 {
        true
    } else {
        &&& (ops[0] is Pull ==> pull_output(m) is Silence)
        &&& all_pulls_silent(model_step(m, ops[0]), ops.skip(1))
    }
}

/// While silence is still owed, every pull emits silence no matter what
/// arrives in between: as long as a run of events holds no more pulls than
/// the pending backoff, all its pulls are silent, the backoff drops by
/// exactly the number of pulls, and everything that arrived is queued behind
/// the existing samples, none of it played early.
pub proof fn lemma_backoff_window(m: PlaybackModel, ops: Seq<PlaybackOp>)
    requires
        pull_count(ops) <= m.backoff,
    ensures
        all_pulls_silent(m, ops),
        model_run(m, ops).backoff == m.backoff - pull_count(ops),
        model_run(m, ops).queue == m.queue + arrivals(ops),
        model_run(m, ops).jitter_backoff == m.jitter_backoff,
    decreases ops.len(),
{
    if ops.len() == 0 {
        assert(m.queue + arrivals(ops) =~= m.queue);
    } else {
        let m2 = model_step(m, ops[0]);
        lemma_backoff_window(m2, ops.skip(1));
        match ops[0] {
            PlaybackOp::Pull => {
                assert(m2.queue + arrivals(ops.skip(1)) =~= m.queue + arrivals(ops));
            },
            PlaybackOp::Arrive(batch) => {
                assert(m2.queue + arrivals(ops.skip(1)) =~= m.queue + arrivals(ops));
            },
        }
    }
}

/// After an underrun — a pull on an empty queue with no backoff pending —
/// that pull and the next `jitter_backoff` pulls all emit silence, whatever
/// data arrives during the window; the samples that arrived are buffered, in
/// order, and the first pull after the window emits the first of them.
pub proof fn lemma_underrun_window(m: PlaybackModel, ops: Seq<PlaybackOp>)
    requires
        m.backoff == 0,
        m.queue.len() == 0,
        pull_count(ops) == m.jitter_backoff,
    ensures
        pull_output(m) is Silence,
        all_pulls_silent(model_pull(m), ops),
        model_run(model_pull(m), ops).queue == arrivals(ops),
        model_run(model_pull(m), ops).backoff == 0,
        arrivals(ops).len() > 0 ==> pull_output(model_run(model_pull(m), ops))
            == Pulled::Sample(arrivals(ops)[0]),
{
    let m1 = model_pull(m);
    lemma_backoff_window(m1, ops);
    assert(m1.queue + arrivals(ops) =~= arrivals(ops));
}

/// The live playback engine. `pull` is driven by the sink; arrived batches
/// are appended with `push_batch` between pulls.
pub struct LivePlayback {
    jitter_backoff: usize,
    backoff: usize,
    sample_rate: u32,
    channels: u16,
    buffer: Vec<i16>,
}

impl View for LivePlayback {
    type V = PlaybackModel;

    closed spec fn view(&self) -> PlaybackModel {
        PlaybackModel {
            jitter_backoff: self.jitter_backoff as nat,
            backoff: self.backoff as nat,
            queue: self.buffer@,
        }
    }
}

impl LivePlayback {
    /// The configured stream layout, fixed at construction: the sink pulls
    /// interleaved stereo.
    pub closed spec fn spec_channels(self) -> u16 {
        self.channels
    }

    pub closed spec fn spec_sample_rate(self) -> u32 {
        self.sample_rate
    }

    /// Builds an engine for the given sample rate and backoff window in
    /// milliseconds: the window is `jitter_backoff_ms * sample_rate / 1000`
    /// samples, the queue starts empty and no silence is owed.
    pub fn new(sample_rate: u32, jitter_backoff_ms: u64) -> (engine: LivePlayback)
        requires
            jitter_backoff_ms as int * sample_rate as int / 1000 <= usize::MAX,
        ensures
            engine@.jitter_backoff == jitter_backoff_ms as int * sample_rate as int / 1000,
            engine@.backoff == 0,
            engine@.queue == Seq::<i16>::empty(),
            engine.spec_channels() == 2,
            engine.spec_sample_rate() == sample_rate,
    {
        proof {
            assert(jitter_backoff_ms as int * sample_rate as int <= 0xffffffffffffffff
                * 0xffffffff) by (nonlinear_arith)
                requires
                    0 <= jitter_backoff_ms as int <= 0xffffffffffffffff,
                    0 <= sample_rate as int <= 0xffffffff;
        }
        let window: u128 = jitter_backoff_ms as u128 * sample_rate as u128 / 1000;
        let engine = LivePlayback {
            jitter_backoff: window as usize,
            backoff: 0,
            sample_rate,
            channels: 2,
            buffer: Vec::new(),
        };
        proof {
            assert(engine@.queue =~= Seq::<i16>::empty());
        }
        engine
    }

    /// Appends an arrived batch to the tail of the queue, in order; nothing
    /// else changes.
    pub fn push_batch(&mut self, batch: &Vec<i16>)
        ensures
            final(self)@ == model_step(old(self)@, PlaybackOp::Arrive(batch@)),
            final(self).spec_channels() == old(self).spec_channels(),
            final(self).spec_sample_rate() == old(self).spec_sample_rate(),
    {
        self.buffer.extend_from_slice(batch.as_slice());
        proof {
            assert(self@ =~= model_step(old(self)@, PlaybackOp::Arrive(batch@)));
        }
    }

    /// One pull from the sink: emits pending silence first, starts a new
    /// backoff window when the queue is found empty, and otherwise pops the
    /// head sample. Never fails and never blocks.
    pub fn pull(&mut self) -> (out: Pulled)
        ensures
            out == pull_output(old(self)@),
            final(self)@ == model_pull(old(self)@),
            final(self).spec_channels() == old(self).spec_channels(),
            final(self).spec_sample_rate() == old(self).spec_sample_rate(),
    {
        if self.backoff > 0 {
            self.backoff = self.backoff - 1;
            return Pulled::Silence;
        }

        if self.buffer.len() == 0 {
            self.backoff = self.jitter_backoff;
            return Pulled::Silence;
        }

        let sample = self.buffer.remove(0);
        assert(self.buffer@ =~= old(self)@.queue.skip(1));
        Pulled::Sample(sample)
    }

    /// The channel count the engine declares to its sink.
    pub fn channels(&self) -> (c: u16)
        ensures
            c == self.spec_channels(),
    {
        self.channels
    }

    /// The sample rate the engine declares to its sink.
    pub fn sample_rate(&self) -> (r: u32)
        ensures
            r == self.spec_sample_rate(),
    {
        self.sample_rate
    }
}

} // verus!
