//! Playback engine: the decisions of the engine's command loop, and the tap
//! that cuts the played samples into blocks for the analyzers.
//!
//! The engine owns no device. For every command it says what the caller has
//! to do with the output device and the decoder, and the caller reports back
//! when a file was loaded.

use crate::fft_processor::cut_exactly;
use crate::visualization;
use vstd::arithmetic::div_mod::lemma_fundamental_div_mod_converse;
use vstd::prelude::*;

verus! {

/// Blocks per second handed to the analyzers: one per display frame.
pub const BLOCKS_PER_SECOND: usize = 60;

pub enum AudioCommand<T> {
    /// The output device is open.
    Initialize,
    /// Load and play the file at this path.
    Play(String),
    Stop,
    QueryPosition,
    /// Seek to this fraction of the file's duration.
    SetPosition(T),
}

/// What the caller has to do for a command.
pub enum Action<T, D> {
    Nothing,
    /// Open and decode the file. If that works, discard the current output,
    /// play the new source through a fresh sink and report `loaded`; if not,
    /// leave everything as it is.
    Load { path: String },
    /// Stop the output and pass `reset` on to the analyzers.
    Halt { reset: Vec<visualization::Message<T>> },
    /// Report the elapsed playback time as a fraction of `duration`.
    ReportPosition { duration: D },
    /// Seek to the fraction `position` of `duration`. When `restart` names a
    /// file, the output has run dry: decode that file afresh and play it
    /// before seeking.
    Seek { position: T, duration: D, restart: Option<String> },
}

pub enum EngineState {
    Uninitialized,
    Ready,
    Playing,
}

/// The file of the current playback session.
pub struct Session<D> {
    pub path: String,
    /// Total duration, where the decoder knows it.
    pub duration: Option<D>,
}

pub struct AudioPlayer<D> {
    initialized: bool,
    has_sink: bool,
    session: Option<Session<D>>,
}

/// The two messages that bring every analyzer back to silence: no sample
/// rate, then an empty block.
pub open spec fn is_reset<T>(messages: Seq<visualization::Message<T>>) -> bool {
    &&& messages.len() == 2
    &&& messages[0] == visualization::Message::<T>::SampleRateChanged(0)
    &&& messages[1] matches visualization::Message::AudioBuffer(channels, samples) && (channels == 0
        && samples@.len() == 0)
}

impl<D> AudioPlayer<D> {
    /// A session exists only on an initialized engine that has a sink.
    #[verifier::type_invariant]
    spec fn well_formed(&self) -> bool {
        self.session.is_some() ==> self.initialized && self.has_sink
    }
}

impl<D: Copy> AudioPlayer<D> {
    /// Whether the output device has been announced.
    pub closed spec fn initialized(&self) -> bool {
        self.initialized
    }

    /// Whether an output sink has been created for some file.
    pub closed spec fn has_sink(&self) -> bool {
        self.has_sink
    }

    /// The current playback session, if a file is loaded.
    pub closed spec fn session(&self) -> Option<Session<D>> {
        self.session
    }

    pub open spec fn state(&self) -> EngineState {
        if !self.initialized() {
            EngineState::Uninitialized
        } else if self.session().is_some() {
            EngineState::Playing
        } else {
            EngineState::Ready
        }
    }

    /// The state of the engine. A session exists only on an initialized
    /// engine that has a sink.
    pub fn current_state(&self) -> (state: EngineState)
        ensures
            state == self.state(),
            self.session().is_some() ==> self.initialized() && self.has_sink(),
    {
        proof {
            use_type_invariant(self);
        }
        if !self.initialized {
            EngineState::Uninitialized
        } else if self.session.is_some() {
            EngineState::Playing
        } else {
            EngineState::Ready
        }
    }

    pub fn new() -> (player: Self)
        ensures
            player.state() == EngineState::Uninitialized,
            !player.has_sink(),
            player.session().is_none(),
    {
        AudioPlayer { initialized: false, has_sink: false, session: None }
    }

    /// The action that `command` calls for in the state `self`, given whether
    /// the sink has played all it was given.
    pub open spec fn action_for<T>(&self, command: AudioCommand<T>, sink_empty: bool, action: Action<T, D>) -> bool {
        match command {
            AudioCommand::Initialize => action == Action::<T, D>::Nothing,
            AudioCommand::Play(path) => if self.initialized() {
                action == (Action::<T, D>::Load { path })
            } else {
                action == Action::<T, D>::Nothing
            },
            AudioCommand::Stop => if self.has_sink() {
                action matches Action::Halt { reset } && is_reset(reset@)
            } else {
                action == Action::<T, D>::Nothing
            },
            AudioCommand::QueryPosition => if self.has_sink() && self.session().is_some()
                && self.session().unwrap().duration.is_some() {
                action == (Action::<T, D>::ReportPosition { duration: self.session().unwrap().duration.unwrap() })
            } else {
                action == Action::<T, D>::Nothing
            },
            AudioCommand::SetPosition(position) => if self.has_sink() && self.session().is_some()
                && self.session().unwrap().duration.is_some() {
                action == (Action::<T, D>::Seek {
                    position,
                    duration: self.session().unwrap().duration.unwrap(),
                    restart: if sink_empty {
                        Some(self.session().unwrap().path)
                    } else {
                        None
                    },
                })
            } else {
                action == Action::<T, D>::Nothing
            },
        }
    }

    /// One turn of the command loop. `sink_empty` tells whether the sink has
    /// played all it was given; it matters for `SetPosition` only.
    ///
    /// `Initialize` makes the engine ready. `Stop` ends the session and, where
    /// a sink exists, resets the analyzers. Every other command leaves the
    /// state as it is: a `Play` takes effect through `loaded`.
    pub fn execute<T>(&mut self, command: AudioCommand<T>, sink_empty: bool) -> (action: Action<T, D>)
        ensures
            old(self).action_for(command, sink_empty, action),
            final(self).has_sink() == old(self).has_sink(),
            final(self).initialized() == (old(self).initialized() || command is Initialize),
            final(self).session() == if command is Stop && old(self).has_sink() {
                None
            } else {
                old(self).session()
            },
    {
        proof {
            use_type_invariant(&*self);
        }
        match command {
            AudioCommand::Initialize => {
                self.initialized = true;
                Action::Nothing
            },
            AudioCommand::Play(path) => {
                if self.initialized {
                    Action::Load { path }
                } else {
                    Action::Nothing
                }
            },
            AudioCommand::Stop => {
                if self.has_sink {
                    self.session = None;
                    let mut reset: Vec<visualization::Message<T>> = Vec::new();
                    reset.push(visualization::Message::SampleRateChanged(0));
                    reset.push(visualization::Message::AudioBuffer(0, Vec::new()));
                    Action::Halt { reset }
                } else {
                    Action::Nothing
                }
            },
            AudioCommand::QueryPosition => {
                if !self.has_sink {
                    return Action::Nothing;
                }
                match &self.session {
                    Some(Session { path: _, duration: Some(duration) }) => Action::ReportPosition {
                        duration: *duration,
                    },
                    _ => Action::Nothing,
                }
            },
            AudioCommand::SetPosition(position) => {
                if !self.has_sink {
                    return Action::Nothing;
                }
                match &self.session {
                    Some(Session { path, duration: Some(duration) }) => {
                        let restart = if sink_empty {
                            Some(path.clone())
                        } else {
                            None
                        };
                        Action::Seek { position, duration: *duration, restart }
                    },
                    _ => Action::Nothing,
                }
            },
        }
    }

    /// Records that the file at `path` was decoded and is now playing through
    /// a fresh sink: it becomes the session, whatever was loaded before. An
    /// engine that was never initialized has no output and ignores the report.
    pub fn loaded(&mut self, path: String, duration: Option<D>)
        ensures
            final(self).initialized() == old(self).initialized(),
            old(self).initialized() ==> final(self).has_sink() && final(self).session() == Some(
                Session { path, duration },
            ) && final(self).state() == EngineState::Playing,
            !old(self).initialized() ==> final(self).has_sink() == old(self).has_sink() && final(self).session()
                == old(self).session(),
    {
        if self.initialized {
            self.has_sink = true;
            self.session = Some(Session { path, duration });
        }
    }
}

/// Number of samples in one block of the tap: one display frame's worth of
/// interleaved audio.
pub open spec fn block_len(sample_rate: u32, channels: u16) -> nat {
    (sample_rate * channels / (BLOCKS_PER_SECOND as int)) as nat
}

/// `message` is the block `samples` with the channel count `channels`.
pub open spec fn is_block<T>(message: visualization::Message<T>, channels: u16, samples: Seq<T>) -> bool {
    message matches visualization::Message::AudioBuffer(count, block) && (count == channels && block@ == samples)
}

/// What the tap has made of a run of samples: the full blocks that left, in
/// order, and the samples still collected.
pub struct Tapping<T> {
    pub blocks: Seq<Seq<T>>,
    pub pending: Seq<T>,
}

/// Collects `samples` one after the other, starting with `pending`: each
/// time `capacity` samples are together they leave as a block.
pub open spec fn tap<T>(pending: Seq<T>, samples: Seq<T>, capacity: nat) -> Tapping<T>
    decreases samples.len(),
{
    if samples.len() == 0 {
        Tapping { blocks: Seq::empty(), pending }
    } else {
        let before = tap(pending, samples.drop_last(), capacity);
        let grown = before.pending.push(samples.last());
        if grown.len() == capacity {
            Tapping { blocks: before.blocks.push(grown), pending: Seq::empty() }
        } else {
            Tapping { blocks: before.blocks, pending: grown }
        }
    }
}

/// No sample is lost or doubled by the tap: the blocks that left, followed by
/// what is still collected, are the samples that passed, in order; every
/// block has `capacity` samples, and less than a block is still collected.
pub proof fn lemma_tap_cuts_exactly<T>(samples: Seq<T>, capacity: nat)
    requires
        capacity > 0,
    ensures
        cut_exactly(
            samples,
            tap(Seq::<T>::empty(), samples, capacity).blocks,
            tap(Seq::<T>::empty(), samples, capacity).pending,
            capacity,
        ),
        tap(Seq::<T>::empty(), samples, capacity).blocks.len() == samples.len() / capacity,
        tap(Seq::<T>::empty(), samples, capacity).pending.len() == samples.len() % capacity,
    decreases samples.len(),
{
    let after = tap(Seq::<T>::empty(), samples, capacity);
    if samples.len() == 0 {
        assert(after.pending =~= samples.subrange(0, 0));
    } else {
        let front = samples.drop_last();
        let before = tap(Seq::<T>::empty(), front, capacity);
        lemma_tap_cuts_exactly(front, capacity);
        let count = before.blocks.len() as int;
        let grown = before.pending.push(samples.last());
        assert(count * capacity + capacity == (count + 1) * capacity) by (nonlinear_arith);
        assert(0 <= count * capacity) by (nonlinear_arith)
            requires
                0 <= count,
                capacity >= 0,
        ;
        assert(grown =~= samples.subrange(count * capacity, samples.len() as int));
        assert forall|k: int| 0 <= k < count implies #[trigger] before.blocks[k] == samples.subrange(
            k * capacity,
            (k + 1) * capacity,
        ) by {
            assert(0 <= k * capacity <= (k + 1) * capacity <= count * capacity) by (nonlinear_arith)
                requires
                    0 <= k < count,
                    capacity >= 0,
            ;
            assert(front.subrange(k * capacity, (k + 1) * capacity) =~= samples.subrange(
                k * capacity,
                (k + 1) * capacity,
            ));
        }
        if grown.len() == capacity {
            assert(after.pending =~= samples.subrange((count + 1) * capacity, samples.len() as int));
        }
        assert(cut_exactly(samples, after.blocks, after.pending, capacity));
    }
    lemma_fundamental_div_mod_converse(
        samples.len() as int,
        capacity as int,
        after.blocks.len() as int,
        after.pending.len() as int,
    );
}

/// What the tap hands on for one turn of the decoder: the sample for the
/// sink, and the messages for the analyzers.
pub struct Tapped<T> {
    pub sample: Option<T>,
    pub messages: Vec<visualization::Message<T>>,
}

/// The tap between decoder and sink. Every sample that passes is also
/// collected, and each time `capacity` samples are together they leave as one
/// block. The end of the stream is told to the analyzers once.
pub struct SourcePicker<T> {
    buffer: Vec<T>,
    buffer_capacity: usize,
    channels: u16,
    sample_rate: u32,
    finished: bool,
}

impl<T: Copy> SourcePicker<T> {
    /// The samples collected since the last block, oldest first.
    pub closed spec fn view(&self) -> Seq<T> {
        self.buffer@
    }

    /// Number of samples in a full block.
    pub closed spec fn capacity(&self) -> usize {
        self.buffer_capacity
    }

    /// Whether the analyzers have been told of the end of the stream and
    /// nothing has passed the tap since.
    pub closed spec fn finished(&self) -> bool {
        self.finished && self.buffer@.len() == 0
    }

    pub closed spec fn spec_channels(&self) -> u16 {
        self.channels
    }

    pub closed spec fn spec_sample_rate(&self) -> u32 {
        self.sample_rate
    }

    /// A tap for a source with the given format, and the message that
    /// announces the source's sample rate to the analyzers.
    pub fn new(sample_rate: u32, channels: u16) -> (made: (Self, visualization::Message<T>))
        requires
            block_len(sample_rate, channels) <= usize::MAX,
        ensures
            made.0@.len() == 0,
            !made.0.finished(),
            made.0.capacity() == block_len(sample_rate, channels),
            made.0.spec_channels() == channels,
            made.0.spec_sample_rate() == sample_rate,
            made.1 == visualization::Message::<T>::SampleRateChanged(sample_rate as usize),
    {
        assert(sample_rate * channels <= 0xffff_ffff_ffff) by (nonlinear_arith)
            requires
                sample_rate <= 0xffff_ffff,
                channels <= 0xffff,
        ;
        let product: u64 = (sample_rate as u64) * (channels as u64);
        let buffer_capacity: usize = (product / 60) as usize;
        (
            SourcePicker {
                buffer: Vec::with_capacity(buffer_capacity),
                buffer_capacity,
                channels,
                sample_rate,
                finished: false,
            },
            visualization::Message::SampleRateChanged(sample_rate as usize),
        )
    }

    /// Collects one sample. When that completes a block, the block leaves.
    pub fn push_sample(&mut self, sample: T) -> (block: Option<visualization::Message<T>>)
        ensures
            final(self)@ == tap(old(self)@, seq![sample], old(self).capacity() as nat).pending,
            block.is_some() == (tap(old(self)@, seq![sample], old(self).capacity() as nat).blocks.len() == 1),
            !final(self).finished(),
            final(self).capacity() == old(self).capacity(),
            final(self).spec_channels() == old(self).spec_channels(),
            final(self).spec_sample_rate() == old(self).spec_sample_rate(),
            old(self)@.len() + 1 == old(self).capacity() ==> final(self)@.len() == 0 && block.is_some() && is_block(
                block.unwrap(),
                old(self).spec_channels(),
                old(self)@.push(sample),
            ),
            old(self)@.len() + 1 != old(self).capacity() ==> final(self)@ == old(self)@.push(sample)
                && block.is_none(),
    {
        proof {
            let one = seq![sample];
            assert(one.drop_last() =~= Seq::<T>::empty());
            assert(tap(old(self)@, one.drop_last(), old(self).capacity() as nat).pending == old(self)@);
            assert(tap(old(self)@, one.drop_last(), old(self).capacity() as nat).blocks.len() == 0);
        }
        self.buffer.push(sample);
        self.finished = false;
        if self.buffer.len() == self.buffer_capacity {
            let block = self.submit_buffer();
            assert(self@ =~= Seq::<T>::empty());
            Some(block)
        } else {
            None
        }
    }

    /// Hands out what has been collected as a block, full or not. A block has
    /// passed: the end of the stream is no longer the last thing told.
    pub fn submit_buffer(&mut self) -> (block: visualization::Message<T>)
        ensures
            !final(self).finished(),
            final(self).capacity() == old(self).capacity(),
            final(self).spec_channels() == old(self).spec_channels(),
            final(self).spec_sample_rate() == old(self).spec_sample_rate(),
            final(self)@.len() == 0,
            is_block(block, old(self).spec_channels(), old(self)@),
    {
        let mut block: Vec<T> = Vec::with_capacity(self.buffer_capacity);
        std::mem::swap(&mut self.buffer, &mut block);
        self.finished = false;
        visualization::Message::AudioBuffer(self.channels, block)
    }

    /// `messages` is what the end of the stream sends to the analyzers: the
    /// samples still collected as a last, short block, if there are any, and
    /// then exactly one empty block.
    pub open spec fn is_final_flush(&self, messages: Seq<visualization::Message<T>>) -> bool {
        if self@.len() == 0 {
            &&& messages.len() == 1
            &&& is_block(messages[0], self.spec_channels(), Seq::empty())
        } else {
            &&& messages.len() == 2
            &&& is_block(messages[0], self.spec_channels(), self@)
            &&& is_block(messages[1], self.spec_channels(), Seq::empty())
        }
    }

    /// One turn of the decoder. A sample is passed on to the sink and
    /// collected. The end of the stream is passed on too: the first time it
    /// is met the final flush goes out, and as long as no further sample
    /// arrives, meeting it again sends nothing. A stream that yields again,
    /// as after a seek, ends once more.
    pub fn next(&mut self, sample: Option<T>) -> (tapped: Tapped<T>)
        ensures
            tapped.sample == sample,
            final(self).capacity() == old(self).capacity(),
            final(self).spec_channels() == old(self).spec_channels(),
            final(self).spec_sample_rate() == old(self).spec_sample_rate(),
            match sample {
                Some(value) => !final(self).finished() && if old(self)@.len() + 1 == old(self).capacity() {
                    &&& final(self)@.len() == 0
                    &&& tapped.messages@.len() == 1
                    &&& is_block(tapped.messages@[0], old(self).spec_channels(), old(self)@.push(value))
                } else {
                    &&& final(self)@ == old(self)@.push(value)
                    &&& tapped.messages@.len() == 0
                },
                None => {
                    &&& final(self).finished()
                    &&& final(self)@.len() == 0
                    &&& if old(self).finished() {
                        tapped.messages@.len() == 0
                    } else {
                        old(self).is_final_flush(tapped.messages@)
                    }
                },
            },
    {
        let mut messages: Vec<visualization::Message<T>> = Vec::new();
        match sample {
            Some(value) => {
                match self.push_sample(value) {
                    Some(block) => {
                        messages.push(block);
                    },
                    None => {},
                }
            },
            None => {
                if !(self.finished && self.buffer.len() == 0) {
                    if self.buffer.len() > 0 {
                        let last = self.submit_buffer();
                        messages.push(last);
                    }
                    assert(self@ =~= Seq::empty());
                    let silence = self.submit_buffer();
                    messages.push(silence);
                    self.finished = true;
                }
            },
        }
        Tapped { sample, messages }
    }

    pub fn channels(&self) -> (channels: u16)
        ensures
            channels == self.spec_channels(),
    {
        self.channels
    }

    pub fn sample_rate(&self) -> (sample_rate: u32)
        ensures
            sample_rate == self.spec_sample_rate(),
    {
        self.sample_rate
    }
}

#[derive(Debug, Clone)]
pub enum Message<T> {
    /// The engine's command queue is open.
    Initialize,
    QueryPosition,
    SetPosition(T),
}

/// The engine as the user interface sees it: whether an output device was
/// found at start-up, and whether the engine's command queue is connected.
/// Without a device the engine is never connected and every request comes to
/// nothing.
pub struct Audio {
    connected: bool,
    has_output: bool,
}

impl Audio {
    pub closed spec fn connected(&self) -> bool {
        self.connected
    }

    pub closed spec fn has_output(&self) -> bool {
        self.has_output
    }

    /// `has_output` tells whether the default output device could be opened.
    pub fn new(has_output: bool) -> (audio: Self)
        ensures
            audio.has_output() == has_output,
            !audio.connected(),
    {
        Audio { connected: false, has_output }
    }

    /// The command to send to the engine for `message`, if any. The queue is
    /// connected by `Initialize` where a device exists; position requests are
    /// passed on once it is connected.
    pub fn update<T>(&mut self, message: Message<T>) -> (command: Option<AudioCommand<T>>)
        ensures
            final(self).has_output() == old(self).has_output(),
            final(self).connected() == (old(self).connected() || (message is Initialize && old(self).has_output())),
            command == match message {
                Message::Initialize => if old(self).has_output() {
                    Some(AudioCommand::<T>::Initialize)
                } else {
                    None
                },
                Message::QueryPosition => if old(self).connected() {
                    Some(AudioCommand::<T>::QueryPosition)
                } else {
                    None
                },
                Message::SetPosition(position) => if old(self).connected() {
                    Some(AudioCommand::<T>::SetPosition(position))
                } else {
                    None
                },
            },
    {
        match message {
            Message::Initialize => {
                if self.has_output {
                    self.connected = true;
                    Some(AudioCommand::Initialize)
                } else {
                    None
                }
            },
            Message::QueryPosition => self.send_command_if_possible(AudioCommand::QueryPosition),
            Message::SetPosition(position) => self.send_command_if_possible(AudioCommand::SetPosition(position)),
        }
    }

    /// Whether the engine loop and the position timer are to run.
    pub fn subscription(&self) -> (active: bool)
        ensures
            active == self.has_output(),
    {
        self.has_output
    }

    /// The command that plays the file at `path`.
    pub fn play<T>(&self, path: String) -> (command: Option<AudioCommand<T>>)
        ensures
            command == if self.connected() {
                Some(AudioCommand::<T>::Play(path))
            } else {
                None
            },
    {
        self.send_command_if_possible(AudioCommand::Play(path))
    }

    /// The command that stops playback.
    pub fn stop<T>(&self) -> (command: Option<AudioCommand<T>>)
        ensures
            command == if self.connected() {
                Some(AudioCommand::<T>::Stop)
            } else {
                None
            },
    {
        self.send_command_if_possible(AudioCommand::Stop)
    }

    fn send_command_if_possible<T>(&self, command: AudioCommand<T>) -> (sent: Option<AudioCommand<T>>)
        ensures
            sent == if self.connected() {
                Some(command)
            } else {
                None
            },
    {
        if self.connected {
            Some(command)
        } else {
            None
        }
    }
}

} // verus!
