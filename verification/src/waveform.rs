//! Waveform of the selected file: the envelope on display, and the loader
//! that decodes the whole file in the background to fill it.
//!
//! Every chunk of samples carries the generation of the load that produced
//! it. The display accepts a chunk only under its current generation, so a
//! load that was superseded can never write into the envelope of its
//! successor, however late its last chunks arrive.

use crate::visualization::chunk_at;
use crate::visualization::chunk_count;
use crate::visualization::made_by;
use vstd::arithmetic::div_mod::lemma_hoist_over_denominator;
use vstd::prelude::*;
use vstd::slice::slice_subrange;

verus! {

pub enum WaveformCommand {
    LoadFile {
        /// Path to the file to load
        path: String,
        /// Generation of this load. Chunks are accepted by the display only
        /// while this is its current generation.
        generation: usize,
    },
    StopLoading,
}

#[derive(Debug, Clone)]
pub enum Message<T> {
    /// The loader's command queue is open.
    Initialized,
    /// A load has begun; the number of samples to expect, where the decoder
    /// knows the duration.
    LoadingStarted(Option<usize>),
    LoadingFinished,
    Clear,
    SamplesReady { samples: Vec<T>, generation: usize },
    PlayPosition(T),
}

/// The display as a mathematical value.
pub struct Envelope<T> {
    /// The samples on display, in decoding order.
    pub samples: Seq<T>,
    /// Number of samples that the current load is expected to bring.
    pub total_samples: Option<usize>,
    /// Playhead, as a fraction of the file's duration.
    pub play_position: Option<T>,
    /// Whether the loader's command queue is connected.
    pub connected: bool,
    /// Generation of the current selection.
    pub generation: usize,
}

/// The first samples of `chunk` that still fit in when `held` samples are on
/// display and at most `total_samples` are expected.
pub open spec fn admitted<T>(held: nat, chunk: Seq<T>, total_samples: Option<usize>) -> Seq<T> {
    match total_samples {
        Some(total) => if held + chunk.len() <= total {
            chunk
        } else if held <= total {
            chunk.take(total - held)
        } else {
            Seq::empty()
        },
        None => chunk,
    }
}

impl<T> Envelope<T> {
    /// Number of samples that one column of a drawing `width` columns wide
    /// stands for: the expected length of the file, or what is on display
    /// where that is not known, spread over the columns.
    pub open spec fn samples_in_block(self, width: usize) -> nat {
        if width == 0 {
            0
        } else {
            match self.total_samples {
                Some(total) => (total / width) as nat,
                None => self.samples.len() / (width as nat),
            }
        }
    }

    /// `peaks` is the drawing of the display at `width` columns: one value
    /// for every block of samples, as `peak` makes it of the block. Nothing is
    /// drawn while a column stands for less than one sample.
    pub open spec fn drawn_as<F: Fn(&[T]) -> T>(self, width: usize, peak: F, peaks: Seq<T>) -> bool {
        let block = self.samples_in_block(width);
        if block == 0 {
            peaks.len() == 0
        } else {
            &&& peaks.len() == chunk_count(self.samples.len(), block)
            &&& forall|i: int| 0 <= i < peaks.len() ==> made_by(peak, chunk_at(self.samples, block, i), #[trigger] peaks[i])
        }
    }

    /// A display never holds more samples than its load is expected to bring.
    pub open spec fn well_formed(self) -> bool {
        self.total_samples matches Some(total) ==> self.samples.len() <= total
    }

    /// The display after `message`.
    pub open spec fn apply(self, message: Message<T>) -> Self {
        match message {
            Message::Initialized => Envelope { connected: true, ..self },
            Message::LoadingStarted(total_samples) => Envelope { samples: Seq::empty(), total_samples, ..self },
            Message::LoadingFinished => self,
            Message::Clear => Envelope { samples: Seq::empty(), total_samples: None, ..self },
            Message::SamplesReady { samples, generation } => if generation == self.generation {
                Envelope { samples: self.samples + admitted(self.samples.len(), samples@, self.total_samples), ..self }
            } else {
                self
            },
            Message::PlayPosition(position) => Envelope { play_position: Some(position), ..self },
        }
    }

    /// The display after `messages`, one after the other.
    pub open spec fn apply_all(self, messages: Seq<Message<T>>) -> Self
        decreases messages.len(),
    {
        if messages.len() == 0 {
            self
        } else {
            self.apply_all(messages.drop_last()).apply(messages.last())
        }
    }

    /// The display after a new selection: the generation moves on. Nothing
    /// else changes until the loader answers.
    pub open spec fn select(self) -> Self {
        if self.connected {
            Envelope { generation: (self.generation + 1) as usize, ..self }
        } else {
            self
        }
    }
}

/// Generation discarding: a chunk that carries another generation than the
/// display's current one changes nothing on display.
pub proof fn lemma_stale_chunk_is_dropped<T>(display: Envelope<T>, samples: Vec<T>, generation: usize)
    requires
        generation != display.generation,
    ensures
        display.apply(Message::SamplesReady { samples, generation }) == display,
{
}

/// No message changes the generation of a display: only a new selection
/// does.
pub proof fn lemma_messages_keep_generation<T>(display: Envelope<T>, messages: Seq<Message<T>>)
    ensures
        display.apply_all(messages).generation == display.generation,
        display.apply_all(messages).connected == (display.connected || exists|i: int|
            0 <= i < messages.len() && #[trigger] messages[i] is Initialized),
    decreases messages.len(),
{
    if messages.len() > 0 {
        let front = messages.drop_last();
        lemma_messages_keep_generation(display, front);
        if exists|i: int| 0 <= i < front.len() && #[trigger] front[i] is Initialized {
            let i = choose|i: int| 0 <= i < front.len() && #[trigger] front[i] is Initialized;
            assert(messages[i] is Initialized);
        }
        if messages.last() is Initialized {
            assert(messages[messages.len() - 1] is Initialized);
        }
        if exists|i: int| 0 <= i < messages.len() && #[trigger] messages[i] is Initialized {
            let i = choose|i: int| 0 <= i < messages.len() && #[trigger] messages[i] is Initialized;
            if i < front.len() {
                assert(front[i] is Initialized);
            }
        }
    }
}

/// Generation discarding across a change of selection: once a connected
/// display has moved on from generation `G`, a chunk still tagged `G` leaves
/// the display as it is, whatever messages have been applied in between.
pub proof fn lemma_superseded_load_is_silent<T>(display: Envelope<T>, between: Seq<Message<T>>, samples: Vec<T>)
    requires
        display.connected,
        display.generation < usize::MAX,
    ensures
        display.select().generation == display.generation + 1,
        display.select().apply_all(between).apply(
            Message::SamplesReady { samples, generation: display.generation },
        ) == display.select().apply_all(between),
{
    lemma_messages_keep_generation(display.select(), between);
}

/// Applying a message keeps a display within its expected length.
pub proof fn lemma_apply_keeps_budget<T>(display: Envelope<T>, message: Message<T>)
    requires
        display.well_formed(),
    ensures
        display.apply(message).well_formed(),
{
}

pub struct Waveform<T> {
    samples: Vec<T>,
    total_samples: Option<usize>,
    play_position: Option<T>,
    connected: bool,
    current_generation: usize,
}

impl<T: Copy> Waveform<T> {
    pub closed spec fn view(&self) -> Envelope<T> {
        Envelope {
            samples: self.samples@,
            total_samples: self.total_samples,
            play_position: self.play_position,
            connected: self.connected,
            generation: self.current_generation,
        }
    }

    pub fn new() -> (waveform: Self)
        ensures
            waveform@ == (Envelope::<T> {
                samples: Seq::empty(),
                total_samples: None,
                play_position: None,
                connected: false,
                generation: 0,
            }),
    {
        Waveform {
            samples: Vec::new(),
            total_samples: None,
            play_position: None,
            connected: false,
            current_generation: 0,
        }
    }

    /// Starts showing the file at `path`: whatever is loading is stopped, and
    /// a load under the next generation is ordered. Without a connected
    /// loader nothing happens.
    pub fn show(&mut self, path: String) -> (commands: Vec<WaveformCommand>)
        requires
            old(self)@.generation < usize::MAX,
        ensures
            final(self)@ == old(self)@.select(),
            if old(self)@.connected {
                &&& commands@.len() == 2
                &&& commands@[0] == WaveformCommand::StopLoading
                &&& commands@[1] == (WaveformCommand::LoadFile { path, generation: final(self)@.generation })
            } else {
                commands@.len() == 0
            },
    {
        let mut commands: Vec<WaveformCommand> = Vec::new();
        if self.connected {
            commands.push(WaveformCommand::StopLoading);
            self.current_generation = self.current_generation + 1;
            commands.push(WaveformCommand::LoadFile { path, generation: self.current_generation });
        }
        commands
    }

    /// Empties the display. With a connected loader the generation moves on
    /// and the load in progress is stopped.
    pub fn clear(&mut self) -> (commands: Vec<WaveformCommand>)
        requires
            old(self)@.generation < usize::MAX,
        ensures
            final(self)@ == (Envelope { samples: Seq::empty(), ..old(self)@.select() }),
            if old(self)@.connected {
                &&& commands@.len() == 1
                &&& commands@[0] == WaveformCommand::StopLoading
            } else {
                commands@.len() == 0
            },
    {
        let mut commands: Vec<WaveformCommand> = Vec::new();
        if self.connected {
            self.current_generation = self.current_generation + 1;
            commands.push(WaveformCommand::StopLoading);
        }
        self.samples.clear();
        commands
    }

    /// Takes one message from the loader or the engine, see `Envelope::apply`.
    pub fn update(&mut self, message: Message<T>)
        ensures
            final(self)@ == old(self)@.apply(message),
    {
        match message {
            Message::Initialized => {
                self.connected = true;
            },
            Message::LoadingStarted(samples_count) => {
                self.samples.clear();
                self.total_samples = samples_count;
            },
            Message::LoadingFinished => {},
            Message::SamplesReady { samples, generation } => {
                if self.current_generation == generation {
                    let room: usize = match self.total_samples {
                        Some(total) => if total < self.samples.len() {
                            0
                        } else if total - self.samples.len() < samples.len() {
                            total - self.samples.len()
                        } else {
                            samples.len()
                        },
                        None => samples.len(),
                    };
                    let ghost before = self.samples@;
                    let mut index: usize = 0;
                    while index < room
                        invariant
                            index <= room <= samples@.len(),
                            self.samples@ == before + samples@.take(index as int),
                            self.total_samples == old(self).total_samples,
                            self.play_position == old(self).play_position,
                            self.connected == old(self).connected,
                            self.current_generation == old(self).current_generation,
                        decreases room - index,
                    {
                        self.samples.push(samples[index]);
                        index += 1;
                        assert(self.samples@ =~= before + samples@.take(index as int));
                    }
                    assert(samples@.take(room as int) =~= admitted(before.len(), samples@, self.total_samples));
                }
            },
            Message::Clear => {
                self.samples.clear();
                self.total_samples = None;
            },
            Message::PlayPosition(position) => {
                self.play_position = Some(position);
            },
        }
    }

    /// The peak of every column of a drawing `width` columns wide.
    pub fn peaks<F: Fn(&[T]) -> T>(&self, width: usize, peak: F) -> (peaks: Vec<T>)
        requires
            forall|block: &[T]| call_requires(peak, (block,)),
        ensures
            self@.drawn_as(width, peak, peaks@),
    {
        let mut peaks: Vec<T> = Vec::new();
        if width == 0 {
            return peaks;
        }
        let len: usize = self.samples.len();
        let block: usize = match self.total_samples {
            Some(total) => total / width,
            None => len / width,
        };
        if block == 0 {
            return peaks;
        }
        let ghost count = chunk_count(len as nat, block as nat);
        let mut start: usize = 0;
        assert(count * block >= len > (count - 1) * block || len == 0 && count == 0) by (nonlinear_arith)
            requires
                count == (len + block - 1) / (block as int),
                block > 0,
                len >= 0,
        ;
        while start < len
            invariant_except_break
                start == peaks@.len() * block,
            invariant
                block > 0,
                len == self.samples@.len(),
                count == chunk_count(len as nat, block as nat),
                count * block >= len > (count - 1) * block || len == 0 && count == 0,
                peaks@.len() <= count,
                start >= len ==> peaks@.len() == count,
                forall|block_samples: &[T]| call_requires(peak, (block_samples,)),
                forall|i: int|
                    0 <= i < peaks@.len() ==> made_by(peak, chunk_at(self.samples@, block as nat, i), #[trigger] peaks@[i]),
            ensures
                peaks@.len() == count,
            decreases len - start,
        {
            let ghost index = peaks@.len() as int;
            let end: usize = if len - start < block {
                len
            } else {
                start + block
            };
            assert((index + 1) * block == start + block) by (nonlinear_arith)
                requires
                    start == index * block,
            ;
            let samples = slice_subrange(self.samples.as_slice(), start, end);
            assert(samples@ == chunk_at(self.samples@, block as nat, index));
            let value = peak(samples);
            assert(made_by(peak, chunk_at(self.samples@, block as nat, index), value));
            peaks.push(value);
            assert(index < count) by (nonlinear_arith)
                requires
                    index * block < len,
                    count * block >= len,
                    block > 0,
            ;
            if end == len {
                assert(index + 1 == count) by (nonlinear_arith)
                    requires
                        (index + 1) * block >= len,
                        len > (count - 1) * block,
                        index < count,
                        block > 0,
                ;
                start = len;
                break ;
            }
            start = end;
            assert(index + 1 < count || start >= len) by (nonlinear_arith)
                requires
                    start == (index + 1) * block,
                    count * block >= len,
                    index < count,
                    block > 0,
            ;
        }
        peaks
    }

    /// The samples on display.
    pub fn samples(&self) -> (samples: &Vec<T>)
        ensures
            samples@ == self@.samples,
    {
        &self.samples
    }

    /// Number of samples that the current load is expected to bring.
    pub fn total_samples(&self) -> (total: Option<usize>)
        ensures
            total == self@.total_samples,
    {
        self.total_samples
    }

    pub fn play_position(&self) -> (position: Option<T>)
        ensures
            position == self@.play_position,
    {
        self.play_position
    }

    pub fn current_generation(&self) -> (generation: usize)
        ensures
            generation == self@.generation,
    {
        self.current_generation
    }
}

/// Seconds of mono audio in one chunk of the loader.
pub const CHUNK_SECONDS: u64 = 16;

/// Nanoseconds in a second.
pub const NANOS_PER_SECOND: u128 = 1_000_000_000;

/// A time span: whole seconds, and nanoseconds on top of them.
pub struct Span {
    pub secs: u64,
    pub subsec_nanos: u32,
}

impl Span {
    /// The span in nanoseconds.
    pub open spec fn nanos(self) -> nat {
        (self.secs * NANOS_PER_SECOND + self.subsec_nanos) as nat
    }
}

/// What an opened decoder tells about its file.
pub struct SourceInfo {
    pub sample_rate: u32,
    pub channels: u16,
    /// Total duration, where the decoder knows it.
    pub total_duration: Option<Span>,
}

/// Number of frames in `duration` of audio at `sample_rate`, rounded down,
/// cut to the width of the machine's address.
pub open spec fn estimated_samples(duration: Span, sample_rate: u32) -> usize {
    (duration.nanos() * sample_rate / (NANOS_PER_SECOND as int)) as usize
}

pub fn samples_count(duration: Span, sample_rate: u32) -> (count: usize)
    ensures
        count == estimated_samples(duration, sample_rate),
{
    assert(duration.secs * sample_rate <= 0xffff_ffff_ffff_ffff_ffff_ffff && duration.subsec_nanos * sample_rate
        <= 0xffff_ffff_ffff_ffff) by (nonlinear_arith)
        requires
            duration.secs <= 0xffff_ffff_ffff_ffff,
            duration.subsec_nanos <= 0xffff_ffff,
            sample_rate <= 0xffff_ffff,
    ;
    let whole: u128 = (duration.secs as u128) * (sample_rate as u128);
    let part: u128 = (duration.subsec_nanos as u128) * (sample_rate as u128) / NANOS_PER_SECOND;
    proof {
        lemma_hoist_over_denominator(
            duration.subsec_nanos * sample_rate,
            duration.secs * sample_rate,
            NANOS_PER_SECOND as nat,
        );
        assert(duration.nanos() * sample_rate == duration.subsec_nanos * sample_rate + (duration.secs
            * sample_rate) * NANOS_PER_SECOND) by (nonlinear_arith)
            requires
                duration.nanos() == duration.secs * NANOS_PER_SECOND + duration.subsec_nanos,
        ;
    }
    #[verifier::truncate]
    ((whole + part) as usize)
}

/// A decode in progress: the samples of the frame being read, and the mono
/// values waiting to leave as the next chunk.
pub struct Decoding<T> {
    frame: Vec<T>,
    buffer: Vec<T>,
    channels: u16,
    sample_rate: u32,
    generation: usize,
}

pub enum State<T> {
    Idle,
    Decoding(Decoding<T>),
}

/// What the loader's loop can meet: a command, with what opening the file
/// gave where the command names one; the next sample of the decoder; the end
/// of the decoder's stream.
pub enum Event<T> {
    Command(WaveformCommand, Option<SourceInfo>),
    Sample(T),
    EndOfStream,
}

/// Number of mono values in a chunk at `sample_rate`.
pub open spec fn chunk_len(sample_rate: u32) -> nat {
    (sample_rate * CHUNK_SECONDS) as nat
}

/// `message` is the chunk `samples` under `generation`.
pub open spec fn is_chunk<T>(message: Message<T>, samples: Seq<T>, generation: usize) -> bool {
    message matches Message::SamplesReady { samples: chunk, generation: tag } && (chunk@ == samples && tag
        == generation)
}

/// `mean` may answer `value` for a slice holding `frame`.
pub open spec fn averaged_by<T, F: Fn(&[T]) -> T>(mean: F, frame: Seq<T>, value: T) -> bool {
    exists|samples: &[T]| samples@ == frame && call_ensures(mean, (samples,), value)
}

impl<T: Copy> Decoding<T> {
    /// The samples read of the current frame.
    pub closed spec fn frame(&self) -> Seq<T> {
        self.frame@
    }

    /// The mono values of the chunk being filled.
    pub closed spec fn pending(&self) -> Seq<T> {
        self.buffer@
    }

    pub closed spec fn channels(&self) -> u16 {
        self.channels
    }

    pub closed spec fn sample_rate(&self) -> u32 {
        self.sample_rate
    }

    pub closed spec fn generation(&self) -> usize {
        self.generation
    }

    pub fn new(sample_rate: u32, channels: u16, generation: usize) -> (decoding: Self)
        ensures
            decoding.frame().len() == 0,
            decoding.pending().len() == 0,
            decoding.channels() == channels,
            decoding.sample_rate() == sample_rate,
            decoding.generation() == generation,
    {
        Decoding { frame: Vec::new(), buffer: Vec::new(), channels, sample_rate, generation }
    }

    /// `self` is `before` after reading `sample`, and `message` what left. The
    /// sample joins its frame. A complete frame is replaced by its mean, which
    /// joins the chunk; a complete chunk leaves under the load's generation.
    pub open spec fn read<F: Fn(&[T]) -> T>(self, before: Self, sample: T, mean: F, message: Option<Message<T>>) -> bool {
        let frame = before.frame().push(sample);
        &&& self.channels() == before.channels()
        &&& self.sample_rate() == before.sample_rate()
        &&& self.generation() == before.generation()
        &&& if frame.len() == before.channels() {
            &&& self.frame().len() == 0
            &&& exists|value: T| #[trigger]
                averaged_by(mean, frame, value) && if before.pending().len() + 1 == chunk_len(before.sample_rate()) {
                    &&& self.pending().len() == 0
                    &&& message.is_some()
                    &&& is_chunk(message.unwrap(), before.pending().push(value), before.generation())
                } else {
                    &&& self.pending() == before.pending().push(value)
                    &&& message.is_none()
                }
        } else {
            &&& self.frame() == frame
            &&& self.pending() == before.pending()
            &&& message.is_none()
        }
    }

    pub fn push_sample<F: Fn(&[T]) -> T>(&mut self, sample: T, mean: F) -> (message: Option<Message<T>>)
        requires
            forall|samples: &[T]| call_requires(mean, (samples,)),
        ensures
            final(self).read(*old(self), sample, mean, message),
    {
        self.frame.push(sample);
        if self.frame.len() != self.channels as usize {
            return None;
        }
        let value = mean(self.frame.as_slice());
        assert(averaged_by(mean, old(self).frame().push(sample), value));
        self.frame.clear();
        self.buffer.push(value);
        assert(self.sample_rate * CHUNK_SECONDS <= u64::MAX) by (nonlinear_arith)
            requires
                self.sample_rate <= 0xffff_ffff,
                CHUNK_SECONDS == 16,
        ;
        let chunk_size: u64 = (self.sample_rate as u64) * CHUNK_SECONDS;
        if self.buffer.len() as u64 == chunk_size {
            let mut samples: Vec<T> = Vec::new();
            std::mem::swap(&mut self.buffer, &mut samples);
            Some(Message::SamplesReady { samples, generation: self.generation })
        } else {
            None
        }
    }

    /// `messages` is what the end of the stream sends: the values still
    /// waiting as a last, short chunk, if there are any, and the notice that
    /// loading has finished. The samples of an incomplete frame are dropped.
    pub open spec fn is_completion(&self, messages: Seq<Message<T>>) -> bool {
        if self.pending().len() == 0 {
            &&& messages.len() == 1
            &&& messages[0] == Message::<T>::LoadingFinished
        } else {
            &&& messages.len() == 2
            &&& is_chunk(messages[0], self.pending(), self.generation())
            &&& messages[1] == Message::<T>::LoadingFinished
        }
    }

    pub fn finish(self) -> (messages: Vec<Message<T>>)
        ensures
            self.is_completion(messages@),
    {
        let mut messages: Vec<Message<T>> = Vec::new();
        let generation = self.generation;
        let samples = self.buffer;
        if samples.len() > 0 {
            messages.push(Message::SamplesReady { samples, generation });
        }
        messages.push(Message::LoadingFinished);
        messages
    }
}

/// What a command starts: a load that opened its file announces itself and
/// begins decoding; a load that could not open its file, and a stop, clear the
/// display and leave the loader idle.
pub open spec fn started<T: Copy>(
    command: WaveformCommand,
    opened: Option<SourceInfo>,
    state: State<T>,
    messages: Seq<Message<T>>,
) -> bool {
    &&& messages.len() == 1
    &&& match (command, opened) {
        (WaveformCommand::LoadFile { path, generation }, Some(info)) => {
            &&& state matches State::Decoding(decoding) && (decoding.frame().len() == 0 && decoding.pending().len()
                == 0 && decoding.channels() == info.channels && decoding.sample_rate() == info.sample_rate
                && decoding.generation() == generation)
            &&& messages[0] == Message::<T>::LoadingStarted(
                match info.total_duration {
                    Some(duration) => Some(estimated_samples(duration, info.sample_rate)),
                    None => None,
                },
            )
        },
        _ => {
            &&& state is Idle
            &&& messages[0] == Message::<T>::Clear
        },
    }
}

/// Takes a command on an idle loader. `opened` is what opening and probing
/// the file of a `LoadFile` gave; it is nothing where that failed.
pub fn process_command<T: Copy>(command: WaveformCommand, opened: Option<SourceInfo>) -> (next: (
    State<T>,
    Vec<Message<T>>,
))
    ensures
        started(command, opened, next.0, next.1@),
{
    let mut messages: Vec<Message<T>> = Vec::new();
    match command {
        WaveformCommand::LoadFile { path: _, generation } => {
            match opened {
                Some(info) => {
                    let count = match info.total_duration {
                        Some(duration) => Some(samples_count(duration, info.sample_rate)),
                        None => None,
                    };
                    messages.push(Message::LoadingStarted(count));
                    (State::Decoding(Decoding::new(info.sample_rate, info.channels, generation)), messages)
                },
                None => {
                    messages.push(Message::Clear);
                    (State::Idle, messages)
                },
            }
        },
        WaveformCommand::StopLoading => {
            messages.push(Message::Clear);
            (State::Idle, messages)
        },
    }
}

/// One turn of the loader: `next` is the state after `event`, `messages` what
/// the display is sent.
///
/// An idle loader acts on commands only. While decoding, a sample is read
/// into the chunk, the end of the stream completes the load, and any command
/// cancels it: what was collected is discarded, and the command is taken as
/// on an idle loader, so that a stop clears the display and a new load starts.
pub open spec fn turned<T: Copy, F: Fn(&[T]) -> T>(
    state: State<T>,
    event: Event<T>,
    mean: F,
    next: State<T>,
    messages: Seq<Message<T>>,
) -> bool {
    match event {
        Event::Command(command, opened) => started(command, opened, next, messages),
        Event::Sample(sample) => match state {
            State::Idle => next is Idle && messages.len() == 0,
            State::Decoding(before) => next matches State::Decoding(after) && if messages.len() == 0 {
                after.read(before, sample, mean, None)
            } else {
                messages.len() == 1 && after.read(before, sample, mean, Some(messages[0]))
            },
        },
        Event::EndOfStream => match state {
            State::Idle => next is Idle && messages.len() == 0,
            State::Decoding(before) => next is Idle && before.is_completion(messages),
        },
    }
}

pub fn waveform_loading<T: Copy, F: Fn(&[T]) -> T>(state: State<T>, event: Event<T>, mean: F) -> (next: (
    State<T>,
    Vec<Message<T>>,
))
    requires
        forall|samples: &[T]| call_requires(mean, (samples,)),
    ensures
        turned(state, event, mean, next.0, next.1@),
{
    match event {
        Event::Command(command, opened) => process_command(command, opened),
        Event::Sample(sample) => match state {
            State::Idle => (State::Idle, Vec::new()),
            State::Decoding(mut decoding) => {
                let mut messages: Vec<Message<T>> = Vec::new();
                match decoding.push_sample(sample, mean) {
                    Some(chunk) => {
                        messages.push(chunk);
                    },
                    None => {},
                }
                (State::Decoding(decoding), messages)
            },
        },
        Event::EndOfStream => match state {
            State::Idle => (State::Idle, Vec::new()),
            State::Decoding(decoding) => (State::Idle, decoding.finish()),
        },
    }
}

} // verus!
