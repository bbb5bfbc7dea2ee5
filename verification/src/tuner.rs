//! Tuner: collects mono samples into fixed windows, has the pitch of each
//! window estimated, and shows the name of the nearest note.
//!
//! The estimator is the caller's choice (a harmonic product spectrum, an
//! autocorrelation method, ...). It receives one window and the sample rate
//! and answers a MIDI note number, or nothing when the window is too quiet or
//! has no clear pitch.

use crate::fft_processor::step;
use crate::fft_processor::FftProcessor;
use vstd::prelude::*;

verus! {

/// Number of samples handed to the estimator at a time.
pub const WINDOW: usize = 8192;

#[derive(Debug, Clone)]
pub enum Message<T> {
    Buffer(Vec<T>),
    SampleRateChanged(usize),
    SampleSelectionChanged,
}

/// Name of a pitch class, counted in semitones above C.
pub open spec fn note_name(pitch_class: nat) -> Seq<char> {
    if pitch_class == 0 {
        "C"@
    } else if pitch_class == 1 {
        "C#"@
    } else if pitch_class == 2 {
        "D"@
    } else if pitch_class == 3 {
        "D#"@
    } else if pitch_class == 4 {
        "E"@
    } else if pitch_class == 5 {
        "F"@
    } else if pitch_class == 6 {
        "F#"@
    } else if pitch_class == 7 {
        "G"@
    } else if pitch_class == 8 {
        "G#"@
    } else if pitch_class == 9 {
        "A"@
    } else if pitch_class == 10 {
        "A#"@
    } else {
        "B"@
    }
}

/// Name of the note with the given MIDI number: octaves are ignored, and
/// number 0 is a C.
pub fn midi_to_note(midi: usize) -> (note: &'static str)
    ensures
        note@ == note_name((midi % 12) as nat),
{
    let pitch_class: usize = midi % 12;
    if pitch_class == 0 {
        "C"
    } else if pitch_class == 1 {
        "C#"
    } else if pitch_class == 2 {
        "D"
    } else if pitch_class == 3 {
        "D#"
    } else if pitch_class == 4 {
        "E"
    } else if pitch_class == 5 {
        "F"
    } else if pitch_class == 6 {
        "F#"
    } else if pitch_class == 7 {
        "G"
    } else if pitch_class == 8 {
        "G#"
    } else if pitch_class == 9 {
        "A"
    } else if pitch_class == 10 {
        "A#"
    } else {
        "B"
    }
}

/// What the tuner shows for an estimate: the note's name, or nothing.
pub open spec fn shown(pitch: Option<usize>) -> Seq<char> {
    match pitch {
        Some(midi) => note_name((midi % 12) as nat),
        None => Seq::empty(),
    }
}

/// `estimate` may answer `pitch` for a slice holding `window` at `sample_rate`.
pub open spec fn estimated_by<T, F: Fn(&[T], usize) -> Option<usize>>(
    estimate: F,
    window: Seq<T>,
    sample_rate: usize,
    pitch: Option<usize>,
) -> bool {
    exists|samples: &[T]| samples@ == window && call_ensures(estimate, (samples, sample_rate), pitch)
}

pub struct Tuner<T> {
    display: String,
    sample_rate: usize,
    buffer: FftProcessor<T, WINDOW>,
}

impl<T: Copy> Tuner<T> {
    /// The text on display: a note name, or nothing.
    pub closed spec fn display(&self) -> Seq<char> {
        self.display@
    }

    /// The sample rate that estimates are made for.
    pub closed spec fn sample_rate(&self) -> usize {
        self.sample_rate
    }

    /// The samples waiting for a full window, oldest first.
    pub closed spec fn pending(&self) -> Seq<T> {
        self.buffer@
    }

    pub fn new() -> (tuner: Self)
        ensures
            tuner.display().len() == 0,
            tuner.sample_rate() == 0,
            tuner.pending().len() == 0,
    {
        Tuner { display: String::new(), sample_rate: 0, buffer: FftProcessor::new() }
    }

    /// An empty block means silence and clears the display. Any other block is
    /// collected, see `process_buffer`. A new sample rate is recorded and drops
    /// the pending samples, which were taken at the previous rate. A new
    /// selection drops the samples collected from the previous one.
    pub fn update<F: Fn(&[T], usize) -> Option<usize>>(&mut self, message: Message<T>, estimate: F)
        requires
            forall|samples: &[T], sample_rate: usize| call_requires(estimate, (samples, sample_rate)),
        ensures
            final(self).updated(*old(self), message, estimate),
    {
        match message {
            Message::Buffer(new_buffer) => {
                if new_buffer.len() == 0 {
                    self.display = String::new();
                    return ;
                }
                self.process_buffer(new_buffer.as_slice(), estimate);
            },
            Message::SampleRateChanged(sample_rate) => {
                self.sample_rate = sample_rate;
                self.buffer.reset();
            },
            Message::SampleSelectionChanged => {
                self.buffer.reset();
            },
        }
    }

    /// `self` is `before` after `message`: an empty block clears the display,
    /// any other block is collected, and a new sample rate, which is recorded,
    /// or a new selection drops the pending samples.
    pub open spec fn updated<F: Fn(&[T], usize) -> Option<usize>>(
        self,
        before: Self,
        message: Message<T>,
        estimate: F,
    ) -> bool {
        match message {
            Message::Buffer(block) => self.took_block(before, block@, estimate),
            Message::SampleRateChanged(sample_rate) => {
                &&& self.sample_rate() == sample_rate
                &&& self.display() == before.display()
                &&& self.pending().len() == 0
            },
            Message::SampleSelectionChanged => {
                &&& self.pending().len() == 0
                &&& self.display() == before.display()
                &&& self.sample_rate() == before.sample_rate()
            },
        }
    }

    /// `self` is `before` after the block `block`.
    pub open spec fn took_block<F: Fn(&[T], usize) -> Option<usize>>(
        self,
        before: Self,
        block: Seq<T>,
        estimate: F,
    ) -> bool {
        if block.len() == 0 {
            &&& self.display().len() == 0
            &&& self.pending() == before.pending()
            &&& self.sample_rate() == before.sample_rate()
        } else {
            self.collected(before, block, estimate)
        }
    }

    /// `self` is `before` after collecting `block`: the block joins the pending
    /// samples; once a full window is available it is removed and estimated,
    /// and the display shows the outcome. Without a full window the display
    /// stays as it was.
    pub open spec fn collected<F: Fn(&[T], usize) -> Option<usize>>(
        self,
        before: Self,
        block: Seq<T>,
        estimate: F,
    ) -> bool {
        let outcome = step(before.pending(), block, WINDOW as nat);
        &&& self.sample_rate() == before.sample_rate()
        &&& self.pending() == outcome.carry
        &&& match outcome.frame {
            Some(window) => exists|pitch: Option<usize>|
                estimated_by(estimate, window, before.sample_rate(), pitch) && self.display() == shown(pitch),
            None => self.display() == before.display(),
        }
    }

    pub fn process_buffer<F: Fn(&[T], usize) -> Option<usize>>(&mut self, new_buffer: &[T], estimate: F)
        requires
            forall|samples: &[T], sample_rate: usize| call_requires(estimate, (samples, sample_rate)),
        ensures
            final(self).collected(*old(self), new_buffer@, estimate),
    {
        match self.buffer.process(new_buffer) {
            Some(window) => {
                let pitch = estimate(window.as_slice(), self.sample_rate);
                assert(estimated_by(estimate, window@, self.sample_rate, pitch));
                self.display = match pitch {
                    Some(midi) => midi_to_note(midi).to_owned(),
                    None => String::new(),
                };
                assert(self.display@ =~= shown(pitch));
                assert(step(old(self).pending(), new_buffer@, WINDOW as nat).frame == Some(window@));
            },
            None => {},
        }
    }

    /// The text on display.
    pub fn text(&self) -> (text: &String)
        ensures
            text@ == self.display(),
    {
        &self.display
    }
}

} // verus!
