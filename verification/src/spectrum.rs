//! Spectrum analyzer: frames mono samples, has each frame turned into one
//! level per frequency bin, and displays the bins of the audible band.
//!
//! Turning a frame into levels (window, transform, magnitude, decibel scale)
//! is the caller's numeric kernel; which bins are shown is decided here.

use crate::fft_processor::step;
use crate::fft_processor::FftProcessor;
use vstd::prelude::*;

verus! {

/// Frame length. More samples give finer bins and slower updates.
pub const FFT_SIZE: usize = 2048;

/// Lowest displayed frequency, in hertz.
pub const MIN_FREQ: usize = 20;

/// Highest displayed frequency, in hertz.
pub const MAX_FREQ: usize = 22000;

#[derive(Debug, Clone)]
pub enum Message<T> {
    Buffer(Vec<T>),
    SampleRateChanged(usize),
}

/// Whether the centre frequency of bin `index`, `index * sample_rate /
/// FFT_SIZE` hertz, lies between `MIN_FREQ` and `MAX_FREQ`, bounds included.
pub open spec fn in_band(index: nat, sample_rate: nat) -> bool {
    MIN_FREQ * FFT_SIZE <= index * sample_rate <= MAX_FREQ * FFT_SIZE
}

/// The levels of the bins below `upto` that lie in the displayed band, in
/// order of rising frequency.
pub open spec fn band_levels<T>(levels: Seq<T>, sample_rate: nat, upto: nat) -> Seq<T>
    decreases upto,
{
    if upto == 0 {
        Seq::empty()
    } else {
        let lower = band_levels(levels, sample_rate, (upto - 1) as nat);
        if in_band((upto - 1) as nat, sample_rate) {
            lower.push(levels[upto - 1])
        } else {
            lower
        }
    }
}

/// What is displayed for the levels of one frame: only the first half of the
/// bins is looked at, the second half mirrors it.
pub open spec fn displayed<T>(levels: Seq<T>, sample_rate: nat) -> Seq<T> {
    let half = (FFT_SIZE / 2) as nat;
    band_levels(
        levels,
        sample_rate,
        if levels.len() < half {
            levels.len()
        } else {
            half
        },
    )
}

/// `analyze` may answer `levels` for a slice holding `frame`.
pub open spec fn analyzed_by<T, F: Fn(&[T]) -> Vec<T>>(analyze: F, frame: Seq<T>, levels: Seq<T>) -> bool {
    exists|samples: &[T], output: Vec<T>|
        samples@ == frame && output@ == levels && call_ensures(analyze, (samples,), output)
}

/// Exec form of `in_band`.
pub fn bin_in_band(index: usize, sample_rate: usize) -> (inside: bool)
    ensures
        inside == in_band(index as nat, sample_rate as nat),
{
    if index > 45056000 {
        assert(!in_band(index as nat, sample_rate as nat)) by (nonlinear_arith)
            requires
                index > MAX_FREQ * FFT_SIZE,
                sample_rate >= 0,
        ;
        return false;
    }
    assert(index * sample_rate <= 0xffff_ffff_ffff_ffff_ffff_ffff_ffff_ffff) by (nonlinear_arith)
        requires
            index <= 22000 * 2048,
            sample_rate <= 0xffff_ffff_ffff_ffff,
    ;
    let product: u128 = (index as u128) * (sample_rate as u128);
    let low: u128 = 40960;
    let high: u128 = 45056000;
    assert(low == MIN_FREQ * FFT_SIZE && high == MAX_FREQ * FFT_SIZE);
    low <= product && product <= high
}

pub struct Spectrum<T> {
    processor: FftProcessor<T, FFT_SIZE>,
    sample_rate: usize,
    display_buffer: Vec<T>,
}

impl<T: Copy> Spectrum<T> {
    /// The levels on display, lowest frequency first.
    pub closed spec fn view(&self) -> Seq<T> {
        self.display_buffer@
    }

    /// The sample rate that bins are mapped to frequencies with.
    pub closed spec fn sample_rate(&self) -> usize {
        self.sample_rate
    }

    /// The samples waiting for a full frame, oldest first.
    pub closed spec fn pending(&self) -> Seq<T> {
        self.processor@
    }

    pub fn new() -> (spectrum: Self)
        ensures
            spectrum@.len() == 0,
            spectrum.sample_rate() == 0,
            spectrum.pending().len() == 0,
    {
        Spectrum { processor: FftProcessor::new(), sample_rate: 0, display_buffer: Vec::new() }
    }

    /// An empty block means silence and clears the display. Any other block is
    /// framed, see `process_buffer`. A new sample rate is recorded and drops
    /// the pending samples, which were taken at the previous rate.
    pub fn update<F: Fn(&[T]) -> Vec<T>>(&mut self, message: Message<T>, analyze: F)
        requires
            forall|samples: &[T]| call_requires(analyze, (samples,)),
        ensures
            final(self).updated(*old(self), message, analyze),
    {
        match message {
            Message::Buffer(buffer) => {
                if buffer.len() == 0 {
                    self.display_buffer.clear();
                    return ;
                }
                self.process_buffer(buffer.as_slice(), analyze);
            },
            Message::SampleRateChanged(sample_rate) => {
                self.sample_rate = sample_rate;
                self.processor.reset();
            },
        }
    }

    /// `self` is `before` after `message`: an empty block clears the display,
    /// any other block is framed, and a new sample rate is recorded and drops
    /// the pending samples.
    pub open spec fn updated<F: Fn(&[T]) -> Vec<T>>(self, before: Self, message: Message<T>, analyze: F) -> bool {
        match message {
            Message::Buffer(block) => self.took_block(before, block@, analyze),
            Message::SampleRateChanged(sample_rate) => {
                &&& self.sample_rate() == sample_rate
                &&& self.pending().len() == 0
                &&& self@ == before@
            },
        }
    }

    /// `self` is `before` after the block `block`.
    pub open spec fn took_block<F: Fn(&[T]) -> Vec<T>>(self, before: Self, block: Seq<T>, analyze: F) -> bool {
        if block.len() == 0 {
            &&& self@.len() == 0
            &&& self.pending() == before.pending()
            &&& self.sample_rate() == before.sample_rate()
        } else {
            self.framed(before, block, analyze)
        }
    }

    /// `self` is `before` after framing `block`: the block joins the pending
    /// samples; once a full frame is available it is removed and analyzed, and
    /// the display is replaced by the levels of the audible band. Without a
    /// full frame the display stays as it was.
    pub open spec fn framed<F: Fn(&[T]) -> Vec<T>>(self, before: Self, block: Seq<T>, analyze: F) -> bool {
        let outcome = step(before.pending(), block, FFT_SIZE as nat);
        &&& self.sample_rate() == before.sample_rate()
        &&& self.pending() == outcome.carry
        &&& match outcome.frame {
            Some(frame) => exists|levels: Seq<T>|
                analyzed_by(analyze, frame, levels) && self@ == displayed(levels, before.sample_rate() as nat),
            None => self@ == before@,
        }
    }

    pub fn process_buffer<F: Fn(&[T]) -> Vec<T>>(&mut self, buffer: &[T], analyze: F)
        requires
            forall|samples: &[T]| call_requires(analyze, (samples,)),
        ensures
            final(self).framed(*old(self), buffer@, analyze),
    {
        match self.processor.process(buffer) {
            Some(frame) => {
                let levels = analyze(frame.as_slice());
                assert(analyzed_by(analyze, frame@, levels@));
                assert(step(old(self).pending(), buffer@, FFT_SIZE as nat).frame == Some(frame@));
                let ghost carry = self.processor@;
                self.display_buffer.clear();
                let half: usize = FFT_SIZE / 2;
                let upto: usize = if levels.len() < half {
                    levels.len()
                } else {
                    half
                };
                let mut index: usize = 0;
                while index < upto
                    invariant
                        index <= upto <= levels@.len(),
                        self.display_buffer@ == band_levels(levels@, self.sample_rate as nat, index as nat),
                        self.sample_rate == old(self).sample_rate,
                        self.processor@ == carry,
                    decreases upto - index,
                {
                    if bin_in_band(index, self.sample_rate) {
                        self.display_buffer.push(levels[index]);
                    }
                    index += 1;
                }
                assert(self@ == displayed(levels@, old(self).sample_rate() as nat));
            },
            None => {},
        }
    }

    /// The levels on display.
    pub fn levels(&self) -> (levels: &Vec<T>)
        ensures
            levels@ == self@,
    {
        &self.display_buffer
    }
}

} // verus!
