//! The analyzers as one unit: every block of the engine's tap reaches all of
//! them through the same fan-out, and so does the empty block that ends a
//! stream.

use crate::scope;
use crate::scope::Scope;
use crate::spectrum;
use crate::spectrum::Spectrum;
use crate::tuner;
use crate::tuner::Tuner;
use crate::vectorscope;
use crate::vectorscope::Vectorscope;
use crate::visualization::is_mono_of;
use crate::visualization::is_rms_of;
use crate::visualization::scope_points;
use crate::visualization::Dispatch;
use crate::visualization::Message;
use crate::visualization::Visualization;
use crate::vu_meter;
use crate::vu_meter::levels_of;
use crate::vu_meter::VuMeter;
use vstd::prelude::*;

verus! {

pub struct Analyzers<T> {
    pub vu_meter: VuMeter<T>,
    pub vectorscope: Vectorscope<T>,
    pub scope: Scope<T>,
    pub spectrum: Spectrum<T>,
    pub tuner: Tuner<T>,
}

impl<T: Copy> Analyzers<T> {
    /// Every analyzer shows silence: no level, no point, no sample, no bin,
    /// no note.
    pub open spec fn is_silent(&self) -> bool {
        &&& self.vu_meter@.len() == 0
        &&& self.vectorscope@.len() == 0
        &&& self.scope@.len() == 0
        &&& self.spectrum@.len() == 0
        &&& self.tuner.display().len() == 0
    }

    pub fn new() -> (analyzers: Self)
        ensures
            analyzers.is_silent(),
            analyzers.spectrum.pending().len() == 0,
            analyzers.spectrum.sample_rate() == 0,
            analyzers.tuner.pending().len() == 0,
            analyzers.tuner.sample_rate() == 0,
    {
        Analyzers {
            vu_meter: VuMeter::new(),
            vectorscope: Vectorscope::new(),
            scope: Scope::new(),
            spectrum: Spectrum::new(),
            tuner: Tuner::new(),
        }
    }

    /// `self` is `before` after the analyzer that `dispatch` is meant for has
    /// taken it; the others are untouched.
    pub open spec fn delivered<S: Fn(T) -> T, A: Fn(&[T]) -> Vec<T>, E: Fn(&[T], usize) -> Option<usize>>(
        self,
        before: Self,
        dispatch: Dispatch<T>,
        scale: S,
        analyze: A,
        estimate: E,
    ) -> bool {
        match dispatch {
            Dispatch::VuMeter(vu_meter::Message::Rms(rms)) => {
                &&& levels_of(scale, rms@, self.vu_meter@)
                &&& self.vectorscope == before.vectorscope
                &&& self.scope == before.scope
                &&& self.spectrum == before.spectrum
                &&& self.tuner == before.tuner
            },
            Dispatch::Vectorscope(vectorscope::Message::Points(points)) => {
                &&& self.vu_meter == before.vu_meter
                &&& self.vectorscope@ == points@
                &&& self.scope == before.scope
                &&& self.spectrum == before.spectrum
                &&& self.tuner == before.tuner
            },
            Dispatch::Scope(scope::Message::Buffer(buffer)) => {
                &&& self.vu_meter == before.vu_meter
                &&& self.vectorscope == before.vectorscope
                &&& self.scope@ == buffer@
                &&& self.spectrum == before.spectrum
                &&& self.tuner == before.tuner
            },
            Dispatch::Spectrum(message) => {
                &&& self.vu_meter == before.vu_meter
                &&& self.vectorscope == before.vectorscope
                &&& self.scope == before.scope
                &&& self.spectrum.updated(before.spectrum, message, analyze)
                &&& self.tuner == before.tuner
            },
            Dispatch::Tuner(message) => {
                &&& self.vu_meter == before.vu_meter
                &&& self.vectorscope == before.vectorscope
                &&& self.scope == before.scope
                &&& self.spectrum == before.spectrum
                &&& self.tuner.updated(before.tuner, message, estimate)
            },
        }
    }

    /// Hands one message of the fan-out to the analyzer it is meant for.
    pub fn deliver<S: Fn(T) -> T, A: Fn(&[T]) -> Vec<T>, E: Fn(&[T], usize) -> Option<usize>>(
        &mut self,
        dispatch: Dispatch<T>,
        scale: S,
        analyze: A,
        estimate: E,
    )
        requires
            forall|rms: T| call_requires(scale, (rms,)),
            forall|samples: &[T]| call_requires(analyze, (samples,)),
            forall|samples: &[T], sample_rate: usize| call_requires(estimate, (samples, sample_rate)),
        ensures
            final(self).delivered(*old(self), dispatch, scale, analyze, estimate),
    {
        match dispatch {
            Dispatch::VuMeter(message) => self.vu_meter.update(message, scale),
            Dispatch::Vectorscope(message) => self.vectorscope.update(message),
            Dispatch::Scope(message) => self.scope.update(message),
            Dispatch::Spectrum(message) => self.spectrum.update(message, analyze),
            Dispatch::Tuner(message) => self.tuner.update(message, estimate),
        }
    }

    /// `self` is `before` after every analyzer has taken its share of
    /// `message`: of a block, the meter the loudness per channel, the stereo
    /// scope the points, and scope, spectrum and tuner the same downmix; of a
    /// new sample rate, spectrum and tuner; of a new selection, the tuner.
    pub open spec fn fed<
        R: Fn(&[T]) -> T,
        M: Fn(&[T]) -> T,
        S: Fn(T) -> T,
        A: Fn(&[T]) -> Vec<T>,
        E: Fn(&[T], usize) -> Option<usize>,
    >(self, before: Self, message: Message<T>, rms_kernel: R, mean: M, scale: S, analyze: A, estimate: E) -> bool {
        match message {
            Message::AudioBuffer(channels, samples) => {
                &&& exists|rms: Seq<T>| #[trigger]
                    is_rms_of(rms_kernel, channels, samples@, rms) && levels_of(scale, rms, self.vu_meter@)
                &&& self.vectorscope@ == scope_points(channels, samples@)
                &&& exists|mono: Seq<T>| #[trigger]
                    is_mono_of(mean, channels, samples@, mono) && self.scope@ == mono && self.spectrum.took_block(
                        before.spectrum,
                        mono,
                        analyze,
                    ) && self.tuner.took_block(before.tuner, mono, estimate)
            },
            Message::SampleRateChanged(sample_rate) => {
                &&& self.vu_meter == before.vu_meter
                &&& self.vectorscope == before.vectorscope
                &&& self.scope == before.scope
                &&& self.spectrum.updated(before.spectrum, spectrum::Message::SampleRateChanged(sample_rate), analyze)
                &&& self.tuner.updated(before.tuner, tuner::Message::SampleRateChanged(sample_rate), estimate)
            },
            Message::SampleSelectionChanged => {
                &&& self.vu_meter == before.vu_meter
                &&& self.vectorscope == before.vectorscope
                &&& self.scope == before.scope
                &&& self.spectrum == before.spectrum
                &&& self.tuner.updated(before.tuner, tuner::Message::SampleSelectionChanged, estimate)
            },
        }
    }

    /// Passes one message of the engine through the fan-out to every
    /// analyzer.
    pub fn update<
        R: Fn(&[T]) -> T,
        M: Fn(&[T]) -> T,
        S: Fn(T) -> T,
        A: Fn(&[T]) -> Vec<T>,
        E: Fn(&[T], usize) -> Option<usize>,
    >(&mut self, message: Message<T>, rms_kernel: R, mean: M, scale: S, analyze: A, estimate: E)
        requires
            forall|samples: &[T]| call_requires(rms_kernel, (samples,)),
            forall|samples: &[T]| call_requires(mean, (samples,)),
            forall|rms: T| call_requires(scale, (rms,)),
            forall|samples: &[T]| call_requires(analyze, (samples,)),
            forall|samples: &[T], sample_rate: usize| call_requires(estimate, (samples, sample_rate)),
        ensures
            final(self).fed(*old(self), message, rms_kernel, mean, scale, analyze, estimate),
    {
        match message {
            Message::AudioBuffer(channels, samples) => {
                let rms = Visualization::compute_rms(channels, samples.as_slice(), rms_kernel);
                let points = Visualization::vectorscope(channels, samples.as_slice());
                let mono = Visualization::mono(channels, samples.as_slice(), mean);
                let second = crate::visualization::copied(mono.as_slice());
                let third = crate::visualization::copied(mono.as_slice());
                assert(is_rms_of(rms_kernel, channels, samples@, rms@));
                assert(is_mono_of(mean, channels, samples@, mono@));
                self.vu_meter.update(vu_meter::Message::Rms(rms), scale);
                self.vectorscope.update(vectorscope::Message::Points(points));
                self.scope.update(scope::Message::Buffer(mono));
                self.spectrum.update(spectrum::Message::Buffer(second), analyze);
                self.tuner.update(tuner::Message::Buffer(third), estimate);
            },
            Message::SampleRateChanged(sample_rate) => {
                self.spectrum.update(spectrum::Message::SampleRateChanged(sample_rate), analyze);
                self.tuner.update(tuner::Message::SampleRateChanged(sample_rate), estimate);
            },
            Message::SampleSelectionChanged => {
                self.tuner.update(tuner::Message::SampleSelectionChanged, estimate);
            },
        }
    }
}

/// End-of-stream reset: once the empty block has passed through the fan-out,
/// every analyzer shows silence, whatever it showed before and whatever the
/// numeric kernels are.
pub proof fn lemma_empty_block_silences<
    T: Copy,
    R: Fn(&[T]) -> T,
    M: Fn(&[T]) -> T,
    S: Fn(T) -> T,
    A: Fn(&[T]) -> Vec<T>,
    E: Fn(&[T], usize) -> Option<usize>,
>(
    before: Analyzers<T>,
    after: Analyzers<T>,
    channels: u16,
    samples: Vec<T>,
    rms_kernel: R,
    mean: M,
    scale: S,
    analyze: A,
    estimate: E,
)
    requires
        samples@.len() == 0,
        after.fed(before, Message::AudioBuffer(channels, samples), rms_kernel, mean, scale, analyze, estimate),
    ensures
        after.is_silent(),
        after.spectrum.pending() == before.spectrum.pending(),
        after.tuner.pending() == before.tuner.pending(),
{
}

} // verus!
