//! Stateless fan-out: what each analyzer needs is derived from one block of
//! interleaved samples.

use crate::scope;
use crate::spectrum;
use crate::tuner;
use crate::vectorscope;
use crate::vu_meter;
use vstd::prelude::*;

verus! {

#[derive(Debug, Clone)]
pub enum Message<T> {
    /// A block of interleaved samples with its channel count.
    AudioBuffer(u16, Vec<T>),
    SampleRateChanged(usize),
    SampleSelectionChanged,
}

/// A message for one analyzer.
#[derive(Debug, Clone)]
pub enum Dispatch<T> {
    VuMeter(vu_meter::Message<T>),
    Vectorscope(vectorscope::Message<T>),
    Scope(scope::Message<T>),
    Spectrum(spectrum::Message<T>),
    Tuner(tuner::Message<T>),
}

/// Number of chunks when `len` items are cut every `size` items, the last
/// chunk being shorter when `size` does not divide `len`.
pub open spec fn chunk_count(len: nat, size: nat) -> nat {
    ((len + size - 1) / (size as int)) as nat
}

/// The `index`-th chunk of `items` cut every `size` items.
pub open spec fn chunk_at<T>(items: Seq<T>, size: nat, index: int) -> Seq<T> {
    let end = if (index + 1) * size <= items.len() {
        (index + 1) * size
    } else {
        items.len() as int
    };
    items.subrange(index * size, end)
}

/// `Itertools::chunks` on the items of a slice, each chunk collected into a
/// vector: consecutive runs of `size` items, in order, the last one shorter if
/// the items run out. The outside function panics on a `size` of zero.
#[verifier::external_body]
fn chunked<T: Copy>(items: &[T], size: usize) -> (chunks: Vec<Vec<T>>)
    requires
        size > 0,
    ensures
        chunks@.len() == chunk_count(items@.len(), size as nat),
        forall|i: int| 0 <= i < chunks@.len() ==> (#[trigger] chunks@[i])@ == chunk_at(items@, size as nat, i),
{
    let chunks = itertools::Itertools::chunks(items.iter(), size);
    chunks.into_iter().map(|chunk| chunk.copied().collect()).collect()
}

/// The `index`-th whole frame of an interleaved block.
pub open spec fn frame_at<T>(samples: Seq<T>, channels: nat, index: int) -> Seq<T> {
    samples.subrange(index * channels, (index + 1) * channels)
}

/// `kernel` may answer `output` when called on a slice holding `input`.
pub open spec fn made_by<T, F: Fn(&[T]) -> T>(kernel: F, input: Seq<T>, output: T) -> bool {
    exists|frame: &[T]| frame@ == input && call_ensures(kernel, (frame,), output)
}

/// Number of samples that channel `channel` has in an interleaved block of
/// `len` samples, the samples of an incomplete last frame included.
pub open spec fn channel_len(len: nat, channels: nat, channel: nat) -> nat {
    if channel >= len {
        0
    } else {
        ((len - channel - 1) / (channels as int) + 1) as nat
    }
}

/// The samples of channel `channel` in an interleaved block, in order.
pub open spec fn channel_samples<T>(samples: Seq<T>, channels: nat, channel: nat) -> Seq<T> {
    Seq::new(channel_len(samples.len(), channels, channel), |k: int| samples[k * channels + channel])
}

/// `rms` holds the loudness of each channel of the block, as `kernel` makes it
/// of the channel's samples; an empty block, or one without channels, has none.
pub open spec fn is_rms_of<T, F: Fn(&[T]) -> T>(kernel: F, channels: u16, samples: Seq<T>, rms: Seq<T>) -> bool {
    if samples.len() == 0 || channels == 0 {
        rms.len() == 0
    } else {
        &&& rms.len() == channels
        &&& forall|c: int| 0 <= c < channels ==> made_by(
            kernel,
            channel_samples(samples, channels as nat, c as nat),
            #[trigger] rms[c],
        )
    }
}

/// The points of a block: a mono sample is its own partner, a stereo frame is
/// one point, any other layout has no points. An incomplete last frame is left
/// out.
pub open spec fn scope_points<T>(channels: u16, samples: Seq<T>) -> Seq<(T, T)> {
    if channels == 1 {
        Seq::new(samples.len(), |i: int| (samples[i], samples[i]))
    } else if channels == 2 {
        Seq::new(samples.len() / 2, |i: int| (samples[2 * i], samples[2 * i + 1]))
    } else {
        Seq::empty()
    }
}

/// Vectorscope mapping: a mono sample is paired with itself, a stereo frame
/// is one point with the left sample first, and a block of three or more
/// channels has no points.
pub proof fn lemma_scope_points<T>(a: T, l: T, r: T, channels: u16, samples: Seq<T>)
    ensures
        scope_points(1, seq![a]) == seq![(a, a)],
        scope_points(2, seq![l, r]) == seq![(l, r)],
        channels >= 3 ==> scope_points(channels, samples) == Seq::<(T, T)>::empty(),
        scope_points(1, samples).len() == samples.len(),
        scope_points(2, samples).len() == samples.len() / 2,
{
    assert(scope_points(1, seq![a]) =~= seq![(a, a)]);
    assert(scope_points(2, seq![l, r]) =~= seq![(l, r)]);
}

/// `mono` is the downmix of the block: the block itself when it is mono, else
/// one value per whole frame, as `mean` makes it of the frame's samples.
pub open spec fn is_mono_of<T, F: Fn(&[T]) -> T>(mean: F, channels: u16, samples: Seq<T>, mono: Seq<T>) -> bool {
    if channels == 1 {
        mono == samples
    } else if channels == 0 {
        mono.len() == 0
    } else {
        &&& mono.len() == samples.len() / (channels as nat)
        &&& forall|i: int| 0 <= i < mono.len() ==> made_by(
            mean,
            frame_at(samples, channels as nat, i),
            #[trigger] mono[i],
        )
    }
}

/// A copy of the items of a slice.
pub fn copied<T: Copy>(items: &[T]) -> (copy: Vec<T>)
    ensures
        copy@ == items@,
{
    let mut copy: Vec<T> = Vec::with_capacity(items.len());
    let mut index: usize = 0;
    while index < items.len()
        invariant
            index <= items.len(),
            copy@ == items@.subrange(0, index as int),
        decreases items.len() - index,
    {
        copy.push(items[index]);
        index += 1;
    }
    assert(items@.subrange(0, index as int) =~= items@);
    copy
}

/// `out` is what the analyzers are sent for `message`, in order: for a block,
/// loudness to the meter, points to the stereo scope, and the same downmix to
/// scope, spectrum and tuner; a new sample rate goes to spectrum and tuner; a
/// new selection goes to the tuner.
pub open spec fn fanned_out<T, R: Fn(&[T]) -> T, M: Fn(&[T]) -> T>(
    message: Message<T>,
    rms_kernel: R,
    mean: M,
    out: Seq<Dispatch<T>>,
) -> bool {
    match message {
        Message::AudioBuffer(channels, samples) => {
            &&& out.len() == 5
            &&& out[0] matches Dispatch::VuMeter(vu_meter::Message::Rms(rms)) && is_rms_of(
                rms_kernel,
                channels,
                samples@,
                rms@,
            )
            &&& out[1] matches Dispatch::Vectorscope(vectorscope::Message::Points(points)) && points@
                == scope_points(channels, samples@)
            &&& out[2] matches Dispatch::Scope(scope::Message::Buffer(mono)) && (is_mono_of(
                mean,
                channels,
                samples@,
                mono@,
            ) && (out[3] matches Dispatch::Spectrum(spectrum::Message::Buffer(second)) && (second@ == mono@
                && (out[4] matches Dispatch::Tuner(tuner::Message::Buffer(third)) && third@ == mono@))))
        },
        Message::SampleRateChanged(sample_rate) => {
            &&& out.len() == 2
            &&& out[0] == Dispatch::<T>::Spectrum(spectrum::Message::SampleRateChanged(sample_rate))
            &&& out[1] == Dispatch::<T>::Tuner(tuner::Message::SampleRateChanged(sample_rate))
        },
        Message::SampleSelectionChanged => {
            &&& out.len() == 1
            &&& out[0] == Dispatch::<T>::Tuner(tuner::Message::SampleSelectionChanged)
        },
    }
}

pub struct Visualization {}

impl Visualization {
    pub fn new() -> (visualization: Self) {
        Visualization {  }
    }

    /// Derives from one message what each analyzer is to receive.
    pub fn update<T: Copy, R: Fn(&[T]) -> T, M: Fn(&[T]) -> T>(
        &mut self,
        message: Message<T>,
        rms_kernel: R,
        mean: M,
    ) -> (out: Vec<Dispatch<T>>)
        requires
            forall|samples: &[T]| call_requires(rms_kernel, (samples,)),
            forall|samples: &[T]| call_requires(mean, (samples,)),
        ensures
            fanned_out(message, rms_kernel, mean, out@),
    {
        let mut out: Vec<Dispatch<T>> = Vec::new();
        match message {
            Message::AudioBuffer(channels, samples) => {
                let rms = Self::compute_rms(channels, samples.as_slice(), rms_kernel);
                let points = Self::vectorscope(channels, samples.as_slice());
                let mono = Self::mono(channels, samples.as_slice(), mean);
                let second = copied(mono.as_slice());
                let third = copied(mono.as_slice());
                out.push(Dispatch::VuMeter(vu_meter::Message::Rms(rms)));
                out.push(Dispatch::Vectorscope(vectorscope::Message::Points(points)));
                out.push(Dispatch::Scope(scope::Message::Buffer(mono)));
                out.push(Dispatch::Spectrum(spectrum::Message::Buffer(second)));
                out.push(Dispatch::Tuner(tuner::Message::Buffer(third)));
            },
            Message::SampleRateChanged(sample_rate) => {
                out.push(Dispatch::Spectrum(spectrum::Message::SampleRateChanged(sample_rate)));
                out.push(Dispatch::Tuner(tuner::Message::SampleRateChanged(sample_rate)));
            },
            Message::SampleSelectionChanged => {
                out.push(Dispatch::Tuner(tuner::Message::SampleSelectionChanged));
            },
        }
        out
    }

    /// Mono downmix: a mono block passes through unchanged; otherwise each whole
    /// frame is replaced by what `mean` makes of its samples.
    pub fn mono<T: Copy, F: Fn(&[T]) -> T>(channels: u16, samples: &[T], mean: F) -> (result: Vec<T>)
        requires
            forall|frame: &[T]| call_requires(mean, (frame,)),
        ensures
            is_mono_of(mean, channels, samples@, result@),
    {
        if channels == 1 {
            return copied(samples);
        }
        let mut result: Vec<T> = Vec::new();
        if channels == 0 {
            return result;
        }
        let width: usize = channels as usize;
        let frame_count: usize = samples.len() / width;
        let chunks = chunked(samples, width);
        let mut index: usize = 0;
        while index < frame_count
            invariant
                width == channels,
                width > 1,
                frame_count == samples@.len() / (width as nat),
                index <= frame_count,
                chunks@.len() == chunk_count(samples@.len(), width as nat),
                forall|i: int| 0 <= i < chunks@.len() ==> (#[trigger] chunks@[i])@ == chunk_at(samples@, width as nat, i),
                forall|frame: &[T]| call_requires(mean, (frame,)),
                result@.len() == index,
                forall|i: int| 0 <= i < index ==> made_by(
                    mean,
                    frame_at(samples@, width as nat, i),
                    #[trigger] result@[i],
                ),
            decreases frame_count - index,
        {
            assert((index + 1) * width <= samples@.len() && index < chunk_count(samples@.len(), width as nat)) by (nonlinear_arith)
                requires
                    index < frame_count,
                    frame_count == samples@.len() / (width as nat),
                    width > 1,
            ;
            let frame = chunks[index].as_slice();
            assert(frame@ == frame_at(samples@, width as nat, index as int));
            let value = mean(frame);
            assert(made_by(mean, frame_at(samples@, width as nat, index as int), value));
            result.push(value);
            index += 1;
        }
        result
    }

    /// Loudness per channel: the block is split by channel, and `kernel` makes
    /// one value of each channel's samples.
    pub fn compute_rms<T: Copy, F: Fn(&[T]) -> T>(channels: u16, buffer: &[T], kernel: F) -> (rms: Vec<T>)
        requires
            forall|samples: &[T]| call_requires(kernel, (samples,)),
        ensures
            is_rms_of(kernel, channels, buffer@, rms@),
    {
        let mut rms: Vec<T> = Vec::new();
        if buffer.len() == 0 || channels == 0 {
            return rms;
        }
        let width: usize = channels as usize;
        let mut channel: usize = 0;
        while channel < width
            invariant
                width == channels,
                width > 0,
                channel <= width,
                buffer@.len() > 0,
                forall|samples: &[T]| call_requires(kernel, (samples,)),
                rms@.len() == channel,
                forall|c: int| 0 <= c < channel ==> made_by(
                    kernel,
                    channel_samples(buffer@, width as nat, c as nat),
                    #[trigger] rms@[c],
                ),
            decreases width - channel,
        {
            let count: usize = if channel >= buffer.len() {
                0
            } else {
                (buffer.len() - channel - 1) / width + 1
            };
            let mut gathered: Vec<T> = Vec::with_capacity(count);
            let mut k: usize = 0;
            while k < count
                invariant
                    width > 0,
                    channel < width,
                    k <= count,
                    count == channel_len(buffer@.len(), width as nat, channel as nat),
                    buffer@.len() == buffer.len(),
                    gathered@ == Seq::new(k as nat, |j: int| buffer@[j * width + channel]),
                decreases count - k,
            {
                assert(k * width + channel < buffer@.len()) by (nonlinear_arith)
                    requires
                        k < count,
                        channel < buffer@.len(),
                        count == (buffer@.len() - channel - 1) / (width as int) + 1,
                        width > 0,
                ;
                gathered.push(buffer[k * width + channel]);
                k += 1;
                assert(gathered@ =~= Seq::new(k as nat, |j: int| buffer@[j * width + channel]));
            }
            let value = kernel(gathered.as_slice());
            assert(made_by(kernel, channel_samples(buffer@, width as nat, channel as nat), value));
            rms.push(value);
            channel += 1;
        }
        rms
    }

    /// Points for the stereo scope, see `scope_points`.
    pub fn vectorscope<T: Copy>(channels: u16, samples: &[T]) -> (points: Vec<(T, T)>)
        ensures
            points@ == scope_points(channels, samples@),
    {
        let mut points: Vec<(T, T)> = Vec::new();
        if channels == 1 {
            let mut index: usize = 0;
            while index < samples.len()
                invariant
                    index <= samples.len(),
                    points@ == Seq::new(index as nat, |i: int| (samples@[i], samples@[i])),
                decreases samples.len() - index,
            {
                points.push((samples[index], samples[index]));
                index += 1;
                assert(points@ =~= Seq::new(index as nat, |i: int| (samples@[i], samples@[i])));
            }
        } else if channels == 2 {
            let count: usize = samples.len() / 2;
            let mut index: usize = 0;
            while index < count
                invariant
                    index <= count,
                    count == samples@.len() / 2,
                    samples@.len() == samples.len(),
                    points@ == Seq::new(index as nat, |i: int| (samples@[2 * i], samples@[2 * i + 1])),
                decreases count - index,
            {
                points.push((samples[2 * index], samples[2 * index + 1]));
                index += 1;
                assert(points@ =~= Seq::new(index as nat, |i: int| (samples@[2 * i], samples@[2 * i + 1])));
            }
        }
        assert(points@ =~= scope_points(channels, samples@));
        points
    }
}

} // verus!
